use fpwm::config::Config;
use fpwm::error::{Error, ParseFault};
use fpwm::logger::{Log, LogVariant, Logger};
use fpwm::paths::{get_config_file, get_global_config_path, get_local_config_path, get_log_path, load_config};

struct Lines(Vec<String>);

impl Logger for Lines {
    fn log(&mut self, log: &Log) {
        self.0.push(log.line());
    }
}

#[test]
fn log_new_keeps_its_parts() {
    let log = Log::new(LogVariant::Warn, "careful");
    assert_eq!(log.variant, LogVariant::Warn);
    assert_eq!(log.message, "careful");
}

#[test]
fn log_line_is_tagged_by_level() {
    assert_eq!(Log::new(LogVariant::Notif, "up").line(), "[INFO]: up\n");
    assert_eq!(Log::new(LogVariant::Warn, "hm").line(), "[WARNING]: hm\n");
    assert_eq!(Log::new(LogVariant::Error, "no").line(), "[ERROR]: no\n");
    assert_eq!(Log::new(LogVariant::Error, "").line(), "[ERROR]: \n");
}

#[test]
fn a_logger_takes_entries() {
    let mut sink = Lines(Vec::new());
    sink.log(&Log::started());
    sink.log(&Log::failure(&Error::AlreadyRunning));
    assert_eq!(
        sink.0,
        vec![
            "[INFO]: FPWM Successfully Started!\n".to_string(),
            "[ERROR]: Failed to ascend fpwm, is another window manager already running?\n".to_string(),
        ]
    );
}

#[test]
fn error_messages() {
    assert_eq!(Error::ConnectionFailed.message(), "Failed to connect to X server, is it running?");
    assert_eq!(
        Error::AlreadyRunning.message(),
        "Failed to ascend fpwm, is another window manager already running?"
    );
    assert_eq!(
        Error::ConfigNotFound.message(),
        "Failed to find valid configuration file, run \"fpwm --generate\" to generate the default configuration at /etc/fpwm/fpwm.conf"
    );
    assert_eq!(
        Error::ConfigParseError { line: 12, fault: ParseFault::InvalidKeybindSpec }.message(),
        "Invalid Keybind on line 12"
    );
    assert_eq!(
        Error::ConfigParseError { line: 7, fault: ParseFault::DuplicateKeybind }.message(),
        "Key combination already bound on line 7"
    );
    assert_eq!(
        Error::ConfigParseError { line: 100, fault: ParseFault::InvalidVariable }.message(),
        "Invalid variable on line 100"
    );
    assert_eq!(
        Error::ConfigParseError { line: 0, fault: ParseFault::InvalidCommand }.message(),
        "Invalid Command on line 0"
    );
    assert_eq!(
        Error::ConfigParseError { line: usize::MAX, fault: ParseFault::SetArguments }.message(),
        format!("Invalid argument count (requires 2) on line {}", usize::MAX)
    );
    assert_eq!(ParseFault::BindArguments.message(), "Invalid argument count (requires >=2)");
    assert_eq!(ParseFault::MissingProgram.message(), "Invalid argument count");
}

#[test]
fn failure_log_carries_the_error_text() {
    let log = Log::failure(&Error::ConfigParseError { line: 3, fault: ParseFault::InvalidVariable });
    assert_eq!(log.variant, LogVariant::Error);
    assert_eq!(log.message, "Invalid variable on line 3");
}

#[test]
fn local_config_path_prefers_xdg_config_home() {
    assert_eq!(get_local_config_path(Some("/x"), Some("/home/u")), Some("/x".to_string()));
    assert_eq!(get_local_config_path(Some("/x"), None), Some("/x".to_string()));
    assert_eq!(get_local_config_path(None, Some("/home/u")), Some("/home/u/.config".to_string()));
    assert_eq!(get_local_config_path(None, None), None);
}

#[test]
fn global_config_path_defaults_to_etc() {
    assert_eq!(get_global_config_path(Some("/opt/cfg")), "/opt/cfg");
    assert_eq!(get_global_config_path(None), "/etc");
}

#[test]
fn config_file_candidates_in_order() {
    assert_eq!(
        get_config_file(Some("/x"), Some("/home/u"), Some("/g")),
        vec!["/x/fpwm/fpwm.conf".to_string(), "/g/fpwm/fpwm.conf".to_string()]
    );
    assert_eq!(
        get_config_file(None, Some("/home/u"), None),
        vec!["/home/u/.config/fpwm/fpwm.conf".to_string(), "/etc/fpwm/fpwm.conf".to_string()]
    );
    assert_eq!(get_config_file(None, None, None), vec!["/etc/fpwm/fpwm.conf".to_string()]);
}

#[test]
fn log_path_is_below_home() {
    assert_eq!(get_log_path("/home/u"), "/home/u/.fpwm/fpwm.log");
}

#[test]
fn load_config_without_a_file_fails() {
    assert_eq!(load_config(&vec![]).err(), Some(Error::ConfigNotFound));
    assert_eq!(load_config(&vec![None]).err(), Some(Error::ConfigNotFound));
    assert_eq!(load_config(&vec![None, None]).err(), Some(Error::ConfigNotFound));
}

#[test]
fn load_config_takes_the_first_file_that_exists() {
    let user = Some("set a user\n".to_string());
    let system = Some("set a system\n".to_string());
    let config: Config = load_config(&vec![user.clone(), system.clone()]).unwrap();
    assert_eq!(config.get_var("$a"), Ok("user".to_string()));
    let config = load_config(&vec![None, system.clone()]).unwrap();
    assert_eq!(config.get_var("$a"), Ok("system".to_string()));
    let config = load_config(&vec![user, None]).unwrap();
    assert_eq!(config.get_var("$a"), Ok("user".to_string()));
}

#[test]
fn load_config_does_not_fall_back_from_a_malformed_file() {
    assert_eq!(
        load_config(&vec![Some("set a 1\nbind a\n".to_string()), Some("set a 2\n".to_string())]).err(),
        Some(Error::ConfigParseError { line: 2, fault: ParseFault::BindArguments })
    );
    assert_eq!(load_config(&vec![Some(String::new())]).unwrap().keybinds().len(), 0);
}
