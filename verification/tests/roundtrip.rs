use fpwm::config::Config;
use fpwm::error::{Error, ParseFault};

fn same_keybinds(a: &Config, b: &Config) -> bool {
    a.keybinds().len() == b.keybinds().len()
        && a.keybinds().iter().zip(b.keybinds().iter()).all(|(x, y)| {
            x.key == y.key && x.modifiers == y.modifiers && x.command == y.command
        })
}

#[test]
fn serialize_writes_variables_then_keybinds() {
    let text = "# my keys\nset mod mod4\n\nset term xterm\nbind $mod+Return   exec $term -e\nbind mod1+SHIFT+d exec rofi -show drun\nset mod mod1\nbind escape exit\nbind ctrl+mod5+mod3+mod2+$mod+7 ws 7\n";
    let config = Config::parse(text).unwrap();
    assert_eq!(
        config.serialize(),
        "set mod mod1\nset term xterm\nbind mod4+Return exec $term -e\nbind shift+mod1+d exec rofi -show drun\nbind Escape exit\nbind ctrl+mod1+mod2+mod3+mod5+7 ws 7\n"
    );
}

#[test]
fn serialize_of_an_empty_configuration_is_empty() {
    assert_eq!(Config::default().serialize(), "");
    assert_eq!(Config::parse("# nothing\n\n").unwrap().serialize(), "");
}

#[test]
fn parse_serialize_parse_gives_the_same_configuration() {
    let text = "set mod mod4\nset term xterm\nset n 3\nbind $mod+Return exec $term -e\nbind mod1+shift+d exec rofi -show drun\nbind Escape exit\nbind $mod+# move $n\nbind $mod+$n ws $n\nset mod shift\n";
    let first = Config::parse(text).unwrap();
    let second = Config::parse(&first.serialize()).unwrap();
    assert!(same_keybinds(&first, &second));
    for name in ["$mod", "$term", "$n", "$unset"] {
        assert_eq!(first.get_var(name), second.get_var(name));
    }
    assert_eq!(second.get_var("$mod"), Ok("shift".to_string()));
    assert_eq!(first.serialize(), second.serialize());
}

#[test]
fn a_keybind_on_plus_cannot_be_written_back() {
    let config = Config::parse("set plus +\nbind $plus exit\n").unwrap();
    assert_eq!(config.keybinds()[0].key, "+");
    let text = config.serialize();
    assert_eq!(text, "set plus +\nbind + exit\n");
    assert_eq!(
        Config::parse(&text).err(),
        Some(Error::ConfigParseError { line: 2, fault: ParseFault::InvalidKeybindSpec })
    );
}
