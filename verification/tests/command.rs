use fpwm::command::{parse_number, Command};
use fpwm::config::Config;

fn chars(s: &str) -> Vec<char> {
    s.chars().collect()
}

#[test]
fn parse_number_reads_decimal_digits() {
    assert_eq!(parse_number(&chars("0")), Some(0));
    assert_eq!(parse_number(&chars("7")), Some(7));
    assert_eq!(parse_number(&chars("42")), Some(42));
    assert_eq!(parse_number(&chars("007")), Some(7));
    assert_eq!(parse_number(&chars(&usize::MAX.to_string())), Some(usize::MAX));
}

#[test]
fn parse_number_refuses_anything_else() {
    for s in ["", "+1", "-1", "1a", "a1", " 1", "1 ", "1.0", "\u{661}"] {
        assert_eq!(parse_number(&chars(s)), None, "{:?}", s);
    }
    let mut big = usize::MAX.to_string();
    assert_eq!(parse_number(&chars(&format!("{}0", big))), None);
    let last = big.pop().unwrap();
    big.push(((last as u8) + 1) as char);
    assert_eq!(parse_number(&chars(&big)), None);
}

#[test]
fn decode_exit() {
    let config = Config::default();
    assert!(matches!(Command::decode(&config, "exit"), Command::Exit));
    assert!(matches!(Command::decode(&config, "  exit now "), Command::Exit));
    assert!(matches!(Command::decode(&config, "Exit"), Command::Nothing));
}

#[test]
fn decode_exec_splits_program_and_arguments() {
    let config = Config::default();
    match Command::decode(&config, "exec rofi -show  drun") {
        Command::Exec { program, args } => {
            assert_eq!(program, "rofi");
            assert_eq!(args, vec!["-show".to_string(), "drun".to_string()]);
        }
        other => panic!("{:?}", other),
    }
    match Command::decode(&config, "exec term") {
        Command::Exec { program, args } => {
            assert_eq!(program, "term");
            assert!(args.is_empty());
        }
        other => panic!("{:?}", other),
    }
    assert!(matches!(Command::decode(&config, "exec"), Command::Nothing));
}

#[test]
fn decode_workspace_and_move() {
    let config = Config::parse("set two 2\nset bad x\n").unwrap();
    assert!(matches!(Command::decode(&config, "ws 3"), Command::Workspace(3)));
    assert!(matches!(Command::decode(&config, "workspace 4"), Command::Workspace(4)));
    assert!(matches!(Command::decode(&config, "workspace $two"), Command::Workspace(2)));
    assert!(matches!(Command::decode(&config, "ws $two"), Command::Workspace(2)));
    assert!(matches!(Command::decode(&config, "move 5"), Command::Move(5)));
    assert!(matches!(Command::decode(&config, "move $two"), Command::Move(2)));
}

#[test]
fn unusable_workspace_is_ignored() {
    let config = Config::parse("set two 2\nset bad x\n").unwrap();
    for text in ["ws", "ws x", "ws 0", "ws -1", "ws $bad", "ws $unset", "move", "move 0", "move $unset", "workspace 99999999999999999999999999"] {
        assert!(matches!(Command::decode(&config, text), Command::Nothing), "{:?}", text);
    }
}

#[test]
fn unknown_command_is_nothing() {
    let config = Config::default();
    for text in ["", "   ", "launch x", "exits"] {
        assert!(matches!(Command::decode(&config, text), Command::Nothing), "{:?}", text);
    }
}
