use fpwm::config::Config;
use fpwm::error::{Error, ParseFault};

fn parse_fault(text: &str) -> Option<Error> {
    Config::parse(text).err()
}

#[test]
fn empty_text_is_an_empty_configuration() {
    let config = Config::parse("").unwrap();
    assert_eq!(config.keybinds().len(), 0);
    assert_eq!(config.get_var("$anything"), Err(ParseFault::InvalidVariable));
}

#[test]
fn bind_line_resolves_on_key_press() {
    let config = Config::parse("bind mod1+d exec rofi -show drun\n").unwrap();
    assert_eq!(config.keybinds().len(), 1);
    assert_eq!(config.keybinds()[0].key, "d");
    assert_eq!(config.keybinds()[0].modifiers, 0x08);
    assert_eq!(config.keybinds()[0].command, "exec rofi -show drun");
    assert_eq!(config.resolve("d", 0x08), Some("exec rofi -show drun".to_string()));
    assert_eq!(config.resolve("d", 0x08 | 0x01), Some("exec rofi -show drun".to_string()));
    assert_eq!(config.resolve("d", 0x01), None);
    assert_eq!(config.resolve("d", 0), None);
    assert_eq!(config.resolve("e", 0x08), None);
}

#[test]
fn first_matching_keybind_wins() {
    let config = Config::parse("bind d exit\nbind shift+d exec a\n").unwrap();
    assert_eq!(config.resolve("d", 0x01), Some("exit".to_string()));
    let config = Config::parse("bind shift+d exec a\nbind d exit\n").unwrap();
    assert_eq!(config.resolve("d", 0x01), Some("exec a".to_string()));
    assert_eq!(config.resolve("d", 0), Some("exit".to_string()));
}

#[test]
fn reference_gives_the_latest_value() {
    let config = Config::parse("set a 1\nset b 2\nset a 3\n").unwrap();
    assert_eq!(config.get_var("$a"), Ok("3".to_string()));
    assert_eq!(config.get_var("$b"), Ok("2".to_string()));
    assert_eq!(config.get_var("a"), Ok("a".to_string()));
    assert_eq!(config.get_var(""), Ok("".to_string()));
    assert_eq!(config.get_var("$c"), Err(ParseFault::InvalidVariable));
    assert_eq!(config.get_var("$"), Err(ParseFault::InvalidVariable));
}

#[test]
fn set_resolves_a_referenced_value() {
    let config = Config::parse("set mod mod4\nset main $mod\nset mod mod1\n").unwrap();
    assert_eq!(config.get_var("$main"), Ok("mod4".to_string()));
    assert_eq!(config.get_var("$mod"), Ok("mod1".to_string()));
}

#[test]
fn unset_reference_fails_parsing() {
    assert_eq!(
        parse_fault("set a $b\n"),
        Some(Error::ConfigParseError { line: 1, fault: ParseFault::InvalidVariable })
    );
    assert_eq!(
        parse_fault("set a 1\nbind $mod+d exit\n"),
        Some(Error::ConfigParseError { line: 2, fault: ParseFault::InvalidVariable })
    );
}

#[test]
fn trigger_pieces_resolve_through_variables() {
    let config = Config::parse("set mod Mod4\nset key Return\nbind $mod+$key exec term\n").unwrap();
    assert_eq!(config.keybinds()[0].key, "Return");
    assert_eq!(config.keybinds()[0].modifiers, 0x40);
}

#[test]
fn duplicate_keybind_is_refused_whatever_the_command() {
    assert_eq!(
        parse_fault("bind mod1+d exec a\nbind mod1+d exec b\n"),
        Some(Error::ConfigParseError { line: 2, fault: ParseFault::DuplicateKeybind })
    );
    assert_eq!(
        parse_fault("bind mod1+shift+d exec a\n\nbind SHIFT+alt+D exit\n"),
        Some(Error::ConfigParseError { line: 3, fault: ParseFault::DuplicateKeybind })
    );
}

#[test]
fn same_key_with_other_modifiers_is_accepted() {
    let config = Config::parse("bind mod1+d exec a\nbind mod1+shift+d exec a\nbind d exec a\n").unwrap();
    assert_eq!(config.keybinds().len(), 3);
    assert_eq!(config.keybinds()[0].modifiers, 0x08);
    assert_eq!(config.keybinds()[1].modifiers, 0x09);
    assert_eq!(config.keybinds()[2].modifiers, 0);
}

#[test]
fn blank_lines_and_comments_keep_the_line_count() {
    let text = "# a comment\n\n   \t\n  # indented comment\nset a 1\n#bind\nfrobnicate now\n";
    assert_eq!(
        parse_fault(text),
        Some(Error::ConfigParseError { line: 7, fault: ParseFault::InvalidCommand })
    );
}

#[test]
fn parsing_stops_at_the_first_error() {
    assert_eq!(
        parse_fault("set\nbind\nnope\n"),
        Some(Error::ConfigParseError { line: 1, fault: ParseFault::SetArguments })
    );
}

#[test]
fn carriage_returns_and_wide_spaces_separate_words() {
    let config = Config::parse("set a 1\r\nbind\u{3000}mod1+d\u{a0}exec\t\tterm   -e\r\n").unwrap();
    assert_eq!(config.get_var("$a"), Ok("1".to_string()));
    assert_eq!(config.keybinds()[0].command, "exec term -e");
}

#[test]
fn set_needs_a_name_and_a_value() {
    for text in ["set", "set a", "set a b c"] {
        assert_eq!(
            parse_fault(text),
            Some(Error::ConfigParseError { line: 1, fault: ParseFault::SetArguments })
        );
    }
}

#[test]
fn bind_needs_a_trigger_and_a_command() {
    for text in ["bind", "bind mod1+d"] {
        assert_eq!(
            parse_fault(text),
            Some(Error::ConfigParseError { line: 1, fault: ParseFault::BindArguments })
        );
    }
}

#[test]
fn bare_exec_is_refused() {
    assert_eq!(
        parse_fault("bind mod1+d exec"),
        Some(Error::ConfigParseError { line: 1, fault: ParseFault::MissingProgram })
    );
    assert!(Config::parse("bind mod1+d exec x").is_ok());
    assert!(Config::parse("bind mod1+d exit").is_ok());
}

#[test]
fn invalid_trigger_comes_before_bare_exec_and_duplicates() {
    assert_eq!(
        parse_fault("bind mod1 exec"),
        Some(Error::ConfigParseError { line: 1, fault: ParseFault::InvalidKeybindSpec })
    );
}

#[test]
fn verify_bind_accepts_one_main_key_and_modifiers() {
    let config = Config::default();
    assert_eq!(config.verify_bind("d"), Ok(("d".to_string(), 0)));
    assert_eq!(config.verify_bind("D"), Ok(("d".to_string(), 0)));
    assert_eq!(config.verify_bind("1"), Ok(("1".to_string(), 0)));
    assert_eq!(config.verify_bind("mod1+d"), Ok(("d".to_string(), 0x08)));
    assert_eq!(config.verify_bind("d+mod1"), Ok(("d".to_string(), 0x08)));
    assert_eq!(config.verify_bind("alt+d"), Ok(("d".to_string(), 0x08)));
    assert_eq!(config.verify_bind("mod2+d"), Ok(("d".to_string(), 0x10)));
    assert_eq!(config.verify_bind("mod3+d"), Ok(("d".to_string(), 0x20)));
    assert_eq!(config.verify_bind("mod4+d"), Ok(("d".to_string(), 0x40)));
    assert_eq!(config.verify_bind("mod5+d"), Ok(("d".to_string(), 0x80)));
    assert_eq!(config.verify_bind("shift+d"), Ok(("d".to_string(), 0x01)));
    assert_eq!(config.verify_bind("ctrl+d"), Ok(("d".to_string(), 0x04)));
    assert_eq!(config.verify_bind("control+d"), Ok(("d".to_string(), 0x04)));
    assert_eq!(config.verify_bind("Ctrl+SHIFT+Mod4+x"), Ok(("x".to_string(), 0x45)));
    assert_eq!(config.verify_bind("shift+shift+x"), Ok(("x".to_string(), 0x01)));
}

#[test]
fn verify_bind_knows_the_named_keys() {
    let config = Config::default();
    assert_eq!(config.verify_bind("mod1+Escape"), Ok(("Escape".to_string(), 0x08)));
    assert_eq!(config.verify_bind("ESCAPE"), Ok(("Escape".to_string(), 0)));
    assert_eq!(config.verify_bind("enter"), Ok(("Return".to_string(), 0)));
    assert_eq!(config.verify_bind("shift+Return"), Ok(("Return".to_string(), 0x01)));
}

#[test]
fn verify_bind_refuses_anything_else() {
    let config = Config::default();
    for spec in ["", "mod1", "mod1+shift", "a+b", "d+escape", "escape+return", "mod1+", "+d", "mod1++d", "mod6+d", "super+d", "tab", "\u{e9}", "\u{1}", "\u{212a}"] {
        assert_eq!(config.verify_bind(spec), Err(ParseFault::InvalidKeybindSpec), "{:?}", spec);
    }
    assert_eq!(config.verify_bind("$mod+d"), Err(ParseFault::InvalidVariable));
    assert_eq!(config.verify_bind("a+b+$mod"), Err(ParseFault::InvalidVariable));
}

#[test]
fn configure_line_leaves_the_configuration_alone_on_error() {
    let mut config = Config::default();
    assert_eq!(config.configure_line("set a 1"), Ok(()));
    assert_eq!(config.configure_line("bind mod1+a exit"), Ok(()));
    assert_eq!(config.configure_line("bind mod1+a exec x"), Err(ParseFault::DuplicateKeybind));
    assert_eq!(config.configure_line("set a $zz"), Err(ParseFault::InvalidVariable));
    assert_eq!(config.configure_line("SET a 2"), Err(ParseFault::InvalidCommand));
    assert_eq!(config.configure_line("   "), Ok(()));
    assert_eq!(config.configure_line("#set a 9"), Ok(()));
    assert_eq!(config.get_var("$a"), Ok("1".to_string()));
    assert_eq!(config.keybinds().len(), 1);
    assert_eq!(config.keybinds()[0].command, "exit");
}

#[test]
fn a_name_may_start_with_a_dollar() {
    let config = Config::parse("set $x 5\n").unwrap();
    assert_eq!(config.get_var("$$x"), Ok("5".to_string()));
    assert_eq!(config.get_var("$x"), Err(ParseFault::InvalidVariable));
}
