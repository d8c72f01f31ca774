use fpwm::text::{
    chars_of, is_whitespace, lower_of, push_decimal, same_chars, slice_of, split_fields,
    split_words, string_of, to_lower,
};

fn chars(s: &str) -> Vec<char> {
    s.chars().collect()
}

fn strings(vs: Vec<Vec<char>>) -> Vec<String> {
    vs.into_iter().map(|v| v.into_iter().collect()).collect()
}

#[test]
fn is_whitespace_is_the_unicode_property() {
    for n in 0..=0x10FFFFu32 {
        if let Some(c) = char::from_u32(n) {
            assert_eq!(is_whitespace(c), c.is_whitespace(), "U+{:04X}", n);
        }
    }
}

#[test]
fn to_lower_folds_ascii_letters_only() {
    for n in 0..=0x10FFFFu32 {
        if let Some(c) = char::from_u32(n) {
            assert_eq!(to_lower(c), c.to_ascii_lowercase(), "U+{:04X}", n);
        }
    }
    assert_eq!(to_lower('A'), 'a');
    assert_eq!(to_lower('Z'), 'z');
    assert_eq!(to_lower('@'), '@');
    assert_eq!(to_lower('['), '[');
    assert_eq!(to_lower('\u{c9}'), '\u{c9}');
}

#[test]
fn chars_of_gives_the_characters() {
    assert_eq!(chars_of(""), Vec::<char>::new());
    assert_eq!(chars_of("a\u{e9}\u{1f600}z"), vec!['a', '\u{e9}', '\u{1f600}', 'z']);
}

#[test]
fn string_of_and_slice_of_copy_a_range() {
    let v = chars("hello world");
    assert_eq!(string_of(&v, 0, 5), "hello");
    assert_eq!(string_of(&v, 6, 11), "world");
    assert_eq!(string_of(&v, 3, 3), "");
    assert_eq!(slice_of(&v, 4, 7), vec!['o', ' ', 'w']);
    assert_eq!(slice_of(&v, 11, 11), Vec::<char>::new());
}

#[test]
fn split_words_is_split_whitespace() {
    for s in [
        "",
        " ",
        "a",
        " a ",
        "set a 1",
        "  bind\tmod1+d   exec  rofi -show drun \r",
        "\u{3000}wide\u{a0}spaces\u{2003}here\u{85}",
        "no-space",
        "\n\nx\ny\n",
    ] {
        let expected: Vec<String> = s.split_whitespace().map(|w| w.to_string()).collect();
        assert_eq!(strings(split_words(&chars(s))), expected, "{:?}", s);
    }
}

#[test]
fn split_fields_is_split_on_a_character() {
    for s in ["", "+", "a", "a+b", "+a", "a+", "a++b", "mod1+shift+d", "+++"] {
        let expected: Vec<String> = s.split('+').map(|w| w.to_string()).collect();
        assert_eq!(strings(split_fields(&chars(s), '+')), expected, "{:?}", s);
    }
    assert_eq!(strings(split_fields(&chars("a\nb\n"), '\n')), vec!["a", "b", ""]);
}

#[test]
fn same_chars_compares_with_a_string() {
    assert!(same_chars(&chars("bind"), "bind"));
    assert!(same_chars(&chars(""), ""));
    assert!(!same_chars(&chars("bind"), "bin"));
    assert!(!same_chars(&chars("bin"), "bind"));
    assert!(!same_chars(&chars("bind"), "bond"));
    assert!(!same_chars(&chars("Bind"), "bind"));
}

#[test]
fn lower_of_folds_every_character() {
    assert_eq!(lower_of(&chars("Mod1+SHIFT+\u{c9}z")), chars("mod1+shift+\u{c9}z"));
    assert_eq!(lower_of(&chars("")), chars(""));
}

#[test]
fn push_decimal_appends_the_digits() {
    for n in [0usize, 1, 9, 10, 11, 99, 100, 101, 12345, 1000000, usize::MAX] {
        let mut s = String::from("line ");
        push_decimal(&mut s, n);
        assert_eq!(s, format!("line {}", n));
    }
}
