use boop_server::text::{chars_of, split_chars, spells, to_upper, upper_chars};

fn pieces(text: &str) -> Vec<String> {
    split_chars(&text.chars().collect(), ' ')
}

#[test]
fn splitting_keeps_empty_pieces() {
    assert_eq!(pieces("a b"), vec!["a", "b"]);
    assert_eq!(pieces(""), vec![""]);
    assert_eq!(pieces(" "), vec!["", ""]);
    assert_eq!(pieces("a  b"), vec!["a", "", "b"]);
    assert_eq!(pieces(" a "), vec!["", "a", ""]);
    assert_eq!(pieces("abc"), vec!["abc"]);
    assert_eq!(pieces("BOOP  "), vec!["BOOP", "", ""]);
}

#[test]
fn pieces_joined_give_the_text_back() {
    for text in ["", " ", "a b c", "  x  ", "CONNECT foo bar", "\u{e9}t\u{e9} \u{4e16}\u{754c}"] {
        assert_eq!(pieces(text).join(" "), text);
    }
}

#[test]
fn splitting_at_another_separator() {
    let chars: Vec<char> = "a,b c,".chars().collect();
    assert_eq!(split_chars(&chars, ','), vec!["a", "b c", ""]);
}

#[test]
fn characters_come_in_order() {
    assert_eq!(chars_of("h\u{e9}j"), vec!['h', '\u{e9}', 'j']);
    assert_eq!(chars_of(""), Vec::<char>::new());
}

#[test]
fn upper_case_folds_ascii_letters_only() {
    assert_eq!(to_upper('a'), 'A');
    assert_eq!(to_upper('z'), 'Z');
    assert_eq!(to_upper('A'), 'A');
    assert_eq!(to_upper('`'), '`');
    assert_eq!(to_upper('{'), '{');
    assert_eq!(to_upper('1'), '1');
    assert_eq!(to_upper('\u{e4}'), '\u{e4}');
    assert_eq!(upper_chars("coNnECt_9\u{df}"), "CONNECT_9\u{df}".chars().collect::<Vec<char>>());
}

#[test]
fn spelling_is_exact() {
    let word: Vec<char> = "PING".chars().collect();
    assert!(spells(&word, "PING"));
    assert!(!spells(&word, "PIN"));
    assert!(!spells(&word, "PINGS"));
    assert!(!spells(&word, "PONG"));
    assert!(!spells(&word, "ping"));
    assert!(!spells(&word, ""));
    assert!(spells(&Vec::new(), ""));
}
