use openshell_inspect::text::{
    chars_of, decimal_text, eq_ignore_ascii_case, is_white_space, joined, position, same_text,
    split_chars, trim,
};

#[test]
fn white_space_agrees_with_std() {
    for c in '\0'..=char::MAX {
        assert_eq!(is_white_space(c), c.is_whitespace(), "{c:?}");
    }
}

#[test]
fn trimming_agrees_with_std() {
    for s in ["", " ", "a", " a", "a ", "\t a b \r\n", "\u{a0}\u{3000}x\u{85}", "\u{200b}y"] {
        assert_eq!(trim(s), s.trim(), "{s:?}");
        assert_eq!(trim(trim(s)), trim(s));
    }
}

#[test]
fn decimals_agree_with_std() {
    for n in [0, 1, 9, 10, 99, 100, 65536, usize::MAX] {
        assert_eq!(decimal_text(n), n.to_string());
    }
}

#[test]
fn ascii_case_is_ignored() {
    for (a, b) in [("Accept", "aCCEPT"), ("k", "\u{212a}"), ("a", "ab"), ("[", "{"), ("é", "É")] {
        assert_eq!(
            eq_ignore_ascii_case(&chars_of(a), b),
            a.eq_ignore_ascii_case(b),
            "{a:?} {b:?}"
        );
    }
}

#[test]
fn splitting_agrees_with_std() {
    for s in ["", ",", "a", "a,b", ",a,,b,", "é,ü"] {
        let pieces: Vec<String> =
            split_chars(&chars_of(s), ',').iter().map(|p| p.iter().collect()).collect();
        let expected: Vec<&str> = s.split(',').collect();
        assert_eq!(pieces, expected);
    }
    assert_eq!(position(&chars_of("ab;c;"), ';'), 2);
    assert_eq!(position(&chars_of("abc"), ';'), 3);
}

#[test]
fn texts_are_joined_and_compared() {
    assert_eq!(joined("a", "é"), "aé");
    assert!(same_text("né", "né"));
    assert!(!same_text("né", "ne"));
    assert!(!same_text("n", "ne"));
}
