use runix_update::text::{
    is_white_space, parse_u32, push_decimal, push_dotted, same_text, split_on, split_once,
    split_words, starts_with, trim, trim_end_char,
};

#[test]
fn white_space_is_that_of_unicode() {
    for n in 0..=0x10ffffu32 {
        if let Some(c) = char::from_u32(n) {
            assert_eq!(is_white_space(c), c.is_whitespace(), "{n:x}");
        }
    }
}

#[test]
fn numbers_read_as_the_standard_library_reads_them() {
    for s in [
        "", "0", "7", "007", "+7", "+", "-7", "-0", "++7", "7+", " 7", "7 ", "4294967295",
        "4294967296", "99999999999999999999", "00000000000004294967295", "7.0", "x", "1_0", "\u{661}",
    ] {
        assert_eq!(parse_u32(s), s.parse::<u32>().ok(), "{s:?}");
    }
}

#[test]
fn numbers_are_written_in_decimal() {
    for n in [0, 7, 10, 99, 100, 4294967295, u64::MAX] {
        let mut out = String::from("n=");
        push_decimal(&mut out, n);
        assert_eq!(out, format!("n={n}"));
    }
    let mut out = String::new();
    push_dotted(&mut out, 26, 0, 10);
    assert_eq!(out, "26.0.10");
}

#[test]
fn splitting_agrees_with_the_standard_library() {
    for s in ["", ".", "a", "a.b", ".a..b.", "\u{e9}.\u{20ac}", "7.0.12"] {
        let expected: Vec<String> = s.split('.').map(String::from).collect();
        assert_eq!(split_on(s, '.'), expected, "{s:?}");
    }
    for s in ["", " ", "a", " a  b\tc\n", "\u{a0}x\u{2003}y", "one"] {
        let expected: Vec<String> = s.split_whitespace().map(String::from).collect();
        assert_eq!(split_words(s), expected, "{s:?}");
    }
    for s in ["", "=", "a", "a=b", "a=b=c", "=b", "a="] {
        assert_eq!(split_once(s, '='), s.split_once('='), "{s:?}");
    }
}

#[test]
fn trimming_agrees_with_the_standard_library() {
    for s in ["", " ", " a ", "a", "\n\ta b\u{3000}", "\u{85}"] {
        assert_eq!(trim(s), s.trim(), "{s:?}");
    }
    for s in ["", "/", "a/", "a//", "/a", "a/b"] {
        assert_eq!(trim_end_char(s, '/'), s.trim_end_matches('/'), "{s:?}");
    }
}

#[test]
fn comparisons_agree_with_the_standard_library() {
    for (a, b) in [("", ""), ("a", ""), ("", "a"), ("ab", "a"), ("ab", "ab"), ("ab", "ac")] {
        assert_eq!(same_text(a, b), a == b);
        assert_eq!(starts_with(a, b), a.starts_with(b));
    }
}
