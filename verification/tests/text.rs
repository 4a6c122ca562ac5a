use limitcut::number::{decimal, decimal_signed, padded, parse_u32, parse_u64};
use limitcut::text::{
    chars_of, contains, ends_with, is_control, is_whitespace, join, same_text, split_on,
    starts_with, text_from, trim,
};

#[test]
fn character_classes_are_those_of_std() {
    for c in (0..=0x10ffffu32).filter_map(char::from_u32) {
        assert_eq!(is_whitespace(c), c.is_whitespace(), "{c:?}");
        assert_eq!(is_control(c), c.is_control(), "{c:?}");
    }
}

const TEXTS: [&str; 14] = [
    "",
    " ",
    "a",
    " a ",
    "a b",
    "\u{a0}a\u{3000}",
    "\u{200b}a",
    "::",
    "a:b",
    ":a::b:",
    "aaa",
    "aabaa",
    "\u{e9}\u{1F600}:\u{e9}",
    "\r\n\t x \u{85}",
];

#[test]
fn trimming_is_that_of_std() {
    for s in TEXTS {
        assert_eq!(trim(s), s.trim());
        assert_eq!(trim(&trim(s)), trim(s));
    }
}

#[test]
fn splitting_is_that_of_std_and_joining_undoes_it() {
    for s in TEXTS {
        for sep in [':', 'a', ' '] {
            let parts = split_on(s, sep);
            assert_eq!(parts, s.split(sep).collect::<Vec<_>>());
            assert_eq!(join(&parts, &sep.to_string()), s);
        }
    }
    let parts: Vec<String> = ["x", "", "y z"].iter().map(|s| s.to_string()).collect();
    assert_eq!(split_on(&join(&parts, ":"), ':'), parts);
    assert_eq!(join(&Vec::new(), ","), "");
}

#[test]
fn searching_is_that_of_std() {
    for s in TEXTS {
        for pat in TEXTS {
            assert_eq!(contains(s, pat), s.contains(pat));
            assert_eq!(starts_with(s, pat), s.starts_with(pat));
            assert_eq!(ends_with(s, pat), s.ends_with(pat));
            assert_eq!(same_text(s, pat), s == pat);
        }
    }
}

#[test]
fn characters_of_a_text() {
    let cs = chars_of("a\u{e9}\u{1F600}");
    assert_eq!(cs, ['a', '\u{e9}', '\u{1F600}']);
    assert_eq!(text_from(&cs, 1, 3), "\u{e9}\u{1F600}");
    assert_eq!(text_from(&cs, 1, 1), "");
}

#[test]
fn numbers_are_written_as_std_does() {
    for n in [0u128, 1, 9, 10, 99, 100, 4294967295, u64::MAX as u128, u128::MAX] {
        assert_eq!(decimal(n), n.to_string());
    }
    for n in [0i128, -1, 10, -64, i128::MAX, i128::MIN + 1] {
        assert_eq!(decimal_signed(n), n.to_string());
    }
    assert_eq!(padded(7, 3), "007");
    assert_eq!(padded(1234, 3), "234");
    assert_eq!(padded(5, 0), "");
}

#[test]
fn numbers_are_read_as_std_does() {
    for s in [
        "", "+", "-", "0", "00", "+0", "-0", "7", "+7", "++7", "4294967295", "4294967296",
        "18446744073709551615", "18446744073709551616", "99999999999999999999999", " 1", "1 ",
        "1a", "\u{661}", "1_000", "0x1",
    ] {
        assert_eq!(parse_u32(s), s.parse::<u32>().ok(), "{s:?}");
        assert_eq!(parse_u64(s), s.parse::<u64>().ok(), "{s:?}");
    }
    for n in [0u64, 5, 10, 4294967295, u64::MAX] {
        assert_eq!(parse_u64(&decimal(n as u128)), Some(n));
    }
}
