//! Text functions, held against those of the standard library.

use phantom_screen_server::decimal::{is_i32_chars, parse_u16_chars, parse_u32_chars, push_decimal};
use phantom_screen_server::text::{
    chars_of, contains_chars, first_word_of, lines_of, replace_char_in, same_text, split_text,
    string_of, text_from_utf8, trim_chars, trim_start_char_of,
};

const SAMPLES: [&str; 16] = [
    "",
    "x",
    "a,b",
    ",",
    ",,a,,",
    "one\ntwo\r\nthree",
    "\n",
    "\r\n\r\n",
    "tail\n",
    "cr\rmiddle\r",
    "  padded\t",
    "\u{a0}é\u{3000}",
    "a\u{2028}b c",
    "::x:",
    "日本,語",
    "12 ab 34",
];

#[test]
fn splitting_agrees_with_std() {
    for s in SAMPLES {
        assert_eq!(split_text(s, ','), s.split(',').collect::<Vec<_>>(), "{s:?}");
        assert_eq!(lines_of(s), s.lines().collect::<Vec<_>>(), "{s:?}");
    }
}

#[test]
fn trimming_agrees_with_std() {
    for s in SAMPLES {
        let chars = chars_of(s);
        assert_eq!(string_of(trim_chars(&chars)), s.trim(), "{s:?}");
        assert_eq!(
            first_word_of(&chars).map(string_of).as_deref(),
            s.split_whitespace().next(),
            "{s:?}"
        );
        assert_eq!(trim_start_char_of(s, ':'), s.trim_start_matches(':'), "{s:?}");
        assert_eq!(replace_char_in(s, ',', "<>"), s.replace(',', "<>"), "{s:?}");
    }
}

#[test]
fn white_space_is_that_of_std() {
    for c in '\0'..=char::MAX {
        assert_eq!(trim_chars(&[c]).is_empty(), c.is_whitespace(), "{c:?}");
    }
}

#[test]
fn searching_agrees_with_std() {
    for s in SAMPLES {
        for t in SAMPLES {
            assert_eq!(contains_chars(&chars_of(s), &chars_of(t)), s.contains(t), "{s:?} {t:?}");
            assert_eq!(same_text(s, t), s == t);
        }
    }
}

#[test]
fn numbers_agree_with_std() {
    let samples = [
        "", "+", "-", "0", "-0", "+0", "007", "65535", "65536", "4294967295", "4294967296",
        "2147483647", "2147483648", "-2147483648", "-2147483649", "1 ", "１", "+-1", "99999999999",
    ];
    for s in samples {
        let chars = chars_of(s);
        assert_eq!(parse_u32_chars(&chars), s.parse::<u32>().ok(), "{s:?}");
        assert_eq!(parse_u16_chars(&chars), s.parse::<u16>().ok(), "{s:?}");
        assert_eq!(is_i32_chars(&chars), s.parse::<i32>().is_ok(), "{s:?}");
    }
    for n in [0, 7, 10, 99, 100, 65535, 4294967295] {
        let mut text = String::from("n=");
        push_decimal(&mut text, n);
        assert_eq!(text, format!("n={n}"));
    }
}

#[test]
fn utf8_agrees_with_std() {
    let samples: [&[u8]; 6] =
        [b"", b"abc", "é日".as_bytes(), &[0xC3], &[0xED, 0xA0, 0x80], &[0xF4, 0x90, 0x80, 0x80]];
    for bytes in samples {
        assert_eq!(text_from_utf8(bytes).as_deref(), std::str::from_utf8(bytes).ok());
    }
}
