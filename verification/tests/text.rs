use pdd::text::{is_whitespace, parse_u64, same, split_once, trim};

#[test]
fn same_compares_characters() {
    assert!(same("", ""));
    assert!(same("count", "count"));
    assert!(!same("count", "coant"));
    assert!(!same("c", "count"));
    assert!(!same("count", "c"));
    assert!(same("gr\u{fc}n", "gr\u{fc}n"));
    assert!(!same("gr\u{fc}n", "grun"));
}

#[test]
fn split_once_cuts_at_the_first_match() {
    assert_eq!(split_once("if=boot.img", '='), Some(("if", "boot.img")));
    assert_eq!(split_once("a=b=c", '='), Some(("a", "b=c")));
    assert_eq!(split_once("=b", '='), Some(("", "b")));
    assert_eq!(split_once("a=", '='), Some(("a", "")));
    assert_eq!(split_once("=", '='), Some(("", "")));
    assert_eq!(split_once("abc", '='), None);
    assert_eq!(split_once("", '='), None);
    assert_eq!(split_once("\u{e4}\u{20ac}:\u{1f600}", ':'), Some(("\u{e4}\u{20ac}", "\u{1f600}")));
}

#[test]
fn split_once_agrees_with_the_standard_library() {
    for text in ["", "=", "==", "a=b", "a:b=c", "no sign", "\u{20ac}=\u{20ac}=", "x=\u{1f600}"] {
        for sign in ['=', ':', ';', '\u{20ac}'] {
            assert_eq!(split_once(text, sign), text.split_once(sign));
        }
    }
}

#[test]
fn white_space_is_that_of_unicode() {
    let mut code: u32 = 0;
    while code <= 0x10ffff {
        if let Some(c) = char::from_u32(code) {
            assert_eq!(is_whitespace(c), c.is_whitespace());
        }
        code += 1;
    }
}

#[test]
fn trim_drops_white_space_at_both_ends() {
    assert_eq!(trim("  if "), "if");
    assert_eq!(trim("a b"), "a b");
    assert_eq!(trim(" a b\t\n"), "a b");
    assert_eq!(trim(""), "");
    assert_eq!(trim(" \t\r\n"), "");
    assert_eq!(trim("\u{a0}\u{2003}x\u{3000}"), "x");
    assert_eq!(trim("\u{200b}x"), "\u{200b}x");
}

#[test]
fn trim_agrees_with_the_standard_library() {
    for text in ["", " ", "x", " x", "x ", "  x  y  ", "\u{85}\u{1680}\u{e4} \u{2028}", "\u{feff}x "] {
        assert_eq!(trim(text), text.trim());
    }
}

#[test]
fn parse_u64_reads_decimal_numbers() {
    assert_eq!(parse_u64("0"), Some(0));
    assert_eq!(parse_u64("1024"), Some(1024));
    assert_eq!(parse_u64("+17"), Some(17));
    assert_eq!(parse_u64("000"), Some(0));
    assert_eq!(parse_u64("18446744073709551615"), Some(u64::MAX));
    assert_eq!(parse_u64("18446744073709551616"), None);
    assert_eq!(parse_u64("99999999999999999999999"), None);
    assert_eq!(parse_u64(""), None);
    assert_eq!(parse_u64("+"), None);
    assert_eq!(parse_u64("++1"), None);
    assert_eq!(parse_u64("-1"), None);
    assert_eq!(parse_u64("1+"), None);
    assert_eq!(parse_u64(" 1"), None);
    assert_eq!(parse_u64("1_000"), None);
    assert_eq!(parse_u64("\u{661}"), None);
}

#[test]
fn parse_u64_agrees_with_the_standard_library() {
    for text in [
        "", "+", "-", "0", "+0", "-0", "7", "+7", "007", "12a", "a12", "1 2", "4294967296",
        "18446744073709551615", "18446744073709551616", "184467440737095516150", "\u{ff11}",
    ] {
        assert_eq!(parse_u64(text), text.parse::<u64>().ok());
    }
}
