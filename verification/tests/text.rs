use p2p_local::text::{is_white_space, parse_decimal, remove_char, same_text, split_text, trim_text};

#[test]
fn split_on_separator() {
    assert_eq!(split_text("a --b --c", " --"), vec!["a", "b", "c"]);
    assert_eq!(split_text("", "="), vec![""]);
    assert_eq!(split_text("=", "="), vec!["", ""]);
    assert_eq!(split_text("k=v=w", "="), vec!["k", "v", "w"]);
    assert_eq!(split_text(" -- --", " --"), vec!["", "", ""]);
    assert_eq!(split_text("é=ü", "="), vec!["é", "ü"]);
}

#[test]
fn compare_texts() {
    assert!(same_text("./peer", "./peer"));
    assert!(!same_text("./peer", "./pear"));
    assert!(!same_text("./peer", "./peers"));
}

#[test]
fn decimal_numbers() {
    assert_eq!(parse_decimal("5050", 65535), Some(5050));
    assert_eq!(parse_decimal("007", 65535), Some(7));
    assert_eq!(parse_decimal("+7", 65535), Some(7));
    assert_eq!(parse_decimal("+", 65535), None);
    assert_eq!(parse_decimal("", 65535), None);
    assert_eq!(parse_decimal("-7", 65535), None);
    assert_eq!(parse_decimal("65536", 65535), None);
    assert_eq!(parse_decimal("6553x", 65535), None);
    assert_eq!(parse_decimal("99999999999999999999x", u64::MAX), None);
    assert_eq!(parse_decimal("18446744073709551615", u64::MAX), Some(u64::MAX));
    assert_eq!(parse_decimal("18446744073709551616", u64::MAX), None);
}

#[test]
fn drop_quotes() {
    assert_eq!(remove_char("\"127.0.0.1:5000\"", '"'), "127.0.0.1:5000");
    assert_eq!(remove_char("a\"b\"\"c", '"'), "abc");
    assert_eq!(remove_char("", '"'), "");
}

#[test]
fn trim_white_space() {
    assert_eq!(trim_text("  x y \t\n"), "x y");
    assert_eq!(trim_text("\u{a0}x\u{3000}"), "x");
    assert_eq!(trim_text(" \n "), "");
    assert_eq!(trim_text("x"), "x");
}

#[test]
fn white_space_as_std_has_it() {
    for code in 0u32..=0x10FFFF {
        if let Some(c) = char::from_u32(code) {
            assert_eq!(is_white_space(c), c.is_whitespace(), "U+{:04X}", code);
        }
    }
}
