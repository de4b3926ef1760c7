use catalog_report::text::{append_decimal, ordinal_str_le, same_text};

#[test]
fn ordinal_order_compares_code_points() {
    assert!(ordinal_str_le("", ""));
    assert!(ordinal_str_le("", "a"));
    assert!(!ordinal_str_le("a", ""));
    assert!(ordinal_str_le("Alien", "Alien"));
    assert!(ordinal_str_le("Alien", "Aliens"));
    assert!(!ordinal_str_le("Aliens", "Alien"));
    assert!(ordinal_str_le("Zebra", "apple"));
    assert!(!ordinal_str_le("apple", "Zebra"));
    assert!(ordinal_str_le("zoo", "\u{e9}clair"));
    assert!(ordinal_str_le("\u{e9}", "\u{1f3ac}"));
    assert!(!ordinal_str_le("\u{1f3ac}", "\u{ffff}"));
}

#[test]
fn ordinal_order_agrees_with_byte_order() {
    let samples = ["", "a", "A", "ab", "b", "Z", "\u{e9}", "\u{7ff}", "\u{800}", "\u{ffff}", "\u{10000}", "a\u{e9}", "a\u{1f3ac}"];
    for a in samples {
        for b in samples {
            assert_eq!(ordinal_str_le(a, b), a <= b);
            assert_eq!(same_text(a, b), a == b);
        }
    }
}

#[test]
fn decimal_writes_numbers_without_leading_zeros() {
    for (n, text) in [(0usize, "0"), (7, "7"), (10, "10"), (109, "109"), (65536, "65536")] {
        let mut out = String::from("row ");
        append_decimal(&mut out, n);
        assert_eq!(out, format!("row {}", text));
    }
    let mut out = String::new();
    append_decimal(&mut out, usize::MAX);
    assert_eq!(out, usize::MAX.to_string());
}
