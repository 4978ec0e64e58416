use orb8::order::ascending_order;
use orb8::text::{
    contains_text, cut_before, cut_behind, find_char, has_prefix, has_suffix, join, parse_unsigned,
    push_decimal, push_padded_left, push_padded_right, same_text, split_lines, split_words, trim,
    trim_suffixes,
};
use orb8::time::{clock_subsec_nanos, Duration};

#[test]
fn numbers_are_written_and_read_back() {
    for n in [0u64, 9, 10, 99, 100, 12_345, u64::MAX] {
        let mut text = String::new();
        push_decimal(&mut text, n as u128);
        assert_eq!(text, n.to_string());
        assert_eq!(parse_unsigned(&text, u64::MAX), Some(n));
        if n > 0 {
            assert_eq!(parse_unsigned(&text, n - 1), None);
        }
    }
    let mut text = "n=".to_string();
    push_decimal(&mut text, u128::MAX);
    assert_eq!(text, format!("n={}", u128::MAX));
}

#[test]
fn texts_are_trimmed_and_split_as_std_does() {
    for text in [
        "",
        "  ",
        " a b\tc \n",
        "\u{a0}x\u{3000}y\u{2003}",
        "one\r\ntwo\n\nthree\r",
        "\n",
        "a\rb\r\n",
        "\u{85}a\u{1680}\u{200b}",
    ] {
        assert_eq!(trim(text), text.trim(), "{:?}", text);
        assert_eq!(split_words(text), text.split_whitespace().collect::<Vec<&str>>(), "{:?}", text);
        assert_eq!(split_lines(text), text.lines().collect::<Vec<&str>>(), "{:?}", text);
    }
}

#[test]
fn ends_are_found_and_removed() {
    assert!(has_prefix("br-1", "br-"));
    assert!(!has_prefix("br", "br-"));
    assert!(has_suffix("30ms", "ms"));
    assert!(!has_suffix("30m", "ms"));
    assert_eq!(trim_suffixes("1msms", "ms"), "1");
    assert_eq!(trim_suffixes("1sm", "ms"), "1sm");
    assert_eq!(trim_suffixes("sss", "s"), "");
    assert_eq!(find_char("a.b.c", '.'), 1);
    assert_eq!(find_char("abc", '.'), 3);
    assert_eq!(cut_before("a.b.c", '.'), "a");
    assert_eq!(cut_before("abc", '.'), "abc");
    assert_eq!(cut_behind("a.b.c", '.'), Some("b.c"));
    assert_eq!(cut_behind("abc", '.'), None);
    assert_eq!(cut_behind("abc.", '.'), Some(""));
}

#[test]
fn columns_are_padded() {
    let mut text = String::new();
    push_padded_right(&mut text, "ab", 4);
    push_padded_left(&mut text, "\u{e9}", 3);
    push_padded_left(&mut text, "wide", 2);
    assert_eq!(text, "ab    \u{e9}wide");
}

#[test]
fn lists_are_joined_and_searched() {
    let list = vec!["a".to_string(), "b".to_string(), "c".to_string()];
    assert_eq!(join(&list, ", "), "a, b, c");
    assert_eq!(join(&vec![], ", "), "");
    assert!(contains_text(&list, "b"));
    assert!(!contains_text(&list, "d"));
    assert!(same_text("abc", "abc"));
    assert!(!same_text("abc", "abd"));
}

#[test]
fn positions_are_put_in_ascending_order() {
    assert_eq!(ascending_order(&vec![3, 1, 2, 1]), vec![1, 3, 2, 0]);
    assert_eq!(ascending_order(&vec![]), Vec::<usize>::new());
    let keys: Vec<u128> = (0..500u128).map(|i| (i * 7_919) % 101).collect();
    let mut expected: Vec<usize> = (0..500).collect();
    expected.sort_by_key(|i| keys[*i]);
    assert_eq!(ascending_order(&keys), expected);
}

#[test]
fn spans_are_shown_as_std_does() {
    for nanos in [
        0u64,
        1,
        999,
        1_000,
        1_500,
        999_999,
        1_000_000,
        100_000_000,
        1_000_000_000,
        1_500_000_000,
        30_000_000_000,
        1_000_000_001,
        123_456_789_012,
    ] {
        let span = Duration { nanos: nanos as u128 };
        assert_eq!(span.describe(), format!("{:?}", std::time::Duration::from_nanos(nanos)));
    }
    assert_eq!(Duration::from_secs(u64::MAX).describe(), "18446744073709551615s");
    assert_eq!(Duration::from_millis(1_234).as_millis(), 1_234);
}

#[test]
fn the_wall_clock_is_read() {
    for _ in 0..100 {
        assert!(clock_subsec_nanos() < 1_000_000_000);
    }
}
