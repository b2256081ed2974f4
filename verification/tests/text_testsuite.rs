use fallegji::text::{
    chars_of, decimal_string, find_char, last_piece_start, parse_u32, sort_texts, split_trimmed, string_of, texts_in_order,
    trim_bounds,
};

#[test]
fn trimming_uses_unicode_white_space() {
    let v = chars_of("\u{3000} \t ab c\u{85}\n");
    let (a, b) = trim_bounds(&v, 0, v.len());
    assert_eq!(string_of(&v, a, b), "ab c");
    let v = chars_of("   ");
    let (a, b) = trim_bounds(&v, 0, v.len());
    assert_eq!(a, b);
}

#[test]
fn splitting_and_trimming() {
    assert_eq!(split_trimmed(" 1.2.3.4:5 , 6.7.8.9:10", ','), vec!["1.2.3.4:5", "6.7.8.9:10"]);
    assert_eq!(split_trimmed("", ','), vec![""]);
    assert_eq!(split_trimmed("a,,b,", ','), vec!["a", "", "b", ""]);
}

#[test]
fn numbers() {
    let v = chars_of("+0042");
    assert_eq!(parse_u32(&v, 0, v.len()), Some(42));
    let v = chars_of("4294967295");
    assert_eq!(parse_u32(&v, 0, v.len()), Some(u32::MAX));
    for bad in ["", "+", "-1", "4294967296", "12a", " 1"] {
        let v = chars_of(bad);
        assert_eq!(parse_u32(&v, 0, v.len()), None, "{}", bad);
        assert_eq!(bad.parse::<u32>().ok(), None);
    }
    assert_eq!(decimal_string(0), "0");
    assert_eq!(decimal_string(907), "907");
}

#[test]
fn searching() {
    let v = chars_of("a[b]c]");
    assert_eq!(find_char(&v, 0, v.len(), ']'), Some(3));
    assert_eq!(find_char(&v, 4, v.len(), ']'), Some(5));
    assert_eq!(find_char(&v, 0, v.len(), 'z'), None);
    let sep = chars_of(" @ ");
    let v = chars_of("a @ b @ c");
    assert_eq!(string_of(&v, last_piece_start(&v, 0, v.len(), &sep), v.len()), "c");
    // Occurrences are found left to right without overlap, as `split` finds them.
    let v = chars_of(" @ @ ");
    assert_eq!(string_of(&v, last_piece_start(&v, 0, v.len(), &sep), v.len()), "@ ");
    assert_eq!(" @ @ ".split(" @ ").last(), Some("@ "));
}

#[test]
fn ordering_texts() {
    let sorted = sort_texts(vec!["b".to_string(), "ä".to_string(), "a".to_string(), "ab".to_string(), "B".to_string()]);
    let mut expected = vec!["b", "ä", "a", "ab", "B"];
    expected.sort();
    assert_eq!(sorted, expected);
    assert!(texts_in_order(&"a".to_string(), &"ab".to_string()));
    assert!(!texts_in_order(&"b".to_string(), &"ab".to_string()));
}
