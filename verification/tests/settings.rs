use openshmem::settings::{configured_heap_size, parse_usize};

#[test]
fn numbers_are_read_like_unsigned_decimals() {
    assert_eq!(parse_usize("0"), Some(0));
    assert_eq!(parse_usize("0042"), Some(42));
    assert_eq!(parse_usize("+7"), Some(7));
    for text in ["", "+", "-1", "1 ", " 1", "1_000", "0x10", "++1", "+-1", "12a", "\u{0663}"] {
        assert_eq!(parse_usize(text), None, "{}", text);
    }
}

#[test]
fn numbers_agree_with_the_standard_parser() {
    let max = format!("{}", usize::MAX);
    let over = format!("{}0", usize::MAX);
    let next = format!("{}", usize::MAX as u128 + 1);
    for text in ["1", "+1", "-0", "00", "9", "10", "1+", max.as_str(), over.as_str(), next.as_str()] {
        assert_eq!(parse_usize(text), text.parse::<usize>().ok(), "{}", text);
    }
    assert_eq!(parse_usize(&max), Some(usize::MAX));
    assert_eq!(parse_usize(&next), None);
}

#[test]
fn unreadable_heap_sizes_fall_back_to_the_default() {
    assert_eq!(configured_heap_size(None), 64 * 1024 * 1024);
    assert_eq!(configured_heap_size(Some("")), 64 * 1024 * 1024);
    assert_eq!(configured_heap_size(Some("1G")), 64 * 1024 * 1024);
    assert_eq!(configured_heap_size(Some("4096")), 4096);
    assert_eq!(configured_heap_size(Some("0")), 0);
}
