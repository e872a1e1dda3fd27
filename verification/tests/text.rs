use qbz_qt::page_cache::{CachedPage, PageLru, MAX_RESIDENT_ROWS};
use qbz_qt::selection::{add_interval, remove_interval};
use qbz_qt::text::{chars_lt, chars_of, parse_u64};

#[test]
fn parsing_follows_the_u64_literal_rules() {
    assert_eq!(parse_u64("42"), Some(42));
    assert_eq!(parse_u64("+7"), Some(7));
    assert_eq!(parse_u64("007"), Some(7));
    assert_eq!(parse_u64("18446744073709551615"), Some(u64::MAX));
    assert_eq!(parse_u64("18446744073709551616"), None);
    assert_eq!(parse_u64(""), None);
    assert_eq!(parse_u64("+"), None);
    assert_eq!(parse_u64("-1"), None);
    assert_eq!(parse_u64("4 2"), None);
}

#[test]
fn text_order_is_the_code_point_order() {
    let a = chars_of("abc");
    let b = chars_of("abd");
    let p = chars_of("ab");
    assert!(chars_lt(&a, &b));
    assert!(!chars_lt(&b, &a));
    assert!(chars_lt(&p, &a));
    assert!(!chars_lt(&a, &a));
}

#[test]
fn intervals_merge_and_split() {
    let mut r: Vec<(u64, u64)> = Vec::new();
    add_interval(&mut r, 5, 9);
    add_interval(&mut r, 10, 12);
    assert_eq!(r, vec![(5, 12)]);
    remove_interval(&mut r, 7, 8);
    assert_eq!(r, vec![(5, 6), (9, 12)]);
    add_interval(&mut r, 0, 100);
    assert_eq!(r, vec![(0, 100)]);
}

#[test]
fn album_page_cache_is_bounded_by_resident_album_rows() {
    let mut cache: PageLru<u32> = PageLru::new();
    for page in 0..25usize {
        cache.insert(page, CachedPage { wire: page as u32, rows: 100 });
    }
    assert_eq!(cache.resident, MAX_RESIDENT_ROWS);
    assert_eq!(cache.entries.len(), 20);
    assert_eq!(cache.evictions, 5);
    assert!(cache.get(0).is_none());
    assert!(cache.get(24).is_some());
}
