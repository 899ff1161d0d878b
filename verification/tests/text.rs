use rmd_editor::geometry::{Coord, Selection};
use rmd_editor::text::{
    chars_of,
    contains_str,
    decimal_digits,
    grouped,
    join_lines,
    shorten_path,
    str_equal,
    str_less,
    string_of,
    to_ascii_lowercase,
};

#[test]
fn shortening_keeps_the_tail_and_never_exceeds_the_limit() {
    assert_eq!(shorten_path("abcdef", 1), "\u{2026}");
    assert_eq!(shorten_path("abcdef", 0), "\u{2026}");
    assert_eq!(shorten_path("\u{e9}t\u{e9}s", 3), "\u{2026}\u{e9}s");
    for max in 0..8 {
        let short = shorten_path("abcdef", max);
        assert!(short.chars().count() <= max.max(1));
    }
}

#[test]
fn large_counts_group_every_three_digits() {
    assert_eq!(grouped(1000), "1,000");
    assert_eq!(grouped(100_000), "100,000");
    assert_eq!(grouped(usize::MAX).replace(',', ""), usize::MAX.to_string());
    assert_eq!(decimal_digits(305), vec!['3', '0', '5']);
}

#[test]
fn text_helpers_work_character_by_character() {
    assert_eq!(chars_of("h\u{e9}"), vec!['h', '\u{e9}']);
    assert_eq!(string_of(&vec!['a', 'b']), "ab");
    assert!(str_equal("same", "same"));
    assert!(!str_equal("same", "sam"));
    assert_eq!(to_ascii_lowercase("MetaStation \u{c9}"), "metastation \u{c9}");
    assert!(contains_str("haystack", "st"));
    assert!(contains_str("", ""));
    assert!(!contains_str("st", "stack"));
    assert!(str_less("a.dmm", "b.dmm"));
    assert!(str_less("a", "ab"));
    assert!(!str_less("b", "a"));
    assert!(!str_less("a", "a"));
    assert_eq!(join_lines(&vec![]), "");
    assert_eq!(join_lines(&vec![String::from("one")]), "one");
}

#[test]
fn drags_span_their_corners_in_any_direction() {
    let selection = Selection::from_drag(Coord::new(5, 2, 3), Coord::new(1, 4, 9));
    assert_eq!(selection.min, Coord::new(1, 2, 3));
    assert_eq!(selection.max, Coord::new(5, 4, 3));
    assert_eq!((selection.width(), selection.height()), (5, 3));
    assert!(selection.contains(Coord::new(3, 3, 3)));
    assert!(!selection.contains(Coord::new(3, 3, 9)));
    assert_eq!(selection.tiles().len(), 15);
    assert_eq!(selection.tiles()[1], Coord::new(2, 2, 3));
    assert_eq!(
        selection.with_min(Coord::new(10, 10, 3)),
        Some(Selection::from_drag(Coord::new(10, 10, 3), Coord::new(14, 12, 3)))
    );
    assert_eq!(selection.with_min(Coord::new(u32::MAX, 1, 3)), None);
    assert!(selection.is_well_formed());
}
