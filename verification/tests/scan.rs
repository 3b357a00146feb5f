use snapdown::scan::{look_for_item, SearchResult};

#[test]
fn test_look_for_item_found() {
    let buffer = b"hello world table tag here";
    let item = b"table";

    match look_for_item(buffer, item, false) {
        SearchResult::Found(index) => assert_eq!(index, 12),
        _ => panic!("Expected to find item at index 12"),
    }
}

#[test]
fn test_look_for_item_not_found() {
    let buffer = b"hello world";
    let item = b"missing";

    match look_for_item(buffer, item, true) {
        SearchResult::NotFound => {}
        _ => panic!("Expected NotFound"),
    }
}

#[test]
fn test_look_for_item_not_found_with_unprocessed() {
    let buffer = b"hello world";
    let item = b"table";

    match look_for_item(buffer, item, false) {
        SearchResult::NotFoundWithUnprocessed(unprocessed) => {
            assert_eq!(unprocessed, 4); // item.len() - 1
        }
        _ => panic!("Expected NotFoundWithUnprocessed"),
    }
}

#[test]
fn test_look_for_item_exact_match() {
    let buffer = b"table";
    let item = b"table";

    match look_for_item(buffer, item, false) {
        SearchResult::Found(index) => assert_eq!(index, 0),
        _ => panic!("Expected to find item at index 0"),
    }
}

#[test]
fn test_look_for_item_at_end() {
    let buffer = b"hello table";
    let item = b"table";

    match look_for_item(buffer, item, false) {
        SearchResult::Found(index) => assert_eq!(index, 6),
        _ => panic!("Expected to find item at index 6"),
    }
}

#[test]
fn test_look_for_item_partial_at_end_not_last() {
    let buffer = b"hello tab";
    let item = b"table";

    match look_for_item(buffer, item, false) {
        SearchResult::NotFoundWithUnprocessed(unprocessed) => {
            assert_eq!(unprocessed, 4); // item.len() - 1
        }
        _ => panic!("Expected NotFoundWithUnprocessed"),
    }
}

#[test]
fn test_look_for_item_partial_at_end_is_last() {
    let buffer = b"hello tab";
    let item = b"table";

    match look_for_item(buffer, item, true) {
        SearchResult::NotFound => {}
        _ => panic!("Expected NotFound when is_last=true"),
    }
}

#[test]
fn test_look_html() {
    let buffer = b"aslkdjflkasjdflk\n\n\nasdfasdf<><table>sadfasdf<tbody>";
    let item1 = b"<table>";
    let item2 = b"<tbody>";
    let mut curr_index = 0;
    match look_for_item(buffer, item1, false) {
        SearchResult::Found(index) => {
            assert_eq!(index, 29);
            curr_index += index + item1.len();
        }
        _ => panic!("Expected to find item1 at index 29"),
    }
    match look_for_item(&buffer[curr_index..], item2, false) {
        SearchResult::Found(index) => assert_eq!(index, 8),
        _ => panic!("Expected to find item2 at index 8"),
    }
}

#[test]
fn empty_buffer_is_not_found_whether_last_or_not() {
    assert_eq!(look_for_item(b"", b"table", true), SearchResult::NotFound);
    assert_eq!(look_for_item(b"", b"table", false), SearchResult::NotFound);
}

#[test]
fn buffer_shorter_than_item_is_kept_whole_unless_last() {
    assert_eq!(
        look_for_item(b"hi", b"table", false),
        SearchResult::NotFoundWithUnprocessed(2)
    );
    assert_eq!(look_for_item(b"hi", b"table", true), SearchResult::NotFound);
}

#[test]
fn leftmost_occurrence_wins() {
    assert_eq!(look_for_item(b"abababab", b"bab", true), SearchResult::Found(1));
    assert_eq!(look_for_item(b"aaaa", b"aa", false), SearchResult::Found(0));
}

#[test]
fn single_byte_item_keeps_nothing() {
    assert_eq!(
        look_for_item(b"abc", b">", false),
        SearchResult::NotFoundWithUnprocessed(0)
    );
    assert_eq!(look_for_item(b"ab>", b">", false), SearchResult::Found(2));
}

/// Scans `buffer` as two chunks cut at `cut`, carrying over what the first
/// scan asks for, and returns the offset of the match in `buffer`.
fn scan_in_two(buffer: &[u8], item: &[u8], cut: usize) -> Option<usize> {
    let start = match look_for_item(&buffer[..cut], item, false) {
        SearchResult::Found(index) => return Some(index),
        SearchResult::NotFound => cut,
        SearchResult::NotFoundWithUnprocessed(kept) => cut - kept,
    };
    match look_for_item(&buffer[start..], item, true) {
        SearchResult::Found(index) => Some(start + index),
        _ => None,
    }
}

#[test]
fn split_scan_finds_the_same_offset_at_every_cut() {
    let buffer = b"hello world table tag here";
    let item = b"table";
    for cut in 0..=buffer.len() {
        assert_eq!(scan_in_two(buffer, item, cut), Some(12), "cut at {}", cut);
    }
}

#[test]
fn split_scan_finds_a_match_at_either_end() {
    for cut in 0..=11 {
        assert_eq!(scan_in_two(b"table hello", b"table", cut), Some(0));
        assert_eq!(scan_in_two(b"hello table", b"table", cut), Some(6));
    }
}

#[test]
fn split_scan_finds_nothing_where_nothing_is() {
    let buffer = b"hello world tabl tag here";
    for cut in 0..=buffer.len() {
        assert_eq!(scan_in_two(buffer, b"table", cut), None);
    }
}
