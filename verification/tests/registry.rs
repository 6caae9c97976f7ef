use pathfinder::finder::{enumerate_line, names_index, split_path, Finder, SEPARATOR};
use pathfinder::split::{dedup_strings, holds, split_segments};

fn owned(items: &[&str]) -> Vec<String> {
    items.iter().map(|s| s.to_string()).collect()
}

#[test]
fn split_path_test() {
    let finder = Finder::new("/one/word:/two:/words".to_owned());
    assert_eq!(*finder.places(), vec!["/one/word", "/two", "/words"]);
}

#[test]
fn find_locations_test() {
    let finder = Finder::new("this:that:/ya/know:/everything".to_owned());
    assert_eq!(finder.find_locations("a".to_owned()), vec![1, 2]);
    assert_eq!(finder.find_locations("y".to_owned()), vec![2, 3]);
    assert_eq!(finder.find_locations("t".to_owned()), vec![0, 1, 3]);
}

#[test]
fn repeated_entries_are_kept_once_in_first_occurrence_order() {
    let finder = Finder::new("a:b:a:c".to_owned());
    assert_eq!(*finder.places(), vec!["a", "b", "c"]);
    let finder = Finder::new("c:a:c:b:a:b:c".to_owned());
    assert_eq!(*finder.places(), vec!["c", "a", "b"]);
}

#[test]
fn the_raw_text_is_kept() {
    let finder = Finder::new("a:b:a:c".to_owned());
    assert_eq!(finder.path(), "a:b:a:c");
}

#[test]
fn the_empty_text_has_one_empty_entry() {
    let finder = Finder::new(String::new());
    assert_eq!(*finder.places(), vec![""]);
}

#[test]
fn a_text_without_separator_is_one_entry() {
    let finder = Finder::new("/usr/bin".to_owned());
    assert_eq!(*finder.places(), vec!["/usr/bin"]);
}

#[test]
fn empty_segments_are_kept_once() {
    let finder = Finder::new("a::b::".to_owned());
    assert_eq!(*finder.places(), vec!["a", "", "b"]);
    let finder = Finder::new(":".to_owned());
    assert_eq!(*finder.places(), vec![""]);
    let finder = Finder::new(":a".to_owned());
    assert_eq!(*finder.places(), vec!["", "a"]);
}

#[test]
fn entries_differ_by_case() {
    let finder = Finder::new("a:A:a".to_owned());
    assert_eq!(*finder.places(), vec!["a", "A"]);
}

#[test]
fn entries_may_hold_any_character() {
    let finder = Finder::new("/caf\u{e9}:/\u{65e5}\u{672c}:/caf\u{e9}".to_owned());
    assert_eq!(*finder.places(), vec!["/caf\u{e9}", "/\u{65e5}\u{672c}"]);
    assert_eq!(finder.find_locations("\u{672c}".to_owned()), vec![1]);
}

#[test]
fn split_path_is_what_the_registry_holds() {
    assert_eq!(split_path("x:y:x"), vec!["x", "y"]);
    assert_eq!(SEPARATOR, ':');
}

#[test]
fn split_segments_keeps_every_segment() {
    assert_eq!(split_segments("a:b:a", ':'), vec!["a", "b", "a"]);
    assert_eq!(split_segments("", ':'), vec![""]);
    assert_eq!(split_segments("::", ':'), vec!["", "", ""]);
    assert_eq!(split_segments("a:b", ','), vec!["a:b"]);
    assert_eq!(split_segments("a,b:c,", ','), vec!["a", "b:c", ""]);
}

#[test]
fn the_segments_joined_give_the_text_back() {
    for text in ["", ":", "a", "a:b", ":a::b:", "/usr/bin:/bin:/usr/bin"] {
        assert_eq!(split_segments(text, ':').join(":"), text);
    }
}

#[test]
fn dedup_strings_keeps_first_occurrences() {
    assert_eq!(dedup_strings(&owned(&["b", "a", "b", "", "a", ""])), vec!["b", "a", ""]);
    assert_eq!(dedup_strings(&owned(&[])), Vec::<String>::new());
}

#[test]
fn holds_finds_an_equal_string() {
    let items = owned(&["one", "two"]);
    assert!(holds(&items, &"two".to_owned()));
    assert!(!holds(&items, &"Two".to_owned()));
    assert!(!holds(&items, &"tw".to_owned()));
    assert!(!holds(&owned(&[]), &"".to_owned()));
}

#[test]
fn the_empty_query_finds_every_entry() {
    let finder = Finder::new("this:that:/ya/know:/everything".to_owned());
    assert_eq!(finder.find_locations(String::new()), vec![0, 1, 2, 3]);
    let finder = Finder::new(String::new());
    assert_eq!(finder.find_locations(String::new()), vec![0]);
}

#[test]
fn a_query_is_matched_by_case_and_without_wildcards() {
    let finder = Finder::new("/Bin:/bin:/b*n".to_owned());
    assert_eq!(finder.find_locations("bin".to_owned()), vec![1]);
    assert_eq!(finder.find_locations("B".to_owned()), vec![0]);
    assert_eq!(finder.find_locations("*".to_owned()), vec![2]);
    assert_eq!(finder.find_locations("/bin/".to_owned()), Vec::<usize>::new());
}

#[test]
fn a_listing_without_filter_shows_every_entry() {
    let finder = Finder::new("this:that:/ya/know:/everything".to_owned());
    assert_eq!(finder.list(None, false), vec!["this", "that", "/ya/know", "/everything"]);
    assert_eq!(
        finder.list(None, true),
        vec!["0\tthis", "1\tthat", "2\t/ya/know", "3\t/everything"]
    );
}

#[test]
fn a_filtered_listing_ascends_whatever_the_order_of_the_filter() {
    let finder = Finder::new("this:that:/ya/know:/everything".to_owned());
    assert_eq!(finder.list(Some(vec![3, 1]), false), vec!["that", "/everything"]);
    assert_eq!(finder.list(Some(vec![1, 3]), false), vec!["that", "/everything"]);
    assert_eq!(finder.list(Some(vec![2, 2, 0, 2]), false), vec!["this", "/ya/know"]);
    assert_eq!(finder.list(Some(vec![]), false), Vec::<String>::new());
    assert_eq!(finder.list(Some(vec![7, 1, 4]), false), vec!["that"]);
}

#[test]
fn an_enumerated_line_carries_the_index_among_all_entries() {
    let finder = Finder::new("this:that:/ya/know:/everything".to_owned());
    assert_eq!(finder.list(Some(vec![3, 1]), true), vec!["1\tthat", "3\t/everything"]);
    assert_eq!(finder.list(Some(vec![2]), true), vec!["2\t/ya/know"]);
}

#[test]
fn select_gives_the_indices_that_a_listing_shows() {
    let finder = Finder::new("a:b:c".to_owned());
    assert_eq!(finder.select(&None), vec![0, 1, 2]);
    assert_eq!(finder.select(&Some(vec![2, 0, 9, 2])), vec![0, 2]);
}

#[test]
fn a_search_lists_the_entries_that_contain_the_query() {
    let finder = Finder::new("this:that:/ya/know:/everything".to_owned());
    assert_eq!(finder.search(Some("a".to_owned()), false), vec!["that", "/ya/know"]);
    assert_eq!(finder.search(Some("y".to_owned()), true), vec!["2\t/ya/know", "3\t/everything"]);
    assert_eq!(finder.search(Some("zz".to_owned()), true), Vec::<String>::new());
    assert_eq!(finder.search(None, false), vec!["this", "that", "/ya/know", "/everything"]);
    assert_eq!(finder.search(Some(String::new()), false).len(), 4);
}

#[test]
fn a_long_registry_is_indexed_beyond_one_byte() {
    let names: Vec<String> = (0..300).map(|i| format!("/p{}", i)).collect();
    let finder = Finder::new(names.join(":"));
    assert_eq!(finder.places().len(), 300);
    assert_eq!(finder.find_locations("/p299".to_owned()), vec![299]);
    assert_eq!(finder.list(Some(vec![256]), true), vec!["256\t/p256"]);
}

#[test]
fn enumerate_line_renders_index_tab_entry() {
    assert_eq!(enumerate_line(12, "/bin", true), "12\t/bin");
    assert_eq!(enumerate_line(12, "/bin", false), "/bin");
    assert_eq!(enumerate_line(0, "", true), "0\t");
}

#[test]
fn names_index_looks_through_the_filter() {
    assert!(names_index(&vec![4, 2], 2));
    assert!(!names_index(&vec![4, 2], 3));
    assert!(!names_index(&vec![], 0));
}
