use pathfinder::text::{chars_of, has_substring, matches_at, render_decimal, same_chars, spells};

#[test]
fn chars_of_gives_the_characters_in_order() {
    assert_eq!(chars_of("a:b"), vec!['a', ':', 'b']);
    assert_eq!(chars_of(""), Vec::<char>::new());
    assert_eq!(chars_of("\u{e9}x"), vec!['\u{e9}', 'x']);
}

#[test]
fn same_chars_compares_element_by_element() {
    assert!(same_chars(&vec!['a', 'b'], &vec!['a', 'b']));
    assert!(!same_chars(&vec!['a', 'b'], &vec!['a', 'c']));
    assert!(!same_chars(&vec!['a', 'b'], &vec!['a']));
    assert!(same_chars(&vec![], &vec![]));
}

#[test]
fn spells_compares_with_a_string() {
    assert!(spells(&vec!['-', 'v'], "-v"));
    assert!(!spells(&vec!['-', 'v'], "-V"));
    assert!(!spells(&vec!['-', 'v'], "-"));
}

#[test]
fn matches_at_tests_one_position() {
    let hay = chars_of("/usr/bin");
    assert!(matches_at(&hay, &chars_of("usr"), 1));
    assert!(!matches_at(&hay, &chars_of("usr"), 0));
    assert!(matches_at(&hay, &chars_of("bin"), 5));
    assert!(matches_at(&hay, &chars_of(""), 8));
    assert!(!matches_at(&hay, &chars_of(""), 9));
    assert!(!matches_at(&hay, &chars_of("bin"), 6));
    assert!(!matches_at(&hay, &chars_of("bin"), usize::MAX));
}

#[test]
fn has_substring_finds_a_contiguous_run() {
    let hay = chars_of("/usr/bin");
    assert!(has_substring(&hay, &chars_of("r/b")));
    assert!(has_substring(&hay, &chars_of("/usr/bin")));
    assert!(has_substring(&hay, &chars_of("n")));
    assert!(has_substring(&hay, &chars_of("")));
    assert!(!has_substring(&hay, &chars_of("ub")));
    assert!(!has_substring(&hay, &chars_of("/usr/bin/")));
    assert!(has_substring(&chars_of(""), &chars_of("")));
    assert!(!has_substring(&chars_of(""), &chars_of("a")));
}

#[test]
fn has_substring_agrees_with_the_standard_search() {
    let texts = ["", "a", "ab", "aab", "abab", "/usr/bin", "aaa", "ba"];
    for hay in texts {
        for needle in texts {
            assert_eq!(has_substring(&chars_of(hay), &chars_of(needle)), hay.contains(needle));
        }
    }
}

#[test]
fn render_decimal_writes_numerals() {
    assert_eq!(render_decimal(0), "0");
    assert_eq!(render_decimal(7), "7");
    assert_eq!(render_decimal(10), "10");
    assert_eq!(render_decimal(255), "255");
    assert_eq!(render_decimal(1234567890), "1234567890");
    assert_eq!(render_decimal(usize::MAX), usize::MAX.to_string());
}
