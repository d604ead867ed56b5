use rolling_drones::text_pages::{join_range, saturating_product, TextFileCache};

fn lines(n: usize) -> Vec<String> {
    (1..=n).map(|i| format!("line {}", i)).collect()
}

#[test]
fn a_new_cache_shows_fifty_lines_a_page() {
    let c = TextFileCache::new();
    assert_eq!(c.lines_per_page, 50);
    assert!(c.get_page_content(1).is_none());
    assert_eq!(c.get_total_pages(1), 1);
}

#[test]
fn pages_of_a_long_text() {
    let mut c = TextFileCache::new();
    c.load_lines(4, lines(120));
    assert_eq!(c.get_total_pages(4), 3);
    assert_eq!(c.page_input.get(&4).map(|s| s.as_str()), Some("1"));
    let first = c.get_page_content(4).unwrap();
    assert!(first.starts_with("line 1\nline 2\n"));
    assert!(first.ends_with("line 50"));
    c.next_page(4);
    assert_eq!(c.current_page.get(&4), Some(&1));
    assert_eq!(c.page_input.get(&4).map(|s| s.as_str()), Some("2"));
    c.next_page(4);
    let last = c.get_page_content(4).unwrap();
    assert!(last.starts_with("line 101\n"));
    assert!(last.ends_with("line 120"));
    c.next_page(4);
    assert_eq!(c.current_page.get(&4), Some(&2));
    c.prev_page(4);
    assert_eq!(c.current_page.get(&4), Some(&1));
    assert_eq!(c.page_input.get(&4).map(|s| s.as_str()), Some("2"));
    c.prev_page(4);
    c.prev_page(4);
    assert_eq!(c.current_page.get(&4), Some(&0));
    assert_eq!(c.page_input.get(&4).map(|s| s.as_str()), Some("1"));
}

#[test]
fn an_empty_text_has_one_empty_page() {
    let mut c = TextFileCache::new();
    c.load_lines(2, Vec::new());
    assert_eq!(c.get_total_pages(2), 1);
    assert_eq!(c.get_page_content(2), Some(String::new()));
    c.next_page(2);
    assert_eq!(c.current_page.get(&2), Some(&0));
}

#[test]
fn clearing_forgets_the_text() {
    let mut c = TextFileCache::new();
    c.load_lines(3, lines(5));
    c.clear(3);
    assert!(c.get_page_content(3).is_none());
    assert!(c.current_page.get(&3).is_none());
}

#[test]
fn joining_and_saturating() {
    let l = lines(3);
    assert_eq!(join_range(&l, 0, 3), "line 1\nline 2\nline 3");
    assert_eq!(join_range(&l, 1, 1), "");
    assert_eq!(saturating_product(6, 7), 42);
    assert_eq!(saturating_product(usize::MAX, 2), usize::MAX);
    assert_eq!(saturating_product(0, usize::MAX), 0);
}

#[test]
fn going_to_a_typed_page() {
    let mut c = TextFileCache::new();
    c.load_lines(4, lines(120));
    c.page_input.insert(4, "3".to_string());
    c.go_to_page(4);
    assert_eq!(c.current_page.get(&4), Some(&2));
    assert_eq!(c.page_input.get(&4).map(|s| s.as_str()), Some("3"));
    assert!(c.get_page_content(4).unwrap().starts_with("line 101\n"));
    c.page_input.insert(4, "+01".to_string());
    c.go_to_page(4);
    assert_eq!(c.current_page.get(&4), Some(&0));
    assert_eq!(c.page_input.get(&4).map(|s| s.as_str()), Some("1"));
}

#[test]
fn a_page_out_of_range_or_not_a_number_changes_nothing() {
    let mut c = TextFileCache::new();
    c.load_lines(4, lines(120));
    c.next_page(4);
    for typed in ["0", "4", "two", "", "-1", " 2", "+", "99999999999999999999999"] {
        c.page_input.insert(4, typed.to_string());
        c.go_to_page(4);
        assert_eq!(c.current_page.get(&4), Some(&1));
        assert_eq!(c.page_input.get(&4).map(|s| s.as_str()), Some(typed));
    }
    c.go_to_page(9);
    assert!(c.current_page.get(&9).is_none());
}

#[test]
fn page_numbers_of_two_digits_are_written_out() {
    let mut c = TextFileCache::new();
    c.load_lines(5, lines(600));
    assert_eq!(c.get_total_pages(5), 12);
    c.page_input.insert(5, "012".to_string());
    c.go_to_page(5);
    assert_eq!(c.current_page.get(&5), Some(&11));
    assert_eq!(c.page_input.get(&5).map(|s| s.as_str()), Some("12"));
    c.prev_page(5);
    assert_eq!(c.page_input.get(&5).map(|s| s.as_str()), Some("11"));
    c.page_input.insert(5, "13".to_string());
    c.go_to_page(5);
    assert_eq!(c.current_page.get(&5), Some(&10));
}
