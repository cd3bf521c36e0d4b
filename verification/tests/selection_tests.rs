use flash_memory::selection::{page_bounds, page_words, total_pages, WORDS_PER_PAGE};
use flash_memory::{Selection, Word};

fn words(n: usize) -> Vec<Word> {
    (0..n)
        .map(|i| Word {
            english: format!("e{}", i),
            chinese: format!("c{}", i),
            group: "g".to_string(),
        })
        .collect()
}

#[test]
fn total_pages_rounds_up() {
    assert_eq!(WORDS_PER_PAGE, 20);
    assert_eq!(total_pages(0), 0);
    assert_eq!(total_pages(1), 1);
    assert_eq!(total_pages(19), 1);
    assert_eq!(total_pages(20), 1);
    assert_eq!(total_pages(21), 2);
    assert_eq!(total_pages(40), 2);
    assert_eq!(total_pages(41), 3);
    assert_eq!(total_pages(usize::MAX), usize::MAX / 20 + 1);
}

#[test]
fn page_bounds_clip_to_the_table() {
    assert_eq!(page_bounds(45, 0), (0, 20));
    assert_eq!(page_bounds(45, 1), (20, 40));
    assert_eq!(page_bounds(45, 2), (40, 45));
    assert_eq!(page_bounds(45, 3), (45, 45));
    assert_eq!(page_bounds(40, 2), (40, 40));
    assert_eq!(page_bounds(0, 0), (0, 0));
    assert_eq!(page_bounds(45, usize::MAX), (45, 45));
}

#[test]
fn page_words_copies_one_page() {
    let all = words(45);
    let first = page_words(&all, 0);
    assert_eq!(first.len(), 20);
    assert_eq!(first[0].english, "e0");
    assert_eq!(first[19].english, "e19");
    let last = page_words(&all, 2);
    assert_eq!(last.len(), 5);
    assert_eq!(last[0].english, "e40");
    assert_eq!(last[4].english, "e44");
    assert!(page_words(&all, 3).is_empty());
    assert!(page_words(&Vec::new(), 0).is_empty());
}

#[test]
fn click_group_opens_and_closes() {
    let mut s = Selection::new();
    assert_eq!(s.current_group, None);
    s.click_group("a");
    assert_eq!(s.current_group, Some("a".to_string()));
    s.select_table("t");
    assert_eq!(s.current_word_table, Some("t".to_string()));
    s.click_group("b");
    assert_eq!(s.current_group, Some("b".to_string()));
    assert_eq!(s.current_word_table, None);
    s.select_table("u");
    s.click_group("b");
    assert_eq!(s.current_group, None);
    assert_eq!(s.current_word_table, None);
}

#[test]
fn select_table_returns_to_first_page() {
    let mut s = Selection::new();
    s.click_group("a");
    s.current_page = 4;
    s.select_table("t");
    assert_eq!(s.current_page, 0);
    assert_eq!(s.current_group, Some("a".to_string()));
}

#[test]
fn show_table_opens_group_and_table() {
    let mut s = Selection::new();
    s.current_page = 3;
    s.show_table("g", "t");
    assert_eq!(s.current_group, Some("g".to_string()));
    assert_eq!(s.current_word_table, Some("t".to_string()));
    assert_eq!(s.current_page, 0);
}

#[test]
fn deleting_the_open_group_clears_both() {
    let mut s = Selection::new();
    s.show_table("g", "t");
    s.group_deleted("other");
    assert_eq!(s.current_group, Some("g".to_string()));
    assert_eq!(s.current_word_table, Some("t".to_string()));
    s.group_deleted("g");
    assert_eq!(s.current_group, None);
    assert_eq!(s.current_word_table, None);
}

#[test]
fn deleting_the_open_table_clears_the_table() {
    let mut s = Selection::new();
    s.show_table("g", "t");
    s.table_deleted("g", "other");
    assert_eq!(s.current_word_table, Some("t".to_string()));
    s.table_deleted("other", "t");
    assert_eq!(s.current_word_table, Some("t".to_string()));
    s.table_deleted("g", "t");
    assert_eq!(s.current_group, Some("g".to_string()));
    assert_eq!(s.current_word_table, None);
}
