use flash_memory::controller::MESSAGE_TIME;
use flash_memory::{
    FlashMemory, FlashMemoryApp, FlashMode, Notice, Progress, SaveOutcome, StartOutcome,
    StoreError, Word,
};

fn w(english: &str, chinese: &str, group: &str) -> Word {
    Word {
        english: english.to_string(),
        chinese: chinese.to_string(),
        group: group.to_string(),
    }
}

fn app_with_table(words: Vec<Word>) -> FlashMemoryApp {
    let mut store = FlashMemory::new();
    store.create_word_table("g", "t");
    if !words.is_empty() {
        store.add_words_to_table("g", "t", words).unwrap();
    }
    let mut app = FlashMemoryApp::new(store);
    app.click_group("g");
    app.click_table("t");
    app
}

#[test]
fn new_app_has_nothing_open() {
    let app = FlashMemoryApp::new(FlashMemory::new());
    assert_eq!(app.selection.current_group, None);
    assert_eq!(app.selection.current_word_table, None);
    assert_eq!(app.selection.current_page, 0);
    assert!(!app.renaming_group_active);
    assert!(!app.renaming_word_table_active);
    assert_eq!(app.editing_word_table, None);
    assert_eq!(app.session.mode, FlashMode::Preview);
    assert_eq!(app.message, None);
    assert_eq!(app.message_remaining, 0);
    assert!(app.get_current_words().is_empty());
    assert_eq!(app.get_total_pages(), 0);
}

#[test]
fn message_expires_after_three_seconds() {
    let mut app = FlashMemoryApp::new(FlashMemory::new());
    app.show_message(Notice::GroupDeleted);
    assert_eq!(MESSAGE_TIME, 3_000_000_000);
    assert_eq!(app.message_remaining, 3_000_000_000);
    app.tick_message(2_999_999_999);
    assert_eq!(app.message, Some(Notice::GroupDeleted));
    assert_eq!(app.message_remaining, 1);
    app.tick_message(1);
    assert_eq!(app.message, None);
    assert_eq!(app.message_remaining, 0);
    app.tick_message(5);
    assert_eq!(app.message, None);
}

#[test]
fn message_expires_on_a_long_step() {
    let mut app = FlashMemoryApp::new(FlashMemory::new());
    app.show_message(Notice::TableDeleted);
    app.tick_message(u64::MAX);
    assert_eq!(app.message, None);
    assert_eq!(app.message_remaining, 0);
}

#[test]
fn create_new_group_opens_it_for_renaming() {
    let mut app = FlashMemoryApp::new(FlashMemory::new());
    assert_eq!(app.create_new_group("新分组"), "新分组");
    assert_eq!(app.create_new_group("新分组"), "新分组2");
    assert_eq!(app.selection.current_group, Some("新分组2".to_string()));
    assert!(app.renaming_group_active);
    assert_eq!(app.message, Some(Notice::GroupCreated));
    assert!(app.flash_memory.contains_group("新分组"));
    assert!(app.flash_memory.contains_group("新分组2"));
}

#[test]
fn confirm_group_rename_trims_and_renames() {
    let mut app = FlashMemoryApp::new(FlashMemory::new());
    app.create_new_group("新分组");
    assert!(app.confirm_group_rename("新分组", "  动物  "));
    assert!(!app.renaming_group_active);
    assert_eq!(app.selection.current_group, Some("动物".to_string()));
    assert_eq!(app.message, Some(Notice::GroupRenamed));
    assert!(app.flash_memory.contains_group("动物"));
    assert!(!app.flash_memory.contains_group("新分组"));
}

#[test]
fn confirm_group_rename_refuses_blank() {
    let mut app = FlashMemoryApp::new(FlashMemory::new());
    app.create_new_group("新分组");
    assert!(!app.confirm_group_rename("新分组", "   "));
    assert!(!app.renaming_group_active);
    assert_eq!(app.message, Some(Notice::GroupNameEmpty));
    assert_eq!(app.selection.current_group, Some("新分组".to_string()));
    assert!(app.flash_memory.contains_group("新分组"));
}

#[test]
fn confirm_group_rename_reports_store_errors() {
    let mut app = FlashMemoryApp::new(FlashMemory::new());
    app.create_new_group("a");
    app.create_new_group("b");
    assert!(!app.confirm_group_rename("b", "a"));
    assert_eq!(
        app.message,
        Some(Notice::GroupRefused(StoreError::DuplicateName))
    );
    assert_eq!(app.selection.current_group, Some("b".to_string()));
    assert!(!app.confirm_group_rename("missing", "c"));
    assert_eq!(app.message, Some(Notice::GroupRefused(StoreError::NotFound)));
}

#[test]
fn confirm_group_rename_to_same_name_succeeds() {
    let mut app = FlashMemoryApp::new(FlashMemory::new());
    app.create_new_group("a");
    assert!(app.confirm_group_rename("a", "a"));
    assert_eq!(app.message, Some(Notice::GroupRenamed));
    assert!(app.flash_memory.contains_group("a"));
}

#[test]
fn begin_and_cancel_group_rename() {
    let mut app = FlashMemoryApp::new(FlashMemory::new());
    app.create_new_group("a");
    app.cancel_group_rename();
    assert!(!app.renaming_group_active);
    app.begin_group_rename("a");
    assert!(app.renaming_group_active);
    assert_eq!(app.selection.current_group, Some("a".to_string()));
}

#[test]
fn new_word_table_selects_the_name_it_got() {
    let mut app = FlashMemoryApp::new(FlashMemory::new());
    assert_eq!(app.new_word_table("g", "新单词表"), "新单词表");
    assert_eq!(app.new_word_table("g", "新单词表"), "新单词表2");
    assert_eq!(app.selection.current_group, Some("g".to_string()));
    assert_eq!(
        app.selection.current_word_table,
        Some("新单词表2".to_string())
    );
    assert!(app.renaming_word_table_active);
    assert_eq!(app.message, Some(Notice::TableCreated));
}

#[test]
fn confirm_table_rename_cases() {
    let mut app = FlashMemoryApp::new(FlashMemory::new());
    app.new_word_table("g", "a");
    app.new_word_table("g", "b");
    assert!(!app.confirm_table_rename("g", "b", " \t "));
    assert_eq!(app.message, Some(Notice::TableNameEmpty));
    assert!(!app.renaming_word_table_active);
    assert!(!app.confirm_table_rename("g", "b", "a"));
    assert_eq!(
        app.message,
        Some(Notice::TableRefused(StoreError::DuplicateName))
    );
    assert!(app.confirm_table_rename("g", "b", " c "));
    assert_eq!(app.message, Some(Notice::TableRenamed));
    assert_eq!(app.selection.current_word_table, Some("c".to_string()));
    let tables = app.flash_memory.get_word_tables_in_group("g").unwrap();
    assert_eq!(tables[1].name, "c");
}

#[test]
fn begin_and_cancel_table_rename() {
    let mut app = app_with_table(Vec::new());
    app.begin_table_rename("t");
    assert!(app.renaming_word_table_active);
    assert_eq!(app.selection.current_word_table, Some("t".to_string()));
    app.cancel_table_rename();
    assert!(!app.renaming_word_table_active);
}

#[test]
fn delete_group_clears_the_selection() {
    let mut app = app_with_table(vec![w("cat", "猫", "g")]);
    assert!(app.delete_group("g"));
    assert_eq!(app.message, Some(Notice::GroupDeleted));
    assert_eq!(app.selection.current_group, None);
    assert_eq!(app.selection.current_word_table, None);
    assert!(!app.delete_group("g"));
    assert_eq!(app.message, Some(Notice::GroupRefused(StoreError::NotFound)));
}

#[test]
fn delete_table_clears_the_table_selection() {
    let mut app = app_with_table(vec![w("cat", "猫", "g")]);
    assert!(app.delete_word_table("g", "t"));
    assert_eq!(app.message, Some(Notice::TableDeleted));
    assert_eq!(app.selection.current_group, Some("g".to_string()));
    assert_eq!(app.selection.current_word_table, None);
    assert!(!app.delete_word_table("g", "t"));
    assert_eq!(app.message, Some(Notice::TableRefused(StoreError::NotFound)));
}

#[test]
fn begin_edit_prefills_the_text() {
    let mut app = app_with_table(vec![w("cat", "猫", "g"), w("dog", "狗", "g")]);
    app.selection.current_page = 2;
    let content = app.begin_edit("g", "t");
    assert_eq!(content, "cat 猫\ndog 狗");
    assert_eq!(
        app.editing_word_table,
        Some(("g".to_string(), "t".to_string()))
    );
    assert_eq!(app.selection.current_page, 0);
    assert_eq!(app.begin_edit("g", "missing"), "");
    app.cancel_edit();
    assert_eq!(app.editing_word_table, None);
}

#[test]
fn save_edit_replaces_the_words() {
    let mut app = app_with_table(vec![w("old", "旧", "g")]);
    app.begin_edit("g", "t");
    let outcome = app.save_edit("cat 猫\n\ndog   跑 步\nnoSpaceHere\n   \n");
    assert_eq!(
        outcome,
        SaveOutcome {
            saved: true,
            truncated: false
        }
    );
    assert_eq!(app.message, Some(Notice::WordsSaved(2)));
    assert_eq!(app.editing_word_table, None);
    assert_eq!(app.selection.current_word_table, Some("t".to_string()));
    assert_eq!(
        app.get_current_words(),
        vec![w("cat", "猫", "g"), w("dog", "跑 步", "g")]
    );
}

#[test]
fn save_edit_without_words_keeps_the_table() {
    let mut app = app_with_table(vec![w("old", "旧", "g")]);
    app.begin_edit("g", "t");
    let outcome = app.save_edit("nothing\n\n");
    assert_eq!(
        outcome,
        SaveOutcome {
            saved: false,
            truncated: false
        }
    );
    assert_eq!(app.message, Some(Notice::NoValidWords));
    assert_eq!(
        app.editing_word_table,
        Some(("g".to_string(), "t".to_string()))
    );
    assert_eq!(app.get_current_words(), vec![w("old", "旧", "g")]);
}

#[test]
fn save_edit_reports_truncation() {
    let mut app = app_with_table(Vec::new());
    app.begin_edit("g", "t");
    let mut text = String::new();
    for i in 0..150 {
        text.push_str(&format!("w{} 词{}\n", i, i));
    }
    let outcome = app.save_edit(&text);
    assert_eq!(
        outcome,
        SaveOutcome {
            saved: true,
            truncated: true
        }
    );
    assert_eq!(app.message, Some(Notice::WordsSaved(100)));
    assert_eq!(app.get_current_words().len(), 100);
}

#[test]
fn save_edit_into_deleted_table_is_refused() {
    let mut app = app_with_table(Vec::new());
    app.begin_edit("g", "t");
    app.flash_memory.delete_word_table("g", "t").unwrap();
    let outcome = app.save_edit("cat 猫");
    assert!(!outcome.saved);
    assert_eq!(
        app.message,
        Some(Notice::SaveRefused(StoreError::NotFound))
    );
    assert_eq!(
        app.editing_word_table,
        Some(("g".to_string(), "t".to_string()))
    );
}

#[test]
fn save_edit_outside_an_edit_does_nothing() {
    let mut app = app_with_table(vec![w("old", "旧", "g")]);
    let outcome = app.save_edit("cat 猫");
    assert_eq!(
        outcome,
        SaveOutcome {
            saved: false,
            truncated: false
        }
    );
    assert_eq!(app.message, None);
    assert_eq!(app.get_current_words(), vec![w("old", "旧", "g")]);
}

#[test]
fn start_on_empty_table_shows_a_rejection() {
    let mut app = app_with_table(Vec::new());
    assert_eq!(app.start_session(), StartOutcome::EmptyTable);
    assert_eq!(app.session.mode, FlashMode::Preview);
    assert_eq!(app.message, Some(Notice::EmptyTable));
    assert_eq!(app.message_remaining, MESSAGE_TIME);
}

#[test]
fn start_without_a_table_shows_a_rejection() {
    let mut app = FlashMemoryApp::new(FlashMemory::new());
    assert_eq!(app.start_session(), StartOutcome::EmptyTable);
    assert_eq!(app.session.mode, FlashMode::Preview);
    assert_eq!(app.message, Some(Notice::EmptyTable));
}

#[test]
fn session_runs_through_the_open_table() {
    let mut app = app_with_table(vec![w("cat", "猫", "g"), w("dog", "狗", "g")]);
    assert_eq!(app.start_session(), StartOutcome::Started);
    assert_eq!(app.message, None);
    for _ in 0..3 {
        assert_eq!(app.tick(1_000_000_000), Progress::Running);
    }
    assert_eq!(app.current_word(), Some(&w("cat", "猫", "g")));
    assert_eq!(app.tick(2_000_000_000), Progress::Running);
    assert_eq!(app.current_word(), Some(&w("dog", "狗", "g")));
    app.selection.current_page = 1;
    assert_eq!(app.tick(2_000_000_000), Progress::Completed);
    assert_eq!(app.session.mode, FlashMode::Preview);
    assert_eq!(app.session.word_index, 1);
    assert_eq!(app.selection.current_page, 0);
    assert_eq!(app.message, Some(Notice::SessionComplete));
    assert_eq!(app.tick(2_000_000_000), Progress::Idle);
}

#[test]
fn session_stands_still_while_editing() {
    let mut app = app_with_table(vec![w("cat", "猫", "g")]);
    app.start_session();
    app.begin_edit("g", "t");
    let before = app.session;
    assert_eq!(app.tick(5_000_000_000), Progress::Idle);
    assert_eq!(app.session, before);
}

#[test]
fn toggle_pause_and_stop() {
    let mut app = app_with_table(vec![w("cat", "猫", "g")]);
    assert!(!app.toggle_pause());
    app.start_session();
    assert!(app.toggle_pause());
    assert_eq!(app.session.mode, FlashMode::Paused);
    assert_eq!(app.tick(1_000_000_000), Progress::Idle);
    assert_eq!(app.session.countdown_remaining, 3);
    assert!(app.toggle_pause());
    assert_eq!(app.session.mode, FlashMode::Started);
    app.selection.current_page = 3;
    app.stop_session();
    assert_eq!(app.session.mode, FlashMode::Preview);
    assert_eq!(app.session.countdown_remaining, 0);
    assert_eq!(app.selection.current_page, 0);
}

#[test]
fn current_word_is_none_past_the_table() {
    let mut app = app_with_table(vec![w("cat", "猫", "g")]);
    app.session.word_index = 1;
    assert_eq!(app.current_word(), None);
    app.session.word_index = 0;
    assert_eq!(app.current_word(), Some(&w("cat", "猫", "g")));
}

#[test]
fn pages_of_the_open_table() {
    let mut words = Vec::new();
    for i in 0..45 {
        words.push(w(&format!("e{}", i), &format!("c{}", i), "g"));
    }
    let mut app = app_with_table(words);
    assert_eq!(app.get_total_pages(), 3);
    assert_eq!(app.current_word_count(), 45);
    assert_eq!(app.get_current_page_words().len(), 20);
    app.selection.current_page = 2;
    let page = app.get_current_page_words();
    assert_eq!(page.len(), 5);
    assert_eq!(page[0].english, "e40");
    app.selection.current_page = 9;
    assert!(app.get_current_page_words().is_empty());
}
