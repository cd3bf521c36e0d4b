use flash_memory::parser::{count_lines, parse_words_from_text, words_to_text, MAX_LINES};
use flash_memory::text::validate_name;
use flash_memory::{StoreError, Word};

fn w(english: &str, chinese: &str, group: &str) -> Word {
    Word {
        english: english.to_string(),
        chinese: chinese.to_string(),
        group: group.to_string(),
    }
}

#[test]
fn parses_the_reference_text() {
    let words = parse_words_from_text("cat 猫\n\ndog   跑 步\nnoSpaceHere\n   \n", "g");
    assert_eq!(words, vec![w("cat", "猫", "g"), w("dog", "跑 步", "g")]);
}

#[test]
fn caps_at_one_hundred_lines() {
    let mut text = String::new();
    for i in 0..150 {
        text.push_str(&format!("word{} 词{}\n", i, i));
    }
    let words = parse_words_from_text(&text, "g");
    assert_eq!(words.len(), 100);
    assert_eq!(words[0], w("word0", "词0", "g"));
    assert_eq!(words[99], w("word99", "词99", "g"));
    assert_eq!(count_lines(&text), 150);
}

#[test]
fn cap_counts_lines_not_words() {
    let mut text = String::new();
    for _ in 0..60 {
        text.push_str("\n");
    }
    for i in 0..60 {
        text.push_str(&format!("word{} 词{}\n", i, i));
    }
    let words = parse_words_from_text(&text, "g");
    assert_eq!(words.len(), 40);
    assert_eq!(words[39], w("word39", "词39", "g"));
}

#[test]
fn exactly_one_hundred_lines_are_all_read() {
    let mut text = String::new();
    for i in 0..100 {
        text.push_str(&format!("a{} b{}\n", i, i));
    }
    assert_eq!(MAX_LINES, 100);
    assert_eq!(count_lines(&text), 100);
    assert_eq!(parse_words_from_text(&text, "g").len(), 100);
}

#[test]
fn empty_and_blank_texts_give_nothing() {
    assert!(parse_words_from_text("", "g").is_empty());
    assert!(parse_words_from_text("\n\n\n", "g").is_empty());
    assert!(parse_words_from_text("   \t  ", "g").is_empty());
}

#[test]
fn line_without_space_is_skipped() {
    assert!(parse_words_from_text("hello", "g").is_empty());
    assert!(parse_words_from_text("hello\tworld", "g").is_empty());
    assert_eq!(
        parse_words_from_text("hello\nhi 你好", "g"),
        vec![w("hi", "你好", "g")]
    );
}

#[test]
fn splits_at_the_first_space_only() {
    assert_eq!(
        parse_words_from_text("ice cream 冰 淇 淋", "g"),
        vec![w("ice", "cream 冰 淇 淋", "g")]
    );
}

#[test]
fn trims_lines_and_both_forms() {
    assert_eq!(
        parse_words_from_text("   cat   猫   ", "g"),
        vec![w("cat", "猫", "g")]
    );
    assert_eq!(
        parse_words_from_text("\tcat\t \t猫\t", "g"),
        vec![w("cat", "猫", "g")]
    );
    assert_eq!(
        parse_words_from_text("\u{3000}cat 猫\u{3000}", "g"),
        vec![w("cat", "猫", "g")]
    );
}

#[test]
fn carriage_returns_are_trimmed_away() {
    assert_eq!(
        parse_words_from_text("cat 猫\r\ndog 狗\r\n", "g"),
        vec![w("cat", "猫", "g"), w("dog", "狗", "g")]
    );
}

#[test]
fn last_line_needs_no_line_feed() {
    assert_eq!(
        parse_words_from_text("cat 猫\ndog 狗", "g"),
        vec![w("cat", "猫", "g"), w("dog", "狗", "g")]
    );
}

#[test]
fn every_word_carries_the_group() {
    let words = parse_words_from_text("a b\nc d", "第一组");
    assert_eq!(words.len(), 2);
    assert!(words.iter().all(|word| word.group == "第一组"));
}

#[test]
fn non_ascii_english_side_is_kept() {
    assert_eq!(
        parse_words_from_text("naïve 天真", "g"),
        vec![w("naïve", "天真", "g")]
    );
}

#[test]
fn count_lines_follows_line_feeds() {
    assert_eq!(count_lines(""), 0);
    assert_eq!(count_lines("a"), 1);
    assert_eq!(count_lines("a\n"), 1);
    assert_eq!(count_lines("a\nb"), 2);
    assert_eq!(count_lines("a\n\nb\n"), 3);
    assert_eq!(count_lines("\n"), 1);
    assert_eq!(count_lines("\n\n"), 2);
}

#[test]
fn validate_name_trims() {
    assert_eq!(validate_name("  动物  "), Ok("动物".to_string()));
    assert_eq!(validate_name("a b"), Ok("a b".to_string()));
    assert_eq!(validate_name("\tname\n"), Ok("name".to_string()));
}

#[test]
fn validate_name_refuses_blank() {
    assert_eq!(validate_name(""), Err(StoreError::EmptyName));
    assert_eq!(validate_name("   "), Err(StoreError::EmptyName));
    assert_eq!(validate_name(" \t\u{3000}\n"), Err(StoreError::EmptyName));
}

#[test]
fn words_to_text_writes_one_line_per_word() {
    assert_eq!(words_to_text(&Vec::new()), "");
    assert_eq!(words_to_text(&vec![w("cat", "猫", "g")]), "cat 猫");
    assert_eq!(
        words_to_text(&vec![w("cat", "猫", "g"), w("dog", "跑 步", "g")]),
        "cat 猫\ndog 跑 步"
    );
}

#[test]
fn words_to_text_shows_the_first_hundred() {
    let mut words = Vec::new();
    for i in 0..130 {
        words.push(w(&format!("e{}", i), &format!("c{}", i), "g"));
    }
    let text = words_to_text(&words);
    assert_eq!(text.lines().count(), 100);
    assert_eq!(text.lines().last(), Some("e99 c99"));
    assert!(!text.ends_with('\n'));
}

#[test]
fn written_text_parses_back() {
    let words = vec![w("cat", "猫", "g"), w("dog", "跑 步", "g")];
    let text = words_to_text(&words);
    assert_eq!(parse_words_from_text(&text, "g"), words);
}

fn in_white_space_set(c: char) -> bool {
    matches!(
        c as u32,
        0x0009..=0x000D
            | 0x0020
            | 0x0085
            | 0x00A0
            | 0x1680
            | 0x2000..=0x200A
            | 0x2028
            | 0x2029
            | 0x202F
            | 0x205F
            | 0x3000
    )
}

fn trimmed_around(c: char) -> String {
    let mut name = String::new();
    name.push(c);
    name.push('x');
    name.push(c);
    validate_name(&name).unwrap()
}

#[test]
fn white_space_is_the_unicode_set() {
    let mut code: u32 = 0;
    let mut white = 0;
    while code <= 0x10FFFF {
        if let Some(c) = char::from_u32(code) {
            let trimmed = trimmed_around(c);
            if in_white_space_set(c) {
                white += 1;
                assert_eq!(trimmed, "x", "U+{:04X} is white space", code);
            } else {
                assert_eq!(trimmed.chars().count(), 3, "U+{:04X} is not white space", code);
            }
        }
        code += if code < 0x1_0000 { 1 } else { 37 };
    }
    assert_eq!(white, 25);
}

#[test]
fn every_white_space_character_is_trimmed_from_a_line() {
    for c in ['\u{b}', '\u{c}', '\u{85}', '\u{a0}', '\u{1680}', '\u{2009}', '\u{2028}', '\u{205f}'] {
        let line = format!("{}cat{}\u{20}{}猫{}", c, c, c, c);
        assert_eq!(parse_words_from_text(&line, "g"), vec![w("cat", "猫", "g")]);
    }
    assert_eq!(
        parse_words_from_text("\u{200b}cat 猫\u{feff}", "g"),
        vec![w("\u{200b}cat", "猫\u{feff}", "g")]
    );
}
