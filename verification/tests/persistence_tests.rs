use flash_memory::snapshot::{
    from_json_text, groups_from_json, store_from_json, store_or_empty, store_to_json,
    table_from_json,
    table_to_json, tables_from_json, tables_to_json, to_json_text, word_from_json,
    word_to_json, words_from_json, words_to_json, written_text,
};
use flash_memory::{FlashMemory, SnapshotError, Word, WordTable};
use serde_json::Value;

fn word(english: &str, chinese: &str, group: &str) -> Word {
    Word {
        english: english.to_string(),
        chinese: chinese.to_string(),
        group: group.to_string(),
    }
}

fn snapshot(store: &FlashMemory) -> Vec<(String, Vec<WordTable>)> {
    let mut groups = store.to_groups();
    groups.sort_by(|a, b| a.0.cmp(&b.0));
    groups
}

fn sample_store() -> FlashMemory {
    let mut store = FlashMemory::new();
    store.create_group_if_absent("空分组");
    store.create_word_table("动物", "宠物");
    store.create_word_table("动物", "empty");
    store.create_word_table("verbs", "motion");
    store
        .add_words_to_table(
            "动物",
            "宠物",
            vec![
                word("cat", "猫", "动物"),
                word("dog", "跑 步", "动物"),
                word("cat", "猫", "动物"),
            ],
        )
        .unwrap();
    store
        .add_words_to_table("verbs", "motion", vec![word("run \"fast\"", "跑\n步", "old")])
        .unwrap();
    store
}

fn load_error(text: &str) -> SnapshotError {
    match from_json_text(text) {
        Ok(_) => panic!("the text was read as a store"),
        Err(e) => e,
    }
}

#[test]
fn store_round_trips_through_text() {
    let store = sample_store();
    let text = to_json_text(&store).unwrap();
    let loaded = from_json_text(&text).unwrap();
    assert_eq!(snapshot(&loaded), snapshot(&store));
    assert_eq!(snapshot(&loaded).len(), 3);
    assert_eq!(to_json_text(&loaded).unwrap(), text);
}

#[test]
fn empty_store_round_trips_through_text() {
    let store = FlashMemory::new();
    let text = to_json_text(&store).unwrap();
    assert_eq!(text, "{\n  \"groups\": {}\n}");
    let loaded = from_json_text(&text).unwrap();
    assert!(loaded.get_groups().is_empty());
}

#[test]
fn store_round_trips_through_value() {
    let store = sample_store();
    let value = store_to_json(&store);
    let loaded = store_from_json(&value).unwrap();
    assert_eq!(snapshot(&loaded), snapshot(&store));
}

#[test]
fn text_is_pretty_printed_json() {
    let mut store = FlashMemory::new();
    store.create_word_table("g", "t");
    store
        .add_words_to_table("g", "t", vec![word("cat", "猫", "g")])
        .unwrap();
    let text = to_json_text(&store).unwrap();
    assert!(text.contains('\n'));
    let parsed: Value = serde_json::from_str(&text).unwrap();
    assert_eq!(parsed, store_to_json(&store));
}

#[test]
fn snapshot_has_the_documented_shape() {
    let mut store = FlashMemory::new();
    store.create_word_table("g", "t");
    store
        .add_words_to_table("g", "t", vec![word("cat", "猫", "g")])
        .unwrap();
    let json = store_to_json(&store);
    assert_eq!(json.as_object().unwrap().len(), 1);
    let groups = json["groups"].as_object().unwrap();
    assert_eq!(groups.len(), 1);
    let tables = groups["g"].as_array().unwrap();
    assert_eq!(tables.len(), 1);
    let table = &tables[0];
    assert_eq!(table.as_object().unwrap().len(), 2);
    assert_eq!(table["name"], Value::String("t".to_string()));
    let words = table["words"].as_array().unwrap();
    assert_eq!(words.len(), 1);
    assert_eq!(words[0].as_object().unwrap().len(), 3);
    assert_eq!(words[0]["english"], Value::String("cat".to_string()));
    assert_eq!(words[0]["chinese"], Value::String("猫".to_string()));
    assert_eq!(words[0]["group"], Value::String("g".to_string()));
}

#[test]
fn reads_a_hand_written_file() {
    let text = r#"{
  "groups": {
    "动物": [
      {
        "name": "宠物",
        "words": [
          { "english": "cat", "chinese": "猫", "group": "动物" },
          { "group": "动物", "chinese": "狗", "english": "dog", "note": 1 }
        ]
      },
      { "words": [], "name": "empty" }
    ],
    "空": []
  },
  "version": 2
}"#;
    let store = from_json_text(text).unwrap();
    let tables = store.get_word_tables_in_group("动物").unwrap();
    assert_eq!(tables.len(), 2);
    assert_eq!(tables[0].name, "宠物");
    assert_eq!(
        tables[0].words,
        vec![word("cat", "猫", "动物"), word("dog", "狗", "动物")]
    );
    assert_eq!(tables[1].name, "empty");
    assert!(tables[1].words.is_empty());
    assert!(store.get_word_tables_in_group("空").unwrap().is_empty());
    assert_eq!(store.get_groups().len(), 2);
}

#[test]
fn repeated_table_names_in_a_file_are_numbered() {
    let text = r#"{"groups": {"g": [
        {"name": "T", "words": [{"english": "a", "chinese": "b", "group": "g"}]},
        {"name": "T", "words": []}
    ]}}"#;
    let store = from_json_text(text).unwrap();
    let tables = store.get_word_tables_in_group("g").unwrap();
    assert_eq!(tables[0].name, "T");
    assert_eq!(tables[0].words, vec![word("a", "b", "g")]);
    assert_eq!(tables[1].name, "T2");
}

#[test]
fn text_that_is_not_json_is_refused() {
    assert_eq!(load_error(""), SnapshotError::NotJson);
    assert_eq!(load_error("{\"groups\": "), SnapshotError::NotJson);
    assert_eq!(load_error("cat 猫"), SnapshotError::NotJson);
    assert_eq!(load_error("{\"groups\": {}} trailing"), SnapshotError::NotJson);
}

#[test]
fn json_of_another_shape_is_refused() {
    assert_eq!(load_error("null"), SnapshotError::WrongShape);
    assert_eq!(load_error("[]"), SnapshotError::WrongShape);
    assert_eq!(load_error("{}"), SnapshotError::WrongShape);
    assert_eq!(load_error("{\"groups\": []}"), SnapshotError::WrongShape);
    assert_eq!(load_error("{\"groups\": {\"g\": {}}}"), SnapshotError::WrongShape);
    assert_eq!(
        load_error("{\"groups\": {\"g\": [{\"name\": \"t\"}]}}"),
        SnapshotError::WrongShape
    );
    assert_eq!(
        load_error("{\"groups\": {\"g\": [{\"words\": []}]}}"),
        SnapshotError::WrongShape
    );
    assert_eq!(
        load_error("{\"groups\": {\"g\": [{\"name\": 1, \"words\": []}]}}"),
        SnapshotError::WrongShape
    );
    assert_eq!(
        load_error("{\"groups\": {\"g\": [{\"name\": \"t\", \"words\": {}}]}}"),
        SnapshotError::WrongShape
    );
    assert_eq!(
        load_error(
            "{\"groups\": {\"g\": [{\"name\": \"t\", \"words\": [{\"english\": \"a\", \"chinese\": \"b\"}]}]}}"
        ),
        SnapshotError::WrongShape
    );
    assert_eq!(
        load_error(
            "{\"groups\": {\"g\": [{\"name\": \"t\", \"words\": [{\"english\": \"a\", \"chinese\": null, \"group\": \"g\"}]}]}}"
        ),
        SnapshotError::WrongShape
    );
}

#[test]
fn word_and_table_snapshots_read_back() {
    let w = word("ice cream", "冰淇淋", "food");
    assert_eq!(word_from_json(&word_to_json(&w)), Some(word("ice cream", "冰淇淋", "food")));
    let table = WordTable {
        name: "t".to_string(),
        words: vec![word("a", "b", "g"), word("c", "d", "g")],
    };
    assert_eq!(
        table_from_json(&table_to_json(&table)),
        Some(WordTable {
            name: "t".to_string(),
            words: vec![word("a", "b", "g"), word("c", "d", "g")],
        })
    );
    assert_eq!(word_from_json(&Value::Null), None);
    assert_eq!(words_from_json(&Value::String("x".to_string())), None);
    assert_eq!(words_from_json(&Value::Array(Vec::new())), Some(Vec::new()));
}

#[test]
fn written_text_maps_the_outcome() {
    assert_eq!(written_text(Ok("{}".to_string())), Ok("{}".to_string()));
    let failure = serde_json::from_str::<Value>("not json").unwrap_err();
    assert_eq!(written_text(Err(failure)), Err(SnapshotError::NotWritten));
}

#[test]
fn words_and_tables_snapshots_keep_their_order() {
    let words = vec![word("b", "二", "g"), word("a", "一", "g"), word("b", "二", "g")];
    let json = words_to_json(&words);
    assert_eq!(json.as_array().unwrap().len(), 3);
    assert_eq!(json[1]["english"], Value::String("a".to_string()));
    assert_eq!(words_from_json(&json), Some(words));
    let tables = vec![
        WordTable {
            name: "z".to_string(),
            words: Vec::new(),
        },
        WordTable {
            name: "a".to_string(),
            words: vec![word("x", "y", "g")],
        },
    ];
    let json = tables_to_json(&tables);
    assert_eq!(json[0]["name"], Value::String("z".to_string()));
    assert_eq!(tables_from_json(&json), Some(tables));
    assert_eq!(tables_from_json(&Value::Null), None);
}

#[test]
fn groups_from_json_reads_every_field_as_a_group() {
    let parsed: Value =
        serde_json::from_str("{\"b\": [], \"a\": [{\"name\": \"t\", \"words\": []}]}").unwrap();
    let mut groups = groups_from_json(&parsed).unwrap();
    groups.sort_by(|x, y| x.0.cmp(&y.0));
    assert_eq!(groups.len(), 2);
    assert_eq!(groups[0].0, "a");
    assert_eq!(groups[0].1.len(), 1);
    assert_eq!(groups[1], ("b".to_string(), Vec::new()));
    assert_eq!(groups_from_json(&Value::Array(Vec::new())), None);
    let bad: Value = serde_json::from_str("{\"a\": 1}").unwrap();
    assert_eq!(groups_from_json(&bad), None);
}

#[test]
fn to_json_text_always_gives_a_text() {
    assert!(to_json_text(&FlashMemory::new()).is_ok());
    assert!(to_json_text(&sample_store()).is_ok());
    let mut store = FlashMemory::new();
    store.create_word_table("", "");
    store
        .add_words_to_table("", "", vec![word("\u{0}\u{1f}\"\\", "\u{7f}\u{2028}", "\t\r\n")])
        .unwrap();
    let text = to_json_text(&store).unwrap();
    assert_eq!(snapshot(&from_json_text(&text).unwrap()), snapshot(&store));
}

#[test]
fn store_or_empty_keeps_a_loaded_store() {
    let loaded: Result<FlashMemory, SnapshotError> = Ok(sample_store());
    assert_eq!(snapshot(&store_or_empty(loaded)), snapshot(&sample_store()));
}

#[test]
fn store_or_empty_starts_empty_after_a_failure() {
    let malformed = store_or_empty(from_json_text("{\"groups\": "));
    assert!(malformed.get_groups().is_empty());
    let misshapen = store_or_empty(from_json_text("[1, 2]"));
    assert!(misshapen.get_groups().is_empty());
    let unreadable: Result<FlashMemory, String> = Err("no such file".to_string());
    assert!(store_or_empty(unreadable).get_groups().is_empty());
}
