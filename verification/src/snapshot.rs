//! The snapshot of a store: the JSON text that it is saved as and loaded
//! from.
//!
//! A snapshot is an object with one field, `groups`: an object with a field
//! for each group, under the group's name, holding the array of its tables;
//! a table is an object with its `name` and the array of its `words`; a
//! word is an object with the texts `english`, `chinese` and `group`.

use vstd::prelude::*;
use vstd::string::*;
use crate::json::{
    field_names, given_fields, json_array, json_as_array, json_as_str, json_from_text,
    json_object, json_object_fields, json_string, json_to_text, json_view, json_views,
    parsed_json, pretty_text, read_fields, same_fields, JsonView,
};
use crate::model::{tables_view, words_view, Word, WordTable, WordTableView, WordView};
use crate::store::{entries_view, FlashMemory};
use crate::store_laws::lemma_from_groups;
use crate::store_spec::{
    entries_map, entry_names, spec_from_groups, table_names, valid_entries, valid_store,
    GroupEntry, StoreView,
};

verus! {

/// Why a snapshot could not be written or read.
#[derive(Debug, Clone, Copy, PartialEq, Eq, Structural)]
pub enum SnapshotError {
    /// The text is not JSON.
    NotJson,
    /// The text is JSON, but not a snapshot of a store.
    WrongShape,
    /// The snapshot could not be written as text.
    NotWritten,
}

/// The fields of a JSON object.
pub type JsonFields = Seq<(Seq<char>, JsonView)>;

/// Some field of `fields` is called `name`.
pub open spec fn has_field(fields: JsonFields, name: Seq<char>) -> bool {
    field_names(fields).contains(name)
}

/// The value of the field called `name`: of the only one, where names are
/// unique.
pub open spec fn field_value(fields: JsonFields, name: Seq<char>) -> JsonView {
    fields[field_names(fields).index_of(name)].1
}

/// The text of the field called `name`, if there is such a field and it
/// holds a text.
pub open spec fn text_field(fields: JsonFields, name: Seq<char>) -> Option<Seq<char>> {
    if has_field(fields, name) {
        match field_value(fields, name) {
            JsonView::Str(text) => Some(text),
            _ => None,
        }
    } else {
        None
    }
}

/// The word that `j` stands for, if it stands for one: an object whose
/// fields `english`, `chinese` and `group` hold texts.
pub open spec fn decode_word(j: JsonView) -> Option<WordView> {
    match j {
        JsonView::Obj(fields) => match (
            text_field(fields, "english"@),
            text_field(fields, "chinese"@),
            text_field(fields, "group"@),
        ) {
            (Some(english), Some(chinese), Some(group)) => Some(
                WordView { english: english, chinese: chinese, group: group },
            ),
            _ => None,
        },
        _ => None,
    }
}

/// The words that `j` stands for, if it stands for words: an array of
/// words.
pub open spec fn decode_words(j: JsonView) -> Option<Seq<WordView>> {
    match j {
        JsonView::Arr(items) => if forall|i: int|
            0 <= i < items.len() ==> decode_word(#[trigger] items[i]) is Some {
            Some(Seq::new(items.len(), |i: int| decode_word(items[i])->Some_0))
        } else {
            None
        },
        _ => None,
    }
}

/// The table that `j` stands for, if it stands for one: an object whose
/// field `name` holds a text and whose field `words` holds words.
pub open spec fn decode_table(j: JsonView) -> Option<WordTableView> {
    match j {
        JsonView::Obj(fields) => if has_field(fields, "words"@) {
            match (text_field(fields, "name"@), decode_words(field_value(fields, "words"@))) {
                (Some(name), Some(words)) => Some(WordTableView { name: name, words: words }),
                _ => None,
            }
        } else {
            None
        },
        _ => None,
    }
}

/// The tables that `j` stands for, if it stands for tables: an array of
/// tables.
pub open spec fn decode_tables(j: JsonView) -> Option<Seq<WordTableView>> {
    match j {
        JsonView::Arr(items) => if forall|i: int|
            0 <= i < items.len() ==> decode_table(#[trigger] items[i]) is Some {
            Some(Seq::new(items.len(), |i: int| decode_table(items[i])->Some_0))
        } else {
            None
        },
        _ => None,
    }
}

/// The groups that `j` stands for, if it stands for groups: an object
/// whose every field holds tables. The field's name is the group's name.
pub open spec fn decode_groups(j: JsonView) -> Option<Seq<GroupEntry>> {
    match j {
        JsonView::Obj(fields) => if forall|i: int|
            0 <= i < fields.len() ==> decode_tables((#[trigger] fields[i]).1) is Some {
            Some(
                Seq::new(
                    fields.len(),
                    |i: int| (fields[i].0, decode_tables(fields[i].1)->Some_0),
                ),
            )
        } else {
            None
        },
        _ => None,
    }
}

/// The store that `j` is a snapshot of, if it is one: an object whose
/// field `groups` holds groups. The store is built from the groups as
/// `from_groups` builds it.
pub open spec fn decode_store(j: JsonView) -> Option<StoreView> {
    match j {
        JsonView::Obj(fields) => if has_field(fields, "groups"@) {
            match decode_groups(field_value(fields, "groups"@)) {
                Some(entries) => Some(spec_from_groups(entries)),
                None => None,
            }
        } else {
            None
        },
        _ => None,
    }
}

/// `fields` are fields of distinct names among which `name` holds `value`.
pub open spec fn holds_field(fields: JsonFields, name: Seq<char>, value: JsonView) -> bool {
    has_field(fields, name) && field_value(fields, name) == value
}

/// `j` is a snapshot of `word`.
pub open spec fn encodes_word(j: JsonView, word: WordView) -> bool {
    &&& j is Obj
    &&& j->Obj_0.len() == 3
    &&& holds_field(j->Obj_0, "english"@, JsonView::Str(word.english))
    &&& holds_field(j->Obj_0, "chinese"@, JsonView::Str(word.chinese))
    &&& holds_field(j->Obj_0, "group"@, JsonView::Str(word.group))
}

/// `j` is a snapshot of `words`.
pub open spec fn encodes_words(j: JsonView, words: Seq<WordView>) -> bool {
    &&& j is Arr
    &&& j->Arr_0.len() == words.len()
    &&& forall|i: int| 0 <= i < words.len() ==> encodes_word(#[trigger] j->Arr_0[i], words[i])
}

/// `j` is a snapshot of `table`.
pub open spec fn encodes_table(j: JsonView, table: WordTableView) -> bool {
    &&& j is Obj
    &&& j->Obj_0.len() == 2
    &&& holds_field(j->Obj_0, "name"@, JsonView::Str(table.name))
    &&& has_field(j->Obj_0, "words"@)
    &&& encodes_words(field_value(j->Obj_0, "words"@), table.words)
}

/// `j` is a snapshot of `tables`.
pub open spec fn encodes_tables(j: JsonView, tables: Seq<WordTableView>) -> bool {
    &&& j is Arr
    &&& j->Arr_0.len() == tables.len()
    &&& forall|i: int| 0 <= i < tables.len() ==> encodes_table(#[trigger] j->Arr_0[i], tables[i])
}

/// `j` is a snapshot of the groups of `m`: an object with one field for
/// each group, under the group's name, that is a snapshot of its tables.
pub open spec fn encodes_groups(j: JsonView, m: StoreView) -> bool {
    &&& j is Obj
    &&& field_names(j->Obj_0).no_duplicates()
    &&& forall|g: Seq<char>| m.contains_key(g) <==> has_field(j->Obj_0, g)
    &&& forall|i: int|
        0 <= i < j->Obj_0.len() ==> m.contains_key((#[trigger] j->Obj_0[i]).0) && encodes_tables(
            j->Obj_0[i].1,
            m[j->Obj_0[i].0],
        )
}

/// `j` is a snapshot of the store `m`.
pub open spec fn encodes_store(j: JsonView, m: StoreView) -> bool {
    &&& j is Obj
    &&& j->Obj_0.len() == 1
    &&& has_field(j->Obj_0, "groups"@)
    &&& encodes_groups(field_value(j->Obj_0, "groups"@), m)
}

/// Among fields of distinct names, a field is found under its name.
pub proof fn lemma_field_found(fields: JsonFields, i: int)
    requires
        field_names(fields).no_duplicates(),
        0 <= i < fields.len(),
    ensures
        holds_field(fields, fields[i].0, fields[i].1),
{
    let names = field_names(fields);
    assert(names[i] == fields[i].0);
    let c = names.index_of(fields[i].0);
    assert(0 <= c < names.len() && names[c] == fields[i].0);
}

/// Fields of distinct names that are the same as given fields hold each
/// given field under its name.
pub proof fn lemma_same_fields(fields: JsonFields, given: JsonFields, i: int)
    requires
        field_names(fields).no_duplicates(),
        same_fields(fields, given),
        0 <= i < given.len(),
    ensures
        holds_field(fields, given[i].0, given[i].1),
{
    assert(fields.contains(given[i]));
    let p = choose|p: int| 0 <= p < fields.len() && fields[p] == given[i];
    lemma_field_found(fields, p);
}

/// A snapshot of a word stands for that word.
pub proof fn lemma_decode_word(j: JsonView, word: WordView)
    requires
        encodes_word(j, word),
    ensures
        decode_word(j) == Some(word),
{
}

/// A snapshot of words stands for those words.
pub proof fn lemma_decode_words(j: JsonView, words: Seq<WordView>)
    requires
        encodes_words(j, words),
    ensures
        decode_words(j) == Some(words),
{
    let items = j->Arr_0;
    assert forall|i: int| 0 <= i < items.len() implies decode_word(#[trigger] items[i]) == Some(
        words[i],
    ) by {
        lemma_decode_word(items[i], words[i]);
    }
    assert(Seq::new(items.len(), |i: int| decode_word(items[i])->Some_0) =~= words);
}

/// A snapshot of a table stands for that table.
pub proof fn lemma_decode_table(j: JsonView, table: WordTableView)
    requires
        encodes_table(j, table),
    ensures
        decode_table(j) == Some(table),
{
    lemma_decode_words(field_value(j->Obj_0, "words"@), table.words);
}

/// A snapshot of tables stands for those tables.
pub proof fn lemma_decode_tables(j: JsonView, tables: Seq<WordTableView>)
    requires
        encodes_tables(j, tables),
    ensures
        decode_tables(j) == Some(tables),
{
    let items = j->Arr_0;
    assert forall|i: int| 0 <= i < items.len() implies decode_table(#[trigger] items[i]) == Some(
        tables[i],
    ) by {
        lemma_decode_table(items[i], tables[i]);
    }
    assert(Seq::new(items.len(), |i: int| decode_table(items[i])->Some_0) =~= tables);
}

/// Entries of distinct names are found in their map, each under its name.
pub proof fn lemma_entries_map_lookup(entries: Seq<GroupEntry>, i: int)
    requires
        entry_names(entries).no_duplicates(),
        0 <= i < entries.len(),
    ensures
        entries_map(entries).contains_key(entries[i].0),
        entries_map(entries)[entries[i].0] == entries[i].1,
    decreases entries.len(),
{
    let names = entry_names(entries);
    if i < entries.len() - 1 {
        let init = entries.drop_last();
        assert(entry_names(init) =~= names.drop_last());
        assert(entry_names(init).no_duplicates()) by {
            assert forall|a: int, b: int|
                0 <= a < init.len() && 0 <= b < init.len() && a != b implies entry_names(
                init,
            )[a] != entry_names(init)[b] by {
                assert(entry_names(init)[a] == names[a]);
                assert(entry_names(init)[b] == names[b]);
            }
        }
        lemma_entries_map_lookup(init, i);
        assert(names[i] != names[entries.len() - 1]);
    }
}

/// A snapshot of a valid store stands for that store: what is saved is
/// what is loaded, the set of groups, the tables of each group in their
/// order, the name of each table and its words in their order, and the
/// three texts of each word.
pub proof fn lemma_decode_store(j: JsonView, m: StoreView)
    requires
        valid_store(m),
        encodes_store(j, m),
    ensures
        decode_store(j) == Some(m),
{
    let groups = field_value(j->Obj_0, "groups"@);
    let fields = groups->Obj_0;
    assert forall|i: int| 0 <= i < fields.len() implies decode_tables((#[trigger] fields[i]).1)
        == Some(m[fields[i].0]) by {
        lemma_decode_tables(fields[i].1, m[fields[i].0]);
    }
    let entries = decode_groups(groups)->Some_0;
    assert(entry_names(entries) =~= field_names(fields));
    assert(valid_entries(entries)) by {
        assert forall|i: int| 0 <= i < entries.len() implies table_names(
            (#[trigger] entries[i]).1,
        ).no_duplicates() by {
            assert(entries[i].1 == m[fields[i].0]);
            assert(m.contains_key(fields[i].0));
        }
    }
    lemma_from_groups(entries);
    let built = entries_map(entries);
    assert forall|g: Seq<char>| built.contains_key(g) implies built[g] == m[g] by {
        let names = entry_names(entries);
        assert(entries_map(entries).contains_key(g));
        assert(names.contains(g));
        let p = choose|p: int| 0 <= p < names.len() && names[p] == g;
        lemma_entries_map_lookup(entries, p);
        assert(entries[p].1 == m[fields[p].0]);
    }
    assert forall|g: Seq<char>| built.contains_key(g) <==> m.contains_key(g) by {
        assert(entries_map(entries).contains_key(g) <==> entry_names(entries).contains(g));
    }
    assert(built =~= m);
}

/// What a store is saved as, it is loaded as: a snapshot of a store
/// stands for that store and for no other.
pub proof fn lemma_save_load(store: FlashMemory, value: serde_json::Value)
    requires
        store.wf(),
        encodes_store(json_view(value), store@),
    ensures
        decode_store(json_view(value)) == Some(store@),
{
    store.lemma_valid();
    lemma_decode_store(json_view(value), store@);
}

/// The field names of a word are three different names.
proof fn lemma_word_field_names()
    ensures
        "english"@ != "chinese"@,
        "english"@ != "group"@,
        "chinese"@ != "group"@,
        "name"@ != "words"@,
{
    reveal_strlit("english");
    reveal_strlit("chinese");
    reveal_strlit("group");
    reveal_strlit("name");
    reveal_strlit("words");
    assert("english"@[0] == 'e');
    assert("chinese"@[0] == 'c');
    assert("group"@.len() == 5);
    assert("english"@.len() == 7);
    assert("chinese"@.len() == 7);
    assert("name"@.len() == 4);
    assert("words"@.len() == 5);
}

/// The snapshot of a word.
pub fn word_to_json(word: &Word) -> (value: serde_json::Value)
    ensures
        encodes_word(json_view(value), word@),
{
    let mut fields: Vec<(String, serde_json::Value)> = Vec::new();
    fields.push((String::from_str("english"), json_string(word.english.as_str())));
    fields.push((String::from_str("chinese"), json_string(word.chinese.as_str())));
    fields.push((String::from_str("group"), json_string(word.group.as_str())));
    let ghost given = given_fields(fields@);
    proof {
        lemma_word_field_names();
        let names = field_names(given);
        assert(names[0] == "english"@ && names[1] == "chinese"@ && names[2] == "group"@);
    }
    let value = json_object(fields);
    proof {
        let held = json_view(value)->Obj_0;
        lemma_same_fields(held, given, 0);
        lemma_same_fields(held, given, 1);
        lemma_same_fields(held, given, 2);
    }
    value
}

/// The snapshot of words.
pub fn words_to_json(words: &Vec<Word>) -> (value: serde_json::Value)
    ensures
        encodes_words(json_view(value), words_view(words@)),
{
    let mut items: Vec<serde_json::Value> = Vec::new();
    let mut i: usize = 0;
    while i < words.len()
        invariant
            i <= words@.len(),
            items@.len() == i,
            forall|p: int| 0 <= p < i ==> encodes_word(json_view(#[trigger] items@[p]), words@[p]@),
        decreases words@.len() - i,
    {
        items.push(word_to_json(&words[i]));
        i += 1;
    }
    let ghost views = json_views(items@);
    let value = json_array(items);
    proof {
        assert forall|p: int| 0 <= p < words@.len() implies encodes_word(
            #[trigger] views[p],
            words_view(words@)[p],
        ) by {
            assert(views[p] == json_view(items@[p]));
        }
    }
    value
}

/// The snapshot of a table.
pub fn table_to_json(table: &WordTable) -> (value: serde_json::Value)
    ensures
        encodes_table(json_view(value), table@),
{
    let mut fields: Vec<(String, serde_json::Value)> = Vec::new();
    fields.push((String::from_str("name"), json_string(table.name.as_str())));
    fields.push((String::from_str("words"), words_to_json(&table.words)));
    let ghost given = given_fields(fields@);
    proof {
        lemma_word_field_names();
        let names = field_names(given);
        assert(names[0] == "name"@ && names[1] == "words"@);
    }
    let value = json_object(fields);
    proof {
        let held = json_view(value)->Obj_0;
        lemma_same_fields(held, given, 0);
        lemma_same_fields(held, given, 1);
    }
    value
}

/// The snapshot of tables.
pub fn tables_to_json(tables: &Vec<WordTable>) -> (value: serde_json::Value)
    ensures
        encodes_tables(json_view(value), tables_view(tables@)),
{
    let mut items: Vec<serde_json::Value> = Vec::new();
    let mut i: usize = 0;
    while i < tables.len()
        invariant
            i <= tables@.len(),
            items@.len() == i,
            forall|p: int|
                0 <= p < i ==> encodes_table(json_view(#[trigger] items@[p]), tables@[p]@),
        decreases tables@.len() - i,
    {
        items.push(table_to_json(&tables[i]));
        i += 1;
    }
    let ghost views = json_views(items@);
    let value = json_array(items);
    proof {
        assert forall|p: int| 0 <= p < tables@.len() implies encodes_table(
            #[trigger] views[p],
            tables_view(tables@)[p],
        ) by {
            assert(views[p] == json_view(items@[p]));
        }
    }
    value
}

/// The snapshot of a store.
pub fn store_to_json(store: &FlashMemory) -> (value: serde_json::Value)
    requires
        store.wf(),
    ensures
        encodes_store(json_view(value), store@),
{
    let groups = store.to_groups();
    let ghost entries = entries_view(groups@);
    let mut fields: Vec<(String, serde_json::Value)> = Vec::new();
    let mut i: usize = 0;
    while i < groups.len()
        invariant
            i <= groups@.len(),
            entries == entries_view(groups@),
            fields@.len() == i,
            forall|p: int|
                0 <= p < i ==> (#[trigger] fields@[p]).0@ == entries[p].0 && encodes_tables(
                    json_view(fields@[p].1),
                    entries[p].1,
                ),
        decreases groups@.len() - i,
    {
        let name = groups[i].0.clone();
        let tables = tables_to_json(&groups[i].1);
        fields.push((name, tables));
        i += 1;
    }
    let ghost given = given_fields(fields@);
    proof {
        assert(field_names(given) =~= entry_names(entries));
    }
    let held_groups = json_object(fields);
    proof {
        let held = json_view(held_groups)->Obj_0;
        let m = store@;
        lemma_from_groups(entries);
        assert forall|g: Seq<char>| m.contains_key(g) <==> has_field(held, g) by {
            if m.contains_key(g) {
                let names = entry_names(entries);
                assert(entries_map(entries).contains_key(g));
                assert(names.contains(g));
                let p = choose|p: int| 0 <= p < names.len() && names[p] == g;
                assert(given[p].0 == g);
                lemma_same_fields(held, given, p);
            }
            if has_field(held, g) {
                let names = field_names(held);
                let q = choose|q: int| 0 <= q < names.len() && names[q] == g;
                assert(given.contains(held[q]));
                let p = choose|p: int| 0 <= p < given.len() && given[p] == held[q];
                assert(held[q].0 == g);
                assert(entry_names(entries)[p] == g);
                lemma_entries_map_lookup(entries, p);
            }
        }
        assert forall|q: int| 0 <= q < held.len() implies m.contains_key((#[trigger] held[q]).0)
            && encodes_tables(held[q].1, m[held[q].0]) by {
            assert(given.contains(held[q]));
            let p = choose|p: int| 0 <= p < given.len() && given[p] == held[q];
            assert(given[p] == (fields@[p].0@, json_view(fields@[p].1)));
            lemma_entries_map_lookup(entries, p);
        }
        assert(encodes_groups(json_view(held_groups), m));
    }
    let mut root: Vec<(String, serde_json::Value)> = Vec::new();
    root.push((String::from_str("groups"), held_groups));
    let ghost given_root = given_fields(root@);
    let value = json_object(root);
    proof {
        lemma_same_fields(json_view(value)->Obj_0, given_root, 0);
    }
    value
}

/// What writing a snapshot as text came to.
pub fn written_text(outcome: Result<String, serde_json::Error>) -> (text: Result<
    String,
    SnapshotError,
>)
    ensures
        match outcome {
            Ok(written) => text == Ok::<String, SnapshotError>(written),
            Err(_) => text == Err::<String, SnapshotError>(SnapshotError::NotWritten),
        },
{
    match outcome {
        Ok(written) => Ok(written),
        Err(_) => Err(SnapshotError::NotWritten),
    }
}

/// The text that a store is saved as: the pretty-printed text of a
/// snapshot of it. Every store has one.
pub fn to_json_text(store: &FlashMemory) -> (text: Result<String, SnapshotError>)
    requires
        store.wf(),
    ensures
        text is Ok,
        exists|value: serde_json::Value|
            encodes_store(json_view(value), store@) && text->Ok_0@ == pretty_text(value),
{
    let value = store_to_json(store);
    written_text(json_to_text(&value))
}

/// Looks for the field called `name`.
fn find_field<'a>(fields: &Vec<(&'a String, &'a serde_json::Value)>, name: &str) -> (found:
    Option<&'a serde_json::Value>)
    requires
        field_names(read_fields(fields@)).no_duplicates(),
    ensures
        match found {
            Some(value) => holds_field(read_fields(fields@), name@, json_view(*value)),
            None => !has_field(read_fields(fields@), name@),
        },
{
    let wanted = String::from_str(name);
    let ghost all = read_fields(fields@);
    let mut i: usize = 0;
    while i < fields.len()
        invariant
            i <= fields@.len(),
            all == read_fields(fields@),
            wanted@ == name@,
            field_names(all).no_duplicates(),
            forall|p: int| 0 <= p < i ==> field_names(all)[p] != name@,
        decreases fields@.len() - i,
    {
        if *fields[i].0 == wanted {
            proof {
                lemma_field_found(all, i as int);
            }
            return Some(fields[i].1);
        }
        i += 1;
    }
    None
}

/// Reads the text of the field called `name`.
fn find_text<'a>(fields: &Vec<(&'a String, &'a serde_json::Value)>, name: &str) -> (text: Option<
    String,
>)
    requires
        field_names(read_fields(fields@)).no_duplicates(),
    ensures
        match text {
            Some(found) => text_field(read_fields(fields@), name@) == Some(found@),
            None => text_field(read_fields(fields@), name@) is None,
        },
{
    match find_field(fields, name) {
        Some(value) => match json_as_str(value) {
            Some(found) => Some(String::from_str(found)),
            None => None,
        },
        None => None,
    }
}

/// Reads a word from its snapshot.
pub fn word_from_json(value: &serde_json::Value) -> (word: Option<Word>)
    ensures
        match word {
            Some(read) => decode_word(json_view(*value)) == Some(read@),
            None => decode_word(json_view(*value)) is None,
        },
{
    let fields = match json_object_fields(value) {
        Some(fields) => fields,
        None => {
            return None;
        },
    };
    let english = match find_text(&fields, "english") {
        Some(text) => text,
        None => {
            return None;
        },
    };
    let chinese = match find_text(&fields, "chinese") {
        Some(text) => text,
        None => {
            return None;
        },
    };
    let group = match find_text(&fields, "group") {
        Some(text) => text,
        None => {
            return None;
        },
    };
    Some(Word { english, chinese, group })
}

/// Reads words from their snapshot.
pub fn words_from_json(value: &serde_json::Value) -> (words: Option<Vec<Word>>)
    ensures
        match words {
            Some(read) => decode_words(json_view(*value)) == Some(words_view(read@)),
            None => decode_words(json_view(*value)) is None,
        },
{
    let items = match json_as_array(value) {
        Some(items) => items,
        None => {
            return None;
        },
    };
    let ghost views = json_views(items@);
    let mut words: Vec<Word> = Vec::new();
    let mut i: usize = 0;
    while i < items.len()
        invariant
            i <= items@.len(),
            views == json_views(items@),
            json_view(*value) == JsonView::Arr(views),
            words@.len() == i,
            forall|p: int| 0 <= p < i ==> decode_word(#[trigger] views[p]) == Some(words@[p]@),
        decreases items@.len() - i,
    {
        match word_from_json(&items[i]) {
            Some(word) => {
                words.push(word);
            },
            None => {
                assert(decode_word(views[i as int]) is None);
                return None;
            },
        }
        i += 1;
    }
    assert(Seq::new(views.len(), |p: int| decode_word(views[p])->Some_0) =~= words_view(words@));
    Some(words)
}

/// Reads a table from its snapshot.
pub fn table_from_json(value: &serde_json::Value) -> (table: Option<WordTable>)
    ensures
        match table {
            Some(read) => decode_table(json_view(*value)) == Some(read@),
            None => decode_table(json_view(*value)) is None,
        },
{
    let fields = match json_object_fields(value) {
        Some(fields) => fields,
        None => {
            return None;
        },
    };
    let words = match find_field(&fields, "words") {
        Some(held) => match words_from_json(held) {
            Some(words) => words,
            None => {
                return None;
            },
        },
        None => {
            return None;
        },
    };
    let name = match find_text(&fields, "name") {
        Some(text) => text,
        None => {
            return None;
        },
    };
    Some(WordTable { name, words })
}

/// Reads tables from their snapshot.
pub fn tables_from_json(value: &serde_json::Value) -> (tables: Option<Vec<WordTable>>)
    ensures
        match tables {
            Some(read) => decode_tables(json_view(*value)) == Some(tables_view(read@)),
            None => decode_tables(json_view(*value)) is None,
        },
{
    let items = match json_as_array(value) {
        Some(items) => items,
        None => {
            return None;
        },
    };
    let ghost views = json_views(items@);
    let mut tables: Vec<WordTable> = Vec::new();
    let mut i: usize = 0;
    while i < items.len()
        invariant
            i <= items@.len(),
            views == json_views(items@),
            json_view(*value) == JsonView::Arr(views),
            tables@.len() == i,
            forall|p: int| 0 <= p < i ==> decode_table(#[trigger] views[p]) == Some(tables@[p]@),
        decreases items@.len() - i,
    {
        match table_from_json(&items[i]) {
            Some(table) => {
                tables.push(table);
            },
            None => {
                assert(decode_table(views[i as int]) is None);
                return None;
            },
        }
        i += 1;
    }
    assert(Seq::new(views.len(), |p: int| decode_table(views[p])->Some_0) =~= tables_view(
        tables@,
    ));
    Some(tables)
}

/// Reads groups from their snapshot.
pub fn groups_from_json(value: &serde_json::Value) -> (groups: Option<
    Vec<(String, Vec<WordTable>)>,
>)
    ensures
        match groups {
            Some(read) => decode_groups(json_view(*value)) == Some(entries_view(read@)),
            None => decode_groups(json_view(*value)) is None,
        },
{
    let fields = match json_object_fields(value) {
        Some(fields) => fields,
        None => {
            return None;
        },
    };
    let ghost all = read_fields(fields@);
    let mut groups: Vec<(String, Vec<WordTable>)> = Vec::new();
    let mut i: usize = 0;
    while i < fields.len()
        invariant
            i <= fields@.len(),
            all == read_fields(fields@),
            json_view(*value) == JsonView::Obj(all),
            groups@.len() == i,
            forall|p: int|
                0 <= p < i ==> (#[trigger] groups@[p]).0@ == all[p].0 && decode_tables(all[p].1)
                    == Some(tables_view(groups@[p].1@)),
        decreases fields@.len() - i,
    {
        match tables_from_json(fields[i].1) {
            Some(tables) => {
                groups.push((fields[i].0.clone(), tables));
            },
            None => {
                assert(decode_tables(all[i as int].1) is None);
                return None;
            },
        }
        i += 1;
    }
    proof {
        assert forall|p: int| 0 <= p < all.len() implies decode_tables((#[trigger] all[p]).1)
            is Some by {
            assert(groups@[p].0@ == all[p].0);
        }
        assert(Seq::new(all.len(), |p: int| (all[p].0, decode_tables(all[p].1)->Some_0))
            =~= entries_view(groups@));
    }
    Some(groups)
}

/// Reads a store from its snapshot. A value that is not a snapshot of a
/// store is refused with `WrongShape`.
pub fn store_from_json(value: &serde_json::Value) -> (store: Result<FlashMemory, SnapshotError>)
    ensures
        match decode_store(json_view(*value)) {
            Some(m) => store is Ok && store->Ok_0.wf() && store->Ok_0@ == m,
            None => store is Err && store->Err_0 == SnapshotError::WrongShape,
        },
{
    let fields = match json_object_fields(value) {
        Some(fields) => fields,
        None => {
            return Err(SnapshotError::WrongShape);
        },
    };
    let held = match find_field(&fields, "groups") {
        Some(held) => held,
        None => {
            return Err(SnapshotError::WrongShape);
        },
    };
    match groups_from_json(held) {
        Some(groups) => Ok(FlashMemory::from_groups(&groups)),
        None => Err(SnapshotError::WrongShape),
    }
}

/// The store to start with: the one that was loaded, or an empty one where
/// loading failed, for whatever reason.
pub fn store_or_empty<E>(loaded: Result<FlashMemory, E>) -> (store: FlashMemory)
    requires
        loaded is Ok ==> loaded->Ok_0.wf(),
    ensures
        store.wf(),
        loaded is Ok ==> store@ == loaded->Ok_0@,
        loaded is Err ==> store@ == Map::<Seq<char>, Seq<WordTableView>>::empty(),
{
    match loaded {
        Ok(store) => store,
        Err(_) => FlashMemory::new(),
    }
}

/// Reads a store from the text that it was saved as. A text that is not
/// JSON is refused with `NotJson`, JSON that is not a snapshot of a store
/// with `WrongShape`.
pub fn from_json_text(text: &str) -> (store: Result<FlashMemory, SnapshotError>)
    ensures
        match parsed_json(text@) {
            Some(value) => match decode_store(json_view(value)) {
                Some(m) => store is Ok && store->Ok_0.wf() && store->Ok_0@ == m,
                None => store is Err && store->Err_0 == SnapshotError::WrongShape,
            },
            None => store is Err && store->Err_0 == SnapshotError::NotJson,
        },
{
    match json_from_text(text) {
        Ok(value) => store_from_json(&value),
        Err(_) => Err(SnapshotError::NotJson),
    }
}

} // verus!
