//! The word store as a mathematical map, and what each operation does to it.
//!
//! A store is a finite map from group names to sequences of tables. Every
//! operation of the executable store is described here as a pair of
//! functions on that map: its outcome and the map that it leaves.

use vstd::prelude::*;
use crate::model::{WordTableView, WordView};
use crate::naming::first_free_name;

verus! {

/// Why a store operation was refused.
#[derive(Debug, Clone, Copy, PartialEq, Eq, Structural)]
pub enum StoreError {
    /// The group or table that the operation names does not exist.
    NotFound,
    /// The new name is already used by a sibling.
    DuplicateName,
    /// The name is blank once trimmed.
    EmptyName,
}

/// The store in contracts: group name to the group's tables, in order.
pub type StoreView = Map<Seq<char>, Seq<WordTableView>>;

/// The names of `tables`, in order.
pub open spec fn table_names(tables: Seq<WordTableView>) -> Seq<Seq<char>> {
    Seq::new(tables.len(), |i: int| tables[i].name)
}

/// Some table of `tables` is called `name`.
pub open spec fn has_table(tables: Seq<WordTableView>, name: Seq<char>) -> bool {
    table_names(tables).contains(name)
}

/// The position of a table called `name`: of the only one, where names are
/// unique.
pub open spec fn table_position(tables: Seq<WordTableView>, name: Seq<char>) -> int {
    choose|i: int| 0 <= i < tables.len() && table_names(tables)[i] == name
}

/// A store is valid when it has finitely many groups and no group holds two
/// tables of one name.
pub open spec fn valid_store(m: StoreView) -> bool {
    &&& m.dom().finite()
    &&& forall|g: Seq<char>| #[trigger] m.contains_key(g) ==> table_names(m[g]).no_duplicates()
}

/// The tables of group `g`; none where the group does not exist.
pub open spec fn group_tables(m: StoreView, g: Seq<char>) -> Seq<WordTableView> {
    if m.contains_key(g) {
        m[g]
    } else {
        Seq::empty()
    }
}

/// The name that a group asked for as `base` gets.
pub open spec fn created_group_name(m: StoreView, base: Seq<char>) -> Seq<char> {
    first_free_name(m.dom(), base)
}

/// The store after an empty group asked for as `base` was added.
pub open spec fn spec_create_group(m: StoreView, base: Seq<char>) -> StoreView {
    m.insert(created_group_name(m, base), Seq::empty())
}

/// The store after group `g` has been made sure to exist.
pub open spec fn spec_ensure_group(m: StoreView, g: Seq<char>) -> StoreView {
    if m.contains_key(g) {
        m
    } else {
        m.insert(g, Seq::empty())
    }
}

/// The name that a table asked for as `base` gets in group `g`.
pub open spec fn created_table_name(m: StoreView, g: Seq<char>, base: Seq<char>) -> Seq<char> {
    first_free_name(table_names(group_tables(m, g)).to_set(), base)
}

/// The store after an empty table asked for as `base` was added to group
/// `g`, the group being created where it did not exist.
pub open spec fn spec_create_table(m: StoreView, g: Seq<char>, base: Seq<char>) -> StoreView {
    m.insert(
        g,
        group_tables(m, g).push(
            WordTableView { name: created_table_name(m, g, base), words: Seq::empty() },
        ),
    )
}

/// Whether group `old` can be renamed to `new`.
pub open spec fn rename_group_outcome(m: StoreView, old: Seq<char>, new: Seq<char>) -> Result<
    (),
    StoreError,
> {
    if old == new {
        Ok(())
    } else if m.contains_key(new) {
        Err(StoreError::DuplicateName)
    } else if !m.contains_key(old) {
        Err(StoreError::NotFound)
    } else {
        Ok(())
    }
}

/// The store after the attempt to rename group `old` to `new`.
pub open spec fn spec_rename_group(m: StoreView, old: Seq<char>, new: Seq<char>) -> StoreView {
    if old != new && rename_group_outcome(m, old, new) is Ok {
        m.remove(old).insert(new, m[old])
    } else {
        m
    }
}

/// Whether table `old` of group `g` can be renamed to `new`.
pub open spec fn rename_table_outcome(
    m: StoreView,
    g: Seq<char>,
    old: Seq<char>,
    new: Seq<char>,
) -> Result<(), StoreError> {
    if old == new {
        Ok(())
    } else if !m.contains_key(g) {
        Err(StoreError::NotFound)
    } else if has_table(m[g], new) {
        Err(StoreError::DuplicateName)
    } else if !has_table(m[g], old) {
        Err(StoreError::NotFound)
    } else {
        Ok(())
    }
}

/// The store after the attempt to rename table `old` of group `g` to `new`.
pub open spec fn spec_rename_table(
    m: StoreView,
    g: Seq<char>,
    old: Seq<char>,
    new: Seq<char>,
) -> StoreView {
    if old != new && rename_table_outcome(m, g, old, new) is Ok {
        let i = table_position(m[g], old);
        m.insert(g, m[g].update(i, WordTableView { name: new, words: m[g][i].words }))
    } else {
        m
    }
}

/// Whether group `g` can be deleted.
pub open spec fn delete_group_outcome(m: StoreView, g: Seq<char>) -> Result<(), StoreError> {
    if m.contains_key(g) {
        Ok(())
    } else {
        Err(StoreError::NotFound)
    }
}

/// The store after the attempt to delete group `g`.
pub open spec fn spec_delete_group(m: StoreView, g: Seq<char>) -> StoreView {
    m.remove(g)
}

/// Whether table `name` of group `g` can be found.
pub open spec fn table_lookup_outcome(m: StoreView, g: Seq<char>, name: Seq<char>) -> Result<
    (),
    StoreError,
> {
    if m.contains_key(g) && has_table(m[g], name) {
        Ok(())
    } else {
        Err(StoreError::NotFound)
    }
}

/// The store after the attempt to delete table `name` of group `g`.
pub open spec fn spec_delete_table(m: StoreView, g: Seq<char>, name: Seq<char>) -> StoreView {
    if table_lookup_outcome(m, g, name) is Ok {
        m.insert(g, m[g].remove(table_position(m[g], name)))
    } else {
        m
    }
}

/// The store after the attempt to replace the words of table `name` of
/// group `g` by `words`.
pub open spec fn spec_replace_words(
    m: StoreView,
    g: Seq<char>,
    name: Seq<char>,
    words: Seq<WordView>,
) -> StoreView {
    if table_lookup_outcome(m, g, name) is Ok {
        m.insert(
            g,
            m[g].update(table_position(m[g], name), WordTableView { name: name, words: words }),
        )
    } else {
        m
    }
}

/// The words of table `name` of group `g`; none where it does not exist.
pub open spec fn table_words(m: StoreView, g: Seq<char>, name: Seq<char>) -> Seq<WordView> {
    if table_lookup_outcome(m, g, name) is Ok {
        m[g][table_position(m[g], name)].words
    } else {
        Seq::empty()
    }
}

/// A group as it is handed in or out: its name and its tables.
pub type GroupEntry = (Seq<char>, Seq<WordTableView>);

/// The names of `entries`, in order.
pub open spec fn entry_names(entries: Seq<GroupEntry>) -> Seq<Seq<char>> {
    Seq::new(entries.len(), |i: int| entries[i].0)
}

/// Entries that a store can hold as they are: no two of one name, and in
/// none two tables of one name.
pub open spec fn valid_entries(entries: Seq<GroupEntry>) -> bool {
    &&& entry_names(entries).no_duplicates()
    &&& forall|i: int|
        0 <= i < entries.len() ==> table_names((#[trigger] entries[i]).1).no_duplicates()
}

/// The map that holds each of `entries` under its name; of two entries of
/// one name, the later.
pub open spec fn entries_map(entries: Seq<GroupEntry>) -> StoreView
    decreases entries.len(),
{
    if entries.len() == 0 {
        Map::empty()
    } else {
        entries_map(entries.drop_last()).insert(entries.last().0, entries.last().1)
    }
}

/// The store after `table` was added to group `g`: a new table is created
/// under its name, or under the next free name, and given its words.
pub open spec fn spec_add_table(m: StoreView, g: Seq<char>, table: WordTableView) -> StoreView {
    spec_replace_words(
        spec_create_table(m, g, table.name),
        g,
        created_table_name(m, g, table.name),
        table.words,
    )
}

/// The store after `tables` were added to group `g`, one after the other.
pub open spec fn spec_add_tables(
    m: StoreView,
    g: Seq<char>,
    tables: Seq<WordTableView>,
) -> StoreView
    decreases tables.len(),
{
    if tables.len() == 0 {
        m
    } else {
        spec_add_table(spec_add_tables(m, g, tables.drop_last()), g, tables.last())
    }
}

/// The store after group `g` was made sure to exist and `tables` were
/// added to it.
pub open spec fn spec_add_group(
    m: StoreView,
    g: Seq<char>,
    tables: Seq<WordTableView>,
) -> StoreView {
    spec_add_tables(spec_ensure_group(m, g), g, tables)
}

/// The store that is built from `entries`, one after the other.
pub open spec fn spec_from_groups(entries: Seq<GroupEntry>) -> StoreView
    decreases entries.len(),
{
    if entries.len() == 0 {
        Map::empty()
    } else {
        spec_add_group(
            spec_from_groups(entries.drop_last()),
            entries.last().0,
            entries.last().1,
        )
    }
}

/// Where names are unique, a table of the given name is at the position
/// that `table_position` gives.
pub proof fn lemma_table_position(tables: Seq<WordTableView>, name: Seq<char>, i: int)
    requires
        table_names(tables).no_duplicates(),
        0 <= i < tables.len(),
        tables[i].name == name,
    ensures
        has_table(tables, name),
        table_position(tables, name) == i,
{
    let names = table_names(tables);
    assert(names[i] == name);
    let c = table_position(tables, name);
    assert(0 <= c < tables.len() && names[c] == name);
}

/// A table is found exactly where some position holds its name.
pub proof fn lemma_has_table(tables: Seq<WordTableView>, name: Seq<char>)
    ensures
        has_table(tables, name) <==> exists|i: int|
            0 <= i < tables.len() && (#[trigger] tables[i]).name == name,
        has_table(tables, name) ==> 0 <= table_position(tables, name) < tables.len()
            && tables[table_position(tables, name)].name == name,
{
    let names = table_names(tables);
    if has_table(tables, name) {
        let i = choose|i: int| 0 <= i < names.len() && names[i] == name;
        assert(tables[i].name == name);
        let c = table_position(tables, name);
        assert(0 <= c < tables.len() && names[c] == name);
    }
    if exists|i: int| 0 <= i < tables.len() && (#[trigger] tables[i]).name == name {
        let i = choose|i: int| 0 <= i < tables.len() && (#[trigger] tables[i]).name == name;
        assert(names[i] == name);
    }
}

} // verus!
