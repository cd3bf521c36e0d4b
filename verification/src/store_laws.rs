//! Laws of the word store, stated over the map that a store stands for.

use vstd::prelude::*;
use crate::model::{WordTableView, WordView};
use crate::naming::{
    decimal, first_free_position, is_first_free, lemma_first_free_exists,
    lemma_first_free_unique, numbered_name,
};
use crate::store_spec::{
    created_group_name, created_table_name, delete_group_outcome, entries_map, entry_names,
    group_tables, has_table, lemma_has_table, lemma_table_position, rename_group_outcome,
    rename_table_outcome, spec_add_tables, spec_create_group, spec_create_table,
    spec_delete_group, spec_delete_table, spec_ensure_group, spec_from_groups,
    spec_rename_group, spec_rename_table, spec_replace_words, table_lookup_outcome, table_names,
    table_position, table_words, valid_entries, valid_store, GroupEntry, StoreError, StoreView,
};

verus! {

/// Renaming a group to the name it has succeeds and leaves the store as it
/// was, whatever the store and the name.
pub proof fn lemma_rename_group_to_own_name(m: StoreView, g: Seq<char>)
    ensures
        rename_group_outcome(m, g, g) == Ok::<(), StoreError>(()),
        spec_rename_group(m, g, g) == m,
{
}

/// Renaming a table to the name it has succeeds and leaves the store as it
/// was, whatever the store, the group and the name.
pub proof fn lemma_rename_table_to_own_name(m: StoreView, g: Seq<char>, t: Seq<char>)
    ensures
        rename_table_outcome(m, g, t, t) == Ok::<(), StoreError>(()),
        spec_rename_table(m, g, t, t) == m,
{
}

/// Renaming a group to the name of another group is refused as a duplicate,
/// and the store, with both groups, is left as it was.
pub proof fn lemma_rename_group_collision(m: StoreView, old_name: Seq<char>, new_name: Seq<char>)
    requires
        old_name != new_name,
        m.contains_key(new_name),
    ensures
        rename_group_outcome(m, old_name, new_name) == Err::<(), StoreError>(
            StoreError::DuplicateName,
        ),
        spec_rename_group(m, old_name, new_name) == m,
{
}

/// Renaming a table to the name of a sibling table is refused as a
/// duplicate, and the store, with both tables, is left as it was.
pub proof fn lemma_rename_table_collision(
    m: StoreView,
    g: Seq<char>,
    old_name: Seq<char>,
    new_name: Seq<char>,
)
    requires
        old_name != new_name,
        m.contains_key(g),
        has_table(m[g], new_name),
    ensures
        rename_table_outcome(m, g, old_name, new_name) == Err::<(), StoreError>(
            StoreError::DuplicateName,
        ),
        spec_rename_table(m, g, old_name, new_name) == m,
{
}

/// Once a group is deleted it is gone with all its tables: the group is
/// not found, it has no tables, and looking up, renaming, deleting or
/// filling any table under its name reports `NotFound` and changes
/// nothing.
pub proof fn lemma_delete_group_cascade(
    m: StoreView,
    g: Seq<char>,
    t: Seq<char>,
    new_name: Seq<char>,
    words: Seq<WordView>,
)
    ensures
        ({
            let after = spec_delete_group(m, g);
            &&& !after.contains_key(g)
            &&& group_tables(after, g) == Seq::<WordTableView>::empty()
            &&& delete_group_outcome(after, g) == Err::<(), StoreError>(StoreError::NotFound)
            &&& table_lookup_outcome(after, g, t) == Err::<(), StoreError>(StoreError::NotFound)
            &&& table_words(after, g, t) == Seq::<WordView>::empty()
            &&& spec_delete_table(after, g, t) == after
            &&& spec_replace_words(after, g, t, words) == after
            &&& t != new_name ==> rename_table_outcome(after, g, t, new_name) == Err::<
                (),
                StoreError,
            >(StoreError::NotFound)
            &&& spec_rename_table(after, g, t, new_name) == after
        }),
{
}

/// Deleting a group leaves every other group as it was.
pub proof fn lemma_delete_group_keeps_others(m: StoreView, g: Seq<char>, other: Seq<char>)
    requires
        other != g,
    ensures
        spec_delete_group(m, g).contains_key(other) == m.contains_key(other),
        m.contains_key(other) ==> spec_delete_group(m, g)[other] == m[other],
{
}

/// The name that a new table gets is the first of `base`, `base2`,
/// `base3`, ... that no table of the group has.
pub proof fn lemma_created_table_name(m: StoreView, g: Seq<char>, base: Seq<char>)
    ensures
        ({
            let taken = table_names(group_tables(m, g)).to_set();
            let k = first_free_position(taken, base);
            &&& created_table_name(m, g, base) == numbered_name(base, k)
            &&& is_first_free(taken, base, k)
            &&& k <= group_tables(m, g).len() + 1
            &&& !has_table(group_tables(m, g), created_table_name(m, g, base))
        }),
{
    let names = table_names(group_tables(m, g));
    vstd::seq_lib::seq_to_set_is_finite(names);
    names.lemma_cardinality_of_set();
    lemma_first_free_exists(names.to_set(), base);
}

/// In a group that has tables `base` and `base2` but not `base3`, a new
/// table asked for as `base` is called `base3`.
pub proof fn lemma_third_table_name(m: StoreView, g: Seq<char>, base: Seq<char>)
    requires
        m.contains_key(g),
        has_table(m[g], base),
        has_table(m[g], base + seq!['2']),
        !has_table(m[g], base + seq!['3']),
    ensures
        created_table_name(m, g, base) == base + seq!['3'],
{
    let taken = table_names(m[g]).to_set();
    assert(decimal(2) =~= seq!['2']);
    assert(decimal(3) =~= seq!['3']);
    assert(numbered_name(base, 1) == base);
    assert(numbered_name(base, 2) == base + seq!['2']);
    assert(numbered_name(base, 3) == base + seq!['3']);
    assert forall|j: nat| 1 <= j < 3 implies taken.contains(#[trigger] numbered_name(base, j)) by {
        if j == 1 {
        } else {
            assert(j == 2);
        }
    }
    assert(is_first_free(taken, base, 3));
    lemma_first_free_unique(taken, base, 3);
}

/// Creating a table keeps the store valid: the new table's name is new to
/// its group, so names stay unique.
pub proof fn lemma_create_table_valid(m: StoreView, g: Seq<char>, base: Seq<char>)
    requires
        valid_store(m),
    ensures
        valid_store(spec_create_table(m, g, base)),
{
    let after = spec_create_table(m, g, base);
    let tables = group_tables(m, g);
    let name = created_table_name(m, g, base);
    lemma_created_table_name(m, g, base);
    let added = tables.push(WordTableView { name: name, words: Seq::empty() });
    assert(table_names(added) =~= table_names(tables).push(name));
    assert(table_names(tables).no_duplicates()) by {
        if m.contains_key(g) {
        } else {
            assert(table_names(tables) =~= Seq::<Seq<char>>::empty());
        }
    }
    assert forall|a: int, b: int|
        0 <= a < added.len() && 0 <= b < added.len() && a != b implies table_names(added)[a]
        != table_names(added)[b] by {
        if a < tables.len() {
            assert(table_names(tables).contains(table_names(tables)[a]));
        }
        if b < tables.len() {
            assert(table_names(tables).contains(table_names(tables)[b]));
        }
    }
    assert(after.dom() =~= m.dom().insert(g));
    assert forall|k: Seq<char>| #[trigger] after.contains_key(k) implies table_names(
        after[k],
    ).no_duplicates() by {
        if k != g {
            assert(m.contains_key(k));
        }
    }
}

/// Creating a group keeps the store valid, and the group is new.
pub proof fn lemma_create_group_valid(m: StoreView, base: Seq<char>)
    requires
        valid_store(m),
    ensures
        valid_store(spec_create_group(m, base)),
        !m.contains_key(created_group_name(m, base)),
        spec_create_group(m, base).contains_key(created_group_name(m, base)),
{
    lemma_first_free_exists(m.dom(), base);
    let after = spec_create_group(m, base);
    let name = created_group_name(m, base);
    assert(after.dom() =~= m.dom().insert(name));
    assert(table_names(Seq::<WordTableView>::empty()) =~= Seq::<Seq<char>>::empty());
    assert forall|k: Seq<char>| #[trigger] after.contains_key(k) implies table_names(
        after[k],
    ).no_duplicates() by {
        if k != name {
            assert(m.contains_key(k));
        }
    }
}

/// Making sure that a group exists keeps the store valid, and is the same
/// done once or twice.
pub proof fn lemma_ensure_group(m: StoreView, g: Seq<char>)
    requires
        valid_store(m),
    ensures
        valid_store(spec_ensure_group(m, g)),
        spec_ensure_group(m, g).contains_key(g),
        spec_ensure_group(spec_ensure_group(m, g), g) == spec_ensure_group(m, g),
{
    let after = spec_ensure_group(m, g);
    assert(table_names(Seq::<WordTableView>::empty()) =~= Seq::<Seq<char>>::empty());
    if !m.contains_key(g) {
        assert(after.dom() =~= m.dom().insert(g));
        assert forall|k: Seq<char>| #[trigger] after.contains_key(k) implies table_names(
            after[k],
        ).no_duplicates() by {
            if k != g {
                assert(m.contains_key(k));
            }
        }
    }
}

/// Renaming a group keeps the store valid; where it succeeds under a new
/// name, the tables are found under the new name and the old name is gone.
pub proof fn lemma_rename_group_valid(m: StoreView, old_name: Seq<char>, new_name: Seq<char>)
    requires
        valid_store(m),
    ensures
        valid_store(spec_rename_group(m, old_name, new_name)),
        old_name != new_name && rename_group_outcome(m, old_name, new_name) is Ok ==> {
            let after = spec_rename_group(m, old_name, new_name);
            &&& !after.contains_key(old_name)
            &&& after.contains_key(new_name)
            &&& after[new_name] == m[old_name]
        },
{
    let after = spec_rename_group(m, old_name, new_name);
    if old_name != new_name && rename_group_outcome(m, old_name, new_name) is Ok {
        assert(after.dom() =~= m.dom().remove(old_name).insert(new_name));
        assert forall|k: Seq<char>| #[trigger] after.contains_key(k) implies table_names(
            after[k],
        ).no_duplicates() by {
            if k != new_name {
                assert(m.contains_key(k));
            } else {
                assert(m.contains_key(old_name));
            }
        }
    }
}

/// Deleting a group keeps the store valid.
pub proof fn lemma_delete_group_valid(m: StoreView, g: Seq<char>)
    requires
        valid_store(m),
    ensures
        valid_store(spec_delete_group(m, g)),
{
    let after = spec_delete_group(m, g);
    assert(after.dom() =~= m.dom().remove(g));
    assert forall|k: Seq<char>| #[trigger] after.contains_key(k) implies table_names(
        after[k],
    ).no_duplicates() by {
        assert(m.contains_key(k));
    }
}

/// Replacing the tables of an existing group by tables with unique names
/// keeps the store valid.
proof fn lemma_set_tables_valid(m: StoreView, g: Seq<char>, tables: Seq<WordTableView>)
    requires
        valid_store(m),
        m.contains_key(g),
        table_names(tables).no_duplicates(),
    ensures
        valid_store(m.insert(g, tables)),
{
    let after = m.insert(g, tables);
    assert(after.dom() =~= m.dom());
    assert forall|k: Seq<char>| #[trigger] after.contains_key(k) implies table_names(
        after[k],
    ).no_duplicates() by {
        if k != g {
            assert(m.contains_key(k));
        }
    }
}

/// Renaming a table keeps the store valid; where it succeeds under a new
/// name, the table is found under the new name with its words, and the
/// old name is gone from the group.
pub proof fn lemma_rename_table_valid(
    m: StoreView,
    g: Seq<char>,
    old_name: Seq<char>,
    new_name: Seq<char>,
)
    requires
        valid_store(m),
    ensures
        valid_store(spec_rename_table(m, g, old_name, new_name)),
        old_name != new_name && rename_table_outcome(m, g, old_name, new_name) is Ok ==> {
            let after = spec_rename_table(m, g, old_name, new_name);
            &&& has_table(after[g], new_name)
            &&& !has_table(after[g], old_name)
            &&& table_words(after, g, new_name) == table_words(m, g, old_name)
            &&& after[g].len() == m[g].len()
        },
{
    if old_name != new_name && rename_table_outcome(m, g, old_name, new_name) is Ok {
        let tables = m[g];
        let names = table_names(tables);
        lemma_has_table(tables, old_name);
        lemma_has_table(tables, new_name);
        let i = table_position(tables, old_name);
        let renamed = tables.update(i, WordTableView { name: new_name, words: tables[i].words });
        let names_after = table_names(renamed);
        assert(names_after =~= names.update(i, new_name));
        assert forall|a: int, b: int|
            0 <= a < renamed.len() && 0 <= b < renamed.len() && a != b implies names_after[a]
            != names_after[b] by {
            if a != i {
                assert(names.contains(names[a]));
            }
            if b != i {
                assert(names.contains(names[b]));
            }
        }
        lemma_set_tables_valid(m, g, renamed);
        assert(names_after[i] == new_name);
        assert(has_table(renamed, new_name));
        lemma_table_position(renamed, new_name, i);
        if has_table(renamed, old_name) {
            let p = choose|p: int| 0 <= p < names_after.len() && names_after[p] == old_name;
            assert(names[p] == old_name);
            assert(names[i] == old_name);
        }
        let after = spec_rename_table(m, g, old_name, new_name);
        assert(after[g] == renamed);
    }
}

/// Deleting a table keeps the store valid; where it succeeds, the table
/// is gone and every other table of the group is kept.
pub proof fn lemma_delete_table_valid(m: StoreView, g: Seq<char>, name: Seq<char>)
    requires
        valid_store(m),
    ensures
        valid_store(spec_delete_table(m, g, name)),
        table_lookup_outcome(m, g, name) is Ok ==> {
            let after = spec_delete_table(m, g, name);
            &&& after.contains_key(g)
            &&& !has_table(after[g], name)
            &&& after[g].len() == m[g].len() - 1
            &&& forall|other: Seq<char>|
                other != name ==> has_table(after[g], other) == has_table(m[g], other)
        },
{
    if table_lookup_outcome(m, g, name) is Ok {
        let tables = m[g];
        let names = table_names(tables);
        lemma_has_table(tables, name);
        let i = table_position(tables, name);
        let rest = tables.remove(i);
        let names_after = table_names(rest);
        assert(names_after =~= names.remove(i));
        assert forall|a: int, b: int|
            0 <= a < rest.len() && 0 <= b < rest.len() && a != b implies names_after[a]
            != names_after[b] by {
            let a0 = if a < i { a } else { a + 1 };
            let b0 = if b < i { b } else { b + 1 };
            assert(names_after[a] == names[a0]);
            assert(names_after[b] == names[b0]);
        }
        lemma_set_tables_valid(m, g, rest);
        if has_table(rest, name) {
            let p = choose|p: int| 0 <= p < names_after.len() && names_after[p] == name;
            let p0 = if p < i { p } else { p + 1 };
            assert(names[p0] == name);
            assert(names[i] == name);
        }
        assert forall|other: Seq<char>| other != name implies has_table(rest, other)
            == has_table(tables, other) by {
            if has_table(rest, other) {
                let p = choose|p: int| 0 <= p < names_after.len() && names_after[p] == other;
                let p0 = if p < i { p } else { p + 1 };
                assert(names[p0] == other);
            }
            if has_table(tables, other) {
                let p = choose|p: int| 0 <= p < names.len() && names[p] == other;
                let p1 = if p < i { p } else { p - 1 };
                assert(names_after[p1] == other);
            }
        }
        let after = spec_delete_table(m, g, name);
        assert(after[g] == rest);
    }
}

/// Replacing the words of a table keeps the store valid; where it
/// succeeds, the table holds exactly the new words, whatever it held
/// before, and the names of the group's tables are as they were.
pub proof fn lemma_replace_words_valid(
    m: StoreView,
    g: Seq<char>,
    name: Seq<char>,
    words: Seq<WordView>,
)
    requires
        valid_store(m),
    ensures
        valid_store(spec_replace_words(m, g, name, words)),
        table_lookup_outcome(m, g, name) is Ok ==> {
            let after = spec_replace_words(m, g, name, words);
            &&& table_lookup_outcome(after, g, name) is Ok
            &&& table_words(after, g, name) == words
            &&& table_names(after[g]) == table_names(m[g])
        },
{
    if table_lookup_outcome(m, g, name) is Ok {
        let tables = m[g];
        lemma_has_table(tables, name);
        let i = table_position(tables, name);
        let filled = tables.update(i, WordTableView { name: name, words: words });
        assert(table_names(filled) =~= table_names(tables));
        lemma_set_tables_valid(m, g, filled);
        lemma_table_position(filled, name, i);
        let after = spec_replace_words(m, g, name, words);
        assert(after[g] == filled);
    }
}

/// A name that no table of the group has is given to a new table as it
/// is.
pub proof fn lemma_free_name_is_kept(m: StoreView, g: Seq<char>, base: Seq<char>)
    requires
        !has_table(group_tables(m, g), base),
    ensures
        created_table_name(m, g, base) == base,
{
    let taken = table_names(group_tables(m, g)).to_set();
    assert(is_first_free(taken, base, 1));
    lemma_first_free_unique(taken, base, 1);
}

/// Tables whose names are new to the group and differ from one another
/// are added as they are, after the tables that the group has.
pub proof fn lemma_add_tables(m: StoreView, g: Seq<char>, tables: Seq<WordTableView>)
    requires
        m.contains_key(g),
        table_names(m[g] + tables).no_duplicates(),
    ensures
        spec_add_tables(m, g, tables) == m.insert(g, m[g] + tables),
    decreases tables.len(),
{
    if tables.len() == 0 {
        assert(m[g] + tables =~= m[g]);
        assert(m.insert(g, m[g]) =~= m);
    } else {
        let init = tables.drop_last();
        let last = tables.last();
        let all = m[g] + tables;
        let held = m[g] + init;
        assert(held =~= all.drop_last());
        assert(table_names(held) =~= table_names(all).drop_last());
        assert(table_names(held).no_duplicates()) by {
            let names = table_names(all);
            assert forall|a: int, b: int|
                0 <= a < held.len() && 0 <= b < held.len() && a != b implies table_names(held)[a]
                != table_names(held)[b] by {
                assert(table_names(held)[a] == names[a]);
                assert(table_names(held)[b] == names[b]);
            }
        }
        lemma_add_tables(m, g, init);
        let before = m.insert(g, held);
        assert(spec_add_tables(m, g, init) == before);
        assert(!has_table(held, last.name)) by {
            let names = table_names(all);
            if has_table(held, last.name) {
                let p = choose|p: int|
                    0 <= p < table_names(held).len() && table_names(held)[p] == last.name;
                assert(names[p] == last.name);
                assert(names[all.len() - 1] == last.name);
            }
        }
        lemma_free_name_is_kept(before, g, last.name);
        let created = held.push(WordTableView { name: last.name, words: Seq::empty() });
        let made = spec_create_table(before, g, last.name);
        assert(made == before.insert(g, created));
        assert(created.push(last).drop_last() =~= created);
        assert(table_names(created) =~= table_names(all)) by {
            assert(all =~= held.push(last));
        }
        lemma_table_position(created, last.name, held.len() as int);
        assert(created.update(held.len() as int, last) =~= all);
        assert(before.insert(g, created).insert(g, all) =~= m.insert(g, all));
    }
}

/// Built from entries that a store can hold as they are, the store holds
/// exactly these: each group under its name with its tables, their names
/// and words, in their order. So a store that is handed out as entries and
/// built again from them is the store that it was.
pub proof fn lemma_from_groups(entries: Seq<GroupEntry>)
    requires
        valid_entries(entries),
    ensures
        spec_from_groups(entries) == entries_map(entries),
        forall|g: Seq<char>|
            entries_map(entries).contains_key(g)
                <==> entry_names(entries).contains(g),
    decreases entries.len(),
{
    let names = entry_names(entries);
    if entries.len() > 0 {
        let init = entries.drop_last();
        let last = entries.last();
        let init_names = entry_names(init);
        assert(init_names =~= names.drop_last());
        assert(valid_entries(init)) by {
            assert forall|a: int, b: int|
                0 <= a < init_names.len() && 0 <= b < init_names.len() && a
                    != b implies init_names[a] != init_names[b] by {
                assert(init_names[a] == names[a]);
                assert(init_names[b] == names[b]);
            }
            assert forall|i: int| 0 <= i < init.len() implies table_names(
                (#[trigger] init[i]).1,
            ).no_duplicates() by {
                assert(init[i] == entries[i]);
            }
        }
        lemma_from_groups(init);
        let m = entries_map(init);
        assert(!m.contains_key(last.0)) by {
            if init_names.contains(last.0) {
                let p = choose|p: int| 0 <= p < init_names.len() && init_names[p] == last.0;
                assert(names[p] == last.0);
                assert(names[entries.len() - 1] == last.0);
            }
        }
        let opened = spec_ensure_group(m, last.0);
        assert(opened == m.insert(last.0, Seq::empty()));
        assert(opened[last.0] + last.1 =~= last.1);
        assert(table_names(entries[entries.len() - 1].1).no_duplicates());
        lemma_add_tables(opened, last.0, last.1);
        assert(opened.insert(last.0, last.1) =~= m.insert(last.0, last.1));
        assert forall|g: Seq<char>|
            entries_map(entries).contains_key(g) <==> names.contains(g) by {
            if names.contains(g) {
                let p = choose|p: int| 0 <= p < names.len() && names[p] == g;
                if p < init.len() {
                    assert(init_names[p] == g);
                }
            }
            if init_names.contains(g) {
                let p = choose|p: int| 0 <= p < init_names.len() && init_names[p] == g;
                assert(names[p] == g);
            }
            if g == last.0 {
                assert(names[entries.len() - 1] == g);
            }
        }
    } else {
        assert forall|g: Seq<char>|
            entries_map(entries).contains_key(g) <==> names.contains(g) by {}
    }
}

} // verus!
