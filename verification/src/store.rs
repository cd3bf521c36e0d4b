//! The executable word store.
//!
//! Groups are kept in a vector, in the order in which they were created.
//! Its view is the map of `store_spec`; the contracts here say which map an
//! operation leaves and which outcome it reports.

use vstd::prelude::*;
use vstd::string::*;
use crate::model::{
    clone_tables, clone_words, tables_view, words_view, Word, WordTable, WordTableView,
};
use crate::naming::{
    first_free_name, is_first_free, lemma_first_free_unique, lemma_taken_names_bounded,
    numbered_name, numbered_name_text,
};
use crate::store_laws::lemma_from_groups;
use crate::store_spec::{
    created_group_name, created_table_name, delete_group_outcome, entries_map, entry_names,
    group_tables, has_table, lemma_has_table, lemma_table_position, rename_group_outcome,
    rename_table_outcome, spec_add_tables, spec_create_group, spec_create_table,
    spec_delete_group, spec_delete_table, spec_ensure_group, spec_from_groups,
    spec_rename_group, spec_rename_table, spec_replace_words, table_lookup_outcome, table_names,
    table_position, table_words, valid_entries, valid_store, GroupEntry, StoreError, StoreView,
};

verus! {

/// A group: its name and its tables.
#[derive(Debug)]
struct Group {
    name: String,
    tables: Vec<WordTable>,
}

/// The word store: groups of word tables.
#[derive(Debug)]
pub struct FlashMemory {
    groups: Vec<Group>,
}

/// The names of `groups`, in order.
spec fn group_names(groups: Seq<Group>) -> Seq<Seq<char>> {
    Seq::new(groups.len(), |i: int| groups[i].name@)
}

/// The group holds no two tables of one name.
spec fn group_ok(group: Group) -> bool {
    table_names(tables_view(group.tables@)).no_duplicates()
}

/// No two groups share a name, and no group holds two tables of one name.
spec fn groups_wf(groups: Seq<Group>) -> bool {
    &&& group_names(groups).no_duplicates()
    &&& forall|i: int| 0 <= i < groups.len() ==> group_ok(#[trigger] groups[i])
}

/// The map that `groups` stands for.
spec fn groups_view(groups: Seq<Group>) -> StoreView {
    Map::new(
        |k: Seq<char>| group_names(groups).contains(k),
        |k: Seq<char>| tables_view(groups[group_names(groups).index_of(k)].tables@),
    )
}

/// Each group is in the map under its name, with its tables.
proof fn lemma_groups_lookup(groups: Seq<Group>, i: int)
    requires
        group_names(groups).no_duplicates(),
        0 <= i < groups.len(),
    ensures
        groups_view(groups).contains_key(groups[i].name@),
        groups_view(groups)[groups[i].name@] == tables_view(groups[i].tables@),
{
    let names = group_names(groups);
    assert(names[i] == groups[i].name@);
    let c = names.index_of(groups[i].name@);
    assert(0 <= c < names.len() && names[c] == groups[i].name@);
}

/// A key of the map is the name of some group.
proof fn lemma_groups_key(groups: Seq<Group>, k: Seq<char>) -> (i: int)
    requires
        groups_view(groups).contains_key(k),
    ensures
        0 <= i < groups.len(),
        groups[i].name@ == k,
{
    let names = group_names(groups);
    let i = choose|i: int| 0 <= i < names.len() && names[i] == k;
    i
}

/// The map of well-formed groups is a valid store.
proof fn lemma_groups_valid(groups: Seq<Group>)
    requires
        groups_wf(groups),
    ensures
        valid_store(groups_view(groups)),
        groups_view(groups).dom().len() == groups.len(),
{
    let names = group_names(groups);
    let m = groups_view(groups);
    assert(m.dom() =~= names.to_set());
    vstd::seq_lib::seq_to_set_is_finite(names);
    names.unique_seq_to_set();
    assert forall|g: Seq<char>| #[trigger] m.contains_key(g) implies table_names(
        m[g],
    ).no_duplicates() by {
        let i = lemma_groups_key(groups, g);
        lemma_groups_lookup(groups, i);
    }
}

/// Adding a group under a fresh name inserts it into the map.
proof fn lemma_groups_push(groups: Seq<Group>, g: Group)
    requires
        groups_wf(groups),
        !groups_view(groups).contains_key(g.name@),
        table_names(tables_view(g.tables@)).no_duplicates(),
    ensures
        groups_wf(groups.push(g)),
        groups_view(groups.push(g)) == groups_view(groups).insert(
            g.name@,
            tables_view(g.tables@),
        ),
{
    let after = groups.push(g);
    let names = group_names(groups);
    let names_after = group_names(after);
    assert(names_after =~= names.push(g.name@));
    assert forall|i: int, j: int|
        0 <= i < names_after.len() && 0 <= j < names_after.len() && i != j implies names_after[i]
        != names_after[j] by {
        if i < names.len() {
            assert(names.contains(names[i]));
        }
        if j < names.len() {
            assert(names.contains(names[j]));
        }
    }
    assert forall|i: int| 0 <= i < after.len() implies group_ok(#[trigger] after[i]) by {
        if i < groups.len() {
            assert(after[i] == groups[i]);
        }
    }
    let want = groups_view(groups).insert(g.name@, tables_view(g.tables@));
    assert forall|k: Seq<char>| groups_view(after).contains_key(k) <==> want.contains_key(
        k,
    ) by {
        if groups_view(after).contains_key(k) {
            let i = lemma_groups_key(after, k);
            if i < groups.len() {
                assert(names[i] == k);
            }
        }
        if want.contains_key(k) {
            if k == g.name@ {
                assert(names_after[groups.len() as int] == k);
            } else {
                let i = lemma_groups_key(groups, k);
                assert(names_after[i] == k);
            }
        }
    }
    assert forall|k: Seq<char>| groups_view(after).contains_key(k) implies groups_view(after)[k]
        == want[k] by {
        let i = lemma_groups_key(after, k);
        lemma_groups_lookup(after, i);
        if i < groups.len() {
            lemma_groups_lookup(groups, i);
        }
    }
    assert(groups_view(after) =~= want);
}

/// Replacing the tables of one group replaces its entry in the map.
proof fn lemma_groups_set_tables(groups: Seq<Group>, i: int, g: Group)
    requires
        groups_wf(groups),
        0 <= i < groups.len(),
        g.name@ == groups[i].name@,
        table_names(tables_view(g.tables@)).no_duplicates(),
    ensures
        groups_wf(groups.update(i, g)),
        groups_view(groups.update(i, g)) == groups_view(groups).insert(
            g.name@,
            tables_view(g.tables@),
        ),
{
    let after = groups.update(i, g);
    assert(group_names(after) =~= group_names(groups));
    assert forall|j: int| 0 <= j < after.len() implies group_ok(#[trigger] after[j]) by {
        if j != i {
            assert(after[j] == groups[j]);
        }
    }
    let want = groups_view(groups).insert(g.name@, tables_view(g.tables@));
    lemma_groups_lookup(groups, i);
    assert forall|k: Seq<char>| groups_view(after).contains_key(k) implies groups_view(after)[k]
        == want[k] by {
        let j = lemma_groups_key(after, k);
        lemma_groups_lookup(after, j);
        if j != i {
            lemma_groups_lookup(groups, j);
            assert(group_names(groups)[j] != group_names(groups)[i]);
        }
    }
    assert(groups_view(after) =~= want);
}

/// Renaming one group to a fresh name moves its entry in the map.
proof fn lemma_groups_rename(groups: Seq<Group>, i: int, g: Group)
    requires
        groups_wf(groups),
        0 <= i < groups.len(),
        g.tables@ == groups[i].tables@,
        !groups_view(groups).contains_key(g.name@),
    ensures
        groups_wf(groups.update(i, g)),
        groups_view(groups.update(i, g)) == groups_view(groups).remove(groups[i].name@).insert(
            g.name@,
            tables_view(groups[i].tables@),
        ),
{
    let after = groups.update(i, g);
    let names = group_names(groups);
    let names_after = group_names(after);
    assert(names_after =~= names.update(i, g.name@));
    assert forall|a: int, b: int|
        0 <= a < names_after.len() && 0 <= b < names_after.len() && a != b implies names_after[a]
        != names_after[b] by {
        if a != i {
            assert(names.contains(names[a]));
        }
        if b != i {
            assert(names.contains(names[b]));
        }
    }
    assert forall|j: int| 0 <= j < after.len() implies group_ok(#[trigger] after[j]) by {
        if j != i {
            assert(after[j] == groups[j]);
        } else {
            assert(after[j].tables@ == groups[i].tables@);
        }
    }
    let want = groups_view(groups).remove(groups[i].name@).insert(
        g.name@,
        tables_view(groups[i].tables@),
    );
    lemma_groups_lookup(groups, i);
    assert forall|k: Seq<char>| groups_view(after).contains_key(k) <==> want.contains_key(
        k,
    ) by {
        if groups_view(after).contains_key(k) {
            let j = lemma_groups_key(after, k);
            if j != i {
                assert(names[j] == k);
                assert(names[j] != names[i]);
            }
        }
        if want.contains_key(k) {
            if k != g.name@ {
                let j = lemma_groups_key(groups, k);
                assert(names_after[j] == k);
            } else {
                assert(names_after[i] == k);
            }
        }
    }
    assert forall|k: Seq<char>| groups_view(after).contains_key(k) implies groups_view(after)[k]
        == want[k] by {
        let j = lemma_groups_key(after, k);
        lemma_groups_lookup(after, j);
        if j != i {
            lemma_groups_lookup(groups, j);
            assert(names[j] == k);
            assert(names[j] != names[i]);
            assert(groups_view(groups).contains_key(k));
        }
    }
    assert(groups_view(after) =~= want);
}

/// Taking one group out removes its entry from the map.
proof fn lemma_groups_remove(groups: Seq<Group>, i: int)
    requires
        groups_wf(groups),
        0 <= i < groups.len(),
    ensures
        groups_wf(groups.remove(i)),
        groups_view(groups.remove(i)) == groups_view(groups).remove(groups[i].name@),
{
    let after = groups.remove(i);
    let names = group_names(groups);
    let names_after = group_names(after);
    assert(names_after =~= names.remove(i));
    assert forall|a: int, b: int|
        0 <= a < names_after.len() && 0 <= b < names_after.len() && a != b implies names_after[a]
        != names_after[b] by {
        let a0 = if a < i { a } else { a + 1 };
        let b0 = if b < i { b } else { b + 1 };
        assert(names_after[a] == names[a0]);
        assert(names_after[b] == names[b0]);
    }
    assert forall|j: int| 0 <= j < after.len() implies group_ok(#[trigger] after[j]) by {
        let j0 = if j < i { j } else { j + 1 };
        assert(after[j] == groups[j0]);
    }
    let want = groups_view(groups).remove(groups[i].name@);
    assert forall|k: Seq<char>| groups_view(after).contains_key(k) <==> want.contains_key(
        k,
    ) by {
        if groups_view(after).contains_key(k) {
            let j = lemma_groups_key(after, k);
            let j0 = if j < i { j } else { j + 1 };
            assert(names[j0] == k);
            assert(names[j0] != names[i]);
        }
        if want.contains_key(k) {
            let j = lemma_groups_key(groups, k);
            let j1 = if j < i { j } else { j - 1 };
            assert(names_after[j1] == k);
        }
    }
    assert forall|k: Seq<char>| groups_view(after).contains_key(k) implies groups_view(after)[k]
        == want[k] by {
        let j = lemma_groups_key(after, k);
        let j0 = if j < i { j } else { j + 1 };
        lemma_groups_lookup(after, j);
        lemma_groups_lookup(groups, j0);
        assert(after[j] == groups[j0]);
        assert(names[j0] == k);
        assert(names[j0] != names[i]);
    }
    assert(groups_view(after) =~= want);
}

/// Groups as they are handed in or out, in contracts.
pub open spec fn entries_view(groups: Seq<(String, Vec<WordTable>)>) -> Seq<GroupEntry> {
    Seq::new(groups.len(), |i: int| (groups[i].0@, tables_view(groups[i].1@)))
}

/// Well-formed groups, written out as entries, are entries that a store
/// can hold as they are, and their map is the map of the groups.
proof fn lemma_groups_entries(groups: Seq<Group>, entries: Seq<GroupEntry>)
    requires
        groups_wf(groups),
        entries.len() == groups.len(),
        forall|i: int|
            0 <= i < groups.len() ==> entries[i] == (
                groups[i].name@,
                tables_view(groups[i].tables@),
            ),
    ensures
        valid_entries(entries),
        entries_map(entries) == groups_view(groups),
    decreases groups.len(),
{
    assert(entry_names(entries) =~= group_names(groups));
    if groups.len() > 0 {
        let init = groups.drop_last();
        let last = groups.last();
        let names = group_names(groups);
        assert(group_names(init) =~= names.drop_last());
        assert(groups_wf(init)) by {
            assert forall|a: int, b: int|
                0 <= a < init.len() && 0 <= b < init.len() && a != b implies group_names(
                init,
            )[a] != group_names(init)[b] by {
                assert(group_names(init)[a] == names[a]);
                assert(group_names(init)[b] == names[b]);
            }
            assert forall|i: int| 0 <= i < init.len() implies group_ok(#[trigger] init[i]) by {
                assert(init[i] == groups[i]);
            }
        }
        lemma_groups_entries(init, entries.drop_last());
        assert(!groups_view(init).contains_key(last.name@)) by {
            if groups_view(init).contains_key(last.name@) {
                let p = lemma_groups_key(init, last.name@);
                assert(names[p] == last.name@);
                assert(names[groups.len() - 1] == last.name@);
            }
        }
        assert(group_ok(groups[groups.len() - 1]));
        lemma_groups_push(init, last);
        assert(init.push(last) =~= groups);
    } else {
        assert(groups_view(groups) =~= Map::<Seq<char>, Seq<WordTableView>>::empty());
    }
}

/// The position of the table called `name`, if there is one.
fn find_table(tables: &Vec<WordTable>, name: &String) -> (found: Option<usize>)
    ensures
        match found {
            Some(j) => j < tables@.len() && tables@[j as int].name@ == name@ && has_table(
                tables_view(tables@),
                name@,
            ) && (table_names(tables_view(tables@)).no_duplicates() ==> table_position(
                tables_view(tables@),
                name@,
            ) == j),
            None => !has_table(tables_view(tables@), name@),
        },
{
    let mut j: usize = 0;
    while j < tables.len()
        invariant
            j <= tables@.len(),
            forall|p: int| 0 <= p < j ==> tables@[p].name@ != name@,
        decreases tables@.len() - j,
    {
        if tables[j].name == *name {
            proof {
                let tv = tables_view(tables@);
                assert(tv[j as int].name == name@);
                lemma_has_table(tv, name@);
                if table_names(tv).no_duplicates() {
                    lemma_table_position(tv, name@, j as int);
                }
            }
            return Some(j);
        }
        j += 1;
    }
    proof {
        let tv = tables_view(tables@);
        lemma_has_table(tv, name@);
        assert forall|p: int| 0 <= p < tv.len() implies (#[trigger] tv[p]).name != name@ by {
            assert(tv[p] == tables@[p]@);
        }
    }
    None
}

impl View for FlashMemory {
    type V = StoreView;

    closed spec fn view(&self) -> StoreView {
        groups_view(self.groups@)
    }
}

impl FlashMemory {
    /// The representation invariant: what every constructor establishes and
    /// every operation keeps.
    pub closed spec fn wf(&self) -> bool {
        groups_wf(self.groups@)
    }

    /// A well-formed store stands for a valid map.
    pub proof fn lemma_valid(&self)
        requires
            self.wf(),
        ensures
            valid_store(self@),
    {
        lemma_groups_valid(self.groups@);
    }

    /// An empty store.
    pub fn new() -> (store: Self)
        ensures
            store.wf(),
            store@ == Map::<Seq<char>, Seq<WordTableView>>::empty(),
    {
        let store = FlashMemory { groups: Vec::new() };
        assert(group_names(store.groups@) =~= Seq::empty());
        assert(store@ =~= Map::<Seq<char>, Seq<WordTableView>>::empty());
        store
    }

    /// The position of the group called `name`, if there is one.
    fn find_group(&self, name: &String) -> (found: Option<usize>)
        requires
            self.wf(),
        ensures
            match found {
                Some(i) => i < self.groups@.len() && self.groups@[i as int].name@ == name@
                    && self@.contains_key(name@) && self@[name@] == tables_view(
                    self.groups@[i as int].tables@,
                ),
                None => !self@.contains_key(name@),
            },
    {
        let mut i: usize = 0;
        while i < self.groups.len()
            invariant
                self.wf(),
                i <= self.groups@.len(),
                forall|p: int| 0 <= p < i ==> self.groups@[p].name@ != name@,
            decreases self.groups@.len() - i,
        {
            if self.groups[i].name == *name {
                proof {
                    lemma_groups_lookup(self.groups@, i as int);
                }
                return Some(i);
            }
            i += 1;
        }
        proof {
            if self@.contains_key(name@) {
                let p = lemma_groups_key(self.groups@, name@);
            }
        }
        None
    }

    /// Kept for callers of an earlier interface: does nothing.
    pub fn add_word(&mut self, word: Word)
        ensures
            *final(self) == *old(self),
    {
    }

    /// Makes sure that group `group` exists, creating it empty if it does
    /// not.
    pub fn create_group_if_absent(&mut self, group: &str)
        requires
            old(self).wf(),
        ensures
            final(self).wf(),
            final(self)@ == spec_ensure_group(old(self)@, group@),
    {
        let name = String::from_str(group);
        if self.find_group(&name).is_none() {
            let g = Group { name, tables: Vec::new() };
            proof {
                assert(table_names(tables_view(g.tables@)) =~= Seq::empty());
                assert(tables_view(g.tables@) =~= Seq::empty());
                lemma_groups_push(self.groups@, g);
            }
            self.groups.push(g);
        }
    }

    /// Adds an empty group. It is called `base` if that name is free, else
    /// the first free of `base2`, `base3`, ... The name that was given is
    /// returned.
    pub fn create_group(&mut self, base: &str) -> (actual: String)
        requires
            old(self).wf(),
        ensures
            final(self).wf(),
            actual@ == created_group_name(old(self)@, base@),
            final(self)@ == spec_create_group(old(self)@, base@),
    {
        let ghost taken = self@.dom();
        let count = self.groups.len();
        proof {
            lemma_groups_valid(self.groups@);
        }
        let mut k: u128 = 1;
        let mut name = String::from_str(base);
        let mut in_use = self.find_group(&name).is_some();
        while in_use
            invariant
                self.wf(),
                *self == *old(self),
                taken == self@.dom(),
                taken.finite(),
                taken.len() == count,
                1 <= k <= count + 1,
                name@ == numbered_name(base@, k as nat),
                in_use == taken.contains(name@),
                forall|j: nat| 1 <= j < k ==> taken.contains(#[trigger] numbered_name(base@, j)),
            decreases count + 1 - k,
        {
            proof {
                lemma_taken_names_bounded(taken, base@, k as nat);
            }
            k += 1;
            name = numbered_name_text(base, k);
            in_use = self.find_group(&name).is_some();
        }
        proof {
            assert(is_first_free(taken, base@, k as nat));
            lemma_first_free_unique(taken, base@, k as nat);
        }
        let actual = name.clone();
        let g = Group { name, tables: Vec::new() };
        proof {
            assert(table_names(tables_view(g.tables@)) =~= Seq::empty());
            assert(tables_view(g.tables@) =~= Seq::empty());
            lemma_groups_push(self.groups@, g);
        }
        self.groups.push(g);
        actual
    }

    /// Whether group `group` exists.
    pub fn contains_group(&self, group: &str) -> (found: bool)
        requires
            self.wf(),
        ensures
            found == self@.contains_key(group@),
    {
        let name = String::from_str(group);
        self.find_group(&name).is_some()
    }

    /// Adds an empty table to group `group`, creating the group if needed.
    /// The table is called `table_name` if that name is free in the group,
    /// else the first free of `table_name2`, `table_name3`, ... The name
    /// that was given is returned.
    pub fn create_word_table(&mut self, group: &str, table_name: &str) -> (actual: String)
        requires
            old(self).wf(),
        ensures
            final(self).wf(),
            actual@ == created_table_name(old(self)@, group@, table_name@),
            final(self)@ == spec_create_table(old(self)@, group@, table_name@),
    {
        let group_name = String::from_str(group);
        let i = match self.find_group(&group_name) {
            Some(i) => i,
            None => {
                let g = Group { name: group_name, tables: Vec::new() };
                proof {
                    assert(table_names(tables_view(g.tables@)) =~= Seq::empty());
                    assert(tables_view(g.tables@) =~= Seq::empty());
                    lemma_groups_push(self.groups@, g);
                    lemma_groups_lookup(self.groups@.push(g), self.groups@.len() as int);
                }
                self.groups.push(g);
                self.groups.len() - 1
            },
        };
        let ghost mid = self.groups@;
        let ghost before = tables_view(mid[i as int].tables@);
        let ghost names = table_names(before);
        let ghost taken = names.to_set();
        proof {
            vstd::seq_lib::seq_to_set_is_finite(names);
            names.lemma_cardinality_of_set();
        }
        assert(before == group_tables(old(self)@, group@));
        assert(groups_view(mid) == spec_ensure_group(old(self)@, group@));

        let count = self.groups[i].tables.len();
        let mut k: u128 = 1;
        let mut name = String::from_str(table_name);
        let mut in_use = find_table(&self.groups[i].tables, &name).is_some();
        while in_use
            invariant
                self.groups@ == mid,
                0 <= i < mid.len(),
                before == tables_view(mid[i as int].tables@),
                names == table_names(before),
                taken == names.to_set(),
                taken.finite(),
                taken.len() <= count,
                1 <= k <= count + 1,
                name@ == numbered_name(table_name@, k as nat),
                in_use == has_table(before, name@),
                forall|j: nat| 1 <= j < k ==> taken.contains(#[trigger] numbered_name(table_name@, j)),
            decreases count + 1 - k,
        {
            proof {
                lemma_taken_names_bounded(taken, table_name@, k as nat);
            }
            k += 1;
            name = numbered_name_text(table_name, k);
            in_use = find_table(&self.groups[i].tables, &name).is_some();
        }
        proof {
            assert(is_first_free(taken, table_name@, k as nat));
            lemma_first_free_unique(taken, table_name@, k as nat);
            assert(name@ == first_free_name(taken, table_name@));
        }
        let actual = name.clone();
        let table = WordTable { name, words: Vec::new() };
        self.groups[i].tables.push(table);
        proof {
            let g = self.groups@[i as int];
            let after = tables_view(g.tables@);
            assert(words_view(table.words@) =~= Seq::empty());
            assert(after =~= before.push(table@));
            assert(table_names(after) =~= names.push(actual@));
            assert forall|a: int, b: int|
                0 <= a < after.len() && 0 <= b < after.len() && a != b implies table_names(
                after,
            )[a] != table_names(after)[b] by {
                if a < names.len() {
                    assert(names.contains(names[a]));
                }
                if b < names.len() {
                    assert(names.contains(names[b]));
                }
            }
            assert(self.groups@ =~= mid.update(i as int, g));
            lemma_groups_set_tables(mid, i as int, g);
            lemma_groups_lookup(mid, i as int);
            assert(final(self)@ =~= spec_create_table(old(self)@, group@, table_name@));
        }
        actual
    }

    /// Renames group `old_name` to `new_name`. Renaming a group to its own
    /// name succeeds and changes nothing, whether or not the group exists.
    /// A name that another group has is refused with `DuplicateName`, a
    /// group that does not exist with `NotFound`; the store is then left as
    /// it was.
    pub fn rename_group(&mut self, old_name: &str, new_name: &str) -> (outcome: Result<(), StoreError>)
        requires
            old(self).wf(),
        ensures
            final(self).wf(),
            outcome == rename_group_outcome(old(self)@, old_name@, new_name@),
            final(self)@ == spec_rename_group(old(self)@, old_name@, new_name@),
    {
        let old_text = String::from_str(old_name);
        let new_text = String::from_str(new_name);
        if old_text == new_text {
            return Ok(());
        }
        if self.find_group(&new_text).is_some() {
            return Err(StoreError::DuplicateName);
        }
        match self.find_group(&old_text) {
            Some(i) => {
                let ghost before = self.groups@;
                self.groups[i].name = new_text;
                proof {
                    let g = self.groups@[i as int];
                    assert(self.groups@ =~= before.update(i as int, g));
                    lemma_groups_rename(before, i as int, g);
                }
                Ok(())
            },
            None => Err(StoreError::NotFound),
        }
    }

    /// Renames table `old_name` of group `group` to `new_name`. Renaming a
    /// table to its own name succeeds and changes nothing. A missing group
    /// or table is refused with `NotFound`, a name that a sibling table has
    /// with `DuplicateName`; the store is then left as it was.
    pub fn rename_word_table(&mut self, group: &str, old_name: &str, new_name: &str) -> (outcome:
        Result<(), StoreError>)
        requires
            old(self).wf(),
        ensures
            final(self).wf(),
            outcome == rename_table_outcome(old(self)@, group@, old_name@, new_name@),
            final(self)@ == spec_rename_table(old(self)@, group@, old_name@, new_name@),
    {
        let old_text = String::from_str(old_name);
        let new_text = String::from_str(new_name);
        if old_text == new_text {
            return Ok(());
        }
        let group_name = String::from_str(group);
        let i = match self.find_group(&group_name) {
            Some(i) => i,
            None => {
                return Err(StoreError::NotFound);
            },
        };
        if find_table(&self.groups[i].tables, &new_text).is_some() {
            return Err(StoreError::DuplicateName);
        }
        match find_table(&self.groups[i].tables, &old_text) {
            Some(j) => {
                let ghost before = self.groups@;
                let ghost tables = tables_view(before[i as int].tables@);
                self.groups[i].tables[j].name = new_text;
                proof {
                    let g = self.groups@[i as int];
                    let after = tables_view(g.tables@);
                    let renamed = WordTableView {
                        name: new_name@,
                        words: tables[j as int].words,
                    };
                    assert(after =~= tables.update(j as int, renamed));
                    assert(table_names(after) =~= table_names(tables).update(
                        j as int,
                        new_name@,
                    ));
                    assert forall|a: int, b: int|
                        0 <= a < after.len() && 0 <= b < after.len() && a
                            != b implies table_names(after)[a] != table_names(after)[b] by {
                        if a != j {
                            assert(table_names(tables).contains(table_names(tables)[a]));
                        }
                        if b != j {
                            assert(table_names(tables).contains(table_names(tables)[b]));
                        }
                    }
                    assert(self.groups@ =~= before.update(i as int, g));
                    lemma_groups_set_tables(before, i as int, g);
                }
                Ok(())
            },
            None => Err(StoreError::NotFound),
        }
    }

    /// Deletes group `group` with all its tables. A group that does not
    /// exist is refused with `NotFound`.
    pub fn delete_group(&mut self, group: &str) -> (outcome: Result<(), StoreError>)
        requires
            old(self).wf(),
        ensures
            final(self).wf(),
            outcome == delete_group_outcome(old(self)@, group@),
            final(self)@ == spec_delete_group(old(self)@, group@),
            outcome is Err ==> final(self)@ == old(self)@,
    {
        let group_name = String::from_str(group);
        match self.find_group(&group_name) {
            Some(i) => {
                proof {
                    lemma_groups_remove(self.groups@, i as int);
                }
                self.groups.remove(i);
                Ok(())
            },
            None => {
                assert(self@.remove(group@) =~= self@);
                Err(StoreError::NotFound)
            },
        }
    }

    /// Deletes table `table_name` of group `group`, and no other. A missing
    /// group or table is refused with `NotFound`.
    pub fn delete_word_table(&mut self, group: &str, table_name: &str) -> (outcome: Result<
        (),
        StoreError,
    >)
        requires
            old(self).wf(),
        ensures
            final(self).wf(),
            outcome == table_lookup_outcome(old(self)@, group@, table_name@),
            final(self)@ == spec_delete_table(old(self)@, group@, table_name@),
    {
        let group_name = String::from_str(group);
        let i = match self.find_group(&group_name) {
            Some(i) => i,
            None => {
                return Err(StoreError::NotFound);
            },
        };
        let name = String::from_str(table_name);
        match find_table(&self.groups[i].tables, &name) {
            Some(j) => {
                let ghost before = self.groups@;
                let ghost tables = tables_view(before[i as int].tables@);
                self.groups[i].tables.remove(j);
                proof {
                    let g = self.groups@[i as int];
                    let after = tables_view(g.tables@);
                    assert(after =~= tables.remove(j as int));
                    assert(table_names(after) =~= table_names(tables).remove(j as int));
                    assert forall|a: int, b: int|
                        0 <= a < after.len() && 0 <= b < after.len() && a
                            != b implies table_names(after)[a] != table_names(after)[b] by {
                        let a0 = if a < j { a } else { a + 1 };
                        let b0 = if b < j { b } else { b + 1 };
                        assert(table_names(after)[a] == table_names(tables)[a0]);
                        assert(table_names(after)[b] == table_names(tables)[b0]);
                    }
                    assert(self.groups@ =~= before.update(i as int, g));
                    lemma_groups_set_tables(before, i as int, g);
                }
                Ok(())
            },
            None => Err(StoreError::NotFound),
        }
    }

    /// The names of all groups, each once, in no particular order.
    pub fn get_groups(&self) -> (names: Vec<&String>)
        requires
            self.wf(),
        ensures
            names@.len() == self@.dom().len(),
            forall|i: int| 0 <= i < names@.len() ==> self@.contains_key(#[trigger] names@[i]@),
            forall|i: int, j: int|
                0 <= i < names@.len() && 0 <= j < names@.len() && i != j ==> names@[i]@
                    != names@[j]@,
            forall|k: Seq<char>|
                self@.contains_key(k) ==> exists|i: int|
                    0 <= i < names@.len() && #[trigger] names@[i]@ == k,
    {
        let mut names: Vec<&String> = Vec::new();
        let mut i: usize = 0;
        while i < self.groups.len()
            invariant
                i <= self.groups@.len(),
                names@.len() == i,
                forall|p: int| 0 <= p < i ==> names@[p]@ == self.groups@[p].name@,
            decreases self.groups@.len() - i,
        {
            names.push(&self.groups[i].name);
            i += 1;
        }
        proof {
            lemma_groups_valid(self.groups@);
            let all = group_names(self.groups@);
            assert forall|p: int| 0 <= p < names@.len() implies self@.contains_key(
                #[trigger] names@[p]@,
            ) by {
                lemma_groups_lookup(self.groups@, p);
            }
            assert forall|p: int, q: int|
                0 <= p < names@.len() && 0 <= q < names@.len() && p != q implies names@[p]@
                != names@[q]@ by {
                assert(all[p] == names@[p]@);
                assert(all[q] == names@[q]@);
            }
            assert forall|k: Seq<char>| self@.contains_key(k) implies exists|p: int|
                0 <= p < names@.len() && #[trigger] names@[p]@ == k by {
                let p = lemma_groups_key(self.groups@, k);
                assert(names@[p]@ == k);
            }
        }
        names
    }

    /// The tables of group `group`, in order; `None` where the group does
    /// not exist.
    pub fn get_word_tables_in_group(&self, group: &str) -> (tables: Option<&Vec<WordTable>>)
        requires
            self.wf(),
        ensures
            match tables {
                Some(found) => self@.contains_key(group@) && tables_view(found@) == self@[group@],
                None => !self@.contains_key(group@),
            },
    {
        let group_name = String::from_str(group);
        match self.find_group(&group_name) {
            Some(i) => Some(&self.groups[i].tables),
            None => None,
        }
    }

    /// Kept for callers of an earlier interface: always `None`.
    pub fn get_words_in_group(&self, group: &str) -> (words: Option<&Vec<Word>>)
        ensures
            words is None,
    {
        None
    }

    /// Replaces the words of table `table_name` of group `group` by
    /// `words`; what the table held before is dropped. A missing group or
    /// table is refused with `NotFound`.
    pub fn add_words_to_table(&mut self, group: &str, table_name: &str, words: Vec<Word>) -> (outcome:
        Result<(), StoreError>)
        requires
            old(self).wf(),
        ensures
            final(self).wf(),
            outcome == table_lookup_outcome(old(self)@, group@, table_name@),
            final(self)@ == spec_replace_words(
                old(self)@,
                group@,
                table_name@,
                words_view(words@),
            ),
    {
        let group_name = String::from_str(group);
        let i = match self.find_group(&group_name) {
            Some(i) => i,
            None => {
                return Err(StoreError::NotFound);
            },
        };
        let name = String::from_str(table_name);
        match find_table(&self.groups[i].tables, &name) {
            Some(j) => {
                let ghost before = self.groups@;
                let ghost tables = tables_view(before[i as int].tables@);
                self.groups[i].tables[j].words = words;
                proof {
                    let g = self.groups@[i as int];
                    let after = tables_view(g.tables@);
                    let replaced = WordTableView { name: table_name@, words: words_view(words@) };
                    assert(after =~= tables.update(j as int, replaced));
                    assert(table_names(after) =~= table_names(tables));
                    assert(self.groups@ =~= before.update(i as int, g));
                    lemma_groups_set_tables(before, i as int, g);
                }
                Ok(())
            },
            None => Err(StoreError::NotFound),
        }
    }

    /// The words of table `table_name` of group `group`; `None` where the
    /// group or the table does not exist.
    pub fn get_words_in_table(&self, group: &str, table_name: &str) -> (words: Option<&Vec<Word>>)
        requires
            self.wf(),
        ensures
            (words is Some) == (table_lookup_outcome(self@, group@, table_name@) is Ok),
            match words {
                Some(found) => words_view(found@) == table_words(self@, group@, table_name@),
                None => true,
            },
    {
        let group_name = String::from_str(group);
        let i = match self.find_group(&group_name) {
            Some(i) => i,
            None => {
                return None;
            },
        };
        let name = String::from_str(table_name);
        match find_table(&self.groups[i].tables, &name) {
            Some(j) => {
                proof {
                    let tables = tables_view(self.groups@[i as int].tables@);
                    assert(tables[j as int] == self.groups@[i as int].tables@[j as int]@);
                }
                Some(&self.groups[i].tables[j].words)
            },
            None => None,
        }
    }

    /// Adds `tables` to group `group`, which exists, one after the other:
    /// each under its name, or under the next free name where its name is
    /// taken, with a copy of its words.
    fn add_tables(&mut self, group: &str, tables: &Vec<WordTable>)
        requires
            old(self).wf(),
        ensures
            final(self).wf(),
            final(self)@ == spec_add_tables(old(self)@, group@, tables_view(tables@)),
    {
        let ghost all = tables_view(tables@);
        let mut j: usize = 0;
        assert(all.take(0) =~= Seq::<WordTableView>::empty());
        while j < tables.len()
            invariant
                self.wf(),
                j <= tables@.len(),
                all == tables_view(tables@),
                self@ == spec_add_tables(old(self)@, group@, all.take(j as int)),
            decreases tables@.len() - j,
        {
            proof {
                assert(all.take(j + 1).drop_last() =~= all.take(j as int));
                assert(all.take(j + 1).last() == tables@[j as int]@);
            }
            let actual = self.create_word_table(group, tables[j].name.as_str());
            let words = clone_words(&tables[j].words);
            let _ = self.add_words_to_table(group, actual.as_str(), words);
            j += 1;
        }
        assert(all.take(tables@.len() as int) =~= all);
    }

    /// Builds a store from groups that were handed out by `to_groups`, or
    /// read from elsewhere. The groups are added one after the other, each
    /// with its tables in their order. Where a name occurs twice, the
    /// tables of both groups are gathered under it, and a table whose name
    /// is taken in its group is filed under the next free name.
    pub fn from_groups(groups: &Vec<(String, Vec<WordTable>)>) -> (store: Self)
        ensures
            store.wf(),
            store@ == spec_from_groups(entries_view(groups@)),
    {
        let ghost entries = entries_view(groups@);
        let mut store = FlashMemory::new();
        let mut i: usize = 0;
        assert(entries.take(0) =~= Seq::<GroupEntry>::empty());
        while i < groups.len()
            invariant
                store.wf(),
                i <= groups@.len(),
                entries == entries_view(groups@),
                store@ == spec_from_groups(entries.take(i as int)),
            decreases groups@.len() - i,
        {
            proof {
                assert(entries.take(i + 1).drop_last() =~= entries.take(i as int));
                assert(entries.take(i + 1).last() == entries[i as int]);
            }
            store.create_group_if_absent(groups[i].0.as_str());
            store.add_tables(groups[i].0.as_str(), &groups[i].1);
            i += 1;
        }
        assert(entries.take(groups@.len() as int) =~= entries);
        store
    }

    /// Hands out everything that the store holds: each group once, as its
    /// name and a copy of its tables. A store built from these by
    /// `from_groups` is the store that they were taken from.
    pub fn to_groups(&self) -> (groups: Vec<(String, Vec<WordTable>)>)
        requires
            self.wf(),
        ensures
            valid_entries(entries_view(groups@)),
            entries_map(entries_view(groups@)) == self@,
            spec_from_groups(entries_view(groups@)) == self@,
    {
        let mut groups: Vec<(String, Vec<WordTable>)> = Vec::new();
        let mut i: usize = 0;
        while i < self.groups.len()
            invariant
                i <= self.groups@.len(),
                groups@.len() == i,
                forall|p: int|
                    0 <= p < i ==> groups@[p].0@ == self.groups@[p].name@ && tables_view(
                        groups@[p].1@,
                    ) == tables_view(self.groups@[p].tables@),
            decreases self.groups@.len() - i,
        {
            let name = self.groups[i].name.clone();
            let tables = clone_tables(&self.groups[i].tables);
            groups.push((name, tables));
            i += 1;
        }
        proof {
            lemma_groups_entries(self.groups@, entries_view(groups@));
            lemma_from_groups(entries_view(groups@));
        }
        groups
    }
}

} // verus!
