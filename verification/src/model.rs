//! The data held by the store: words and word tables, with their
//! mathematical views.

use vstd::prelude::*;

verus! {

/// One english/chinese pair. `group` repeats the name of the group that the
/// word was entered under; nothing looks a word up by it.
#[derive(Debug, PartialEq, Eq)]
pub struct Word {
    pub english: String,
    pub chinese: String,
    pub group: String,
}

/// What a `Word` is in contracts: its three texts as character sequences.
pub struct WordView {
    pub english: Seq<char>,
    pub chinese: Seq<char>,
    pub group: Seq<char>,
}

impl View for Word {
    type V = WordView;

    open spec fn view(&self) -> WordView {
        WordView { english: self.english@, chinese: self.chinese@, group: self.group@ }
    }
}

impl Clone for Word {
    fn clone(&self) -> (copy: Self)
        ensures
            copy@ == self@,
    {
        Word {
            english: self.english.clone(),
            chinese: self.chinese.clone(),
            group: self.group.clone(),
        }
    }
}

/// A named, ordered collection of words.
#[derive(Debug, PartialEq, Eq)]
pub struct WordTable {
    pub name: String,
    pub words: Vec<Word>,
}

/// What a `WordTable` is in contracts.
pub struct WordTableView {
    pub name: Seq<char>,
    pub words: Seq<WordView>,
}

/// The views of a sequence of words, in order.
pub open spec fn words_view(words: Seq<Word>) -> Seq<WordView> {
    Seq::new(words.len(), |i: int| words[i]@)
}

/// The views of a sequence of tables, in order.
pub open spec fn tables_view(tables: Seq<WordTable>) -> Seq<WordTableView> {
    Seq::new(tables.len(), |i: int| tables[i]@)
}

impl View for WordTable {
    type V = WordTableView;

    open spec fn view(&self) -> WordTableView {
        WordTableView { name: self.name@, words: words_view(self.words@) }
    }
}

/// Copies a vector of words.
pub fn clone_words(words: &Vec<Word>) -> (copy: Vec<Word>)
    ensures
        words_view(copy@) == words_view(words@),
{
    let mut copy: Vec<Word> = Vec::new();
    let mut i: usize = 0;
    while i < words.len()
        invariant
            i <= words@.len(),
            copy@.len() == i,
            forall|j: int| 0 <= j < i ==> copy@[j]@ == words@[j]@,
        decreases words@.len() - i,
    {
        copy.push(words[i].clone());
        i += 1;
    }
    assert(words_view(copy@) =~= words_view(words@));
    copy
}

impl Clone for WordTable {
    fn clone(&self) -> (copy: Self)
        ensures
            copy@ == self@,
    {
        WordTable { name: self.name.clone(), words: clone_words(&self.words) }
    }
}

/// Copies a vector of tables.
pub fn clone_tables(tables: &Vec<WordTable>) -> (copy: Vec<WordTable>)
    ensures
        tables_view(copy@) == tables_view(tables@),
{
    let mut copy: Vec<WordTable> = Vec::new();
    let mut i: usize = 0;
    while i < tables.len()
        invariant
            i <= tables@.len(),
            copy@.len() == i,
            forall|j: int| 0 <= j < i ==> copy@[j]@ == tables@[j]@,
        decreases tables@.len() - i,
    {
        copy.push(tables[i].clone());
        i += 1;
    }
    assert(tables_view(copy@) =~= tables_view(tables@));
    copy
}

} // verus!
