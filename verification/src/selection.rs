//! Which group and table are open, and the paged view of a table.

use vstd::prelude::*;
use vstd::string::*;
use crate::model::{words_view, Word, WordView};

verus! {

/// A page of the table view holds this many words.
pub const WORDS_PER_PAGE: usize = 20;

/// What is open: a group, a table of it, and a page of that table.
#[derive(Debug)]
pub struct Selection {
    pub current_group: Option<String>,
    pub current_word_table: Option<String>,
    pub current_page: usize,
}

/// What a `Selection` is in contracts.
pub struct SelectionView {
    pub group: Option<Seq<char>>,
    pub table: Option<Seq<char>>,
    pub page: nat,
}

/// An optional name as an optional character sequence.
pub open spec fn name_view(name: Option<String>) -> Option<Seq<char>> {
    match name {
        Some(text) => Some(text@),
        None => None,
    }
}

impl View for Selection {
    type V = SelectionView;

    open spec fn view(&self) -> SelectionView {
        SelectionView {
            group: name_view(self.current_group),
            table: name_view(self.current_word_table),
            page: self.current_page as nat,
        }
    }
}

/// The selection after group `group` was clicked: the open group is
/// closed, another group is opened with no table chosen.
pub open spec fn spec_click_group(s: SelectionView, group: Seq<char>) -> SelectionView {
    if s.group == Some(group) {
        SelectionView { group: None, table: None, page: s.page }
    } else {
        SelectionView { group: Some(group), table: None, page: s.page }
    }
}

/// The selection after table `table` of the open group was chosen.
pub open spec fn spec_select_table(s: SelectionView, table: Seq<char>) -> SelectionView {
    SelectionView { group: s.group, table: Some(table), page: 0 }
}

/// The selection that shows table `table` of group `group` from its first
/// page.
pub open spec fn spec_show_table(group: Seq<char>, table: Seq<char>) -> SelectionView {
    SelectionView { group: Some(group), table: Some(table), page: 0 }
}

/// The selection after group `group` was deleted.
pub open spec fn spec_group_deleted(s: SelectionView, group: Seq<char>) -> SelectionView {
    if s.group == Some(group) {
        SelectionView { group: None, table: None, page: s.page }
    } else {
        s
    }
}

/// The selection after table `table` of group `group` was deleted.
pub open spec fn spec_table_deleted(
    s: SelectionView,
    group: Seq<char>,
    table: Seq<char>,
) -> SelectionView {
    if s.group == Some(group) && s.table == Some(table) {
        SelectionView { group: s.group, table: None, page: s.page }
    } else {
        s
    }
}

/// The number of pages that `word_count` words take: none for no words.
pub open spec fn spec_total_pages(word_count: nat) -> int {
    (word_count + WORDS_PER_PAGE - 1) / (WORDS_PER_PAGE as int)
}

/// Where page `page` of `word_count` words starts.
pub open spec fn page_start(word_count: nat, page: nat) -> int {
    if page * WORDS_PER_PAGE < word_count {
        page * WORDS_PER_PAGE
    } else {
        word_count as int
    }
}

/// Where page `page` of `word_count` words ends.
pub open spec fn page_end(word_count: nat, page: nat) -> int {
    if page * WORDS_PER_PAGE + WORDS_PER_PAGE < word_count {
        page * WORDS_PER_PAGE + WORDS_PER_PAGE
    } else {
        word_count as int
    }
}

/// The words of page `page`.
pub open spec fn spec_page_words(words: Seq<WordView>, page: nat) -> Seq<WordView> {
    words.subrange(page_start(words.len(), page), page_end(words.len(), page))
}

/// Whether `name` is the text of `current`.
pub fn is_name(current: &Option<String>, name: &str) -> (same: bool)
    ensures
        same == (name_view(*current) == Some(name@)),
{
    match current {
        Some(text) => {
            let wanted = String::from_str(name);
            *text == wanted
        },
        None => false,
    }
}

/// The number of pages that `word_count` words take.
pub fn total_pages(word_count: usize) -> (pages: usize)
    ensures
        pages == spec_total_pages(word_count as nat),
{
    if word_count == 0 {
        0
    } else {
        (word_count - 1) / WORDS_PER_PAGE + 1
    }
}

/// The bounds of page `page` among `word_count` words.
pub fn page_bounds(word_count: usize, page: usize) -> (bounds: (usize, usize))
    ensures
        bounds.0 == page_start(word_count as nat, page as nat),
        bounds.1 == page_end(word_count as nat, page as nat),
        bounds.0 <= bounds.1 <= word_count,
{
    assert(page * WORDS_PER_PAGE == page * 20) by (nonlinear_arith);
    if page >= word_count / WORDS_PER_PAGE + 1 {
        (word_count, word_count)
    } else {
        let start = page * WORDS_PER_PAGE;
        if start >= word_count {
            (word_count, word_count)
        } else if word_count - start > WORDS_PER_PAGE {
            (start, start + WORDS_PER_PAGE)
        } else {
            (start, word_count)
        }
    }
}

/// Copies the words of page `page` of `words`.
pub fn page_words(words: &Vec<Word>, page: usize) -> (shown: Vec<Word>)
    ensures
        words_view(shown@) == spec_page_words(words_view(words@), page as nat),
{
    let (start, end) = page_bounds(words.len(), page);
    let mut shown: Vec<Word> = Vec::new();
    let mut i = start;
    while i < end
        invariant
            start <= i <= end <= words@.len(),
            shown@.len() == i - start,
            forall|j: int| 0 <= j < shown@.len() ==> shown@[j]@ == words@[start + j]@,
        decreases end - i,
    {
        shown.push(words[i].clone());
        i += 1;
    }
    assert(words_view(shown@) =~= spec_page_words(words_view(words@), page as nat));
    shown
}

impl Selection {
    /// Nothing open.
    pub fn new() -> (selection: Self)
        ensures
            selection@ == (SelectionView { group: None, table: None, page: 0 }),
    {
        Selection { current_group: None, current_word_table: None, current_page: 0 }
    }

    /// A click on group `group`: the open group is closed by it, another
    /// group is opened; either way no table is chosen afterwards.
    pub fn click_group(&mut self, group: &str)
        ensures
            final(self)@ == spec_click_group(old(self)@, group@),
    {
        if is_name(&self.current_group, group) {
            self.current_group = None;
        } else {
            self.current_group = Some(String::from_str(group));
        }
        self.current_word_table = None;
    }

    /// Chooses table `table` and shows its first page.
    pub fn select_table(&mut self, table: &str)
        ensures
            final(self)@ == spec_select_table(old(self)@, table@),
    {
        self.current_word_table = Some(String::from_str(table));
        self.current_page = 0;
    }

    /// Opens group `group` with table `table`, on its first page.
    pub fn show_table(&mut self, group: &str, table: &str)
        ensures
            final(self)@ == spec_show_table(group@, table@),
    {
        self.current_group = Some(String::from_str(group));
        self.current_word_table = Some(String::from_str(table));
        self.current_page = 0;
    }

    /// Follows the deletion of group `group`: if it was open, nothing is
    /// open afterwards.
    pub fn group_deleted(&mut self, group: &str)
        ensures
            final(self)@ == spec_group_deleted(old(self)@, group@),
    {
        if is_name(&self.current_group, group) {
            self.current_group = None;
            self.current_word_table = None;
        }
    }

    /// Follows the deletion of table `table` of group `group`: if it was
    /// the table chosen, none is chosen afterwards.
    pub fn table_deleted(&mut self, group: &str, table: &str)
        ensures
            final(self)@ == spec_table_deleted(old(self)@, group@, table@),
    {
        if is_name(&self.current_group, group) && is_name(&self.current_word_table, table) {
            self.current_word_table = None;
        }
    }
}

} // verus!
