//! The application state behind the window: the store, what is open, what
//! is being renamed or edited, the study session and the message that is
//! on show. Each user action is one operation here; the host draws the
//! state, keeps the text boxes and the clock, and saves the store when an
//! operation says that it changed.

use vstd::prelude::*;
use vstd::string::*;
use crate::model::{clone_words, words_view, Word, WordView};
use crate::parser::{
    count_lines, parse_text, parse_words_from_text, text_truncated, words_shown, words_text,
    words_to_text, MAX_LINES,
};
use crate::selection::{
    page_words, spec_click_group, spec_group_deleted, spec_page_words, spec_select_table,
    spec_show_table, spec_table_deleted, spec_total_pages, total_pages, Selection,
    SelectionView,
};
use crate::session::{
    advance_progress, idle_session, spec_advance, spec_pause, spec_resume, spec_start,
    start_outcome, FlashMode, Progress, StartOutcome, StudySession,
};
use crate::store::FlashMemory;
use crate::store_spec::{
    created_group_name, created_table_name, delete_group_outcome, rename_group_outcome,
    rename_table_outcome, spec_create_group, spec_create_table, spec_delete_group,
    spec_delete_table, spec_rename_group, spec_rename_table, spec_replace_words,
    table_lookup_outcome, table_words, StoreError, StoreView,
};
use crate::text::{trim, validate_name};

verus! {

/// A message stays on show for this many nanoseconds.
pub const MESSAGE_TIME: u64 = 3_000_000_000;

/// What the user is told. The host puts it into words.
#[derive(Debug, Clone, Copy, PartialEq, Eq, Structural)]
pub enum Notice {
    /// A group was created and can be renamed at once.
    GroupCreated,
    /// A group name may not be blank.
    GroupNameEmpty,
    /// A group was renamed.
    GroupRenamed,
    /// A group was deleted.
    GroupDeleted,
    /// A table was created and can be renamed at once.
    TableCreated,
    /// A table name may not be blank.
    TableNameEmpty,
    /// A table was renamed.
    TableRenamed,
    /// A table was deleted.
    TableDeleted,
    /// The store refused an operation on a group.
    GroupRefused(StoreError),
    /// The store refused an operation on a table.
    TableRefused(StoreError),
    /// The edited text holds no word.
    NoValidWords,
    /// This many words were saved into the table.
    WordsSaved(usize),
    /// The store refused to take the edited words.
    SaveRefused(StoreError),
    /// A session cannot start on an empty table.
    EmptyTable,
    /// The session has shown its last word.
    SessionComplete,
}

/// What saving an edited text came to.
#[derive(Debug, Clone, Copy, PartialEq, Eq, Structural)]
pub struct SaveOutcome {
    /// The table was filled; the store is to be saved.
    pub saved: bool,
    /// The text had more lines than are read; only the first were used.
    pub truncated: bool,
}

/// The application state.
#[derive(Debug)]
pub struct FlashMemoryApp {
    pub flash_memory: FlashMemory,
    pub selection: Selection,
    pub renaming_group_active: bool,
    pub renaming_word_table_active: bool,
    /// The group and table whose text is being edited.
    pub editing_word_table: Option<(String, String)>,
    pub session: StudySession,
    pub message: Option<Notice>,
    /// Nanoseconds for which the message stays on show.
    pub message_remaining: u64,
}

/// What the application state is in contracts.
pub struct AppView {
    pub store: StoreView,
    pub selection: SelectionView,
    pub renaming_group: bool,
    pub renaming_table: bool,
    pub editing: Option<(Seq<char>, Seq<char>)>,
    pub session: StudySession,
    pub message: Option<Notice>,
    pub message_remaining: nat,
}

/// An optional pair of names as character sequences.
pub open spec fn editing_view(editing: Option<(String, String)>) -> Option<
    (Seq<char>, Seq<char>),
> {
    match editing {
        Some((group, table)) => Some((group@, table@)),
        None => None,
    }
}

impl View for FlashMemoryApp {
    type V = AppView;

    open spec fn view(&self) -> AppView {
        AppView {
            store: self.flash_memory@,
            selection: self.selection@,
            renaming_group: self.renaming_group_active,
            renaming_table: self.renaming_word_table_active,
            editing: editing_view(self.editing_word_table),
            session: self.session,
            message: self.message,
            message_remaining: self.message_remaining as nat,
        }
    }
}

/// The state with `notice` put on show.
pub open spec fn with_message(v: AppView, notice: Notice) -> AppView {
    AppView { message: Some(notice), message_remaining: MESSAGE_TIME as nat, ..v }
}

/// The state after `dt` nanoseconds of showing the message: a message
/// whose time is up is taken down.
pub open spec fn spec_tick_message(v: AppView, dt: nat) -> AppView {
    if v.message_remaining == 0 {
        v
    } else if dt >= v.message_remaining {
        AppView { message: None, message_remaining: 0, ..v }
    } else {
        AppView { message_remaining: (v.message_remaining - dt) as nat, ..v }
    }
}

/// A table is open and exists in the store.
pub open spec fn table_is_open(v: AppView) -> bool {
    match (v.selection.group, v.selection.table) {
        (Some(group), Some(table)) => table_lookup_outcome(v.store, group, table) is Ok,
        _ => false,
    }
}

/// The words of the table that is open; none where no table is open or it
/// does not exist.
pub open spec fn current_words(v: AppView) -> Seq<WordView> {
    match (v.selection.group, v.selection.table) {
        (Some(group), Some(table)) => table_words(v.store, group, table),
        _ => Seq::empty(),
    }
}

/// The state after a new group asked for as `base` was created: it is
/// open and being renamed.
pub open spec fn spec_create_new_group(v: AppView, base: Seq<char>) -> AppView {
    with_message(
        AppView {
            store: spec_create_group(v.store, base),
            selection: SelectionView {
                group: Some(created_group_name(v.store, base)),
                ..v.selection
            },
            renaming_group: true,
            ..v
        },
        Notice::GroupCreated,
    )
}

/// The state after the new name `input` for group `old_name` was
/// confirmed.
pub open spec fn spec_confirm_group_rename(
    v: AppView,
    old_name: Seq<char>,
    input: Seq<char>,
) -> AppView {
    let name = trim(input);
    let closed = AppView { renaming_group: false, ..v };
    if name.len() == 0 {
        with_message(closed, Notice::GroupNameEmpty)
    } else {
        match rename_group_outcome(v.store, old_name, name) {
            Ok(_) => with_message(
                AppView {
                    store: spec_rename_group(v.store, old_name, name),
                    selection: SelectionView { group: Some(name), ..v.selection },
                    ..closed
                },
                Notice::GroupRenamed,
            ),
            Err(e) => with_message(closed, Notice::GroupRefused(e)),
        }
    }
}

/// Whether confirming the new name `input` for group `old_name` renames.
pub open spec fn group_rename_succeeds(v: AppView, old_name: Seq<char>, input: Seq<char>) -> bool {
    trim(input).len() > 0 && rename_group_outcome(v.store, old_name, trim(input)) is Ok
}

/// The state after the new name `input` for table `old_name` of group
/// `group` was confirmed.
pub open spec fn spec_confirm_table_rename(
    v: AppView,
    group: Seq<char>,
    old_name: Seq<char>,
    input: Seq<char>,
) -> AppView {
    let name = trim(input);
    let closed = AppView { renaming_table: false, ..v };
    if name.len() == 0 {
        with_message(closed, Notice::TableNameEmpty)
    } else {
        match rename_table_outcome(v.store, group, old_name, name) {
            Ok(_) => with_message(
                AppView {
                    store: spec_rename_table(v.store, group, old_name, name),
                    selection: SelectionView { table: Some(name), ..v.selection },
                    ..closed
                },
                Notice::TableRenamed,
            ),
            Err(e) => with_message(closed, Notice::TableRefused(e)),
        }
    }
}

/// Whether confirming the new name `input` for table `old_name` renames.
pub open spec fn table_rename_succeeds(
    v: AppView,
    group: Seq<char>,
    old_name: Seq<char>,
    input: Seq<char>,
) -> bool {
    trim(input).len() > 0 && rename_table_outcome(v.store, group, old_name, trim(input)) is Ok
}

/// The state after a new table asked for as `base` was created in group
/// `group`: it is open and being renamed.
pub open spec fn spec_new_word_table(v: AppView, group: Seq<char>, base: Seq<char>) -> AppView {
    with_message(
        AppView {
            store: spec_create_table(v.store, group, base),
            selection: SelectionView {
                group: Some(group),
                table: Some(created_table_name(v.store, group, base)),
                page: v.selection.page,
            },
            renaming_table: true,
            ..v
        },
        Notice::TableCreated,
    )
}

/// The state after the request to delete group `group`.
pub open spec fn spec_delete_group_action(v: AppView, group: Seq<char>) -> AppView {
    match delete_group_outcome(v.store, group) {
        Ok(_) => with_message(
            AppView {
                store: spec_delete_group(v.store, group),
                selection: spec_group_deleted(v.selection, group),
                ..v
            },
            Notice::GroupDeleted,
        ),
        Err(e) => with_message(v, Notice::GroupRefused(e)),
    }
}

/// The state after the request to delete table `table` of group `group`.
pub open spec fn spec_delete_table_action(
    v: AppView,
    group: Seq<char>,
    table: Seq<char>,
) -> AppView {
    match table_lookup_outcome(v.store, group, table) {
        Ok(_) => with_message(
            AppView {
                store: spec_delete_table(v.store, group, table),
                selection: spec_table_deleted(v.selection, group, table),
                ..v
            },
            Notice::TableDeleted,
        ),
        Err(e) => with_message(v, Notice::TableRefused(e)),
    }
}

/// The state after the edited text `content` was saved. Outside an edit
/// nothing happens. A text without a word is turned down. Else the words
/// replace those of the edited table, which is then shown from its first
/// page, and the edit is over; if the store refuses, the edit stays open.
pub open spec fn spec_save_edit(v: AppView, content: Seq<char>) -> AppView {
    match v.editing {
        None => v,
        Some((group, table)) => {
            let words = parse_text(content, group);
            if words.len() == 0 {
                with_message(v, Notice::NoValidWords)
            } else {
                match table_lookup_outcome(v.store, group, table) {
                    Ok(_) => with_message(
                        AppView {
                            store: spec_replace_words(v.store, group, table, words),
                            selection: spec_show_table(group, table),
                            editing: None,
                            ..v
                        },
                        Notice::WordsSaved(words.len() as usize),
                    ),
                    Err(e) => with_message(v, Notice::SaveRefused(e)),
                }
            }
        },
    }
}

/// What saving the edited text `content` comes to.
pub open spec fn save_outcome(v: AppView, content: Seq<char>) -> SaveOutcome {
    match v.editing {
        None => SaveOutcome { saved: false, truncated: false },
        Some((group, table)) => SaveOutcome {
            saved: parse_text(content, group).len() > 0 && table_lookup_outcome(
                v.store,
                group,
                table,
            ) is Ok,
            truncated: text_truncated(content),
        },
    }
}

/// The state after the request to start a session on the open table.
pub open spec fn spec_start_session(v: AppView) -> AppView {
    let word_count = current_words(v).len();
    let started = AppView { session: spec_start(v.session, word_count), ..v };
    if start_outcome(v.session, word_count) == StartOutcome::EmptyTable {
        with_message(started, Notice::EmptyTable)
    } else {
        started
    }
}

/// The state after the pause button: a running session is held, a held
/// one taken up again.
pub open spec fn spec_toggle_pause(v: AppView) -> AppView {
    AppView {
        session: if v.session.mode == FlashMode::Started {
            spec_pause(v.session)
        } else {
            spec_resume(v.session)
        },
        ..v
    }
}

/// The state after the session was ended by hand.
pub open spec fn spec_stop_session(v: AppView) -> AppView {
    AppView {
        session: idle_session(),
        selection: SelectionView { page: 0, ..v.selection },
        ..v
    }
}

/// Whether the session is on show: no text is being edited and a table
/// with words is open.
pub open spec fn session_on_show(v: AppView) -> bool {
    v.editing is None && v.selection.table is Some && current_words(v).len() > 0
}

/// What `dt` nanoseconds more of the session come to.
pub open spec fn tick_progress(v: AppView, dt: nat) -> Progress {
    if session_on_show(v) {
        advance_progress(v.session, dt, current_words(v).len())
    } else {
        Progress::Idle
    }
}

/// The state after `dt` nanoseconds more of the session. A session that
/// is not on show stands still. One that completes returns to the first
/// page of the table and says so.
pub open spec fn spec_tick(v: AppView, dt: nat) -> AppView {
    if session_on_show(v) {
        let moved = AppView {
            session: spec_advance(v.session, dt, current_words(v).len()),
            ..v
        };
        if tick_progress(v, dt) == Progress::Completed {
            with_message(
                AppView { selection: SelectionView { page: 0, ..v.selection }, ..moved },
                Notice::SessionComplete,
            )
        } else {
            moved
        }
    } else {
        v
    }
}

/// A request to start on a table without words, made in the preview,
/// leaves the session in the preview and puts the refusal on show.
pub proof fn lemma_start_refused_on_empty_table(v: AppView)
    requires
        v.session.mode == FlashMode::Preview,
        current_words(v).len() == 0,
    ensures
        spec_start_session(v).session == v.session,
        spec_start_session(v).message == Some(Notice::EmptyTable),
        spec_start_session(v).message_remaining == MESSAGE_TIME,
        spec_start_session(v).store == v.store,
        spec_start_session(v).selection == v.selection,
{
}

/// An action that the store refuses, or that a blank name or a text
/// without words turns down, leaves the store as it was and puts a
/// message on show.
pub proof fn lemma_refusals_keep_the_store(
    v: AppView,
    group: Seq<char>,
    name: Seq<char>,
    input: Seq<char>,
)
    ensures
        !group_rename_succeeds(v, name, input) ==> {
            &&& spec_confirm_group_rename(v, name, input).store == v.store
            &&& spec_confirm_group_rename(v, name, input).selection == v.selection
            &&& spec_confirm_group_rename(v, name, input).message is Some
        },
        !table_rename_succeeds(v, group, name, input) ==> {
            &&& spec_confirm_table_rename(v, group, name, input).store == v.store
            &&& spec_confirm_table_rename(v, group, name, input).selection == v.selection
            &&& spec_confirm_table_rename(v, group, name, input).message is Some
        },
        delete_group_outcome(v.store, group) is Err ==> {
            &&& spec_delete_group_action(v, group).store == v.store
            &&& spec_delete_group_action(v, group).selection == v.selection
            &&& spec_delete_group_action(v, group).message is Some
        },
        table_lookup_outcome(v.store, group, name) is Err ==> {
            &&& spec_delete_table_action(v, group, name).store == v.store
            &&& spec_delete_table_action(v, group, name).selection == v.selection
            &&& spec_delete_table_action(v, group, name).message is Some
        },
        !save_outcome(v, input).saved ==> {
            &&& spec_save_edit(v, input).store == v.store
            &&& spec_save_edit(v, input).selection == v.selection
            &&& spec_save_edit(v, input).editing == v.editing
        },
{
}

/// While a text is being edited, or no table with words is open, the
/// session stands still however much time passes.
pub proof fn lemma_hidden_session_stands_still(v: AppView, dt: nat)
    requires
        !session_on_show(v),
    ensures
        spec_tick(v, dt) == v,
        tick_progress(v, dt) == Progress::Idle,
{
}

/// A message is on show for `MESSAGE_TIME` and no longer: steps that add
/// up to less leave it up, a step that reaches the time takes it down.
pub proof fn lemma_message_time(v: AppView, notice: Notice, d1: nat, d2: nat)
    requires
        d1 < MESSAGE_TIME,
        d1 + d2 >= MESSAGE_TIME,
    ensures
        spec_tick_message(with_message(v, notice), d1).message == Some(notice),
        spec_tick_message(spec_tick_message(with_message(v, notice), d1), d2).message
            == None::<Notice>,
{
}

impl FlashMemoryApp {
    /// The representation invariant: that of the store.
    pub open spec fn wf(&self) -> bool {
        self.flash_memory.wf()
    }

    /// The state at start-up, around the store that was loaded: nothing
    /// open, no session, no message.
    pub fn new(flash_memory: FlashMemory) -> (app: Self)
        requires
            flash_memory.wf(),
        ensures
            app.wf(),
            app@ == (AppView {
                store: flash_memory@,
                selection: SelectionView { group: None, table: None, page: 0 },
                renaming_group: false,
                renaming_table: false,
                editing: None,
                session: idle_session(),
                message: None,
                message_remaining: 0,
            }),
    {
        FlashMemoryApp {
            flash_memory,
            selection: Selection::new(),
            renaming_group_active: false,
            renaming_word_table_active: false,
            editing_word_table: None,
            session: StudySession::new(),
            message: None,
            message_remaining: 0,
        }
    }

    /// Puts `notice` on show for `MESSAGE_TIME`.
    pub fn show_message(&mut self, notice: Notice)
        requires
            old(self).wf(),
        ensures
            final(self).wf(),
            final(self)@ == with_message(old(self)@, notice),
    {
        self.message = Some(notice);
        self.message_remaining = MESSAGE_TIME;
    }

    /// Lets `dt` nanoseconds pass for the message on show.
    pub fn tick_message(&mut self, dt: u64)
        requires
            old(self).wf(),
        ensures
            final(self).wf(),
            final(self)@ == spec_tick_message(old(self)@, dt as nat),
    {
        if self.message_remaining > 0 {
            if dt >= self.message_remaining {
                self.message_remaining = 0;
                self.message = None;
            } else {
                self.message_remaining = self.message_remaining - dt;
            }
        }
    }

    /// The words of the open table, if a table is open and exists.
    pub fn current_table_words(&self) -> (words: Option<&Vec<Word>>)
        requires
            self.wf(),
        ensures
            (words is Some) == table_is_open(self@),
            match words {
                Some(found) => words_view(found@) == current_words(self@),
                None => current_words(self@) == Seq::<WordView>::empty(),
            },
    {
        match (&self.selection.current_group, &self.selection.current_word_table) {
            (Some(group), Some(table)) => self.flash_memory.get_words_in_table(
                group.as_str(),
                table.as_str(),
            ),
            _ => None,
        }
    }

    /// The number of words of the open table.
    pub fn current_word_count(&self) -> (count: usize)
        requires
            self.wf(),
        ensures
            count == current_words(self@).len(),
    {
        match self.current_table_words() {
            Some(words) => {
                assert(words_view(words@).len() == words@.len());
                words.len()
            },
            None => 0,
        }
    }

    /// A copy of the words of the open table.
    pub fn get_current_words(&self) -> (words: Vec<Word>)
        requires
            self.wf(),
        ensures
            words_view(words@) == current_words(self@),
    {
        match self.current_table_words() {
            Some(words) => clone_words(words),
            None => {
                let words: Vec<Word> = Vec::new();
                assert(words_view(words@) =~= Seq::<WordView>::empty());
                words
            },
        }
    }

    /// The number of pages of the open table.
    pub fn get_total_pages(&self) -> (pages: usize)
        requires
            self.wf(),
        ensures
            pages == spec_total_pages(current_words(self@).len()),
    {
        total_pages(self.current_word_count())
    }

    /// A copy of the words on the current page of the open table.
    pub fn get_current_page_words(&self) -> (words: Vec<Word>)
        requires
            self.wf(),
        ensures
            words_view(words@) == spec_page_words(current_words(self@), self@.selection.page),
    {
        match self.current_table_words() {
            Some(words) => page_words(words, self.selection.current_page),
            None => {
                let words: Vec<Word> = Vec::new();
                assert(words_view(words@) =~= spec_page_words(
                    Seq::<WordView>::empty(),
                    self@.selection.page,
                ));
                words
            },
        }
    }

    /// The word that the session has up, if the open table has one at the
    /// session's position.
    pub fn current_word(&self) -> (word: Option<&Word>)
        requires
            self.wf(),
        ensures
            match word {
                Some(w) => self.session.word_index < current_words(self@).len() && w@
                    == current_words(self@)[self.session.word_index as int],
                None => self.session.word_index >= current_words(self@).len(),
            },
    {
        match self.current_table_words() {
            Some(words) => {
                assert(words_view(words@).len() == words@.len());
                if self.session.word_index < words.len() {
                    assert(words_view(words@)[self.session.word_index as int]
                        == words@[self.session.word_index as int]@);
                    Some(&words[self.session.word_index])
                } else {
                    None
                }
            },
            None => None,
        }
    }

    /// Creates a group called `base`, or the first free of `base2`,
    /// `base3`, ...; opens it and starts renaming it. The store changed.
    /// The name that was given is returned.
    pub fn create_new_group(&mut self, base: &str) -> (actual: String)
        requires
            old(self).wf(),
        ensures
            final(self).wf(),
            actual@ == created_group_name(old(self)@.store, base@),
            final(self)@ == spec_create_new_group(old(self)@, base@),
    {
        let actual = self.flash_memory.create_group(base);
        self.selection.current_group = Some(actual.clone());
        self.renaming_group_active = true;
        self.show_message(Notice::GroupCreated);
        actual
    }

    /// A click on group `group`: closes it if it is open, opens it if not.
    pub fn click_group(&mut self, group: &str)
        requires
            old(self).wf(),
        ensures
            final(self).wf(),
            final(self)@ == (AppView {
                selection: spec_click_group(old(self)@.selection, group@),
                ..old(self)@
            }),
    {
        self.selection.click_group(group);
    }

    /// A double click on group `group`: opens it and starts renaming it.
    pub fn begin_group_rename(&mut self, group: &str)
        requires
            old(self).wf(),
        ensures
            final(self).wf(),
            final(self)@ == (AppView {
                selection: SelectionView { group: Some(group@), ..old(self)@.selection },
                renaming_group: true,
                ..old(self)@
            }),
    {
        self.selection.current_group = Some(String::from_str(group));
        self.renaming_group_active = true;
    }

    /// Gives up renaming a group.
    pub fn cancel_group_rename(&mut self)
        requires
            old(self).wf(),
        ensures
            final(self).wf(),
            final(self)@ == (AppView { renaming_group: false, ..old(self)@ }),
    {
        self.renaming_group_active = false;
    }

    /// Confirms `input` as the new name of group `old_name`. The name is
    /// trimmed; a blank one is turned down, as is one that the store
    /// refuses. Either way renaming is over. Says whether the store
    /// accepted the name, in which case it is to be saved.
    pub fn confirm_group_rename(&mut self, old_name: &str, input: &str) -> (renamed: bool)
        requires
            old(self).wf(),
        ensures
            final(self).wf(),
            renamed == group_rename_succeeds(old(self)@, old_name@, input@),
            final(self)@ == spec_confirm_group_rename(old(self)@, old_name@, input@),
    {
        self.renaming_group_active = false;
        match validate_name(input) {
            Err(_) => {
                self.show_message(Notice::GroupNameEmpty);
                false
            },
            Ok(name) => {
                match self.flash_memory.rename_group(old_name, name.as_str()) {
                    Ok(_) => {
                        self.selection.current_group = Some(name);
                        self.show_message(Notice::GroupRenamed);
                        true
                    },
                    Err(e) => {
                        self.show_message(Notice::GroupRefused(e));
                        false
                    },
                }
            },
        }
    }

    /// A click on table `table` of the open group: chooses it.
    pub fn click_table(&mut self, table: &str)
        requires
            old(self).wf(),
        ensures
            final(self).wf(),
            final(self)@ == (AppView {
                selection: spec_select_table(old(self)@.selection, table@),
                ..old(self)@
            }),
    {
        self.selection.select_table(table);
    }

    /// A double click on table `table`: chooses it and starts renaming
    /// it.
    pub fn begin_table_rename(&mut self, table: &str)
        requires
            old(self).wf(),
        ensures
            final(self).wf(),
            final(self)@ == (AppView {
                selection: SelectionView { table: Some(table@), ..old(self)@.selection },
                renaming_table: true,
                ..old(self)@
            }),
    {
        self.selection.current_word_table = Some(String::from_str(table));
        self.renaming_word_table_active = true;
    }

    /// Gives up renaming a table.
    pub fn cancel_table_rename(&mut self)
        requires
            old(self).wf(),
        ensures
            final(self).wf(),
            final(self)@ == (AppView { renaming_table: false, ..old(self)@ }),
    {
        self.renaming_word_table_active = false;
    }

    /// Confirms `input` as the new name of table `old_name` of group
    /// `group`. The name is trimmed; a blank one is turned down, as is one
    /// that the store refuses. Either way renaming is over. Says whether
    /// the store accepted the name, in which case it is to be saved.
    pub fn confirm_table_rename(&mut self, group: &str, old_name: &str, input: &str) -> (renamed:
        bool)
        requires
            old(self).wf(),
        ensures
            final(self).wf(),
            renamed == table_rename_succeeds(old(self)@, group@, old_name@, input@),
            final(self)@ == spec_confirm_table_rename(old(self)@, group@, old_name@, input@),
    {
        self.renaming_word_table_active = false;
        match validate_name(input) {
            Err(_) => {
                self.show_message(Notice::TableNameEmpty);
                false
            },
            Ok(name) => {
                match self.flash_memory.rename_word_table(group, old_name, name.as_str()) {
                    Ok(_) => {
                        self.selection.current_word_table = Some(name);
                        self.show_message(Notice::TableRenamed);
                        true
                    },
                    Err(e) => {
                        self.show_message(Notice::TableRefused(e));
                        false
                    },
                }
            },
        }
    }

    /// Creates a table in group `group`, called `base` or the first free
    /// of `base2`, `base3`, ...; opens it and starts renaming it. The store
    /// changed. The name that was given is returned.
    pub fn new_word_table(&mut self, group: &str, base: &str) -> (actual: String)
        requires
            old(self).wf(),
        ensures
            final(self).wf(),
            actual@ == created_table_name(old(self)@.store, group@, base@),
            final(self)@ == spec_new_word_table(old(self)@, group@, base@),
    {
        let actual = self.flash_memory.create_word_table(group, base);
        self.selection.current_group = Some(String::from_str(group));
        self.selection.current_word_table = Some(actual.clone());
        self.renaming_word_table_active = true;
        self.show_message(Notice::TableCreated);
        actual
    }

    /// Deletes group `group`. If it was open, nothing is open afterwards.
    /// Says whether the store changed.
    pub fn delete_group(&mut self, group: &str) -> (deleted: bool)
        requires
            old(self).wf(),
        ensures
            final(self).wf(),
            deleted == (delete_group_outcome(old(self)@.store, group@) is Ok),
            final(self)@ == spec_delete_group_action(old(self)@, group@),
    {
        match self.flash_memory.delete_group(group) {
            Ok(_) => {
                self.selection.group_deleted(group);
                self.show_message(Notice::GroupDeleted);
                true
            },
            Err(e) => {
                self.show_message(Notice::GroupRefused(e));
                false
            },
        }
    }

    /// Deletes table `table` of group `group`. If it was the table chosen,
    /// none is chosen afterwards. Says whether the store changed.
    pub fn delete_word_table(&mut self, group: &str, table: &str) -> (deleted: bool)
        requires
            old(self).wf(),
        ensures
            final(self).wf(),
            deleted == (table_lookup_outcome(old(self)@.store, group@, table@) is Ok),
            final(self)@ == spec_delete_table_action(old(self)@, group@, table@),
    {
        match self.flash_memory.delete_word_table(group, table) {
            Ok(_) => {
                self.selection.table_deleted(group, table);
                self.show_message(Notice::TableDeleted);
                true
            },
            Err(e) => {
                self.show_message(Notice::TableRefused(e));
                false
            },
        }
    }

    /// Starts editing table `table` of group `group`: the table is shown
    /// from its first page, and the text to edit is returned, a line for
    /// each of its first `MAX_LINES` words; the empty text where the table
    /// does not exist.
    pub fn begin_edit(&mut self, group: &str, table: &str) -> (content: String)
        requires
            old(self).wf(),
        ensures
            final(self).wf(),
            content@ == words_text(words_shown(table_words(old(self)@.store, group@, table@))),
            final(self)@ == (AppView {
                selection: spec_show_table(group@, table@),
                editing: Some((group@, table@)),
                ..old(self)@
            }),
    {
        self.selection.show_table(group, table);
        self.editing_word_table = Some((String::from_str(group), String::from_str(table)));
        match self.flash_memory.get_words_in_table(group, table) {
            Some(words) => words_to_text(words),
            None => {
                let content = String::new();
                assert(words_shown(Seq::<WordView>::empty()) =~= Seq::<WordView>::empty());
                content
            },
        }
    }

    /// Leaves the edit without saving.
    pub fn cancel_edit(&mut self)
        requires
            old(self).wf(),
        ensures
            final(self).wf(),
            final(self)@ == (AppView { editing: None, ..old(self)@ }),
    {
        self.editing_word_table = None;
    }

    /// Saves the edited text `content` into the table that is being
    /// edited: the words of its first `MAX_LINES` lines replace what the
    /// table held. A text without a word is turned down and the table
    /// kept. Says whether the table was filled and whether lines were
    /// left unread.
    pub fn save_edit(&mut self, content: &str) -> (outcome: SaveOutcome)
        requires
            old(self).wf(),
        ensures
            final(self).wf(),
            outcome == save_outcome(old(self)@, content@),
            final(self)@ == spec_save_edit(old(self)@, content@),
    {
        let (group, table) = match &self.editing_word_table {
            Some((group, table)) => (group.clone(), table.clone()),
            None => {
                return SaveOutcome { saved: false, truncated: false };
            },
        };
        let truncated = count_lines(content) > MAX_LINES;
        let words = parse_words_from_text(content, group.as_str());
        let count = words.len();
        assert(words_view(words@).len() == words@.len());
        if count == 0 {
            self.show_message(Notice::NoValidWords);
            return SaveOutcome { saved: false, truncated };
        }
        match self.flash_memory.add_words_to_table(group.as_str(), table.as_str(), words) {
            Ok(_) => {
                self.selection.show_table(group.as_str(), table.as_str());
                self.editing_word_table = None;
                self.show_message(Notice::WordsSaved(count));
                SaveOutcome { saved: true, truncated }
            },
            Err(e) => {
                self.show_message(Notice::SaveRefused(e));
                SaveOutcome { saved: false, truncated }
            },
        }
    }

    /// Starts a session on the open table. On an empty table, or none,
    /// the session stays in the preview and the user is told.
    pub fn start_session(&mut self) -> (outcome: StartOutcome)
        requires
            old(self).wf(),
        ensures
            final(self).wf(),
            outcome == start_outcome(old(self)@.session, current_words(old(self)@).len()),
            final(self)@ == spec_start_session(old(self)@),
    {
        let count = self.current_word_count();
        let outcome = self.session.start(count);
        match outcome {
            StartOutcome::EmptyTable => {
                self.show_message(Notice::EmptyTable);
            },
            _ => {},
        }
        outcome
    }

    /// The pause button: holds a running session, takes a held one up
    /// again. Says whether it did either.
    pub fn toggle_pause(&mut self) -> (changed: bool)
        requires
            old(self).wf(),
        ensures
            final(self).wf(),
            changed == (old(self)@.session.mode != FlashMode::Preview),
            final(self)@ == spec_toggle_pause(old(self)@),
    {
        match self.session.mode {
            FlashMode::Started => self.session.pause(),
            _ => self.session.resume(),
        }
    }

    /// Ends the session by hand and returns to the first page.
    pub fn stop_session(&mut self)
        requires
            old(self).wf(),
        ensures
            final(self).wf(),
            final(self)@ == spec_stop_session(old(self)@),
    {
        self.session.stop();
        self.selection.current_page = 0;
    }

    /// Lets `dt` nanoseconds pass for the session, if it is on show.
    pub fn tick(&mut self, dt: u64) -> (progress: Progress)
        requires
            old(self).wf(),
        ensures
            final(self).wf(),
            progress == tick_progress(old(self)@, dt as nat),
            final(self)@ == spec_tick(old(self)@, dt as nat),
    {
        if self.editing_word_table.is_some() || self.selection.current_word_table.is_none() {
            return Progress::Idle;
        }
        let count = self.current_word_count();
        if count == 0 {
            return Progress::Idle;
        }
        let progress = self.session.advance(dt, count);
        match progress {
            Progress::Completed => {
                self.selection.current_page = 0;
                self.show_message(Notice::SessionComplete);
            },
            _ => {},
        }
        progress
    }
}

} // verus!
