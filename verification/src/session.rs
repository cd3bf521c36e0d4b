//! The study session: a countdown, then each word of a table shown for a
//! fixed time, once through.
//!
//! The session keeps no clock. Its host measures the time that has passed
//! since it last asked and hands it to `advance`, in nanoseconds.

use vstd::prelude::*;

verus! {

/// Nanoseconds in a second.
pub const SECOND: u64 = 1_000_000_000;

/// The countdown starts at this many seconds.
pub const COUNTDOWN_FROM: u32 = 3;

/// A word's chinese form is shown once the word has been up for this long.
pub const REVEAL_AFTER: u64 = 1_000_000_000;

/// The next word comes once the word has been up for this long.
pub const WORD_TIME: u64 = 2_000_000_000;

/// Where a study session stands.
#[derive(Debug, Clone, Copy, PartialEq, Eq, Structural)]
pub enum FlashMode {
    /// No session runs; the table is shown as a whole.
    Preview,
    /// A session runs.
    Started,
    /// A session is held.
    Paused,
}

/// The state of a study session.
#[derive(Debug, Clone, Copy, PartialEq, Eq, Structural)]
pub struct StudySession {
    pub mode: FlashMode,
    /// Position of the word that is up, from 0.
    pub word_index: usize,
    /// Seconds of countdown that are left; 0 once words are shown.
    pub countdown_remaining: u32,
    /// Nanoseconds gathered towards the next second of countdown.
    pub countdown_elapsed: u64,
    /// Nanoseconds for which the current word has been up.
    pub word_elapsed: u64,
}

/// What an attempt to start a session came to.
#[derive(Debug, Clone, Copy, PartialEq, Eq, Structural)]
pub enum StartOutcome {
    /// A session was started.
    Started,
    /// The table has no words; nothing was changed.
    EmptyTable,
    /// A session is running or held already; nothing was changed.
    Busy,
}

/// What a step of the session clock came to.
#[derive(Debug, Clone, Copy, PartialEq, Eq, Structural)]
pub enum Progress {
    /// No session runs; nothing was changed.
    Idle,
    /// The session goes on.
    Running,
    /// The last word has had its time: the session is over.
    Completed,
}

/// The session at rest.
pub open spec fn idle_session() -> StudySession {
    StudySession {
        mode: FlashMode::Preview,
        word_index: 0,
        countdown_remaining: 0,
        countdown_elapsed: 0,
        word_elapsed: 0,
    }
}

/// A session that has just been started.
pub open spec fn fresh_session() -> StudySession {
    StudySession {
        mode: FlashMode::Started,
        word_index: 0,
        countdown_remaining: COUNTDOWN_FROM,
        countdown_elapsed: 0,
        word_elapsed: 0,
    }
}

/// What starting comes to, on a table of `word_count` words.
pub open spec fn start_outcome(s: StudySession, word_count: nat) -> StartOutcome {
    if s.mode != FlashMode::Preview {
        StartOutcome::Busy
    } else if word_count == 0 {
        StartOutcome::EmptyTable
    } else {
        StartOutcome::Started
    }
}

/// The session after the attempt to start it.
pub open spec fn spec_start(s: StudySession, word_count: nat) -> StudySession {
    if start_outcome(s, word_count) == StartOutcome::Started {
        fresh_session()
    } else {
        s
    }
}

/// The session after a request to hold it.
pub open spec fn spec_pause(s: StudySession) -> StudySession {
    if s.mode == FlashMode::Started {
        StudySession { mode: FlashMode::Paused, ..s }
    } else {
        s
    }
}

/// The session after a request to take it up again.
pub open spec fn spec_resume(s: StudySession) -> StudySession {
    if s.mode == FlashMode::Paused {
        StudySession { mode: FlashMode::Started, ..s }
    } else {
        s
    }
}

/// Whether a word follows the current one in a table of `word_count`
/// words.
pub open spec fn has_next_word(s: StudySession, word_count: nat) -> bool {
    s.word_index + 1 < word_count && s.word_index < usize::MAX
}

/// The session after `dt` nanoseconds more, on a table of `word_count`
/// words.
pub open spec fn spec_advance(s: StudySession, dt: nat, word_count: nat) -> StudySession {
    if s.mode != FlashMode::Started {
        s
    } else if s.countdown_remaining > 0 {
        if s.countdown_elapsed + dt >= SECOND {
            StudySession {
                countdown_remaining: (s.countdown_remaining - 1) as u32,
                countdown_elapsed: 0,
                word_elapsed: if s.countdown_remaining == 1 {
                    0
                } else {
                    s.word_elapsed
                },
                ..s
            }
        } else {
            StudySession { countdown_elapsed: (s.countdown_elapsed + dt) as u64, ..s }
        }
    } else if s.word_elapsed + dt >= WORD_TIME {
        if has_next_word(s, word_count) {
            StudySession { word_index: (s.word_index + 1) as usize, word_elapsed: 0, ..s }
        } else {
            StudySession { mode: FlashMode::Preview, word_elapsed: 0, ..s }
        }
    } else {
        StudySession { word_elapsed: (s.word_elapsed + dt) as u64, ..s }
    }
}

/// What a step of `dt` nanoseconds comes to.
pub open spec fn advance_progress(s: StudySession, dt: nat, word_count: nat) -> Progress {
    if s.mode != FlashMode::Started {
        Progress::Idle
    } else if s.countdown_remaining == 0 && s.word_elapsed + dt >= WORD_TIME && !has_next_word(
        s,
        word_count,
    ) {
        Progress::Completed
    } else {
        Progress::Running
    }
}

impl StudySession {
    /// A session at rest.
    pub fn new() -> (session: Self)
        ensures
            session == idle_session(),
    {
        StudySession {
            mode: FlashMode::Preview,
            word_index: 0,
            countdown_remaining: 0,
            countdown_elapsed: 0,
            word_elapsed: 0,
        }
    }

    /// Starts a session on a table of `word_count` words: the countdown is
    /// set, the first word is next. On an empty table, or while a session
    /// runs or is held, nothing is changed.
    pub fn start(&mut self, word_count: usize) -> (outcome: StartOutcome)
        ensures
            outcome == start_outcome(*old(self), word_count as nat),
            *final(self) == spec_start(*old(self), word_count as nat),
    {
        match self.mode {
            FlashMode::Preview => {
                if word_count == 0 {
                    StartOutcome::EmptyTable
                } else {
                    *self = StudySession {
                        mode: FlashMode::Started,
                        word_index: 0,
                        countdown_remaining: COUNTDOWN_FROM,
                        countdown_elapsed: 0,
                        word_elapsed: 0,
                    };
                    StartOutcome::Started
                }
            },
            _ => StartOutcome::Busy,
        }
    }

    /// Holds a running session. Says whether it did.
    pub fn pause(&mut self) -> (held: bool)
        ensures
            held == (old(self).mode == FlashMode::Started),
            *final(self) == spec_pause(*old(self)),
    {
        match self.mode {
            FlashMode::Started => {
                self.mode = FlashMode::Paused;
                true
            },
            _ => false,
        }
    }

    /// Takes a held session up again. Says whether it did.
    pub fn resume(&mut self) -> (resumed: bool)
        ensures
            resumed == (old(self).mode == FlashMode::Paused),
            *final(self) == spec_resume(*old(self)),
    {
        match self.mode {
            FlashMode::Paused => {
                self.mode = FlashMode::Started;
                true
            },
            _ => false,
        }
    }

    /// Ends the session, whatever it was doing. Says whether one was
    /// running or held.
    pub fn stop(&mut self) -> (was_active: bool)
        ensures
            was_active == (old(self).mode != FlashMode::Preview),
            *final(self) == idle_session(),
    {
        let was_active = match self.mode {
            FlashMode::Preview => false,
            _ => true,
        };
        *self = StudySession::new();
        was_active
    }

    /// Moves a running session on by `dt` nanoseconds, on a table of
    /// `word_count` words. During the countdown a full second takes one
    /// off the count. After it, a word that has had its time gives way to
    /// the next; after the last word the session returns to the preview,
    /// its word position left where it was.
    pub fn advance(&mut self, dt: u64, word_count: usize) -> (progress: Progress)
        ensures
            progress == advance_progress(*old(self), dt as nat, word_count as nat),
            *final(self) == spec_advance(*old(self), dt as nat, word_count as nat),
    {
        match self.mode {
            FlashMode::Started => {},
            _ => {
                return Progress::Idle;
            },
        }
        if self.countdown_remaining > 0 {
            let elapsed = self.countdown_elapsed.saturating_add(dt);
            if elapsed >= SECOND {
                self.countdown_remaining = self.countdown_remaining - 1;
                self.countdown_elapsed = 0;
                if self.countdown_remaining == 0 {
                    self.word_elapsed = 0;
                }
            } else {
                self.countdown_elapsed = elapsed;
            }
            Progress::Running
        } else {
            let elapsed = self.word_elapsed.saturating_add(dt);
            if elapsed >= WORD_TIME {
                self.word_elapsed = 0;
                if self.word_index < usize::MAX && self.word_index + 1 < word_count {
                    self.word_index = self.word_index + 1;
                    Progress::Running
                } else {
                    self.mode = FlashMode::Preview;
                    Progress::Completed
                }
            } else {
                self.word_elapsed = elapsed;
                Progress::Running
            }
        }
    }

    /// Whether the countdown is what is to be shown.
    pub fn in_countdown(&self) -> (counting: bool)
        ensures
            counting == (self.mode != FlashMode::Preview && self.countdown_remaining > 0),
    {
        match self.mode {
            FlashMode::Preview => false,
            _ => self.countdown_remaining > 0,
        }
    }

    /// Whether the chinese form of the current word is to be shown: once
    /// the countdown is over and the word has been up for `REVEAL_AFTER`.
    pub fn meaning_visible(&self) -> (visible: bool)
        ensures
            visible == (self.countdown_remaining == 0 && self.word_elapsed >= REVEAL_AFTER),
    {
        self.countdown_remaining == 0 && self.word_elapsed >= REVEAL_AFTER
    }
}

} // verus!
