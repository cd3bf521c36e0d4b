//! Laws of the study session.

use vstd::prelude::*;
use crate::session::{
    advance_progress, fresh_session, spec_advance, spec_pause, spec_resume, spec_start,
    start_outcome, FlashMode, Progress, StartOutcome, StudySession, SECOND, WORD_TIME,
};

verus! {

/// Starting on a table without words never starts a session: the state is
/// left as it was, and from the preview the outcome is `EmptyTable`.
pub proof fn lemma_start_on_empty_table(s: StudySession)
    ensures
        spec_start(s, 0) == s,
        start_outcome(s, 0) != StartOutcome::Started,
        s.mode == FlashMode::Preview ==> start_outcome(s, 0) == StartOutcome::EmptyTable,
{
}

/// Starting from the preview on a table with words gives a fresh session,
/// whatever the state held before.
pub proof fn lemma_start_resets(s: StudySession, word_count: nat)
    requires
        s.mode == FlashMode::Preview,
        word_count > 0,
    ensures
        spec_start(s, word_count) == fresh_session(),
{
}

/// A held session does not move, however much time passes, and takes up
/// where it was held.
pub proof fn lemma_pause_holds(s: StudySession, dt: nat, word_count: nat)
    requires
        s.mode == FlashMode::Started,
    ensures
        spec_advance(spec_pause(s), dt, word_count) == spec_pause(s),
        spec_resume(spec_pause(s)) == s,
{
}

/// The session after the steps `steps`, one after the other.
pub open spec fn spec_advance_all(
    s: StudySession,
    steps: Seq<nat>,
    word_count: nat,
) -> StudySession
    decreases steps.len(),
{
    if steps.len() == 0 {
        s
    } else {
        spec_advance(spec_advance_all(s, steps.drop_last(), word_count), steps.last(), word_count)
    }
}

/// A session that does not run, because it is held or none was started,
/// is left as it is by any number of steps of any length.
pub proof fn lemma_only_a_running_session_moves(
    s: StudySession,
    steps: Seq<nat>,
    word_count: nat,
)
    requires
        s.mode != FlashMode::Started,
    ensures
        spec_advance_all(s, steps, word_count) == s,
    decreases steps.len(),
{
    if steps.len() > 0 {
        lemma_only_a_running_session_moves(s, steps.drop_last(), word_count);
    }
}

/// However a session is stepped, its word position never falls and never
/// leaves the table that it was in.
pub proof fn lemma_steps_stay_in_table(s: StudySession, steps: Seq<nat>, word_count: nat)
    requires
        s.word_index < word_count,
    ensures
        s.word_index <= spec_advance_all(s, steps, word_count).word_index < word_count,
    decreases steps.len(),
{
    if steps.len() > 0 {
        lemma_steps_stay_in_table(s, steps.drop_last(), word_count);
        let before = spec_advance_all(s, steps.drop_last(), word_count);
        lemma_advance_is_forward(before, steps.last(), word_count);
        lemma_advance_stays_in_table(before, steps.last(), word_count);
    }
}

/// Time never moves the session back: the word position does not fall,
/// and the countdown does not rise.
pub proof fn lemma_advance_is_forward(s: StudySession, dt: nat, word_count: nat)
    ensures
        spec_advance(s, dt, word_count).word_index >= s.word_index,
        spec_advance(s, dt, word_count).countdown_remaining <= s.countdown_remaining,
{
}

/// A session whose word position is inside the table keeps it inside: the
/// position moves by one at most and never past the last word, so no word
/// is shown twice and none after the last.
pub proof fn lemma_advance_stays_in_table(s: StudySession, dt: nat, word_count: nat)
    requires
        s.word_index < word_count,
    ensures
        spec_advance(s, dt, word_count).word_index < word_count,
        spec_advance(s, dt, word_count).word_index <= s.word_index + 1,
{
}

/// A session is completed exactly by the step that ends the time of the
/// last word; that step returns it to the preview and leaves the word
/// position on the last word. No other step leaves the mode `Started`.
pub proof fn lemma_completion(s: StudySession, dt: nat, word_count: nat)
    requires
        s.mode == FlashMode::Started,
    ensures
        advance_progress(s, dt, word_count) == Progress::Completed <==> spec_advance(
            s,
            dt,
            word_count,
        ).mode == FlashMode::Preview,
        advance_progress(s, dt, word_count) == Progress::Completed ==> spec_advance(
            s,
            dt,
            word_count,
        ).word_index == s.word_index,
        advance_progress(s, dt, word_count) != Progress::Completed ==> spec_advance(
            s,
            dt,
            word_count,
        ).mode == FlashMode::Started,
{
}

/// Three steps of a second or more each take a fresh session through its
/// countdown: the first word is up, with its time starting at zero.
pub proof fn lemma_countdown(d1: nat, d2: nat, d3: nat, word_count: nat)
    requires
        d1 >= SECOND,
        d2 >= SECOND,
        d3 >= SECOND,
    ensures
        spec_advance(
            spec_advance(spec_advance(fresh_session(), d1, word_count), d2, word_count),
            d3,
            word_count,
        ) == (StudySession { countdown_remaining: 0, ..fresh_session() }),
{
}

/// A session on two words, stepped through its countdown by three steps of
/// a second or more and then twice by the time of a word or more, is back
/// in the preview with its word position on the second word. The first
/// four steps report `Running`, the last `Completed`.
pub proof fn lemma_two_word_session(d1: nat, d2: nat, d3: nat, d4: nat, d5: nat)
    requires
        d1 >= SECOND,
        d2 >= SECOND,
        d3 >= SECOND,
        d4 >= WORD_TIME,
        d5 >= WORD_TIME,
    ensures
        ({
            let s0 = spec_start(crate::session::idle_session(), 2);
            let s1 = spec_advance(s0, d1, 2);
            let s2 = spec_advance(s1, d2, 2);
            let s3 = spec_advance(s2, d3, 2);
            let s4 = spec_advance(s3, d4, 2);
            let s5 = spec_advance(s4, d5, 2);
            &&& s4.mode == FlashMode::Started
            &&& s4.word_index == 1
            &&& advance_progress(s3, d4, 2) == Progress::Running
            &&& advance_progress(s4, d5, 2) == Progress::Completed
            &&& s5.mode == FlashMode::Preview
            &&& s5.word_index == 1
            &&& spec_advance(s5, d5, 2) == s5
        }),
{
}

} // verus!
