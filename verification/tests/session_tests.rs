use flash_memory::session::{COUNTDOWN_FROM, REVEAL_AFTER, SECOND, WORD_TIME};
use flash_memory::{FlashMode, Progress, StartOutcome, StudySession};

fn started(word_count: usize) -> StudySession {
    let mut s = StudySession::new();
    assert_eq!(s.start(word_count), StartOutcome::Started);
    s
}

fn past_countdown(word_count: usize) -> StudySession {
    let mut s = started(word_count);
    for _ in 0..3 {
        assert_eq!(s.advance(SECOND, word_count), Progress::Running);
    }
    assert_eq!(s.countdown_remaining, 0);
    s
}

#[test]
fn new_session_is_at_rest() {
    let s = StudySession::new();
    assert_eq!(
        s,
        StudySession {
            mode: FlashMode::Preview,
            word_index: 0,
            countdown_remaining: 0,
            countdown_elapsed: 0,
            word_elapsed: 0,
        }
    );
    assert!(!s.in_countdown());
}

#[test]
fn constants_are_in_nanoseconds() {
    assert_eq!(SECOND, 1_000_000_000);
    assert_eq!(REVEAL_AFTER, 1_000_000_000);
    assert_eq!(WORD_TIME, 2_000_000_000);
    assert_eq!(COUNTDOWN_FROM, 3);
}

#[test]
fn start_on_empty_table_is_rejected() {
    let mut s = StudySession::new();
    assert_eq!(s.start(0), StartOutcome::EmptyTable);
    assert_eq!(s, StudySession::new());
}

#[test]
fn start_resets_the_scalars() {
    let mut s = StudySession {
        mode: FlashMode::Preview,
        word_index: 7,
        countdown_remaining: 0,
        countdown_elapsed: 5,
        word_elapsed: 9,
    };
    assert_eq!(s.start(3), StartOutcome::Started);
    assert_eq!(
        s,
        StudySession {
            mode: FlashMode::Started,
            word_index: 0,
            countdown_remaining: 3,
            countdown_elapsed: 0,
            word_elapsed: 0,
        }
    );
    assert!(s.in_countdown());
}

#[test]
fn start_while_active_changes_nothing() {
    let mut s = past_countdown(2);
    let before = s;
    assert_eq!(s.start(2), StartOutcome::Busy);
    assert_eq!(s, before);
    s.pause();
    let held = s;
    assert_eq!(s.start(2), StartOutcome::Busy);
    assert_eq!(s.start(0), StartOutcome::Busy);
    assert_eq!(s, held);
}

#[test]
fn two_word_session_runs_once_through() {
    let mut s = StudySession::new();
    assert_eq!(s.start(2), StartOutcome::Started);
    assert_eq!(s.advance(1_000_000_000, 2), Progress::Running);
    assert_eq!(s.countdown_remaining, 2);
    assert_eq!(s.advance(1_000_000_000, 2), Progress::Running);
    assert_eq!(s.countdown_remaining, 1);
    assert_eq!(s.advance(1_000_000_000, 2), Progress::Running);
    assert_eq!(s.countdown_remaining, 0);
    assert_eq!(s.word_index, 0);
    assert_eq!(s.advance(2_000_000_000, 2), Progress::Running);
    assert_eq!(s.mode, FlashMode::Started);
    assert_eq!(s.word_index, 1);
    assert_eq!(s.advance(2_000_000_000, 2), Progress::Completed);
    assert_eq!(s.mode, FlashMode::Preview);
    assert_eq!(s.word_index, 1);
    assert_eq!(s.advance(2_000_000_000, 2), Progress::Idle);
    assert_eq!(s.mode, FlashMode::Preview);
    assert_eq!(s.word_index, 1);
}

#[test]
fn countdown_needs_a_full_second() {
    let mut s = started(1);
    assert_eq!(s.advance(999_999_999, 1), Progress::Running);
    assert_eq!(s.countdown_remaining, 3);
    assert_eq!(s.countdown_elapsed, 999_999_999);
    assert_eq!(s.advance(1, 1), Progress::Running);
    assert_eq!(s.countdown_remaining, 2);
    assert_eq!(s.countdown_elapsed, 0);
}

#[test]
fn a_long_step_takes_one_second_off_only() {
    let mut s = started(1);
    s.advance(10 * SECOND, 1);
    assert_eq!(s.countdown_remaining, 2);
    assert_eq!(s.countdown_elapsed, 0);
}

#[test]
fn countdown_accumulates_small_steps() {
    let mut s = started(1);
    for _ in 0..59 {
        s.advance(16_666_667, 1);
    }
    assert_eq!(s.countdown_remaining, 3);
    s.advance(16_666_667, 1);
    assert_eq!(s.countdown_remaining, 2);
}

#[test]
fn end_of_countdown_clears_the_word_timer() {
    let mut s = StudySession {
        mode: FlashMode::Started,
        word_index: 0,
        countdown_remaining: 1,
        countdown_elapsed: 0,
        word_elapsed: 1_500_000_000,
    };
    s.advance(SECOND, 3);
    assert_eq!(s.countdown_remaining, 0);
    assert_eq!(s.word_elapsed, 0);
    assert!(!s.meaning_visible());
}

#[test]
fn meaning_shows_after_one_second() {
    let mut s = past_countdown(1);
    assert!(!s.meaning_visible());
    s.advance(999_999_999, 1);
    assert!(!s.meaning_visible());
    s.advance(1, 1);
    assert!(s.meaning_visible());
    assert_eq!(s.word_elapsed, 1_000_000_000);
}

#[test]
fn meaning_is_hidden_during_countdown() {
    let s = started(1);
    assert!(!s.meaning_visible());
}

#[test]
fn word_changes_after_two_seconds() {
    let mut s = past_countdown(3);
    s.advance(1_999_999_999, 3);
    assert_eq!(s.word_index, 0);
    s.advance(1, 3);
    assert_eq!(s.word_index, 1);
    assert_eq!(s.word_elapsed, 0);
    assert!(!s.meaning_visible());
}

#[test]
fn single_word_session_completes() {
    let mut s = past_countdown(1);
    assert_eq!(s.advance(WORD_TIME, 1), Progress::Completed);
    assert_eq!(s.mode, FlashMode::Preview);
    assert_eq!(s.word_index, 0);
    assert_eq!(s.word_elapsed, 0);
}

#[test]
fn pause_stops_the_clock() {
    let mut s = past_countdown(2);
    s.advance(500_000_000, 2);
    assert!(s.pause());
    assert_eq!(s.mode, FlashMode::Paused);
    let held = s;
    assert_eq!(s.advance(10 * SECOND, 2), Progress::Idle);
    assert_eq!(s, held);
    assert!(s.resume());
    assert_eq!(s.mode, FlashMode::Started);
    assert_eq!(s.word_elapsed, 500_000_000);
}

#[test]
fn pause_and_resume_apply_to_their_own_mode_only() {
    let mut s = StudySession::new();
    assert!(!s.pause());
    assert!(!s.resume());
    assert_eq!(s, StudySession::new());
    let mut s = started(1);
    assert!(!s.resume());
    assert!(s.pause());
    assert!(!s.pause());
}

#[test]
fn stop_resets_everything() {
    let mut s = past_countdown(3);
    s.advance(WORD_TIME, 3);
    s.advance(700_000_000, 3);
    assert!(s.stop());
    assert_eq!(s, StudySession::new());
    assert!(!s.stop());
    let mut s = started(2);
    s.pause();
    assert!(s.stop());
    assert_eq!(s, StudySession::new());
}

#[test]
fn huge_steps_do_not_overflow() {
    let mut s = started(2);
    s.advance(999_999_999, 2);
    s.advance(u64::MAX, 2);
    assert_eq!(s.countdown_remaining, 2);
    s.advance(u64::MAX, 2);
    s.advance(u64::MAX, 2);
    s.advance(1_999_999_999, 2);
    assert_eq!(s.advance(u64::MAX, 2), Progress::Running);
    assert_eq!(s.word_index, 1);
    assert_eq!(s.advance(u64::MAX, 2), Progress::Completed);
}

#[test]
fn shrunken_table_ends_the_session() {
    let mut s = past_countdown(5);
    s.advance(WORD_TIME, 5);
    s.advance(WORD_TIME, 5);
    assert_eq!(s.word_index, 2);
    assert_eq!(s.advance(WORD_TIME, 1), Progress::Completed);
    assert_eq!(s.word_index, 2);
}
