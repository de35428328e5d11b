use watchdiff::feed::{apply_nav, on_notification, FeedEvent, FeedOutcome, NavCommand};
use watchdiff::store::{RecordOutcome, VersionStore};

/// A store holding the given contents in order, stamped 0, 1, 2, ...
fn seeded(contents: &[&str]) -> VersionStore {
    let mut s = VersionStore::new();
    for (i, c) in contents.iter().enumerate() {
        s.record(c.to_string(), i as u64);
    }
    s
}

#[test]
fn record_appends_first_snapshot() {
    let mut s = VersionStore::new();
    assert_eq!(s.len(), 0);
    let r = s.record("hello\n".to_string(), 42);
    assert_eq!(r, RecordOutcome::Appended(0));
    assert_eq!(s.len(), 1);
    assert_eq!(s.current().content, "hello\n");
    assert_eq!(s.current().captured_at, 42);
}

#[test]
fn record_pair_distinct_appends_second() {
    let mut s = VersionStore::new();
    s.record("a".to_string(), 0);
    let r = s.record("b".to_string(), 1);
    assert_eq!(r, RecordOutcome::Appended(1));
    assert_eq!(s.len(), 2);
}

#[test]
fn record_pair_identical_stays_one() {
    let mut s = VersionStore::new();
    s.record("a".to_string(), 0);
    let r = s.record("a".to_string(), 1);
    assert_eq!(r, RecordOutcome::Unchanged);
    assert_eq!(s.len(), 1);
    // The kept snapshot is the first one, stamp included.
    assert_eq!(s.current().captured_at, 0);
}

#[test]
fn record_distinguishes_byte_exact_content() {
    let mut s = VersionStore::new();
    s.record("a \n".to_string(), 0);
    let r = s.record("a\n".to_string(), 1);
    assert_eq!(r, RecordOutcome::Appended(1));
    assert_eq!(s.len(), 2);
}

#[test]
fn record_tracks_trailing_newline_changes() {
    let mut s = VersionStore::new();
    s.record("a".to_string(), 0);
    let r = s.record("a\n".to_string(), 1);
    assert_eq!(r, RecordOutcome::Appended(1));
    assert_eq!(s.len(), 2);
}

#[test]
fn record_aba_keeps_three_entries() {
    let s = seeded(&["a", "b", "a"]);
    assert_eq!(s.len(), 3);
}

#[test]
fn record_same_thrice_keeps_one_entry() {
    let s = seeded(&["a", "a", "a"]);
    assert_eq!(s.len(), 1);
}

#[test]
fn navigation_wrap_five_entries() {
    let mut s = seeded(&["v0", "v1", "v2", "v3", "v4"]);
    assert_eq!(s.cursor_index(), 0);
    // The browsing range is [0, 3]: the last entry stays a peek target.
    assert_eq!(s.advance(), 1);
    assert_eq!(s.advance(), 2);
    assert_eq!(s.advance(), 3);
    assert_eq!(s.advance(), 0);
}

#[test]
fn retreat_wraps_to_last_but_one() {
    let mut s = seeded(&["v0", "v1", "v2", "v3", "v4"]);
    assert_eq!(s.retreat(), 3);
    assert_eq!(s.retreat(), 2);
}

#[test]
fn retreat_undoes_advance() {
    let mut s = seeded(&["v0", "v1", "v2", "v3"]);
    s.advance();
    s.retreat();
    assert_eq!(s.cursor_index(), 0);
}

#[test]
fn navigation_is_a_noop_below_two_entries() {
    let mut empty = VersionStore::new();
    assert_eq!(empty.advance(), 0);
    assert_eq!(empty.retreat(), 0);
    let mut one = seeded(&["only"]);
    assert_eq!(one.advance(), 0);
    assert_eq!(one.retreat(), 0);
    assert_eq!(one.len(), 1);
}

#[test]
fn cursor_stable_while_recording() {
    let mut s = seeded(&["v0", "v1", "v2", "v3", "v4"]);
    s.advance();
    assert_eq!(s.cursor_index(), 1);
    let r = s.record("v5".to_string(), 9);
    assert_eq!(r, RecordOutcome::Appended(5));
    assert_eq!(s.cursor_index(), 1);
    assert_eq!(s.len(), 6);
}

#[test]
fn peek_next_sees_the_following_snapshot() {
    let s = seeded(&["first", "second"]);
    assert_eq!(s.current().content, "first");
    let next = s.peek_next().expect("a next snapshot exists");
    assert_eq!(next.content, "second");
}

#[test]
fn peek_next_empty_at_the_end() {
    let s = seeded(&["only"]);
    assert!(s.peek_next().is_none());
}

#[test]
fn notification_other_event_is_ignored() {
    let mut s = seeded(&["a\n"]);
    let r = on_notification(&mut s, FeedEvent::Other, None, 5);
    assert_eq!(r, FeedOutcome::Ignored);
    assert_eq!(s.len(), 1);
}

#[test]
fn notification_read_failure_is_surfaced() {
    let mut s = seeded(&["a\n"]);
    let r = on_notification(&mut s, FeedEvent::DataModified, None, 5);
    assert_eq!(r, FeedOutcome::ReadFailed);
    assert_eq!(s.len(), 1);
}

#[test]
fn duplicate_notifications_deduplicated() {
    // Seed with "a\n", then two notifications carrying identical "b\n":
    // the second is de-duplicated against the first "b\n", not "a\n".
    let mut s = seeded(&["a\n"]);
    let r1 = on_notification(&mut s, FeedEvent::DataModified, Some("b\n".to_string()), 1);
    assert_eq!(r1, FeedOutcome::Recorded(1));
    let r2 = on_notification(&mut s, FeedEvent::DataModified, Some("b\n".to_string()), 2);
    assert_eq!(r2, FeedOutcome::Unchanged);
    assert_eq!(s.len(), 2);
}

#[test]
fn apply_nav_moves_and_quit_stops() {
    let mut s = seeded(&["v0", "v1", "v2"]);
    assert!(!apply_nav(&mut s, NavCommand::Advance));
    assert_eq!(s.cursor_index(), 1);
    assert!(!apply_nav(&mut s, NavCommand::Retreat));
    assert_eq!(s.cursor_index(), 0);
    assert!(apply_nav(&mut s, NavCommand::Quit));
    assert_eq!(s.cursor_index(), 0);
    assert_eq!(s.len(), 3);
}
