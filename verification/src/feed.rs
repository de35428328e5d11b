//! Decisions of the watching loop, separated from its I/O. The caller
//! drains its change feed and its input device, classifies what arrived,
//! and hands plain values to the two step functions here; they decide
//! what happens to the version store.

use vstd::prelude::*;
use crate::store::{RecordOutcome, VersionStore, spec_advance, spec_record, spec_retreat};

verus! {

/// A change-feed notification, reduced to what the engine cares about:
/// was the file's data modified, or was it any other kind of event
/// (metadata, access, creation, ...)?
#[derive(Debug, Clone, Copy, PartialEq, Eq, Structural)]
pub enum FeedEvent {
    DataModified,
    Other,
}

/// What one notification did to the store.
#[derive(Debug, Clone, Copy, PartialEq, Eq, Structural)]
pub enum FeedOutcome {
    /// A genuine content change: a snapshot was appended at this index.
    Recorded(usize),
    /// The re-read content equals the newest snapshot; de-duplicated.
    Unchanged,
    /// Not a data modification; nothing was done.
    Ignored,
    /// The file could not be re-read; the failure is surfaced and no
    /// phantom snapshot is recorded.
    ReadFailed,
}

/// Handles one notification. For a data modification the caller re-reads
/// the file and passes the content (`None` when the read failed, and the
/// failure is reported rather than recorded); any other event is ignored
/// outright. The cursor never moves, so browsing survives a burst of
/// notifications.
pub fn on_notification(
    store: &mut VersionStore,
    event: FeedEvent,
    content: Option<String>,
    now: u64,
) -> (r: FeedOutcome)
    requires
        old(store).wf(),
        old(store).contents().len() < usize::MAX,
    ensures
        final(store).wf(),
        final(store).cursor() == old(store).cursor(),
        match event {
            FeedEvent::Other => {
                &&& r == FeedOutcome::Ignored
                &&& final(store).contents() == old(store).contents()
                &&& final(store).stamps() == old(store).stamps()
            },
            FeedEvent::DataModified => match content {
                None => {
                    &&& r == FeedOutcome::ReadFailed
                    &&& final(store).contents() == old(store).contents()
                    &&& final(store).stamps() == old(store).stamps()
                },
                Some(c) => {
                    &&& final(store).contents() == spec_record(old(store).contents(), c@)
                    &&& match r {
                        FeedOutcome::Recorded(idx) => {
                            &&& old(store).contents().len() == 0 || old(store).contents().last()
                                != c@
                            &&& idx == old(store).contents().len()
                            &&& final(store).stamps() == old(store).stamps().push(now)
                        },
                        FeedOutcome::Unchanged => {
                            &&& old(store).contents().len() > 0
                            &&& old(store).contents().last() == c@
                            &&& final(store).stamps() == old(store).stamps()
                        },
                        _ => false,
                    }
                },
            },
        },
{
    match event {
        FeedEvent::Other => FeedOutcome::Ignored,
        FeedEvent::DataModified => match content {
            None => FeedOutcome::ReadFailed,
            Some(c) => match store.record(c, now) {
                RecordOutcome::Appended(idx) => FeedOutcome::Recorded(idx),
                RecordOutcome::Unchanged => FeedOutcome::Unchanged,
            },
        },
    }
}

/// A browsing command from the user's input surface.
#[derive(Debug, Clone, Copy, PartialEq, Eq, Structural)]
pub enum NavCommand {
    Advance,
    Retreat,
    Quit,
}

/// Applies one navigation command to the store and says whether the
/// session should end. Only the cursor ever moves; the history is
/// untouched.
pub fn apply_nav(store: &mut VersionStore, cmd: NavCommand) -> (quit: bool)
    requires
        old(store).wf(),
    ensures
        final(store).wf(),
        final(store).contents() == old(store).contents(),
        final(store).stamps() == old(store).stamps(),
        quit == (cmd == NavCommand::Quit),
        final(store).cursor() == match cmd {
            NavCommand::Advance => spec_advance(
                old(store).cursor(),
                old(store).contents().len() as int,
            ),
            NavCommand::Retreat => spec_retreat(
                old(store).cursor(),
                old(store).contents().len() as int,
            ),
            NavCommand::Quit => old(store).cursor(),
        },
{
    match cmd {
        NavCommand::Advance => {
            store.advance();
            false
        },
        NavCommand::Retreat => {
            store.retreat();
            false
        },
        NavCommand::Quit => true,
    }
}

} // verus!
