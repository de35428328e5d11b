//! The version store: an append-only, de-duplicated history of content
//! snapshots plus a browsing cursor that wraps within the range that
//! always leaves a "next" snapshot to peek at.

use vstd::prelude::*;

verus! {

/// An immutable capture of the watched file's content at one point in
/// time. The timestamp is supplied by the caller (time is the caller's
/// business), is used only for ordering and display, and never takes
/// part in content equality.
#[derive(Debug)]
pub struct Snapshot {
    pub content: String,
    pub captured_at: u64,
}

/// What `record` did with the content it was handed.
#[derive(Debug, Clone, Copy, PartialEq, Eq, Structural)]
pub enum RecordOutcome {
    /// A new snapshot was appended at this index.
    Appended(usize),
    /// The content equals the newest snapshot's content; nothing changed.
    Unchanged,
}

/// History after recording `c` on top of `h`: appended unless `c` equals
/// the newest entry.
pub open spec fn spec_record(h: Seq<Seq<char>>, c: Seq<char>) -> Seq<Seq<char>> {
    if h.len() == 0 || h.last() != c {
        h.push(c)
    } else {
        h
    }
}

/// Cursor after one `advance` on a history of length `len`: one step
/// forward, wrapping within the browsing range `[0, len - 2]`; a no-op
/// when fewer than two snapshots exist.
pub open spec fn spec_advance(cursor: int, len: int) -> int {
    if len >= 2 {
        (cursor + 1) % (len - 1)
    } else {
        cursor
    }
}

/// Cursor after one `retreat`: one step back, wrapping to `len - 2` from
/// the front; a no-op when fewer than two snapshots exist.
pub open spec fn spec_retreat(cursor: int, len: int) -> int {
    if len >= 2 {
        if cursor > 0 {
            cursor - 1
        } else {
            len - 2
        }
    } else {
        cursor
    }
}

/// No two adjacent entries are equal.
pub open spec fn adjacent_distinct(h: Seq<Seq<char>>) -> bool {
    forall|i: int| 0 <= i && i + 1 < h.len() ==> #[trigger] h[i] != h[i + 1]
}

pub struct VersionStore {
    history: Vec<Snapshot>,
    pos: usize,
}

impl VersionStore {
    /// The recorded contents, oldest first.
    pub closed spec fn contents(&self) -> Seq<Seq<char>> {
        self.history@.map_values(|s: Snapshot| s.content@)
    }

    /// The capture timestamps, in the same order as `contents`.
    pub closed spec fn stamps(&self) -> Seq<u64> {
        self.history@.map_values(|s: Snapshot| s.captured_at)
    }

    /// The browsing cursor.
    pub closed spec fn cursor(&self) -> int {
        self.pos as int
    }

    /// Invariant: the cursor stays inside the history (0 on an empty
    /// store) and no two adjacent snapshots hold equal content.
    pub open spec fn wf(&self) -> bool {
        &&& self.contents().len() == 0 ==> self.cursor() == 0
        &&& self.contents().len() > 0 ==> 0 <= self.cursor() < self.contents().len()
        &&& adjacent_distinct(self.contents())
    }

    /// An empty store; it must be seeded by `record` before `current`
    /// may be called.
    pub fn new() -> (s: VersionStore)
        ensures
            s.wf(),
            s.contents() == Seq::<Seq<char>>::empty(),
            s.stamps() == Seq::<u64>::empty(),
            s.cursor() == 0,
    {
        let s = VersionStore { history: Vec::new(), pos: 0 };
        proof {
            assert(s.contents() =~= Seq::<Seq<char>>::empty());
            assert(s.stamps() =~= Seq::<u64>::empty());
        }
        s
    }

    /// Number of recorded snapshots.
    pub fn len(&self) -> (n: usize)
        ensures
            n == self.contents().len(),
    {
        self.history.len()
    }

    /// Current browsing position.
    pub fn cursor_index(&self) -> (i: usize)
        ensures
            i == self.cursor(),
    {
        self.pos
    }

    /// The sole mutator of the history: appends a snapshot stamped `now`
    /// unless `content` equals the newest entry (byte-for-byte; this is
    /// the one de-duplication gate). Never moves the cursor, so browsing
    /// is stable while new versions arrive.
    pub fn record(&mut self, content: String, now: u64) -> (r: RecordOutcome)
        requires
            old(self).wf(),
            old(self).contents().len() < usize::MAX,
        ensures
            final(self).wf(),
            final(self).cursor() == old(self).cursor(),
            final(self).contents() == spec_record(old(self).contents(), content@),
            match r {
                RecordOutcome::Appended(idx) => {
                    &&& old(self).contents().len() == 0 || old(self).contents().last() != content@
                    &&& idx == old(self).contents().len()
                    &&& final(self).stamps() == old(self).stamps().push(now)
                },
                RecordOutcome::Unchanged => {
                    &&& old(self).contents().len() > 0
                    &&& old(self).contents().last() == content@
                    &&& final(self).stamps() == old(self).stamps()
                },
            },
    {
        let len = self.history.len();
        let distinct = if len == 0 {
            true
        } else {
            let same = self.history[len - 1].content == content;
            !same
        };
        if distinct {
            let ghost prev = *self;
            self.history.push(Snapshot { content, captured_at: now });
            proof {
                assert(self.contents() =~= prev.contents().push(self.history@.last().content@));
                assert(self.stamps() =~= prev.stamps().push(now));
            }
            RecordOutcome::Appended(len)
        } else {
            RecordOutcome::Unchanged
        }
    }

    /// Moves the cursor one step forward, wrapping within `[0, len - 2]`
    /// so that the newest snapshot always stays available as a `peek_next`
    /// target; a no-op on a store with fewer than two snapshots. Returns
    /// the new cursor position.
    pub fn advance(&mut self) -> (idx: usize)
        requires
            old(self).wf(),
        ensures
            final(self).wf(),
            final(self).contents() == old(self).contents(),
            final(self).stamps() == old(self).stamps(),
            final(self).cursor() == spec_advance(old(self).cursor(), old(self).contents().len() as int),
            idx == final(self).cursor(),
    {
        let len = self.history.len();
        if len >= 2 {
            self.pos = (self.pos + 1) % (len - 1);
        }
        self.pos
    }

    /// Moves the cursor one step back, wrapping from the front to
    /// `len - 2`; a no-op on a store with fewer than two snapshots.
    /// Returns the new cursor position.
    pub fn retreat(&mut self) -> (idx: usize)
        requires
            old(self).wf(),
        ensures
            final(self).wf(),
            final(self).contents() == old(self).contents(),
            final(self).stamps() == old(self).stamps(),
            final(self).cursor() == spec_retreat(old(self).cursor(), old(self).contents().len() as int),
            idx == final(self).cursor(),
    {
        let len = self.history.len();
        if len >= 2 {
            if self.pos > 0 {
                self.pos = self.pos - 1;
            } else {
                self.pos = len - 2;
            }
        }
        self.pos
    }

    /// The snapshot under the cursor; the store must be seeded first.
    pub fn current(&self) -> (s: &Snapshot)
        requires
            self.wf(),
            self.contents().len() > 0,
        ensures
            s.content@ == self.contents()[self.cursor()],
            s.captured_at == self.stamps()[self.cursor()],
    {
        &self.history[self.pos]
    }

    /// The snapshot at a given position of the history.
    pub fn snapshot_at(&self, i: usize) -> (s: &Snapshot)
        requires
            i < self.contents().len(),
        ensures
            s.content@ == self.contents()[i as int],
            s.captured_at == self.stamps()[i as int],
    {
        &self.history[i]
    }

    /// The snapshot immediately after the cursor, if one exists: the
    /// "what comes next" pane shown beside the current snapshot.
    pub fn peek_next(&self) -> (r: Option<&Snapshot>)
        requires
            self.wf(),
        ensures
            match r {
                Some(s) => {
                    &&& self.cursor() + 1 < self.contents().len()
                    &&& s.content@ == self.contents()[self.cursor() + 1]
                    &&& s.captured_at == self.stamps()[self.cursor() + 1]
                },
                None => self.cursor() + 1 >= self.contents().len(),
            },
    {
        let len = self.history.len();
        proof {
            assert(self.contents().len() == self.history@.len());
        }
        if len > 0 && self.pos + 1 < len {
            Some(&self.history[self.pos + 1])
        } else {
            None
        }
    }
}

/// Law: starting from an empty history, recording `a` and then `b`
/// appends a second entry exactly when `a` and `b` differ; recording the
/// same content twice leaves a single entry.
pub proof fn lemma_record_second_iff_distinct(a: Seq<char>, b: Seq<char>)
    ensures
        spec_record(Seq::<Seq<char>>::empty(), a) == seq![a],
        a != b ==> spec_record(spec_record(Seq::<Seq<char>>::empty(), a), b) == seq![a, b],
        a == b ==> spec_record(spec_record(Seq::<Seq<char>>::empty(), a), b) == seq![a],
{
    let h1 = spec_record(Seq::<Seq<char>>::empty(), a);
    assert(h1 =~= seq![a]);
    if a != b {
        assert(spec_record(h1, b) =~= seq![a, b]);
    }
}

/// Law: recording the same content twice in a row never grows the
/// history further; on any history, a repeated `record` of one content
/// is absorbed by the first.
pub proof fn lemma_record_idempotent(h: Seq<Seq<char>>, c: Seq<char>)
    ensures
        spec_record(spec_record(h, c), c) == spec_record(h, c),
{
    let h1 = spec_record(h, c);
    assert(h1.len() > 0 && h1.last() == c);
}

/// Law: within the browsing range `[0, len - 2]` of a history with at
/// least two entries, `retreat` undoes `advance` and `advance` undoes
/// `retreat`.
pub proof fn lemma_advance_retreat_inverse(cursor: int, len: int)
    requires
        len >= 2,
        0 <= cursor <= len - 2,
    ensures
        spec_retreat(spec_advance(cursor, len), len) == cursor,
        spec_advance(spec_retreat(cursor, len), len) == cursor,
{
    if cursor + 1 < len - 1 {
        vstd::arithmetic::div_mod::lemma_small_mod((cursor + 1) as nat, (len - 1) as nat);
    } else {
        vstd::arithmetic::div_mod::lemma_mod_self_0(len - 1);
    }
    if cursor == 0 {
        vstd::arithmetic::div_mod::lemma_mod_self_0(len - 1);
    } else {
        vstd::arithmetic::div_mod::lemma_small_mod(cursor as nat, (len - 1) as nat);
    }
}

} // verus!
