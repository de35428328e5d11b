//! The diff engine: a line-level edit script between two texts, built
//! on a longest-common-subsequence alignment of their lines. Where
//! several alignments are possible the script keeps runs of deletions
//! ahead of runs of insertions, and identical inputs always give the
//! same script: the result is a function of the two texts alone.

use vstd::prelude::*;
use crate::lines::{lines_view, spec_lines, split_lines};

verus! {

/// One line of an edit script, tagged with how it relates the two
/// texts: present in both, only in the new one, or only in the old one.
#[derive(Debug, PartialEq, Eq, Clone)]
pub enum DiffOp<L> {
    Equal(L),
    Insert(L),
    Delete(L),
}

impl View for DiffOp<String> {
    type V = DiffOp<Seq<char>>;

    open spec fn view(&self) -> DiffOp<Seq<char>> {
        match self {
            DiffOp::Equal(l) => DiffOp::Equal(l@),
            DiffOp::Insert(l) => DiffOp::Insert(l@),
            DiffOp::Delete(l) => DiffOp::Delete(l@),
        }
    }
}

/// The text an operation carries.
pub open spec fn op_line(op: DiffOp<Seq<char>>) -> Seq<char> {
    match op {
        DiffOp::Equal(l) => l,
        DiffOp::Insert(l) => l,
        DiffOp::Delete(l) => l,
    }
}

impl DiffOp<String> {
    /// The marker a rendered script shows before this line: a space for
    /// an unchanged line, `+` for an inserted one, `-` for a deleted one.
    pub fn sign(&self) -> (c: char)
        ensures
            c == (match self@ {
                DiffOp::Equal(_) => ' ',
                DiffOp::Insert(_) => '+',
                DiffOp::Delete(_) => '-',
            }),
    {
        match self {
            DiffOp::Equal(_) => ' ',
            DiffOp::Insert(_) => '+',
            DiffOp::Delete(_) => '-',
        }
    }

    /// The line text this operation carries.
    pub fn line(&self) -> (l: &String)
        ensures
            l@ == op_line(self@),
    {
        match self {
            DiffOp::Equal(l) => l,
            DiffOp::Insert(l) => l,
            DiffOp::Delete(l) => l,
        }
    }
}

/// The views of a sequence of owned operations.
pub open spec fn ops_view(v: Seq<DiffOp<String>>) -> Seq<DiffOp<Seq<char>>> {
    v.map_values(|op: DiffOp<String>| op.view())
}

/// An ordered edit script; applying it to the old text's lines yields
/// the new text's lines.
pub struct DiffScript {
    pub ops: Vec<DiffOp<String>>,
}

impl View for DiffScript {
    type V = Seq<DiffOp<Seq<char>>>;

    open spec fn view(&self) -> Seq<DiffOp<Seq<char>>> {
        ops_view(self.ops@)
    }
}

/// Length of a longest common subsequence of `a` and `b`.
pub open spec fn lcs_len(a: Seq<Seq<char>>, b: Seq<Seq<char>>) -> nat
    decreases a.len() + b.len(),
{
    if a.len() == 0 || b.len() == 0 {
        0
    } else if a[0] == b[0] {
        1 + lcs_len(a.skip(1), b.skip(1))
    } else {
        let del = lcs_len(a.skip(1), b);
        let ins = lcs_len(a, b.skip(1));
        if del >= ins {
            del
        } else {
            ins
        }
    }
}

/// The edit script from lines `a` to lines `b`: matching first lines
/// are kept, and at a divergence the side whose removal preserves the
/// longest common subsequence is consumed, deletions ahead of
/// insertions on a tie.
pub open spec fn diff_spec(a: Seq<Seq<char>>, b: Seq<Seq<char>>) -> Seq<DiffOp<Seq<char>>>
    decreases a.len() + b.len(),
{
    if a.len() == 0 && b.len() == 0 {
        Seq::empty()
    } else if a.len() == 0 {
        seq![DiffOp::Insert(b[0])] + diff_spec(a, b.skip(1))
    } else if b.len() == 0 {
        seq![DiffOp::Delete(a[0])] + diff_spec(a.skip(1), b)
    } else if a[0] == b[0] {
        seq![DiffOp::Equal(a[0])] + diff_spec(a.skip(1), b.skip(1))
    } else if lcs_len(a.skip(1), b) >= lcs_len(a, b.skip(1)) {
        seq![DiffOp::Delete(a[0])] + diff_spec(a.skip(1), b)
    } else {
        seq![DiffOp::Insert(b[0])] + diff_spec(a, b.skip(1))
    }
}

/// The lines a script reads from the old text: its Equal and Delete
/// lines, in order.
pub open spec fn source_lines(s: Seq<DiffOp<Seq<char>>>) -> Seq<Seq<char>>
    decreases s.len(),
{
    if s.len() == 0 {
        Seq::empty()
    } else {
        let rest = source_lines(s.skip(1));
        match s[0] {
            DiffOp::Equal(l) => seq![l] + rest,
            DiffOp::Delete(l) => seq![l] + rest,
            DiffOp::Insert(_) => rest,
        }
    }
}

/// The lines a script writes into the new text: its Equal and Insert
/// lines, in order.
pub open spec fn target_lines(s: Seq<DiffOp<Seq<char>>>) -> Seq<Seq<char>>
    decreases s.len(),
{
    if s.len() == 0 {
        Seq::empty()
    } else {
        let rest = target_lines(s.skip(1));
        match s[0] {
            DiffOp::Equal(l) => seq![l] + rest,
            DiffOp::Insert(l) => seq![l] + rest,
            DiffOp::Delete(_) => rest,
        }
    }
}

/// A common subsequence is never longer than either sequence.
pub proof fn lemma_lcs_len_bound(a: Seq<Seq<char>>, b: Seq<Seq<char>>)
    ensures
        lcs_len(a, b) <= a.len(),
        lcs_len(a, b) <= b.len(),
    decreases a.len() + b.len(),
{
    if a.len() == 0 || b.len() == 0 {
    } else if a[0] == b[0] {
        lemma_lcs_len_bound(a.skip(1), b.skip(1));
    } else {
        lemma_lcs_len_bound(a.skip(1), b);
        lemma_lcs_len_bound(a, b.skip(1));
    }
}

/// Law: the script of `diff_spec(a, b)` carries the whole round trip.
/// Reading its Equal and Delete lines gives back exactly `a`, and
/// applying it to `a` — keeping Equal lines, dropping Delete lines,
/// adding Insert lines — reconstructs exactly `b`.
pub proof fn lemma_diff_round_trip(a: Seq<Seq<char>>, b: Seq<Seq<char>>)
    ensures
        source_lines(diff_spec(a, b)) == a,
        target_lines(diff_spec(a, b)) == b,
    decreases a.len() + b.len(),
{
    let ops = diff_spec(a, b);
    if a.len() == 0 && b.len() == 0 {
        assert(source_lines(ops) =~= a);
        assert(target_lines(ops) =~= b);
    } else if a.len() == 0 {
        lemma_diff_round_trip(a, b.skip(1));
        assert(ops.skip(1) =~= diff_spec(a, b.skip(1)));
        assert(source_lines(ops) =~= a);
        assert(target_lines(ops) =~= seq![b[0]] + b.skip(1));
        assert(seq![b[0]] + b.skip(1) =~= b);
    } else if b.len() == 0 {
        lemma_diff_round_trip(a.skip(1), b);
        assert(ops.skip(1) =~= diff_spec(a.skip(1), b));
        assert(source_lines(ops) =~= seq![a[0]] + a.skip(1));
        assert(seq![a[0]] + a.skip(1) =~= a);
        assert(target_lines(ops) =~= b);
    } else if a[0] == b[0] {
        lemma_diff_round_trip(a.skip(1), b.skip(1));
        assert(ops.skip(1) =~= diff_spec(a.skip(1), b.skip(1)));
        assert(source_lines(ops) =~= seq![a[0]] + a.skip(1));
        assert(seq![a[0]] + a.skip(1) =~= a);
        assert(target_lines(ops) =~= seq![b[0]] + b.skip(1));
        assert(seq![b[0]] + b.skip(1) =~= b);
    } else if lcs_len(a.skip(1), b) >= lcs_len(a, b.skip(1)) {
        lemma_diff_round_trip(a.skip(1), b);
        assert(ops.skip(1) =~= diff_spec(a.skip(1), b));
        assert(source_lines(ops) =~= seq![a[0]] + a.skip(1));
        assert(seq![a[0]] + a.skip(1) =~= a);
        assert(target_lines(ops) =~= b);
    } else {
        lemma_diff_round_trip(a, b.skip(1));
        assert(ops.skip(1) =~= diff_spec(a, b.skip(1)));
        assert(source_lines(ops) =~= a);
        assert(target_lines(ops) =~= seq![b[0]] + b.skip(1));
        assert(seq![b[0]] + b.skip(1) =~= b);
    }
}

/// Computes the line-level edit script from `old_text` to `new_text`:
/// exactly `diff_spec` of their lines. Total over any two texts whose
/// character counts fit the machine; it never fails.
pub fn compute(old_text: &str, new_text: &str) -> (script: DiffScript)
    requires
        old_text@.len() < usize::MAX,
        new_text@.len() < usize::MAX,
    ensures
        script@ == diff_spec(spec_lines(old_text@), spec_lines(new_text@)),
{
    let a = split_lines(old_text);
    let b = split_lines(new_text);
    let ghost ga: Seq<Seq<char>> = lines_view(a@);
    let ghost gb: Seq<Seq<char>> = lines_view(b@);
    let n = a.len();
    let m = b.len();
    proof {
        crate::lines::lemma_lines_count(new_text@, Seq::empty());
    }

    // rows[k][j] holds the longest-common-subsequence length of the
    // line suffixes a[n - k ..] and b[j ..].
    let mut rows: Vec<Vec<usize>> = Vec::new();
    while rows.len() <= n
        invariant
            rows@.len() <= n + 1,
            n == ga.len(),
            m == gb.len(),
            m < usize::MAX,
            a@.len() == n,
            b@.len() == m,
            lines_view(a@) == ga,
            lines_view(b@) == gb,
            forall|k: int| 0 <= k < rows@.len() ==> (#[trigger] rows@[k])@.len() == m + 1,
            forall|k: int, j: int|
                0 <= k < rows@.len() && 0 <= j <= m ==> #[trigger] rows@[k]@[j] == lcs_len(
                    ga.skip(n - k),
                    gb.skip(j),
                ),
        decreases n + 1 - rows@.len(),
    {
        let i = n - rows.len();
        let mut row: Vec<usize> = vec![0usize; m + 1];
        let mut jj: usize = m + 1;
        while jj > 0
            invariant
                jj <= m + 1,
                i + rows@.len() == n,
                row@.len() == m + 1,
                n == ga.len(),
                m == gb.len(),
                a@.len() == n,
                b@.len() == m,
                lines_view(a@) == ga,
                lines_view(b@) == gb,
                forall|k: int| 0 <= k < rows@.len() ==> (#[trigger] rows@[k])@.len() == m + 1,
                forall|k: int, j: int|
                    0 <= k < rows@.len() && 0 <= j <= m ==> #[trigger] rows@[k]@[j] == lcs_len(
                        ga.skip(n - k),
                        gb.skip(j),
                    ),
                forall|j: int|
                    jj <= j <= m ==> #[trigger] row@[j] == lcs_len(ga.skip(i as int), gb.skip(j)),
            decreases jj,
        {
            jj = jj - 1;
            let j = jj;
            let ghost sa = ga.skip(i as int);
            let ghost sb = gb.skip(j as int);
            proof {
                if i < n {
                    assert(ga[i as int] == a@[i as int]@);
                    assert(sa[0] == ga[i as int]);
                    assert(sa.skip(1) =~= ga.skip(i as int + 1));
                }
                if j < m {
                    assert(gb[j as int] == b@[j as int]@);
                    assert(sb[0] == gb[j as int]);
                    assert(sb.skip(1) =~= gb.skip(j as int + 1));
                }
            }
            let v: usize;
            if i == n || j == m {
                v = 0;
                proof {
                    assert(lcs_len(sa, sb) == 0);
                }
            } else if a[i] == b[j] {
                proof {
                    lemma_lcs_len_bound(ga.skip(i as int + 1), gb.skip(j as int + 1));
                }
                v = 1 + rows[rows.len() - 1][j + 1];
                proof {
                    assert(lcs_len(sa, sb) == 1 + lcs_len(
                        ga.skip(i as int + 1),
                        gb.skip(j as int + 1),
                    ));
                }
            } else {
                let del = rows[rows.len() - 1][j];
                let ins = row[j + 1];
                v = if del >= ins {
                    del
                } else {
                    ins
                };
                proof {
                    assert(lcs_len(sa, sb) == if lcs_len(ga.skip(i as int + 1), gb.skip(j as int))
                        >= lcs_len(ga.skip(i as int), gb.skip(j as int + 1)) {
                        lcs_len(ga.skip(i as int + 1), gb.skip(j as int))
                    } else {
                        lcs_len(ga.skip(i as int), gb.skip(j as int + 1))
                    });
                }
            }
            row[j] = v;
        }
        rows.push(row);
    }

    // Walk both line sequences from the front, emitting the operation
    // that diff_spec prescribes at each divergence.
    let mut ops: Vec<DiffOp<String>> = Vec::new();
    let mut i: usize = 0;
    let mut j: usize = 0;
    proof {
        assert(ga.skip(0) =~= ga);
        assert(gb.skip(0) =~= gb);
        assert(ops_view(ops@) + diff_spec(ga, gb) =~= diff_spec(ga, gb));
    }
    while i < n || j < m
        invariant
            i <= n,
            j <= m,
            n == ga.len(),
            m == gb.len(),
            a@.len() == n,
            b@.len() == m,
            lines_view(a@) == ga,
            lines_view(b@) == gb,
            rows@.len() == n + 1,
            forall|k: int| 0 <= k < rows@.len() ==> (#[trigger] rows@[k])@.len() == m + 1,
            forall|k: int, jx: int|
                0 <= k < rows@.len() && 0 <= jx <= m ==> #[trigger] rows@[k]@[jx] == lcs_len(
                    ga.skip(n - k),
                    gb.skip(jx),
                ),
            diff_spec(ga, gb) == ops_view(ops@) + diff_spec(ga.skip(i as int), gb.skip(j as int)),
        decreases n - i + m - j,
    {
        let ghost pre = ops_view(ops@);
        let ghost sa = ga.skip(i as int);
        let ghost sb = gb.skip(j as int);
        proof {
            if i < n {
                assert(ga[i as int] == a@[i as int]@);
                assert(sa[0] == ga[i as int]);
                assert(sa.skip(1) =~= ga.skip(i as int + 1));
            }
            if j < m {
                assert(gb[j as int] == b@[j as int]@);
                assert(sb[0] == gb[j as int]);
                assert(sb.skip(1) =~= gb.skip(j as int + 1));
            }
        }
        if i < n && j < m && a[i] == b[j] {
            ops.push(DiffOp::Equal(a[i].clone()));
            proof {
                assert(diff_spec(sa, sb) == seq![DiffOp::Equal(sa[0])] + diff_spec(
                    ga.skip(i as int + 1),
                    gb.skip(j as int + 1),
                ));
                assert(ops_view(ops@) =~= pre + seq![DiffOp::Equal(ga[i as int])]);
                assert(ops_view(ops@) + diff_spec(ga.skip(i as int + 1), gb.skip(j as int + 1))
                    =~= pre + diff_spec(sa, sb));
            }
            i = i + 1;
            j = j + 1;
        } else if i == n {
            ops.push(DiffOp::Insert(b[j].clone()));
            proof {
                assert(sa.len() == 0);
                assert(diff_spec(sa, sb) == seq![DiffOp::Insert(sb[0])] + diff_spec(
                    sa,
                    gb.skip(j as int + 1),
                ));
                assert(sa =~= ga.skip(i as int));
                assert(ops_view(ops@) =~= pre + seq![DiffOp::Insert(gb[j as int])]);
                assert(ops_view(ops@) + diff_spec(ga.skip(i as int), gb.skip(j as int + 1)) =~= pre
                    + diff_spec(sa, sb));
            }
            j = j + 1;
        } else if j == m {
            ops.push(DiffOp::Delete(a[i].clone()));
            proof {
                assert(sb.len() == 0);
                assert(diff_spec(sa, sb) == seq![DiffOp::Delete(sa[0])] + diff_spec(
                    ga.skip(i as int + 1),
                    sb,
                ));
                assert(ops_view(ops@) =~= pre + seq![DiffOp::Delete(ga[i as int])]);
                assert(ops_view(ops@) + diff_spec(ga.skip(i as int + 1), gb.skip(j as int)) =~= pre
                    + diff_spec(sa, sb));
            }
            i = i + 1;
        } else {
            let del = rows[n - i - 1][j];
            let ins = rows[n - i][j + 1];
            proof {
                assert(del == lcs_len(ga.skip(i as int + 1), gb.skip(j as int)));
                assert(ins == lcs_len(ga.skip(i as int), gb.skip(j as int + 1)));
            }
            if del >= ins {
                ops.push(DiffOp::Delete(a[i].clone()));
                proof {
                    assert(diff_spec(sa, sb) == seq![DiffOp::Delete(sa[0])] + diff_spec(
                        ga.skip(i as int + 1),
                        gb.skip(j as int),
                    ));
                    assert(ops_view(ops@) =~= pre + seq![DiffOp::Delete(ga[i as int])]);
                    assert(ops_view(ops@) + diff_spec(ga.skip(i as int + 1), gb.skip(j as int))
                        =~= pre + diff_spec(sa, sb));
                }
                i = i + 1;
            } else {
                ops.push(DiffOp::Insert(b[j].clone()));
                proof {
                    assert(diff_spec(sa, sb) == seq![DiffOp::Insert(sb[0])] + diff_spec(
                        ga.skip(i as int),
                        gb.skip(j as int + 1),
                    ));
                    assert(ops_view(ops@) =~= pre + seq![DiffOp::Insert(gb[j as int])]);
                    assert(ops_view(ops@) + diff_spec(ga.skip(i as int), gb.skip(j as int + 1))
                        =~= pre + diff_spec(sa, sb));
                }
                j = j + 1;
            }
        }
    }
    proof {
        assert(diff_spec(ga.skip(n as int), gb.skip(m as int)) =~= Seq::<DiffOp<Seq<char>>>::empty());
        assert(ops_view(ops@) + Seq::<DiffOp<Seq<char>>>::empty() =~= ops_view(ops@));
    }
    DiffScript { ops }
}

/// The lines a script keeps untouched: its Equal lines, in order.
pub open spec fn equal_lines(s: Seq<DiffOp<Seq<char>>>) -> Seq<Seq<char>>
    decreases s.len(),
{
    if s.len() == 0 {
        Seq::empty()
    } else {
        let rest = equal_lines(s.skip(1));
        match s[0] {
            DiffOp::Equal(l) => seq![l] + rest,
            DiffOp::Insert(_) => rest,
            DiffOp::Delete(_) => rest,
        }
    }
}

/// The work a script performs: how many of its operations insert or
/// delete a line.
pub open spec fn edit_cost(s: Seq<DiffOp<Seq<char>>>) -> nat
    decreases s.len(),
{
    if s.len() == 0 {
        0
    } else {
        (match s[0] {
            DiffOp::Equal(_) => 0nat,
            DiffOp::Insert(_) => 1nat,
            DiffOp::Delete(_) => 1nat,
        }) + edit_cost(s.skip(1))
    }
}

/// Whether `s` is a subsequence of `a`: `s` can be read off `a` in
/// order, skipping lines of `a` at will.
pub open spec fn is_subseq_of(s: Seq<Seq<char>>, a: Seq<Seq<char>>) -> bool
    decreases s.len() + a.len(),
{
    if s.len() == 0 {
        true
    } else if a.len() == 0 {
        false
    } else if s[0] == a[0] {
        is_subseq_of(s.skip(1), a.skip(1))
    } else {
        is_subseq_of(s, a.skip(1))
    }
}

/// A subsequence of a sequence's tail is a subsequence of the whole.
pub proof fn lemma_subseq_widen(s: Seq<Seq<char>>, a: Seq<Seq<char>>)
    requires
        a.len() > 0,
        is_subseq_of(s, a.skip(1)),
    ensures
        is_subseq_of(s, a),
    decreases s.len() + a.len(),
{
    if s.len() == 0 {
    } else if s[0] == a[0] {
        lemma_subseq_drop_first(s, a.skip(1));
        assert(is_subseq_of(s.skip(1), a.skip(1)));
    }
}

/// Dropping the first element of a subsequence keeps it a subsequence.
pub proof fn lemma_subseq_drop_first(s: Seq<Seq<char>>, a: Seq<Seq<char>>)
    requires
        s.len() > 0,
        is_subseq_of(s, a),
    ensures
        is_subseq_of(s.skip(1), a),
    decreases s.len() + a.len(),
{
    if a.len() == 0 {
    } else if s[0] == a[0] {
        lemma_subseq_widen(s.skip(1), a);
    } else {
        lemma_subseq_drop_first(s, a.skip(1));
        lemma_subseq_widen(s.skip(1), a);
    }
}

/// No common subsequence of `a` and `b` is longer than `lcs_len(a, b)`.
pub proof fn lemma_lcs_len_maximal(s: Seq<Seq<char>>, a: Seq<Seq<char>>, b: Seq<Seq<char>>)
    requires
        is_subseq_of(s, a),
        is_subseq_of(s, b),
    ensures
        s.len() <= lcs_len(a, b),
    decreases a.len() + b.len(),
{
    if s.len() == 0 {
    } else if a.len() == 0 || b.len() == 0 {
        assert(!is_subseq_of(s, a) || !is_subseq_of(s, b));
    } else if a[0] == b[0] {
        if s[0] == a[0] {
            lemma_lcs_len_maximal(s.skip(1), a.skip(1), b.skip(1));
        } else {
            assert(is_subseq_of(s, a.skip(1)));
            assert(is_subseq_of(s, b.skip(1)));
            lemma_lcs_len_maximal(s, a.skip(1), b.skip(1));
            lemma_lcs_len_bound_mono(a, b);
        }
    } else {
        if s[0] != a[0] {
            assert(is_subseq_of(s, a.skip(1)));
            lemma_lcs_len_maximal(s, a.skip(1), b);
        } else {
            assert(s[0] != b[0]);
            assert(is_subseq_of(s, b.skip(1)));
            lemma_lcs_len_maximal(s, a, b.skip(1));
        }
    }
}

/// Shortening both sequences by their equal heads costs at most one
/// unit of common-subsequence length.
proof fn lemma_lcs_len_bound_mono(a: Seq<Seq<char>>, b: Seq<Seq<char>>)
    requires
        a.len() > 0,
        b.len() > 0,
        a[0] == b[0],
    ensures
        lcs_len(a.skip(1), b.skip(1)) <= lcs_len(a, b),
{
    assert(lcs_len(a, b) == 1 + lcs_len(a.skip(1), b.skip(1)));
}

/// In any script, the Equal lines together with the editing operations
/// account for both sides: cost plus twice the kept lines equals the
/// two sides' total length.
pub proof fn lemma_cost_counts_sides(s: Seq<DiffOp<Seq<char>>>)
    ensures
        edit_cost(s) + 2 * equal_lines(s).len() == source_lines(s).len() + target_lines(s).len(),
    decreases s.len(),
{
    if s.len() == 0 {
    } else {
        lemma_cost_counts_sides(s.skip(1));
    }
}

/// The Equal lines of any script form a common subsequence of its two
/// sides.
pub proof fn lemma_equal_lines_common(s: Seq<DiffOp<Seq<char>>>)
    ensures
        is_subseq_of(equal_lines(s), source_lines(s)),
        is_subseq_of(equal_lines(s), target_lines(s)),
    decreases s.len(),
{
    if s.len() == 0 {
    } else {
        lemma_equal_lines_common(s.skip(1));
        let eq = equal_lines(s.skip(1));
        let src = source_lines(s.skip(1));
        let tgt = target_lines(s.skip(1));
        match s[0] {
            DiffOp::Equal(l) => {
                assert((seq![l] + eq).skip(1) =~= eq);
                assert((seq![l] + src).skip(1) =~= src);
                assert((seq![l] + tgt).skip(1) =~= tgt);
            },
            DiffOp::Insert(l) => {
                assert((seq![l] + tgt).skip(1) =~= tgt);
                lemma_subseq_widen(eq, seq![l] + tgt);
            },
            DiffOp::Delete(l) => {
                assert((seq![l] + src).skip(1) =~= src);
                lemma_subseq_widen(eq, seq![l] + src);
            },
        }
    }
}

/// The script of `diff_spec` keeps exactly a longest common subsequence.
pub proof fn lemma_diff_keeps_lcs(a: Seq<Seq<char>>, b: Seq<Seq<char>>)
    ensures
        equal_lines(diff_spec(a, b)).len() == lcs_len(a, b),
    decreases a.len() + b.len(),
{
    let ops = diff_spec(a, b);
    if a.len() == 0 && b.len() == 0 {
    } else if a.len() == 0 {
        lemma_diff_keeps_lcs(a, b.skip(1));
        assert(ops.skip(1) =~= diff_spec(a, b.skip(1)));
    } else if b.len() == 0 {
        lemma_diff_keeps_lcs(a.skip(1), b);
        assert(ops.skip(1) =~= diff_spec(a.skip(1), b));
    } else if a[0] == b[0] {
        lemma_diff_keeps_lcs(a.skip(1), b.skip(1));
        assert(ops.skip(1) =~= diff_spec(a.skip(1), b.skip(1)));
    } else if lcs_len(a.skip(1), b) >= lcs_len(a, b.skip(1)) {
        lemma_diff_keeps_lcs(a.skip(1), b);
        assert(ops.skip(1) =~= diff_spec(a.skip(1), b));
    } else {
        lemma_diff_keeps_lcs(a, b.skip(1));
        assert(ops.skip(1) =~= diff_spec(a, b.skip(1)));
    }
}

/// Law: the computed script is a minimal edit script. Any script whose
/// Equal and Delete lines read exactly `a` and whose Equal and Insert
/// lines write exactly `b` performs at least as many insertions and
/// deletions as `diff_spec(a, b)`.
pub proof fn lemma_diff_minimal(s: Seq<DiffOp<Seq<char>>>, a: Seq<Seq<char>>, b: Seq<Seq<char>>)
    requires
        source_lines(s) == a,
        target_lines(s) == b,
    ensures
        edit_cost(diff_spec(a, b)) <= edit_cost(s),
{
    lemma_equal_lines_common(s);
    lemma_lcs_len_maximal(equal_lines(s), a, b);
    lemma_cost_counts_sides(s);
    lemma_diff_round_trip(a, b);
    lemma_diff_keeps_lcs(a, b);
    lemma_cost_counts_sides(diff_spec(a, b));
}

/// Law: diffing a text against itself keeps every line, in order, as an
/// Equal operation and nothing else.
pub proof fn lemma_diff_identity(a: Seq<Seq<char>>)
    ensures
        diff_spec(a, a) == a.map_values(|l: Seq<char>| DiffOp::Equal(l)),
    decreases a.len(),
{
    if a.len() == 0 {
        assert(diff_spec(a, a) =~= a.map_values(|l: Seq<char>| DiffOp::Equal(l)));
    } else {
        lemma_diff_identity(a.skip(1));
        assert(diff_spec(a, a) =~= a.map_values(|l: Seq<char>| DiffOp::Equal(l)));
    }
}

} // verus!
