//! Splitting a text into its lines: the delimiter `'\n'` separates
//! lines and is not part of them, and a trailing newline does not open
//! an empty final line, so `"a\nb\n"` and `"a\nb"` both split into the
//! two lines `a` and `b`.

use vstd::prelude::*;

verus! {

/// Lines of `s` when the characters of `cur` have already been read as
/// the beginning of the current line.
pub open spec fn lines_from(s: Seq<char>, cur: Seq<char>) -> Seq<Seq<char>>
    decreases s.len(),
{
    if s.len() == 0 {
        if cur.len() == 0 {
            Seq::empty()
        } else {
            seq![cur]
        }
    } else if s[0] == '\n' {
        seq![cur] + lines_from(s.skip(1), Seq::empty())
    } else {
        lines_from(s.skip(1), cur.push(s[0]))
    }
}

/// The lines of a text.
pub open spec fn spec_lines(s: Seq<char>) -> Seq<Seq<char>> {
    lines_from(s, Seq::empty())
}

/// A text has at most as many lines as characters: every line consumes
/// its delimiter or at least one character of content.
pub proof fn lemma_lines_count(s: Seq<char>, cur: Seq<char>)
    ensures
        lines_from(s, cur).len() <= s.len() + if cur.len() > 0 {
            1nat
        } else {
            0nat
        },
    decreases s.len(),
{
    if s.len() == 0 {
    } else if s[0] == '\n' {
        lemma_lines_count(s.skip(1), Seq::empty());
    } else {
        lemma_lines_count(s.skip(1), cur.push(s[0]));
    }
}

/// The views of a sequence of owned lines.
pub open spec fn lines_view(v: Seq<String>) -> Seq<Seq<char>> {
    v.map_values(|l: String| l@)
}

/// Splits a text into its lines.
pub fn split_lines(s: &str) -> (r: Vec<String>)
    ensures
        lines_view(r@) == spec_lines(s@),
{
    let len = s.unicode_len();
    let mut r: Vec<String> = Vec::new();
    let mut start: usize = 0;
    let mut i: usize = 0;
    proof {
        assert(s@.skip(0) =~= s@);
        assert(s@.subrange(0, 0) =~= Seq::<char>::empty());
        assert(lines_view(r@) + lines_from(s@, Seq::empty()) =~= spec_lines(s@));
    }
    while i < len
        invariant
            start <= i <= len,
            len == s@.len(),
            spec_lines(s@) == lines_view(r@) + lines_from(s@.skip(i as int), s@.subrange(start as int, i as int)),
        decreases len - i,
    {
        let ghost cur = s@.subrange(start as int, i as int);
        proof {
            assert(s@.skip(i as int)[0] == s@[i as int]);
            assert(s@.skip(i as int).skip(1) =~= s@.skip(i as int + 1));
        }
        let c = s.get_char(i);
        if c == '\n' {
            let line = s.substring_char(start, i).to_owned();
            r.push(line);
            proof {
                assert(lines_from(s@.skip(i as int), cur) =~= seq![cur] + lines_from(
                    s@.skip(i as int + 1),
                    Seq::empty(),
                ));
                assert(lines_view(r@) =~= lines_view(r@.drop_last()) + seq![cur]);
                assert(lines_view(r@) + lines_from(s@.skip(i as int + 1), Seq::empty()) =~= (
                lines_view(r@.drop_last()) + seq![cur]) + lines_from(
                    s@.skip(i as int + 1),
                    Seq::empty(),
                ));
                assert((lines_view(r@.drop_last()) + seq![cur]) + lines_from(
                    s@.skip(i as int + 1),
                    Seq::empty(),
                ) =~= lines_view(r@.drop_last()) + (seq![cur] + lines_from(
                    s@.skip(i as int + 1),
                    Seq::empty(),
                )));
                assert(s@.subrange(i as int + 1, i as int + 1) =~= Seq::<char>::empty());
            }
            start = i + 1;
        } else {
            proof {
                assert(s@.subrange(start as int, i as int + 1) =~= cur.push(s@[i as int]));
            }
        }
        i = i + 1;
    }
    proof {
        assert(s@.skip(len as int) =~= Seq::<char>::empty());
    }
    if start < len {
        let line = s.substring_char(start, len).to_owned();
        r.push(line);
        proof {
            let ghost cur = s@.subrange(start as int, len as int);
            assert(cur.len() > 0);
            assert(lines_from(Seq::<char>::empty(), cur) =~= seq![cur]);
            assert(lines_view(r@) =~= lines_view(r@.drop_last()) + seq![cur]);
            assert(lines_view(r@) =~= spec_lines(s@));
        }
    } else {
        proof {
            assert(s@.subrange(start as int, len as int) =~= Seq::<char>::empty());
            assert(lines_from(Seq::<char>::empty(), Seq::<char>::empty()) =~= Seq::<Seq<char>>::empty());
            assert(lines_view(r@) + Seq::<Seq<char>>::empty() =~= lines_view(r@));
        }
    }
    r
}

} // verus!
