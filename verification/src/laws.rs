//! Laws of the word-wrap engine, stated over its public specification
//! functions and proved once and for all.

use vstd::prelude::*;

use crate::wrap::is_line_break;
use crate::wrap::lemma_wrap_spans_tiled;
use crate::wrap::tiled_between;
use crate::wrap::wrap_spans;

verus! {

/// The texts of `spans`, concatenated in order, with the one skipped break
/// character put back wherever the next span does not start where the
/// previous one ended (and after the last span when one was skipped there).
pub open spec fn glue(s: Seq<char>, spans: Seq<(int, int)>) -> Seq<char>
    decreases spans.len(),
{
    if spans.len() == 0 {
        Seq::empty()
    } else {
        let sp = spans[0];
        let rest_start: int = if spans.len() > 1 {
            spans[1].0
        } else {
            s.len() as int
        };
        let brk: Seq<char> = if rest_start == sp.1 + 1 {
            seq![s[sp.1]]
        } else {
            Seq::empty()
        };
        s.subrange(sp.0, sp.1) + brk + glue(s, spans.drop_first())
    }
}

/// Gluing the texts of spans that tile `s` from `a` to its end gives back
/// exactly that part of `s`.
proof fn lemma_glue_tiled(s: Seq<char>, w: int, spans: Seq<(int, int)>, a: int)
    requires
        0 <= a,
        tiled_between(s, w, spans, a, s.len() as int),
    ensures
        glue(s, spans) == s.subrange(a, s.len() as int),
    decreases spans.len(),
{
    broadcast use vstd::seq::group_seq_axioms;

    reveal_with_fuel(tiled_between, 3);
    if spans.len() == 0 {
        assert(glue(s, spans) =~= s.subrange(a, s.len() as int));
    } else {
        let sp = spans[0];
        let rest = spans.drop_first();
        let rest_start: int = if spans.len() > 1 {
            spans[1].0
        } else {
            s.len() as int
        };
        if spans.len() > 1 {
            assert(rest[0] == spans[1]);
        }
        if tiled_between(s, w, rest, sp.1, s.len() as int) {
            lemma_glue_tiled(s, w, rest, sp.1);
            assert(rest_start == sp.1);
            let lhs = s.subrange(a, sp.1) + Seq::<char>::empty() + s.subrange(
                sp.1,
                s.len() as int,
            );
            assert(glue(s, spans) == lhs);
            assert forall|i: int| 0 <= i < lhs.len() implies lhs[i] == s.subrange(
                a,
                s.len() as int,
            )[i] by {
                if i < sp.1 - a {
                    assert(lhs[i] == s.subrange(a, sp.1)[i]);
                } else {
                    assert(lhs[i] == s.subrange(sp.1, s.len() as int)[i - (sp.1 - a)]);
                }
            };
            assert(lhs =~= s.subrange(a, s.len() as int));
        } else {
            lemma_glue_tiled(s, w, rest, sp.1 + 1);
            assert(rest_start == sp.1 + 1);
            let lhs = s.subrange(a, sp.1) + seq![s[sp.1]] + s.subrange(sp.1 + 1, s.len() as int);
            assert(glue(s, spans) == lhs);
            assert forall|i: int| 0 <= i < lhs.len() implies lhs[i] == s.subrange(
                a,
                s.len() as int,
            )[i] by {
                if i < sp.1 - a {
                    assert(lhs[i] == s.subrange(a, sp.1)[i]);
                } else if i == sp.1 - a {
                    assert(lhs[i] == s[sp.1]);
                } else {
                    assert(lhs[i] == s.subrange(sp.1 + 1, s.len() as int)[i - (sp.1 - a) - 1]);
                }
            };
            assert(lhs =~= s.subrange(a, s.len() as int));
        }
    }
}

/// Wrapping loses no text and duplicates none: at any width `w >= 1` the
/// wrap of `s` produces at least one line; the line spans cover `s` in
/// order, skipping exactly one line-break character wherever two lines meet
/// without abutting, and no line is wider than `w` characters; and gluing
/// the line texts back together with the skipped break characters
/// reconstructs `s` exactly.
pub proof fn lemma_wrap_reconstructs(s: Seq<char>, w: int)
    requires
        w >= 1,
    ensures
        wrap_spans(s, w).len() > 0,
        tiled_between(s, w, wrap_spans(s, w), 0, s.len() as int),
        glue(s, wrap_spans(s, w)) == s,
{
    lemma_wrap_spans_tiled(s, w);
    lemma_glue_tiled(s, w, wrap_spans(s, w), 0);
    assert(s.subrange(0, s.len() as int) =~= s);
}

} // verus!
