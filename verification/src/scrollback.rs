//! The scrollback history: an ordered sequence of wrapped entries, newest
//! first, plus a scroll offset, its recomputed bound, and the column width
//! entries are wrapped at.

use std::collections::VecDeque;

use vstd::prelude::*;

use crate::wrap::wrap_spans;
use crate::wrap::Wrapped;

verus! {

/// The total number of rendered lines of the given entry texts, wrapped at
/// width `w`.
pub open spec fn total_wrapped_lines(texts: Seq<Seq<char>>, w: int) -> int
    decreases texts.len(),
{
    if texts.len() == 0 {
        0
    } else {
        total_wrapped_lines(texts.drop_last(), w) + wrap_spans(texts.last(), w).len()
    }
}

/// An ordered history of wrapped entries, newest first. The scroll offset
/// counts rendered lines away from the newest content; its bound is
/// recomputed once per render pass and the offset clamped to it then.
pub struct Scrollback {
    pub events: VecDeque<Wrapped>,
    pub scroll: usize,
    pub maximum_scroll: usize,
    pub columns: usize,
}

impl Scrollback {
    /// Every entry is well-formed, and a column width has been seen
    /// whenever the view is scrolled back or a scroll bound exists.
    pub open spec fn wf(self) -> bool {
        &&& forall|i: int| 0 <= i < self.events@.len() ==> (#[trigger] self.events@[i]).wf()
        &&& (self.scroll > 0 ==> self.columns >= 1)
        &&& (self.maximum_scroll > 0 ==> self.columns >= 1)
    }

    /// The texts of all entries, newest first.
    pub open spec fn entry_texts(self) -> Seq<Seq<char>> {
        self.events@.map_values(|e: Wrapped| e.text())
    }

    /// An empty history.
    pub fn new() -> (r: Scrollback)
        ensures
            r.wf(),
            r.entry_texts() == Seq::<Seq<char>>::empty(),
            r.scroll == 0,
            r.maximum_scroll == 0,
            r.columns == 0,
    {
        let r = Scrollback { events: VecDeque::new(), scroll: 0, maximum_scroll: 0, columns: 0 };
        proof {
            assert(r.entry_texts() =~= Seq::<Seq<char>>::empty());
        }
        r
    }

    /// Insert `line` as the newest entry. While the view is scrolled back,
    /// the entry is wrapped at the current column width up front and the
    /// scroll offset grows by exactly its line count (saturating), so the
    /// content in the viewport does not jump when new output arrives.
    pub fn push(&mut self, line: String)
        requires
            old(self).wf(),
        ensures
            final(self).wf(),
            final(self).columns == old(self).columns,
            final(self).maximum_scroll == old(self).maximum_scroll,
            final(self).entry_texts() == seq![line@] + old(self).entry_texts(),
            old(self).scroll == 0 ==> final(self).scroll == 0,
            old(self).scroll > 0 ==> {
                &&& final(self).scroll as int == vstd::math::min(
                    old(self).scroll + wrap_spans(line@, old(self).columns as int).len(),
                    usize::MAX as int,
                )
                &&& final(self).events@[0].wrapped_at(old(self).columns as int)
            },
    {
        let mut wrapped = Wrapped::new(line);
        if self.scroll != 0 {
            wrapped.wrap(self.columns);
            let count = wrapped.line_count();
            self.scroll = self.scroll.saturating_add(count);
        }
        self.events.push_front(wrapped);
        proof {
            assert(self.entry_texts() =~= seq![line@] + old(self).entry_texts());
        }
    }

    /// Move the view by `lines` rendered lines: positive toward older
    /// content, clamped at the scroll bound; negative toward newer content,
    /// clamped at zero. The arithmetic saturates even for the extreme
    /// magnitudes of `isize`, and a view inside its bound stays inside.
    pub fn scroll_by(&mut self, lines: isize)
        requires
            old(self).wf(),
        ensures
            final(self).wf(),
            final(self).events == old(self).events,
            final(self).columns == old(self).columns,
            final(self).maximum_scroll == old(self).maximum_scroll,
            lines > 0 ==> final(self).scroll as int == vstd::math::min(
                old(self).scroll + lines,
                old(self).maximum_scroll as int,
            ),
            lines <= 0 ==> final(self).scroll as int == vstd::math::max(
                old(self).scroll + lines,
                0,
            ),
            old(self).scroll <= old(self).maximum_scroll ==> final(self).scroll <= final(self).maximum_scroll,
    {
        if lines > 0 {
            let grown = self.scroll.saturating_add(lines as usize);
            self.scroll = if grown < self.maximum_scroll {
                grown
            } else {
                self.maximum_scroll
            };
        } else if lines == isize::MIN {
            // `-lines` is unrepresentable, but the magnitude is MAX + 1.
            self.scroll = self.scroll.saturating_sub((isize::MAX as usize) + 1);
        } else {
            self.scroll = self.scroll.saturating_sub((-lines) as usize);
        }
    }

    /// One render pass's bookkeeping: wrap every entry at the current
    /// column width, count the rendered lines, and set the scroll bound to
    /// what exceeds the rows left for scrollback (`rendered_rows` minus
    /// `input_rows`, floored at zero). A scroll offset past the new bound
    /// is clamped onto it, and the caller is told to render again.
    pub fn recompute_bounds(&mut self, rendered_rows: usize, input_rows: usize) -> (needs_redraw:
        bool)
        requires
            old(self).wf(),
            old(self).columns >= 1,
        ensures
            final(self).wf(),
            final(self).columns == old(self).columns,
            final(self).entry_texts() == old(self).entry_texts(),
            forall|i: int|
                0 <= i < final(self).events@.len() ==> (#[trigger] final(self).events@[i])
                    .wrapped_at(old(self).columns as int),
            final(self).maximum_scroll as int == vstd::math::max(
                vstd::math::min(
                    total_wrapped_lines(old(self).entry_texts(), old(self).columns as int),
                    usize::MAX as int,
                ) - vstd::math::max(rendered_rows - input_rows, 0),
                0,
            ),
            final(self).scroll as int == vstd::math::min(
                old(self).scroll as int,
                final(self).maximum_scroll as int,
            ),
            needs_redraw == (old(self).scroll > final(self).maximum_scroll),
    {
        let ghost texts = old(self).entry_texts();
        let cols = self.columns;
        let mut rewrapped: VecDeque<Wrapped> = VecDeque::new();
        let mut total: usize = 0;
        proof {
            assert(texts.subrange(0, 0) =~= Seq::<Seq<char>>::empty());
        }
        while self.events.len() > 0
            invariant
                cols == old(self).columns,
                cols >= 1,
                texts == old(self).entry_texts(),
                self.events@.len() + rewrapped@.len() == texts.len(),
                forall|i: int|
                    0 <= i < self.events@.len() ==> (#[trigger] self.events@[i]).wf()
                        && self.events@[i].text() == texts[rewrapped@.len() + i],
                forall|i: int|
                    0 <= i < rewrapped@.len() ==> {
                        &&& (#[trigger] rewrapped@[i]).wf()
                        &&& rewrapped@[i].wrapped_at(cols as int)
                        &&& rewrapped@[i].text() == texts[i]
                    },
                total as int == vstd::math::min(
                    total_wrapped_lines(texts.subrange(0, rewrapped@.len() as int), cols as int),
                    usize::MAX as int,
                ),
                self.scroll == old(self).scroll,
                self.maximum_scroll == old(self).maximum_scroll,
                self.columns == old(self).columns,
            decreases self.events@.len(),
        {
            let ghost k = rewrapped@.len() as int;
            let mut entry = self.events.pop_front().unwrap();
            entry.wrap(cols);
            let count = entry.line_count();
            total = total.saturating_add(count);
            rewrapped.push_back(entry);
            proof {
                assert(texts.subrange(0, k + 1).drop_last() =~= texts.subrange(0, k));
                assert(texts.subrange(0, k + 1).last() == texts[k]);
                assert(total_wrapped_lines(texts.subrange(0, k + 1), cols as int)
                    == total_wrapped_lines(texts.subrange(0, k), cols as int) + wrap_spans(
                    texts[k],
                    cols as int,
                ).len());
            }
        }
        self.events = rewrapped;
        proof {
            assert(texts.subrange(0, texts.len() as int) =~= texts);
            assert(self.entry_texts() =~= texts);
        }
        let avail = rendered_rows.saturating_sub(input_rows);
        self.maximum_scroll = total.saturating_sub(avail);
        if self.scroll > self.maximum_scroll {
            self.scroll = self.maximum_scroll;
            true
        } else {
            false
        }
    }

    /// Update the wrap width used from the next render pass on.
    pub fn set_columns(&mut self, columns: usize)
        requires
            old(self).wf(),
            columns >= 1,
        ensures
            final(self).wf(),
            final(self).events == old(self).events,
            final(self).scroll == old(self).scroll,
            final(self).maximum_scroll == old(self).maximum_scroll,
            final(self).columns == columns,
    {
        self.columns = columns;
    }

    /// Drop every entry and return to the newest position.
    pub fn clear(&mut self)
        ensures
            old(self).wf() ==> final(self).wf(),
            final(self).entry_texts() == Seq::<Seq<char>>::empty(),
            final(self).scroll == 0,
            final(self).maximum_scroll == old(self).maximum_scroll,
            final(self).columns == old(self).columns,
    {
        self.scroll = 0;
        self.events.clear();
        proof {
            assert(self.entry_texts() =~= Seq::<Seq<char>>::empty());
        }
    }

    /// Return to the newest position without touching the entries.
    pub fn reset_scroll(&mut self)
        ensures
            old(self).wf() ==> final(self).wf(),
            final(self).events == old(self).events,
            final(self).scroll == 0,
            final(self).maximum_scroll == old(self).maximum_scroll,
            final(self).columns == old(self).columns,
    {
        self.scroll = 0;
    }
}

impl Default for Scrollback {
    /// Same as [`Scrollback::new`].
    fn default() -> (r: Self)
        ensures
            r.wf(),
            r.entry_texts() == Seq::<Seq<char>>::empty(),
            r.scroll == 0,
            r.maximum_scroll == 0,
            r.columns == 0,
    {
        Scrollback::new()
    }
}

} // verus!
