//! The word-wrap engine: a mutable string plus a cached sequence of line
//! spans, recomputed lazily when the string or the requested width changes.
//!
//! Spans are half-open ranges of character indices (not bytes), so one span
//! renders to `end - start` columns, one column per scalar character. The
//! wrap is specified by a small scanner state machine ([`wrap_step`]) and the
//! executable scan is proved to follow it exactly.

use vstd::prelude::*;

verus! {

/// Whether `ch` ends a word: ASCII whitespace, punctuation or a control
/// character. Lines prefer to break just after such a character.
pub open spec fn is_break_char(ch: char) -> bool {
    let c = ch as u32;
    // ASCII punctuation: '!'..='/' | ':'..='@' | '['..='`' | '{'..='~'
    ||| (33 <= c && c <= 47)
    ||| (58 <= c && c <= 64)
    ||| (91 <= c && c <= 96)
    ||| (123 <= c && c <= 126)
    ||| c == 32  // space
    ||| c == 9   // tab
    ||| c < 32   // ASCII control
    ||| c == 127 // delete
}

/// Whether `ch` forces a line break on the spot.
pub open spec fn is_line_break(ch: char) -> bool {
    ch == '\n' || ch == '\r'
}

/// Executable test for [`is_break_char`].
pub fn is_break(ch: char) -> (r: bool)
    ensures
        r == is_break_char(ch),
{
    let c = ch as u32;
    (33 <= c && c <= 47) || (58 <= c && c <= 64) || (91 <= c && c <= 96)
        || (123 <= c && c <= 126) || c == 32 || c == 9 || c < 32 || c == 127
}

/// Scanner state after consuming some prefix of the text: the spans closed
/// so far, where the open line begins, whether the previous character was a
/// break character, and where the word in progress begins and how long the
/// word and the open line are (in characters).
pub struct WrapState {
    pub spans: Seq<(int, int)>,
    pub line_start: int,
    pub after_breakable: bool,
    pub word_start: int,
    pub word_len: int,
    pub line_len: int,
}

/// Scanner state before any character has been consumed.
pub open spec fn wrap_init() -> WrapState {
    WrapState {
        spans: Seq::empty(),
        line_start: 0,
        after_breakable: true,
        word_start: 0,
        word_len: 0,
        line_len: 0,
    }
}

/// One scanner step: consume the character at index `i` of `s`, closing the
/// open line if the character is a line break or if the line has reached
/// width `w` with more input remaining. A full line breaks before the word
/// in progress, unless that word spans the whole line (or the last character
/// was itself breakable), in which case the line is cut at exactly `w`.
pub open spec fn wrap_step(st: WrapState, s: Seq<char>, w: int, i: int) -> WrapState {
    let ch = s[i];
    let has_more = i + 1 < s.len();
    if is_line_break(ch) {
        WrapState {
            spans: st.spans.push((st.line_start, i)),
            line_start: i + 1,
            after_breakable: true,
            word_start: 0,
            word_len: 0,
            line_len: 0,
        }
    } else {
        let scanned = if is_break_char(ch) {
            WrapState {
                spans: st.spans,
                line_start: st.line_start,
                after_breakable: true,
                word_start: st.word_start,
                word_len: 0,
                line_len: st.line_len + 1,
            }
        } else if st.after_breakable {
            WrapState {
                spans: st.spans,
                line_start: st.line_start,
                after_breakable: false,
                word_start: i,
                word_len: 1,
                line_len: st.line_len + 1,
            }
        } else {
            WrapState {
                spans: st.spans,
                line_start: st.line_start,
                after_breakable: st.after_breakable,
                word_start: st.word_start,
                word_len: st.word_len + 1,
                line_len: st.line_len + 1,
            }
        };
        if scanned.line_len == w && has_more {
            if scanned.word_len > 0 && scanned.word_start > scanned.line_start {
                WrapState {
                    spans: scanned.spans.push((scanned.line_start, scanned.word_start)),
                    line_start: scanned.word_start,
                    after_breakable: scanned.after_breakable,
                    word_start: scanned.word_start,
                    word_len: scanned.word_len,
                    line_len: scanned.word_len,
                }
            } else {
                WrapState {
                    spans: scanned.spans.push((scanned.line_start, i + 1)),
                    line_start: i + 1,
                    after_breakable: true,
                    word_start: 0,
                    word_len: 0,
                    line_len: 0,
                }
            }
        } else {
            scanned
        }
    }
}

/// Scanner state after the first `n` characters of `s` at width `w`.
pub open spec fn wrap_iter(s: Seq<char>, w: int, n: int) -> WrapState
    decreases n,
{
    if n <= 0 {
        wrap_init()
    } else {
        wrap_step(wrap_iter(s, w, n - 1), s, w, n - 1)
    }
}

/// Close the scan: emit the partial line if one is open, and emit one empty
/// line if the text produced no line at all.
pub open spec fn wrap_finish(s: Seq<char>, st: WrapState) -> Seq<(int, int)> {
    if st.line_len > 0 {
        st.spans.push((st.line_start, s.len() as int))
    } else if st.spans.len() == 0 {
        seq![(0int, 0int)]
    } else {
        st.spans
    }
}

/// The line spans of `s` wrapped at width `w`: what one full scan produces.
pub open spec fn wrap_spans(s: Seq<char>, w: int) -> Seq<(int, int)> {
    wrap_finish(s, wrap_iter(s, w, s.len() as int))
}

/// The text of each span, in order.
pub open spec fn line_texts(s: Seq<char>, spans: Seq<(int, int)>) -> Seq<Seq<char>> {
    spans.map_values(|sp: (int, int)| s.subrange(sp.0, sp.1))
}

/// Executable spans seen as mathematical pairs.
pub open spec fn spans_view(v: Seq<(usize, usize)>) -> Seq<(int, int)> {
    v.map_values(|p: (usize, usize)| (p.0 as int, p.1 as int))
}

/// The spans tile `s` from offset `a` up to offset `b` exactly: each span
/// starts where the previous ended, except that a single line-break
/// character may sit between them (it belongs to no span), every span stays
/// inside `s`, and no span is wider than `w` characters.
pub open spec fn tiled_between(s: Seq<char>, w: int, spans: Seq<(int, int)>, a: int, b: int) -> bool
    decreases spans.len(),
{
    if spans.len() == 0 {
        b == a
    } else {
        let sp = spans[0];
        &&& sp.0 == a
        &&& a <= sp.1 <= s.len()
        &&& sp.1 - sp.0 <= w
        &&& {
            ||| tiled_between(s, w, spans.drop_first(), sp.1, b)
            ||| (sp.1 < s.len() && is_line_break(s[sp.1]) && tiled_between(
                s,
                w,
                spans.drop_first(),
                sp.1 + 1,
                b,
            ))
        }
    }
}

/// Everything the scan maintains: the open line starts inside the consumed
/// prefix and is exactly as long as what follows its start; a word in
/// progress ends at the cursor; the open line is narrower than `w` whenever
/// input remains; and the closed spans tile the text up to the open line.
pub open spec fn scan_inv(s: Seq<char>, w: int, k: int, st: WrapState) -> bool {
    &&& 0 <= st.line_start <= k
    &&& st.line_len == k - st.line_start
    &&& (st.word_len > 0 ==> st.line_start <= st.word_start && st.word_start + st.word_len == k)
    &&& (st.word_len == 0 ==> st.after_breakable)
    &&& st.word_len >= 0
    &&& st.word_start >= 0
    &&& st.line_len <= w
    &&& (k < s.len() ==> st.line_len < w)
    &&& tiled_between(s, w, st.spans, 0, st.line_start)
}

/// Appending one more span that starts at the tiling's end extends the
/// tiling, to the span's end or one line-break character past it.
proof fn lemma_tiled_snoc(
    s: Seq<char>,
    w: int,
    spans: Seq<(int, int)>,
    a: int,
    b: int,
    sp: (int, int),
    b2: int,
)
    requires
        tiled_between(s, w, spans, a, b),
        sp.0 == b,
        b <= sp.1 <= s.len(),
        sp.1 - sp.0 <= w,
        b2 == sp.1 || (sp.1 < s.len() && is_line_break(s[sp.1]) && b2 == sp.1 + 1),
    ensures
        tiled_between(s, w, spans.push(sp), a, b2),
    decreases spans.len(),
{
    if spans.len() == 0 {
        assert(spans.push(sp).drop_first() =~= Seq::<(int, int)>::empty());
        assert(tiled_between(s, w, Seq::<(int, int)>::empty(), sp.1, sp.1));
        if b2 == sp.1 + 1 {
            assert(tiled_between(s, w, Seq::<(int, int)>::empty(), sp.1 + 1, sp.1 + 1));
        }
    } else {
        let first = spans[0];
        assert(spans.push(sp).drop_first() =~= spans.drop_first().push(sp));
        if tiled_between(s, w, spans.drop_first(), first.1, b) {
            lemma_tiled_snoc(s, w, spans.drop_first(), first.1, b, sp, b2);
        } else {
            lemma_tiled_snoc(s, w, spans.drop_first(), first.1 + 1, b, sp, b2);
        }
    }
}

/// Every span of a tiling lies between the tiling's endpoints, in order.
proof fn lemma_tiled_valid(s: Seq<char>, w: int, spans: Seq<(int, int)>, a: int, b: int)
    requires
        tiled_between(s, w, spans, a, b),
    ensures
        forall|j: int|
            0 <= j < spans.len() ==> {
                &&& a <= (#[trigger] spans[j]).0 <= spans[j].1 <= s.len()
                &&& spans[j].1 - spans[j].0 <= w
            },
    decreases spans.len(),
{
    if spans.len() > 0 {
        let first = spans[0];
        if tiled_between(s, w, spans.drop_first(), first.1, b) {
            lemma_tiled_valid(s, w, spans.drop_first(), first.1, b);
        } else {
            lemma_tiled_valid(s, w, spans.drop_first(), first.1 + 1, b);
        }
        assert forall|j: int|
            0 <= j < spans.len() implies {
            &&& a <= (#[trigger] spans[j]).0 <= spans[j].1 <= s.len()
            &&& spans[j].1 - spans[j].0 <= w
        } by {
            if j > 0 {
                assert(spans.drop_first()[j - 1] == spans[j]);
            }
        };
    }
}

/// The scanner invariant holds after any number of steps.
pub proof fn lemma_scan_inv(s: Seq<char>, w: int, k: int)
    requires
        w >= 1,
        0 <= k <= s.len(),
    ensures
        scan_inv(s, w, k, wrap_iter(s, w, k)),
    decreases k,
{
    if k == 0 {
        assert(tiled_between(s, w, Seq::<(int, int)>::empty(), 0, 0));
    } else {
        lemma_scan_inv(s, w, k - 1);
        let st = wrap_iter(s, w, k - 1);
        let ch = s[k - 1];
        if is_line_break(ch) {
            lemma_tiled_snoc(s, w, st.spans, 0, st.line_start, (st.line_start, k - 1), k);
        } else {
            let got = wrap_step(st, s, w, k - 1);
            let ll = st.line_len + 1;
            if ll == w && k < s.len() {
                let ws = if st.after_breakable && !is_break_char(ch) {
                    k - 1
                } else {
                    st.word_start
                };
                let wl = if is_break_char(ch) {
                    0
                } else if st.after_breakable {
                    1
                } else {
                    st.word_len + 1
                };
                if wl > 0 && ws > st.line_start {
                    lemma_tiled_snoc(s, w, st.spans, 0, st.line_start, (st.line_start, ws), ws);
                } else {
                    lemma_tiled_snoc(s, w, st.spans, 0, st.line_start, (st.line_start, k), k);
                }
            }
        }
    }
}

/// The full wrap tiles the whole string: at least one line comes out, and
/// the lines cover `s` end to end, skipping exactly the line-break
/// characters.
pub proof fn lemma_wrap_spans_tiled(s: Seq<char>, w: int)
    requires
        w >= 1,
    ensures
        wrap_spans(s, w).len() > 0,
        tiled_between(s, w, wrap_spans(s, w), 0, s.len() as int),
{
    let n = s.len() as int;
    lemma_scan_inv(s, w, n);
    let st = wrap_iter(s, w, n);
    if st.line_len > 0 {
        lemma_tiled_snoc(s, w, st.spans, 0, st.line_start, (st.line_start, n), n);
    } else if st.spans.len() == 0 {
        assert(st.line_start == 0 && n == 0);
        assert(tiled_between(s, w, Seq::<(int, int)>::empty(), 0, 0));
        assert(seq![(0int, 0int)].drop_first() =~= Seq::<(int, int)>::empty());
    }
}

/// Every span the wrap produces is a valid character range of `s`.
pub proof fn lemma_wrap_spans_valid(s: Seq<char>, w: int)
    requires
        w >= 1,
    ensures
        forall|j: int|
            0 <= j < wrap_spans(s, w).len() ==> {
                &&& 0 <= (#[trigger] wrap_spans(s, w)[j]).0 <= wrap_spans(s, w)[j].1 <= s.len()
                &&& wrap_spans(s, w)[j].1 - wrap_spans(s, w)[j].0 <= w
            },
{
    lemma_wrap_spans_tiled(s, w);
    lemma_tiled_valid(s, w, wrap_spans(s, w), 0, s.len() as int);
}

/// Relies on `String::push`: appends one character at the end.
pub assume_specification [ String::push ](s: &mut String, ch: char)
    ensures
        final(s)@ == old(s)@.push(ch),
;

/// Relies on `String::pop`: removes and returns the last character, or
/// returns `None` and leaves the string alone when it is empty.
pub assume_specification [ String::pop ](s: &mut String) -> (r: Option<char>)
    ensures
        old(s)@.len() == 0 ==> r is None && final(s)@ == old(s)@,
        old(s)@.len() > 0 ==> r == Some(old(s)@.last()) && final(s)@ == old(s)@.drop_last(),
;

/// Relies on `String::clear`: empties the string.
pub assume_specification [ String::clear ](s: &mut String)
    ensures
        final(s)@ == Seq::<char>::empty(),
;

/// A mutable string with a lazily computed wrap: the cached spans are
/// meaningful only while `dirty` is false, and every mutation of the text
/// marks the cache dirty.
pub struct Wrapped {
    string: String,
    wrapped_width: usize,
    offsets: Vec<(usize, usize)>,
    dirty: bool,
}

impl Wrapped {
    /// The owned text, as a sequence of characters.
    pub closed spec fn text(self) -> Seq<char> {
        self.string@
    }

    /// The cached line spans, as character ranges.
    pub closed spec fn spans(self) -> Seq<(int, int)> {
        spans_view(self.offsets@)
    }

    /// Whether the cache is stale.
    pub closed spec fn is_dirty(self) -> bool {
        self.dirty
    }

    /// The width the cache was computed at.
    pub closed spec fn cached_width(self) -> int {
        self.wrapped_width as int
    }

    /// A clean cache always holds exactly the wrap of the current text at
    /// the cached width.
    pub open spec fn wf(self) -> bool {
        !self.is_dirty() ==> self.cached_width() >= 1 && self.spans() == wrap_spans(
            self.text(),
            self.cached_width(),
        )
    }

    /// The cache is clean and was computed at width `w`.
    pub open spec fn wrapped_at(self, w: int) -> bool {
        !self.is_dirty() && self.cached_width() == w
    }

    /// A fresh wrapper around `text`, with a stale cache.
    pub fn new(text: String) -> (r: Wrapped)
        ensures
            r.text() == text@,
            r.is_dirty(),
            r.wf(),
    {
        Wrapped { string: text, wrapped_width: 0, offsets: Vec::new(), dirty: true }
    }

    /// Read access to the text.
    pub fn as_text(&self) -> (r: &String)
        ensures
            r@ == self.text(),
    {
        &self.string
    }

    /// The number of characters of text.
    pub fn char_len(&self) -> (n: usize)
        ensures
            n == self.text().len(),
    {
        self.string.as_str().unicode_len()
    }

    /// Append one character; the cache goes stale.
    pub fn push(&mut self, ch: char)
        ensures
            final(self).text() == old(self).text().push(ch),
            final(self).is_dirty(),
    {
        self.string.push(ch);
        self.dirty = true;
    }

    /// Remove the last character, if any; the cache goes stale.
    pub fn pop(&mut self) -> (r: Option<char>)
        ensures
            final(self).is_dirty(),
            old(self).text().len() == 0 ==> r is None && final(self).text() == old(self).text(),
            old(self).text().len() > 0 ==> r == Some(old(self).text().last())
                && final(self).text() == old(self).text().drop_last(),
    {
        self.dirty = true;
        self.string.pop()
    }

    /// Empty the text; the cache goes stale.
    pub fn clear(&mut self)
        ensures
            final(self).text() == Seq::<char>::empty(),
            final(self).is_dirty(),
    {
        self.string.clear();
        self.dirty = true;
    }

    /// Append a string; the cache goes stale.
    pub fn push_str(&mut self, s: &str)
        ensures
            final(self).text() == old(self).text() + s@,
            final(self).is_dirty(),
    {
        self.string.append(s);
        self.dirty = true;
    }

    /// Recompute the line spans of the text at width `chars_wide`, following
    /// the scanner state machine step by step, and mark the cache clean.
    pub fn wrap(&mut self, chars_wide: usize)
        requires
            chars_wide >= 1,
        ensures
            final(self).text() == old(self).text(),
            final(self).wrapped_at(chars_wide as int),
            final(self).wf(),
            final(self).spans() == wrap_spans(old(self).text(), chars_wide as int),
    {
        self.offsets.clear();
        self.dirty = false;
        self.wrapped_width = chars_wide;

        let ghost s = self.string@;
        let ghost w = chars_wide as int;
        let n = self.string.as_str().unicode_len();
        let mut line_start: usize = 0;
        let mut is_after_breakable: bool = true;
        let mut last_word_start: usize = 0;
        let mut word_char_length: usize = 0;
        let mut line_length: usize = 0;
        let mut i: usize = 0;
        while i < n
            invariant
                1 <= chars_wide,
                w == chars_wide as int,
                self.string == old(self).string,
                s == self.string@,
                n == s.len(),
                self.dirty == false,
                self.wrapped_width == chars_wide,
                i <= n,
                ({
                    let st = wrap_iter(s, w, i as int);
                    &&& spans_view(self.offsets@) == st.spans
                    &&& line_start as int == st.line_start
                    &&& is_after_breakable == st.after_breakable
                    &&& last_word_start as int == st.word_start
                    &&& word_char_length as int == st.word_len
                    &&& line_length as int == st.line_len
                }),
            decreases n - i,
        {
            proof {
                lemma_scan_inv(s, w, i as int);
            }
            let ghost pre = wrap_iter(s, w, i as int);
            let ghost pre_spans = spans_view(self.offsets@);
            let ch = self.string.as_str().get_char(i);
            if ch == '\n' || ch == '\r' {
                self.offsets.push((line_start, i));
                proof {
                    assert(spans_view(self.offsets@) =~= pre_spans.push(
                        (line_start as int, i as int),
                    ));
                }
                line_start = i + 1;
                last_word_start = 0;
                word_char_length = 0;
                line_length = 0;
                is_after_breakable = true;
            } else {
                line_length = line_length + 1;
                if is_break(ch) {
                    is_after_breakable = true;
                    word_char_length = 0;
                } else if is_after_breakable {
                    is_after_breakable = false;
                    last_word_start = i;
                    word_char_length = 1;
                } else {
                    word_char_length = word_char_length + 1;
                }
                if line_length == chars_wide && i + 1 < n {
                    if word_char_length > 0 && last_word_start > line_start {
                        self.offsets.push((line_start, last_word_start));
                        proof {
                            assert(spans_view(self.offsets@) =~= pre_spans.push(
                                (line_start as int, last_word_start as int),
                            ));
                        }
                        line_start = last_word_start;
                        line_length = word_char_length;
                    } else {
                        self.offsets.push((line_start, i + 1));
                        proof {
                            assert(spans_view(self.offsets@) =~= pre_spans.push(
                                (line_start as int, i + 1 as int),
                            ));
                        }
                        line_start = i + 1;
                        last_word_start = 0;
                        word_char_length = 0;
                        line_length = 0;
                        is_after_breakable = true;
                    }
                }
            }
            i = i + 1;
            proof {
                assert(wrap_iter(s, w, i as int) == wrap_step(pre, s, w, i - 1));
            }
        }
        proof {
            lemma_scan_inv(s, w, n as int);
        }
        let ghost st = wrap_iter(s, w, n as int);
        let ghost pre_spans = spans_view(self.offsets@);
        if line_length > 0 {
            self.offsets.push((line_start, n));
            proof {
                assert(spans_view(self.offsets@) =~= pre_spans.push((line_start as int, n as int)));
            }
        } else if self.offsets.len() == 0 {
            self.offsets.push((0, 0));
            proof {
                assert(pre_spans.len() == 0);
                assert(spans_view(self.offsets@) =~= seq![(0int, 0int)]);
            }
        }
    }

    /// How many lines the clean cache holds.
    pub fn line_count(&self) -> (n: usize)
        requires
            !self.is_dirty(),
        ensures
            n == self.spans().len(),
    {
        self.offsets.len()
    }

    /// Wrap at `width` unless the cache is already clean at that width, and
    /// hand back the line texts, iterable from either end. Re-asking at an
    /// unchanged width without mutating the text reuses the cached spans and
    /// leaves the wrapper untouched.
    pub fn lines(&mut self, width: usize) -> (r: Lines)
        requires
            width >= 1,
            old(self).wf(),
        ensures
            final(self).wf(),
            final(self).text() == old(self).text(),
            final(self).wrapped_at(width as int),
            final(self).spans() == wrap_spans(old(self).text(), width as int),
            old(self).wrapped_at(width as int) ==> *final(self) == *old(self),
            r.lines_wf(),
            r.remaining() == line_texts(old(self).text(), wrap_spans(old(self).text(), width as int)),
    {
        if self.dirty || self.wrapped_width != width {
            self.wrap(width);
        }
        let ghost s = self.string@;
        let ghost target = line_texts(s, wrap_spans(s, width as int));
        proof {
            lemma_wrap_spans_valid(s, width as int);
        }
        let mut out: Vec<String> = Vec::new();
        let m = self.offsets.len();
        let mut j: usize = 0;
        while j < m
            invariant
                j <= m,
                m == self.offsets@.len(),
                s == self.string@,
                spans_view(self.offsets@) == wrap_spans(s, width as int),
                width >= 1,
                target == line_texts(s, wrap_spans(s, width as int)),
                out@.len() == j,
                forall|t: int| 0 <= t < j ==> (#[trigger] out@[t])@ == target[t],
            decreases m - j,
        {
            proof {
                lemma_wrap_spans_valid(s, width as int);
                assert(spans_view(self.offsets@)[j as int] == (
                    self.offsets@[j as int].0 as int,
                    self.offsets@[j as int].1 as int,
                ));
            }
            let sp = self.offsets[j];
            let piece = self.string.as_str().substring_char(sp.0, sp.1);
            out.push(piece.to_owned());
            j = j + 1;
        }
        let r = Lines { lines: out, lo: 0, hi: m };
        proof {
            assert(r.remaining() =~= target);
        }
        r
    }
}

/// The line texts of one wrap, walkable from the front (oldest line first,
/// for top-down rendering) or from the back (newest line first, for
/// bottom-up rendering) at equal cost.
pub struct Lines {
    lines: Vec<String>,
    lo: usize,
    hi: usize,
}

impl Lines {
    /// The line texts not yet yielded, in order.
    pub closed spec fn remaining(self) -> Seq<Seq<char>> {
        self.lines@.map_values(|l: String| l@).subrange(self.lo as int, self.hi as int)
    }

    /// Both cursors stay inside the line list.
    pub closed spec fn lines_wf(self) -> bool {
        self.lo <= self.hi <= self.lines@.len()
    }

    /// How many lines remain.
    pub fn len(&self) -> (n: usize)
        requires
            self.lines_wf(),
        ensures
            n == self.remaining().len(),
    {
        self.hi - self.lo
    }

    /// The next line from the front, oldest first.
    pub fn next(&mut self) -> (r: Option<String>)
        requires
            old(self).lines_wf(),
        ensures
            final(self).lines_wf(),
            old(self).remaining().len() == 0 ==> r is None && *final(self) == *old(self),
            old(self).remaining().len() > 0 ==> (r matches Some(line) && line@ == old(
                self,
            ).remaining().first() && final(self).remaining() == old(self).remaining().drop_first()),
    {
        if self.lo < self.hi {
            let line = self.lines[self.lo].clone();
            self.lo = self.lo + 1;
            proof {
                assert(final(self).remaining() =~= old(self).remaining().drop_first());
            }
            Some(line)
        } else {
            None
        }
    }

    /// The next line from the back, newest first.
    pub fn next_back(&mut self) -> (r: Option<String>)
        requires
            old(self).lines_wf(),
        ensures
            final(self).lines_wf(),
            old(self).remaining().len() == 0 ==> r is None && *final(self) == *old(self),
            old(self).remaining().len() > 0 ==> (r matches Some(line) && line@ == old(
                self,
            ).remaining().last() && final(self).remaining() == old(self).remaining().drop_last()),
    {
        if self.lo < self.hi {
            let line = self.lines[self.hi - 1].clone();
            self.hi = self.hi - 1;
            proof {
                assert(final(self).remaining() =~= old(self).remaining().drop_last());
            }
            Some(line)
        } else {
            None
        }
    }
}

impl Clone for Wrapped {
    /// The copy owns the same text; its cache starts stale and is rebuilt on
    /// the next wrap.
    fn clone(&self) -> (r: Self)
        ensures
            r.text() == self.text(),
            r.is_dirty(),
            r.wf(),
    {
        Wrapped { string: self.string.clone(), wrapped_width: 0, offsets: Vec::new(), dirty: true }
    }
}

impl From<String> for Wrapped {
    fn from(string: String) -> Self {
        Wrapped::new(string)
    }
}

impl vstd::std_specs::convert::FromSpecImpl<String> for Wrapped {
    open spec fn obeys_from_spec() -> bool {
        false
    }

    open spec fn from_spec(v: String) -> Self {
        choose|r: Wrapped| r.text() == v@ && r.is_dirty()
    }
}

impl<'a> From<&'a str> for Wrapped {
    fn from(value: &'a str) -> Self {
        Wrapped::new(value.to_owned())
    }
}

impl<'a> vstd::std_specs::convert::FromSpecImpl<&'a str> for Wrapped {
    open spec fn obeys_from_spec() -> bool {
        false
    }

    open spec fn from_spec(v: &'a str) -> Self {
        choose|r: Wrapped| r.text() == v@ && r.is_dirty()
    }
}

} // verus!
