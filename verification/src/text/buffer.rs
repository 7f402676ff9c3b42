//! A model of an editor text buffer: its characters, the positions a
//! cursor may rest on, which characters lie in comments or strings, the
//! `insert` mark (head) and the `selection_bound` mark (anchor), and an
//! undo history in which every editing operation is one step.
//!
//! Lines are separated by `\n`; a line's end is the position of its `\n`
//! or the end of the text.

use vstd::prelude::*;
use crate::text::unicode::{graphemes, spec_graphemes, string_from_chars, chars_of};

verus! {

// ---------------------------------------------------------------------------
// Lines
// ---------------------------------------------------------------------------

/// The start of the line that holds position `p`.
pub open spec fn line_start(t: Seq<char>, p: int) -> int
    decreases p,
{
    if p <= 0 {
        0
    } else if t[p - 1] == '\n' {
        p
    } else {
        line_start(t, p - 1)
    }
}

/// The end of the line that holds position `p`: the position of its `\n`,
/// or the end of the text.
pub open spec fn line_end(t: Seq<char>, p: int) -> int
    decreases t.len() - p,
{
    if p >= t.len() {
        t.len() as int
    } else if t[p] == '\n' {
        p
    } else {
        line_end(t, p + 1)
    }
}

/// The line number of position `p`: the number of `\n` before it.
pub open spec fn line_of(t: Seq<char>, p: int) -> nat
    decreases p,
{
    if p <= 0 {
        0
    } else {
        line_of(t, p - 1) + if t[p - 1] == '\n' { 1nat } else { 0nat }
    }
}

/// The number of lines: one more than the number of `\n`.
pub open spec fn line_count(t: Seq<char>) -> nat {
    line_of(t, t.len() as int) + 1
}

/// Whether `q` is the first position of a line.
pub open spec fn is_line_start(t: Seq<char>, q: int) -> bool {
    q == 0 || (0 < q <= t.len() && t[q - 1] == '\n')
}

/// Whether `q` is the start of line `l`.
pub open spec fn is_start_of_line(t: Seq<char>, q: int, l: int) -> bool {
    0 <= q <= t.len() && is_line_start(t, q) && line_of(t, q) == l
}

/// The start of line `l` (the position that starts the line and lies on it).
pub open spec fn start_of_line(t: Seq<char>, l: int) -> int {
    choose|q: int| is_start_of_line(t, q, l)
}

/// `t` with the characters from `s` to `e` replaced by `ins`.
pub open spec fn splice(t: Seq<char>, s: int, e: int, ins: Seq<char>) -> Seq<char> {
    t.subrange(0, s) + ins + t.subrange(e, t.len() as int)
}

pub proof fn lemma_line_of_monotonic(t: Seq<char>, i: int, j: int)
    requires
        0 <= i <= j <= t.len(),
    ensures
        line_of(t, i) <= line_of(t, j),
        line_of(t, j) <= line_of(t, i) + (j - i),
    decreases j - i,
{
    if i < j {
        lemma_line_of_monotonic(t, i, j - 1);
    }
}

pub proof fn lemma_line_start_bounds(t: Seq<char>, p: int)
    requires
        0 <= p <= t.len(),
    ensures
        0 <= line_start(t, p) <= p,
        is_line_start(t, line_start(t, p)),
        line_of(t, line_start(t, p)) == line_of(t, p),
        forall|k: int| line_start(t, p) <= k < p ==> t[k] != '\n',
    decreases p,
{
    if p > 0 && t[p - 1] != '\n' {
        lemma_line_start_bounds(t, p - 1);
    }
}

pub proof fn lemma_line_end_bounds(t: Seq<char>, p: int)
    requires
        0 <= p <= t.len(),
    ensures
        p <= line_end(t, p) <= t.len(),
        line_end(t, p) < t.len() ==> t[line_end(t, p)] == '\n',
        line_of(t, line_end(t, p)) == line_of(t, p),
        forall|k: int| p <= k < line_end(t, p) ==> t[k] != '\n',
    decreases t.len() - p,
{
    if p < t.len() && t[p] != '\n' {
        lemma_line_end_bounds(t, p + 1);
    }
}

pub proof fn lemma_line_start_unique(t: Seq<char>, q1: int, q2: int, l: int)
    requires
        is_start_of_line(t, q1, l),
        is_start_of_line(t, q2, l),
    ensures
        q1 == q2,
{
    if q1 < q2 {
        lemma_line_of_monotonic(t, q1, q2 - 1);
    } else if q2 < q1 {
        lemma_line_of_monotonic(t, q2, q1 - 1);
    }
}

pub proof fn lemma_start_of_line(t: Seq<char>, q: int, l: int)
    requires
        is_start_of_line(t, q, l),
    ensures
        start_of_line(t, l) == q,
{
    let c = start_of_line(t, l);
    assert(is_start_of_line(t, c, l));
    lemma_line_start_unique(t, q, c, l);
}

/// The start of the line after the one that holds `p` is one past its end.
pub proof fn lemma_next_line_start(t: Seq<char>, p: int)
    requires
        0 <= p <= t.len(),
        line_end(t, p) < t.len(),
    ensures
        is_start_of_line(t, line_end(t, p) + 1, (line_of(t, p) + 1) as int),
        start_of_line(t, (line_of(t, p) + 1) as int) == line_end(t, p) + 1,
        line_of(t, p) + 1 < line_count(t),
{
    lemma_line_end_bounds(t, p);
    lemma_line_of_monotonic(t, line_end(t, p) + 1, t.len() as int);
    lemma_start_of_line(t, line_end(t, p) + 1, (line_of(t, p) + 1) as int);
}

/// Every line has a start: line `l` of the text starts at a position on it.
pub proof fn lemma_start_of_line_exists(t: Seq<char>, l: int)
    requires
        0 <= l < line_count(t),
    ensures
        is_start_of_line(t, start_of_line(t, l), l),
    decreases l,
{
    if l == 0 {
        assert(is_start_of_line(t, 0, 0));
        lemma_start_of_line(t, 0, 0);
    } else {
        lemma_start_of_line_exists(t, l - 1);
        let q = start_of_line(t, l - 1);
        lemma_line_end_bounds(t, q);
        if line_end(t, q) == t.len() {
            assert(line_of(t, t.len() as int) == l - 1);
        }
        lemma_next_line_start(t, q);
    }
}

/// The start of the line that holds `p` is the start of line `line_of(p)`.
pub proof fn lemma_line_start_is_start_of_line(t: Seq<char>, p: int)
    requires
        0 <= p <= t.len(),
    ensures
        start_of_line(t, line_of(t, p) as int) == line_start(t, p),
{
    lemma_line_start_bounds(t, p);
    lemma_start_of_line(t, line_start(t, p), line_of(t, p) as int);
}

// ---------------------------------------------------------------------------
// Cursor positions
// ---------------------------------------------------------------------------

/// The next cursor position after `p` (for `p` before the end): the first
/// later position whose flag is set; the end always is one.
pub open spec fn next_stop(s: Seq<bool>, p: int) -> int
    decreases s.len() - p,
{
    if p + 1 >= s.len() - 1 {
        s.len() - 1
    } else if s[p + 1] {
        p + 1
    } else {
        next_stop(s, p + 1)
    }
}

/// The previous cursor position before `p` (for `p` after the start): the
/// last earlier position whose flag is set; the start always is one.
pub open spec fn prev_stop(s: Seq<bool>, p: int) -> int
    decreases p,
{
    if p - 1 <= 0 {
        0
    } else if s[p - 1] {
        p - 1
    } else {
        prev_stop(s, p - 1)
    }
}

pub proof fn lemma_next_stop_bounds(s: Seq<bool>, p: int)
    requires
        0 <= p < s.len() - 1,
    ensures
        p < next_stop(s, p) <= s.len() - 1,
    decreases s.len() - p,
{
    if !(p + 1 >= s.len() - 1) && !s[p + 1] {
        lemma_next_stop_bounds(s, p + 1);
    }
}

pub proof fn lemma_prev_stop_bounds(s: Seq<bool>, p: int)
    requires
        0 < p < s.len(),
    ensures
        0 <= prev_stop(s, p) < p,
    decreases p,
{
    if !(p - 1 <= 0) && !s[p - 1] {
        lemma_prev_stop_bounds(s, p - 1);
    }
}

/// The length of the first `k` clusters together.
pub open spec fn prefix_len(gs: Seq<Seq<char>>, k: int) -> int
    decreases k,
{
    if k <= 0 {
        0
    } else {
        prefix_len(gs, k - 1) + gs[k - 1].len()
    }
}

/// Whether `i` is where one of the first `k` clusters ends (or 0).
pub open spec fn ends_a_cluster(gs: Seq<Seq<char>>, k: int, i: int) -> bool
    decreases k,
{
    prefix_len(gs, k) == i || (k > 0 && ends_a_cluster(gs, k - 1, i))
}

/// The cursor positions of a text of `n` characters split into the
/// clusters `gs`: the start, the end, and every cluster boundary.
pub open spec fn cluster_stops(gs: Seq<Seq<char>>, n: int) -> Seq<bool> {
    Seq::new((n + 1) as nat, |i: int| i == 0 || i == n || ends_a_cluster(gs, gs.len() as int, i))
}

/// The cursor positions of `text`: the boundaries of its grapheme clusters.
pub fn cursor_stops_for(text: &Vec<char>) -> (r: Vec<bool>)
    requires
        text@.len() < usize::MAX,
    ensures
        r@ == cluster_stops(spec_graphemes(text@), text@.len() as int),
{
    let s = string_from_chars(text);
    let gs = graphemes(s.as_str());
    let ghost g = spec_graphemes(text@);
    let n = text.len();
    let mut r: Vec<bool> = Vec::new();
    let mut i: usize = 0;
    while i <= n
        invariant
            n == text@.len(),
            n < usize::MAX,
            i <= n + 1,
            r@.len() == i,
            forall|j: int| 0 <= j < i ==> r@[j] == (j == 0 || j == n || prefix_len(g, 0) == j),
        decreases n + 1 - i,
    {
        r.push(i == 0 || i == n);
        i = i + 1;
    }
    let mut k: usize = 0;
    let mut sum: usize = 0;
    while k < gs.len()
        invariant
            n == text@.len(),
            n < usize::MAX,
            gs@.len() == g.len(),
            forall|j: int| 0 <= j < gs@.len() ==> #[trigger] gs@[j]@ == g[j],
            k <= gs@.len(),
            r@.len() == n + 1,
            sum == (if prefix_len(g, k as int) <= n { prefix_len(g, k as int) } else { n + 1 }),
            forall|j: int|
                0 <= j <= n ==> r@[j] == (j == 0 || j == n || ends_a_cluster(g, k as int, j)),
        decreases gs@.len() - k,
    {
        let len = gs[k].as_str().unicode_len();
        assert(len == g[k as int].len());
        let ghost old_r = r@;
        if sum <= n {
            if len > n - sum {
                sum = n + 1;
            } else {
                sum = sum + len;
                r.set(sum, true);
            }
        }
        k = k + 1;
        assert forall|j: int| 0 <= j <= n implies r@[j] == (j == 0 || j == n || ends_a_cluster(
            g,
            k as int,
            j,
        )) by {
            assert(ends_a_cluster(g, k as int, j) == (prefix_len(g, k as int) == j
                || ends_a_cluster(g, k - 1, j)));
        }
    }
    assert(r@ =~= cluster_stops(g, n as int));
    r
}

// ---------------------------------------------------------------------------
// The buffer
// ---------------------------------------------------------------------------

/// A saved state of the text and the selection, kept for undo and redo.
#[derive(Debug)]
pub struct Snapshot {
    pub text: Vec<char>,
    pub anchor: usize,
    pub head: usize,
}

/// A text buffer with a selection and an undo history.
#[derive(Debug)]
pub struct TextBuf {
    /// The characters of the text.
    pub text: Vec<char>,
    /// `stops[i]` tells whether a cursor may rest at position `i`
    /// (`text.len() + 1` flags; the start and the end always may).
    pub stops: Vec<bool>,
    /// `syntax[i]` tells whether character `i` lies in a comment or a string.
    pub syntax: Vec<bool>,
    /// The `selection_bound` mark.
    pub anchor: usize,
    /// The `insert` mark.
    pub head: usize,
    /// States before each undoable operation, the latest last.
    pub undo_stack: Vec<Snapshot>,
    /// States undone, the latest last.
    pub redo_stack: Vec<Snapshot>,
}

impl Snapshot {
    pub open spec fn wf(&self) -> bool {
        &&& self.text@.len() < usize::MAX
        &&& self.anchor <= self.text@.len()
        &&& self.head <= self.text@.len()
    }
}

impl TextBuf {
    /// The well-formedness of a buffer.
    pub open spec fn wf(&self) -> bool {
        &&& self.text@.len() < usize::MAX
        &&& self.stops@.len() == self.text@.len() + 1
        &&& self.stops@[0]
        &&& self.stops@[self.text@.len() as int]
        &&& self.syntax@.len() == self.text@.len()
        &&& self.anchor <= self.text@.len()
        &&& self.head <= self.text@.len()
        &&& forall|i: int| 0 <= i < self.undo_stack@.len() ==> #[trigger] self.undo_stack@[i].wf()
        &&& forall|i: int| 0 <= i < self.redo_stack@.len() ==> #[trigger] self.redo_stack@[i].wf()
    }

    /// The text as a sequence.
    pub open spec fn t(&self) -> Seq<char> {
        self.text@
    }

    /// The number of characters.
    pub open spec fn n(&self) -> int {
        self.text@.len() as int
    }

    /// The character at `p`, or `'\0'` at the end (as a text iterator reports).
    pub open spec fn spec_char_at(&self, p: int) -> char {
        if 0 <= p < self.n() { self.text@[p] } else { '\0' }
    }

    /// Moving forward by one cursor position from `p`: the new position and
    /// whether it is before the end.
    pub open spec fn spec_fwd_cursor(&self, p: int) -> (int, bool) {
        if p >= self.n() {
            (p, false)
        } else {
            let q = next_stop(self.stops@, p);
            (q, q < self.n())
        }
    }

    /// Moving back by one cursor position from `p`: the new position and
    /// whether it moved.
    pub open spec fn spec_bwd_cursor(&self, p: int) -> (int, bool) {
        if p <= 0 {
            (p, false)
        } else {
            (prev_stop(self.stops@, p), true)
        }
    }

    /// The selection after placing the cursor at `p`, extending the
    /// selection when `extend` holds: `(anchor, head)`.
    pub open spec fn spec_set_cursor(&self, p: int, extend: bool) -> (int, int) {
        if extend {
            (self.anchor as int, p)
        } else {
            (p, p)
        }
    }

    /// A buffer holding `text`, with the cursor at the start, cursor positions
    /// at grapheme cluster boundaries, no comment or string flags and an
    /// empty history.
    pub fn new(text: &str) -> (r: Self)
        requires
            text@.len() < usize::MAX,
        ensures
            r.wf(),
            r.text@ == text@,
            r.anchor == 0,
            r.head == 0,
            r.stops@ == cluster_stops(spec_graphemes(text@), text@.len() as int),
            forall|i: int| 0 <= i < r.syntax@.len() ==> !r.syntax@[i],
            r.undo_stack@.len() == 0,
            r.redo_stack@.len() == 0,
    {
        let chars = chars_of(text);
        let stops = cursor_stops_for(&chars);
        let syntax = no_syntax(chars.len());
        TextBuf {
            text: chars,
            stops,
            syntax,
            anchor: 0,
            head: 0,
            undo_stack: Vec::new(),
            redo_stack: Vec::new(),
        }
    }

    /// A buffer assembled from its parts, when they fit together: `None`
    /// unless there is one cursor flag per position with the start and the
    /// end set, one syntax flag per character, and both marks in range.
    pub fn from_parts(
        text: Vec<char>,
        stops: Vec<bool>,
        syntax: Vec<bool>,
        anchor: usize,
        head: usize,
    ) -> (r: Option<Self>)
        ensures
            r is Some <==> (text@.len() < usize::MAX && stops@.len() == text@.len() + 1
                && stops@[0] && stops@[text@.len() as int] && syntax@.len() == text@.len()
                && anchor <= text@.len() && head <= text@.len()),
            r matches Some(b) ==> b.wf() && b.text@ == text@ && b.stops@ == stops@ && b.syntax@
                == syntax@ && b.anchor == anchor && b.head == head && b.undo_stack@.len() == 0
                && b.redo_stack@.len() == 0,
    {
        let n = text.len();
        if n == usize::MAX || stops.len() != n + 1 || syntax.len() != n || anchor > n || head > n {
            return None;
        }
        if !stops[0] || !stops[n] {
            return None;
        }
        Some(
            TextBuf {
                text,
                stops,
                syntax,
                anchor,
                head,
                undo_stack: Vec::new(),
                redo_stack: Vec::new(),
            },
        )
    }

    /// The whole text as a `String`.
    pub fn text_string(&self) -> (s: String)
        ensures
            s@ == self.text@,
    {
        string_from_chars(&self.text)
    }

    /// The number of characters.
    pub fn char_count(&self) -> (r: usize)
        ensures
            r == self.n(),
    {
        self.text.len()
    }

    /// The character at `p`, or `'\0'` at the end.
    pub fn char_at(&self, p: usize) -> (c: char)
        ensures
            c == self.spec_char_at(p as int),
    {
        if p < self.text.len() {
            self.text[p]
        } else {
            '\0'
        }
    }

    /// Whether `p` is at the end of its line.
    pub fn ends_line(&self, p: usize) -> (r: bool)
        requires
            p <= self.n(),
        ensures
            r == (p == self.n() || self.text@[p as int] == '\n'),
    {
        p == self.text.len() || self.text[p] == '\n'
    }

    /// Whether `p` is at the start of its line.
    pub fn starts_line(&self, p: usize) -> (r: bool)
        requires
            p <= self.n(),
        ensures
            r == is_line_start(self.text@, p as int),
    {
        p == 0 || self.text[p - 1] == '\n'
    }

    /// Moves forward by one cursor position from `p`.
    pub fn fwd_cursor(&self, p: usize) -> (r: (usize, bool))
        requires
            self.wf(),
            p <= self.n(),
        ensures
            r.0 == self.spec_fwd_cursor(p as int).0,
            r.1 == self.spec_fwd_cursor(p as int).1,
            p <= r.0 <= self.n(),
            p < self.n() ==> p < r.0,
    {
        let n = self.text.len();
        if p >= n {
            return (p, false);
        }
        proof {
            lemma_next_stop_bounds(self.stops@, p as int);
        }
        let mut q = p + 1;
        while q < n && !self.stops[q]
            invariant
                self.wf(),
                n == self.n(),
                p < q <= n,
                next_stop(self.stops@, p as int) == next_stop(self.stops@, q - 1),
            decreases n - q,
        {
            q = q + 1;
        }
        (q, q < n)
    }

    /// Moves back by one cursor position from `p`.
    pub fn bwd_cursor(&self, p: usize) -> (r: (usize, bool))
        requires
            self.wf(),
            p <= self.n(),
        ensures
            r.0 == self.spec_bwd_cursor(p as int).0,
            r.1 == self.spec_bwd_cursor(p as int).1,
            r.0 <= p,
            p > 0 ==> r.0 < p,
    {
        if p == 0 {
            return (p, false);
        }
        proof {
            lemma_prev_stop_bounds(self.stops@, p as int);
        }
        let mut q = p - 1;
        while q > 0 && !self.stops[q]
            invariant
                self.wf(),
                0 <= q < p,
                p <= self.n(),
                prev_stop(self.stops@, p as int) == prev_stop(self.stops@, q + 1),
            decreases q,
        {
            q = q - 1;
        }
        (q, true)
    }

    /// The start of the line that holds `p`.
    pub fn line_start_at(&self, p: usize) -> (r: usize)
        requires
            p <= self.n(),
        ensures
            r == line_start(self.text@, p as int),
            r <= p,
    {
        proof {
            lemma_line_start_bounds(self.text@, p as int);
        }
        let mut q = p;
        while q > 0 && self.text[q - 1] != '\n'
            invariant
                q <= p <= self.n(),
                line_start(self.text@, q as int) == line_start(self.text@, p as int),
            decreases q,
        {
            q = q - 1;
        }
        q
    }

    /// The end of the line that holds `p`.
    pub fn line_end_at(&self, p: usize) -> (r: usize)
        requires
            p <= self.n(),
        ensures
            r == line_end(self.text@, p as int),
            p <= r <= self.n(),
    {
        proof {
            lemma_line_end_bounds(self.text@, p as int);
        }
        let mut q = p;
        while q < self.text.len() && self.text[q] != '\n'
            invariant
                p <= q <= self.n(),
                line_end(self.text@, q as int) == line_end(self.text@, p as int),
            decreases self.n() - q,
        {
            q = q + 1;
        }
        q
    }

    /// The line number of position `p`.
    pub fn line_at(&self, p: usize) -> (r: usize)
        requires
            p <= self.n(),
        ensures
            r == line_of(self.text@, p as int),
    {
        let mut i: usize = 0;
        let mut cnt: usize = 0;
        while i < p
            invariant
                i <= p <= self.n(),
                cnt == line_of(self.text@, i as int),
                cnt <= i,
            decreases p - i,
        {
            if self.text[i] == '\n' {
                cnt = cnt + 1;
            }
            i = i + 1;
        }
        cnt
    }

    /// The number of lines.
    pub fn line_count(&self) -> (r: usize)
        requires
            self.wf(),
        ensures
            r == line_count(self.text@),
    {
        proof {
            lemma_line_of_monotonic(self.text@, 0, self.n());
        }
        self.line_at(self.text.len()) + 1
    }

    /// The start of line `l`, when there is such a line.
    pub fn line_start_of(&self, l: usize) -> (r: usize)
        requires
            self.wf(),
            l < line_count(self.text@),
        ensures
            is_start_of_line(self.text@, r as int, l as int),
            r == start_of_line(self.text@, l as int),
    {
        let n = self.text.len();
        let mut i: usize = 0;
        let mut cnt: usize = 0;
        while cnt < l
            invariant
                self.wf(),
                n == self.n(),
                i <= n,
                cnt <= l,
                l < line_count(self.text@),
                cnt == line_of(self.text@, i as int),
                is_line_start(self.text@, i as int),
            decreases n - i,
        {
            let e = self.line_end_at(i);
            proof {
                lemma_line_end_bounds(self.text@, i as int);
            }
            assert(e < n);
            i = e + 1;
            cnt = cnt + 1;
        }
        proof {
            lemma_start_of_line(self.text@, i as int, l as int);
        }
        i
    }

    /// Places the cursor (and the anchor) at `p`.
    pub fn place_cursor(&mut self, p: usize)
        requires
            old(self).wf(),
            p <= old(self).n(),
        ensures
            final(self).wf(),
            final(self).text@ == old(self).text@,
            final(self).stops@ == old(self).stops@,
            final(self).syntax@ == old(self).syntax@,
            final(self).undo_stack@ == old(self).undo_stack@,
            final(self).redo_stack@ == old(self).redo_stack@,
            final(self).anchor == p,
            final(self).head == p,
    {
        self.anchor = p;
        self.head = p;
    }

    /// Selects from `bound` (anchor) to `ins` (head).
    pub fn select_range(&mut self, ins: usize, bound: usize)
        requires
            old(self).wf(),
            ins <= old(self).n(),
            bound <= old(self).n(),
        ensures
            final(self).wf(),
            final(self).text@ == old(self).text@,
            final(self).stops@ == old(self).stops@,
            final(self).syntax@ == old(self).syntax@,
            final(self).undo_stack@ == old(self).undo_stack@,
            final(self).redo_stack@ == old(self).redo_stack@,
            final(self).anchor == bound,
            final(self).head == ins,
    {
        self.anchor = bound;
        self.head = ins;
    }

    /// Moves the cursor to `p`, keeping the anchor when `extend` holds.
    pub fn set_cursor(&mut self, p: usize, extend: bool)
        requires
            old(self).wf(),
            p <= old(self).n(),
        ensures
            final(self).wf(),
            final(self).text@ == old(self).text@,
            final(self).stops@ == old(self).stops@,
            final(self).syntax@ == old(self).syntax@,
            final(self).undo_stack@ == old(self).undo_stack@,
            final(self).redo_stack@ == old(self).redo_stack@,
            (final(self).anchor as int, final(self).head as int) == old(self).spec_set_cursor(
                p as int,
                extend,
            ),
    {
        if extend {
            self.head = p;
        } else {
            self.anchor = p;
            self.head = p;
        }
    }

    /// The selected range `(start, end)` with `start < end`, or `None` when
    /// anchor and head coincide.
    pub fn selection_bounds(&self) -> (r: Option<(usize, usize)>)
        ensures
            r is None <==> self.anchor == self.head,
            r matches Some(b) ==> b.0 < b.1 && b.0 == (if self.anchor < self.head {
                self.anchor
            } else {
                self.head
            }) && b.1 == (if self.anchor < self.head { self.head } else { self.anchor }),
    {
        if self.anchor == self.head {
            None
        } else if self.anchor < self.head {
            Some((self.anchor, self.head))
        } else {
            Some((self.head, self.anchor))
        }
    }

    /// Whether anchor and head differ.
    pub fn has_selection(&self) -> (r: bool)
        ensures
            r == (self.anchor != self.head),
    {
        self.anchor != self.head
    }

    /// The characters from `s` to `e`.
    pub fn slice(&self, s: usize, e: usize) -> (r: Vec<char>)
        requires
            s <= e <= self.n(),
        ensures
            r@ == self.text@.subrange(s as int, e as int),
    {
        let mut r: Vec<char> = Vec::new();
        let mut i = s;
        while i < e
            invariant
                s <= i <= e <= self.n(),
                r@ == self.text@.subrange(s as int, i as int),
            decreases e - i,
        {
            r.push(self.text[i]);
            i = i + 1;
            assert(r@ =~= self.text@.subrange(s as int, i as int));
        }
        r
    }

    /// `c` is `b` after one undoable edit that left `text` selected from
    /// `anchor` to `head`.
    pub open spec fn is_edit(b: TextBuf, c: TextBuf, text: Seq<char>, anchor: int, head: int) -> bool {
        &&& c.wf()
        &&& c.text@ == text
        &&& c.anchor == anchor
        &&& c.head == head
        &&& c.stops@ == cluster_stops(spec_graphemes(text), text.len() as int)
        &&& forall|i: int| 0 <= i < c.syntax@.len() ==> !c.syntax@[i]
        &&& c.undo_stack@.len() == b.undo_stack@.len() + 1
        &&& c.undo_stack@.drop_last() == b.undo_stack@
        &&& c.undo_stack@.last().text@ == b.text@
        &&& c.undo_stack@.last().anchor == b.anchor
        &&& c.undo_stack@.last().head == b.head
        &&& c.redo_stack@.len() == 0
    }

    /// Replaces the whole text by `new_text` and the selection by
    /// `(anchor, head)` as one undoable step: the state before is pushed on
    /// the undo stack, the redo stack is cleared, cursor positions are
    /// recomputed from grapheme clusters and syntax flags are cleared.
    pub fn apply_edit(&mut self, new_text: Vec<char>, anchor: usize, head: usize)
        requires
            old(self).wf(),
            new_text@.len() < usize::MAX,
            anchor <= new_text@.len(),
            head <= new_text@.len(),
        ensures
            TextBuf::is_edit(*old(self), *final(self), new_text@, anchor as int, head as int),
    {
        let stops = cursor_stops_for(&new_text);
        let syntax = no_syntax(new_text.len());
        let mut old_text = new_text;
        std::mem::swap(&mut self.text, &mut old_text);
        let snap = Snapshot { text: old_text, anchor: self.anchor, head: self.head };
        self.undo_stack.push(snap);
        self.redo_stack = Vec::new();
        self.stops = stops;
        self.syntax = syntax;
        self.anchor = anchor;
        self.head = head;
        proof {
            assert(self.undo_stack@.drop_last() =~= old(self).undo_stack@);
        }
    }

    /// Inserts `text` at the cursor as one undoable step; marks at or after
    /// the cursor move past the inserted text. Nothing changes when the
    /// text would not fit.
    pub fn insert_at_cursor(&mut self, text: &str)
        requires
            old(self).wf(),
        ensures
            ({
                let h = old(self).head as int;
                let k = text@.len() as int;
                let a = old(self).anchor as int;
                if old(self).n() + k < usize::MAX {
                    TextBuf::is_edit(
                        *old(self),
                        *final(self),
                        splice(old(self).t(), h, h, text@),
                        if a >= h { a + k } else { a },
                        h + k,
                    )
                } else {
                    *final(self) == *old(self)
                }
            }),
    {
        let ins = chars_of(text);
        let n = self.text.len();
        if ins.len() >= usize::MAX - n {
            return ;
        }
        let h = self.head;
        let a = self.anchor;
        let t = splice_chars(&self.text, h, h, &ins);
        let na = if a >= h { a + ins.len() } else { a };
        self.apply_edit(t, na, h + ins.len());
    }

    /// Whether there is a step to undo.
    pub fn can_undo(&self) -> (r: bool)
        ensures
            r == (self.undo_stack@.len() > 0),
    {
        self.undo_stack.len() > 0
    }

    /// Whether there is a step to redo.
    pub fn can_redo(&self) -> (r: bool)
        ensures
            r == (self.redo_stack@.len() > 0),
    {
        self.redo_stack.len() > 0
    }

    /// Restores the state before the latest undoable step, and saves the
    /// current state for redo. Does nothing when there is nothing to undo.
    pub fn undo(&mut self)
        requires
            old(self).wf(),
        ensures
            final(self).wf(),
            old(self).undo_stack@.len() == 0 ==> final(self).text@ == old(self).text@
                && final(self).anchor == old(self).anchor && final(self).head == old(self).head
                && final(self).undo_stack@ == old(self).undo_stack@
                && final(self).redo_stack@ == old(self).redo_stack@,
            old(self).undo_stack@.len() > 0 ==> {
                &&& final(self).text@ == old(self).undo_stack@.last().text@
                &&& final(self).anchor == old(self).undo_stack@.last().anchor
                &&& final(self).head == old(self).undo_stack@.last().head
                &&& final(self).undo_stack@ == old(self).undo_stack@.drop_last()
                &&& final(self).redo_stack@.len() == old(self).redo_stack@.len() + 1
                &&& final(self).redo_stack@.drop_last() == old(self).redo_stack@
                &&& final(self).redo_stack@.last().text@ == old(self).text@
                &&& final(self).redo_stack@.last().anchor == old(self).anchor
                &&& final(self).redo_stack@.last().head == old(self).head
            },
    {
        match self.undo_stack.pop() {
            None => {},
            Some(snap) => {
                proof {
                    assert(old(self).undo_stack@.last() == snap);
                    assert(snap.wf());
                }
                let Snapshot { text, anchor, head } = snap;
                let stops = cursor_stops_for(&text);
                let syntax = no_syntax(text.len());
                let mut cur = text;
                std::mem::swap(&mut self.text, &mut cur);
                self.redo_stack.push(Snapshot { text: cur, anchor: self.anchor, head: self.head });
                self.stops = stops;
                self.syntax = syntax;
                self.anchor = anchor;
                self.head = head;
                proof {
                    assert(self.redo_stack@.drop_last() =~= old(self).redo_stack@);
                }
            },
        }
    }

    /// Reapplies the latest undone step, and saves the current state for
    /// undo. Does nothing when there is nothing to redo.
    pub fn redo(&mut self)
        requires
            old(self).wf(),
        ensures
            final(self).wf(),
            old(self).redo_stack@.len() == 0 ==> final(self).text@ == old(self).text@
                && final(self).anchor == old(self).anchor && final(self).head == old(self).head
                && final(self).undo_stack@ == old(self).undo_stack@
                && final(self).redo_stack@ == old(self).redo_stack@,
            old(self).redo_stack@.len() > 0 ==> {
                &&& final(self).text@ == old(self).redo_stack@.last().text@
                &&& final(self).anchor == old(self).redo_stack@.last().anchor
                &&& final(self).head == old(self).redo_stack@.last().head
                &&& final(self).redo_stack@ == old(self).redo_stack@.drop_last()
                &&& final(self).undo_stack@.len() == old(self).undo_stack@.len() + 1
                &&& final(self).undo_stack@.drop_last() == old(self).undo_stack@
                &&& final(self).undo_stack@.last().text@ == old(self).text@
                &&& final(self).undo_stack@.last().anchor == old(self).anchor
                &&& final(self).undo_stack@.last().head == old(self).head
            },
    {
        match self.redo_stack.pop() {
            None => {},
            Some(snap) => {
                proof {
                    assert(old(self).redo_stack@.last() == snap);
                    assert(snap.wf());
                }
                let Snapshot { text, anchor, head } = snap;
                let stops = cursor_stops_for(&text);
                let syntax = no_syntax(text.len());
                let mut cur = text;
                std::mem::swap(&mut self.text, &mut cur);
                self.undo_stack.push(Snapshot { text: cur, anchor: self.anchor, head: self.head });
                self.stops = stops;
                self.syntax = syntax;
                self.anchor = anchor;
                self.head = head;
                proof {
                    assert(self.undo_stack@.drop_last() =~= old(self).undo_stack@);
                }
            },
        }
    }
}

/// The text `t` with `t[s..e]` replaced by `ins`.
pub fn splice_chars(t: &Vec<char>, s: usize, e: usize, ins: &Vec<char>) -> (r: Vec<char>)
    requires
        s <= e <= t@.len(),
    ensures
        r@ == splice(t@, s as int, e as int, ins@),
{
    let mut r: Vec<char> = Vec::new();
    let mut i: usize = 0;
    while i < s
        invariant
            i <= s <= e <= t@.len(),
            r@ == t@.subrange(0, i as int),
        decreases s - i,
    {
        r.push(t[i]);
        i = i + 1;
        assert(r@ =~= t@.subrange(0, i as int));
    }
    let mut j: usize = 0;
    while j < ins.len()
        invariant
            s <= e <= t@.len(),
            j <= ins@.len(),
            r@ == t@.subrange(0, s as int) + ins@.subrange(0, j as int),
        decreases ins@.len() - j,
    {
        r.push(ins[j]);
        j = j + 1;
        assert(r@ =~= t@.subrange(0, s as int) + ins@.subrange(0, j as int));
    }
    let mut k: usize = e;
    while k < t.len()
        invariant
            s <= e <= k <= t@.len(),
            r@ == t@.subrange(0, s as int) + ins@ + t@.subrange(e as int, k as int),
        decreases t@.len() - k,
    {
        assert(ins@.subrange(0, ins@.len() as int) =~= ins@);
        r.push(t[k]);
        k = k + 1;
        assert(r@ =~= t@.subrange(0, s as int) + ins@ + t@.subrange(e as int, k as int));
    }
    assert(ins@.subrange(0, ins@.len() as int) =~= ins@);
    r
}

/// `n` cleared syntax flags.
pub fn no_syntax(n: usize) -> (r: Vec<bool>)
    ensures
        r@.len() == n,
        forall|i: int| 0 <= i < n ==> !r@[i],
{
    let mut r: Vec<bool> = Vec::new();
    let mut i: usize = 0;
    while i < n
        invariant
            i <= n,
            r@.len() == i,
            forall|j: int| 0 <= j < i ==> !r@[j],
        decreases n - i,
    {
        r.push(false);
        i = i + 1;
    }
    r
}

} // verus!
