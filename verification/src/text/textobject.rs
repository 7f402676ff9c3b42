//! Text objects: words, long words, paragraphs, and bracket or quote pairs.

use vstd::prelude::*;
use crate::text::buffer::{
    TextBuf, line_of, line_count, line_end, start_of_line, lemma_line_end_bounds, lemma_start_of_line_exists,
    lemma_next_line_start,
};
use crate::text::chars::{CharCategory, categorize, spec_categorize};
use crate::text::match_brackets::{
    spec_closest_enclosing_pair, spec_enclosing_bracket_pair, spec_enclosing_quote_pair,
    spec_get_pair, find_closest_enclosing_pair, find_enclosing_bracket_pair,
    find_enclosing_quote_pair, get_pair,
};
use crate::text::unicode::{is_whitespace, spec_is_whitespace};

verus! {

/// The start of the run of characters of category `cat` that ends at `p`.
pub open spec fn run_start(t: Seq<char>, p: int, cat: CharCategory) -> int
    decreases p,
{
    if p <= 0 || spec_categorize(t[p - 1]) != cat {
        p
    } else {
        run_start(t, p - 1, cat)
    }
}

/// The end of the run of characters of category `cat` that starts at `p`.
pub open spec fn run_end(t: Seq<char>, p: int, cat: CharCategory) -> int
    decreases t.len() - p,
{
    if p >= t.len() || spec_categorize(t[p]) != cat {
        p
    } else {
        run_end(t, p + 1, cat)
    }
}

/// The word around `pos`: the maximal run of characters of the category
/// of the one at `pos`; `None` at the end or on whitespace and line ends.
pub open spec fn spec_word_bounds_at(t: Seq<char>, pos: int) -> Option<(int, int)> {
    if pos >= t.len() || pos < 0 {
        None
    } else {
        let cat = spec_categorize(t[pos]);
        if cat == CharCategory::Whitespace || cat == CharCategory::Eol {
            None
        } else {
            Some((run_start(t, pos, cat), run_end(t, pos, cat)))
        }
    }
}

pub proof fn lemma_runs(t: Seq<char>, p: int, cat: CharCategory)
    requires
        0 <= p <= t.len(),
    ensures
        0 <= run_start(t, p, cat) <= p,
        p <= run_end(t, p, cat) <= t.len(),
    decreases t.len() - p + p,
{
    if p > 0 && spec_categorize(t[p - 1]) == cat {
        lemma_runs_start(t, p - 1, cat);
    }
    if p < t.len() && spec_categorize(t[p]) == cat {
        lemma_runs_end(t, p + 1, cat);
    }
}

pub proof fn lemma_runs_start(t: Seq<char>, p: int, cat: CharCategory)
    requires
        0 <= p <= t.len(),
    ensures
        0 <= run_start(t, p, cat) <= p,
    decreases p,
{
    if p > 0 && spec_categorize(t[p - 1]) == cat {
        lemma_runs_start(t, p - 1, cat);
    }
}

pub proof fn lemma_runs_end(t: Seq<char>, p: int, cat: CharCategory)
    requires
        0 <= p <= t.len(),
    ensures
        p <= run_end(t, p, cat) <= t.len(),
    decreases t.len() - p,
{
    if p < t.len() && spec_categorize(t[p]) == cat {
        lemma_runs_end(t, p + 1, cat);
    }
}

/// The bounds of the word at `pos`.
pub fn word_bounds_at(buffer: &TextBuf, pos: usize) -> (r: Option<(usize, usize)>)
    requires
        buffer.wf(),
    ensures
        r matches Some(x) ==> spec_word_bounds_at(buffer.t(), pos as int) == Some(
            (x.0 as int, x.1 as int),
        ) && x.0 <= pos < x.1 <= buffer.n(),
        r is None ==> spec_word_bounds_at(buffer.t(), pos as int) is None,
{
    let ghost t = buffer.t();
    let n = buffer.text.len();
    if pos >= n {
        return None;
    }
    let cat = categorize(buffer.text[pos]);
    if cat == CharCategory::Whitespace || cat == CharCategory::Eol {
        return None;
    }
    proof {
        lemma_runs(t, pos as int, cat);
    }
    let mut start = pos;
    while start > 0 && categorize(buffer.text[start - 1]) == cat
        invariant
            t == buffer.t(),
            start <= pos < n,
            n == t.len(),
            run_start(t, start as int, cat) == run_start(t, pos as int, cat),
        decreases start,
    {
        start = start - 1;
    }
    let mut end = pos;
    while end < n && categorize(buffer.text[end]) == cat
        invariant
            t == buffer.t(),
            pos <= end <= n,
            n == t.len(),
            run_end(t, end as int, cat) == run_end(t, pos as int, cat),
        decreases n - end,
    {
        end = end + 1;
    }
    assert(spec_categorize(t[pos as int]) == cat);
    assert(run_end(t, pos as int, cat) > pos);
    Some((start, end))
}

/// Whether `c` is a space or a tab.
pub open spec fn is_blank(c: char) -> bool {
    c == ' ' || c == '\t'
}

/// The first position at or after `p` that holds no space or tab.
pub open spec fn skip_blanks_fwd(t: Seq<char>, p: int) -> int
    decreases t.len() - p,
{
    if p >= t.len() || p < 0 || !is_blank(t[p]) {
        p
    } else {
        skip_blanks_fwd(t, p + 1)
    }
}

/// The first position at or before `p` that does not follow a space or tab.
pub open spec fn skip_blanks_bwd(t: Seq<char>, p: int) -> int
    decreases p,
{
    if p <= 0 || p > t.len() || !is_blank(t[p - 1]) {
        p
    } else {
        skip_blanks_bwd(t, p - 1)
    }
}

/// An "around" object: the trailing spaces and tabs after `[s, e)`, or the
/// leading ones when there are none after it.
pub open spec fn around(t: Seq<char>, s: int, e: int) -> (int, int) {
    let e2 = skip_blanks_fwd(t, e);
    let s2 = if e2 == e { skip_blanks_bwd(t, s) } else { s };
    (s2, e2)
}

pub proof fn lemma_blanks(t: Seq<char>, p: int)
    requires
        0 <= p <= t.len(),
    ensures
        p <= skip_blanks_fwd(t, p) <= t.len(),
        0 <= skip_blanks_bwd(t, p) <= p,
    decreases t.len() - p + p,
{
    lemma_blanks_fwd(t, p);
    lemma_blanks_bwd(t, p);
}

pub proof fn lemma_blanks_fwd(t: Seq<char>, p: int)
    requires
        0 <= p <= t.len(),
    ensures
        p <= skip_blanks_fwd(t, p) <= t.len(),
    decreases t.len() - p,
{
    if p < t.len() && is_blank(t[p]) {
        lemma_blanks_fwd(t, p + 1);
    }
}

pub proof fn lemma_blanks_bwd(t: Seq<char>, p: int)
    requires
        0 <= p <= t.len(),
    ensures
        0 <= skip_blanks_bwd(t, p) <= p,
    decreases p,
{
    if p > 0 && is_blank(t[p - 1]) {
        lemma_blanks_bwd(t, p - 1);
    }
}

fn around_exec(buffer: &TextBuf, s: usize, e: usize) -> (r: (usize, usize))
    requires
        buffer.wf(),
        s <= e <= buffer.n(),
    ensures
        (r.0 as int, r.1 as int) == around(buffer.t(), s as int, e as int),
        r.0 <= s,
        e <= r.1 <= buffer.n(),
{
    let ghost t = buffer.t();
    let n = buffer.text.len();
    proof {
        lemma_blanks(t, e as int);
        lemma_blanks(t, s as int);
    }
    let mut e2 = e;
    while e2 < n && (buffer.text[e2] == ' ' || buffer.text[e2] == '\t')
        invariant
            t == buffer.t(),
            n == t.len(),
            e <= e2 <= n,
            skip_blanks_fwd(t, e2 as int) == skip_blanks_fwd(t, e as int),
        decreases n - e2,
    {
        e2 = e2 + 1;
    }
    let mut s2 = s;
    if e2 == e {
        while s2 > 0 && (buffer.text[s2 - 1] == ' ' || buffer.text[s2 - 1] == '\t')
            invariant
                t == buffer.t(),
                n == t.len(),
                s2 <= s <= n,
                skip_blanks_bwd(t, s2 as int) == skip_blanks_bwd(t, s as int),
            decreases s2,
        {
            s2 = s2 - 1;
        }
    }
    (s2, e2)
}

/// Whether `c` belongs to a long word: not whitespace nor a line ending.
pub open spec fn in_long_word(c: char) -> bool {
    !spec_is_whitespace(c) && c != '\n' && c != '\r'
}

/// The start of the long word that ends at `p`.
pub open spec fn long_start(t: Seq<char>, p: int) -> int
    decreases p,
{
    if p <= 0 || p > t.len() || !in_long_word(t[p - 1]) {
        p
    } else {
        long_start(t, p - 1)
    }
}

/// The end of the long word that starts at `p`.
pub open spec fn long_end(t: Seq<char>, p: int) -> int
    decreases t.len() - p,
{
    if p >= t.len() || p < 0 || !in_long_word(t[p]) {
        p
    } else {
        long_end(t, p + 1)
    }
}

pub proof fn lemma_long(t: Seq<char>, p: int)
    requires
        0 <= p <= t.len(),
    ensures
        0 <= long_start(t, p) <= p,
        p <= long_end(t, p) <= t.len(),
{
    lemma_long_start(t, p);
    lemma_long_end(t, p);
}

pub proof fn lemma_long_start(t: Seq<char>, p: int)
    requires
        0 <= p <= t.len(),
    ensures
        0 <= long_start(t, p) <= p,
    decreases p,
{
    if p > 0 && in_long_word(t[p - 1]) {
        lemma_long_start(t, p - 1);
    }
}

pub proof fn lemma_long_end(t: Seq<char>, p: int)
    requires
        0 <= p <= t.len(),
    ensures
        p <= long_end(t, p) <= t.len(),
    decreases t.len() - p,
{
    if p < t.len() && in_long_word(t[p]) {
        lemma_long_end(t, p + 1);
    }
}

/// Whether line `l` holds only whitespace.
pub open spec fn line_blank(t: Seq<char>, l: int) -> bool {
    let s = start_of_line(t, l);
    forall|k: int| s <= k < line_end(t, s) ==> spec_is_whitespace(#[trigger] t[k])
}

/// The first line of the paragraph that holds line `l`.
pub open spec fn para_first(t: Seq<char>, l: int) -> int
    decreases l,
{
    if l <= 0 || line_blank(t, l - 1) {
        l
    } else {
        para_first(t, l - 1)
    }
}

/// The last line of the paragraph that holds line `l`.
pub open spec fn para_last(t: Seq<char>, l: int) -> int
    decreases line_count(t) - l,
{
    if l + 1 >= line_count(t) || line_blank(t, l + 1) {
        l
    } else {
        para_last(t, l + 1)
    }
}

/// The end of the blank lines that follow line `l`: one past each of their
/// line ends (the buffer end for the last line), or `end` when none follows.
pub open spec fn blank_tail(t: Seq<char>, l: int, end: int) -> int
    decreases line_count(t) - l,
{
    if l < 0 || l >= line_count(t) || !line_blank(t, l) {
        end
    } else {
        let e = line_end(t, start_of_line(t, l));
        blank_tail(t, l + 1, if e < t.len() { e + 1 } else { e })
    }
}

/// The paragraph's last line is at or after the line it is taken from.
proof fn lemma_para_last_after(t: Seq<char>, l: int)
    ensures
        para_last(t, l) >= l,
    decreases line_count(t) - l,
{
    if !(l + 1 >= line_count(t) || line_blank(t, l + 1)) {
        lemma_para_last_after(t, l + 1);
    }
}

/// The blank lines from line `l` up to line `after` (the first line that is
/// not blank, or the line count) end at the start of line `after`, or at
/// the end of the text when no line follows them; with none, at `end`.
proof fn lemma_blank_tail(t: Seq<char>, l: int, end: int, after: int)
    requires
        0 <= l <= after <= line_count(t),
        forall|m: int| l <= m < after ==> #[trigger] line_blank(t, m),
        after == line_count(t) || !line_blank(t, after),
    ensures
        blank_tail(t, l, end) == if after == l {
            end
        } else if after < line_count(t) {
            start_of_line(t, after)
        } else {
            t.len() as int
        },
    decreases line_count(t) - l,
{
    if after > l {
        assert(line_blank(t, l));
        lemma_start_of_line_exists(t, l);
        let q = start_of_line(t, l);
        let e = line_end(t, q);
        lemma_line_end_bounds(t, q);
        if e < t.len() {
            lemma_next_line_start(t, q);
            lemma_blank_tail(t, l + 1, e + 1, after);
        } else {
            assert(line_of(t, t.len() as int) == l);
            lemma_blank_tail(t, l + 1, e, after);
        }
    }
}

/// `ap` selects the paragraph around a line together with all the blank
/// lines that follow it: it starts where `ip` starts and ends at the start
/// of the first line after those blank lines (at the end of the text when
/// no line follows them); with no blank line after the paragraph it ends
/// where `ip` ends, at the end of the paragraph's last line.
pub proof fn lemma_around_paragraph(t: Seq<char>, line: int, after: int)
    requires
        0 <= line < line_count(t),
        para_last(t, line) < after <= line_count(t),
        forall|m: int| para_last(t, line) < m < after ==> #[trigger] line_blank(t, m),
        after == line_count(t) || !line_blank(t, after),
    ensures
        spec_paragraph(t, line, false).0 == spec_paragraph(t, line, true).0,
        spec_paragraph(t, line, false).1 == if after == para_last(t, line) + 1 {
            spec_paragraph(t, line, true).1
        } else if after < line_count(t) {
            start_of_line(t, after)
        } else {
            t.len() as int
        },
{
    let last = para_last(t, line);
    let e = line_end(t, start_of_line(t, last));
    lemma_para_last_after(t, line);
    lemma_blank_tail(t, last + 1, e, after);
}

/// The paragraph object around line `line`: from the start of its first
/// line to the end of its last; "around" also takes the blank lines after it.
pub open spec fn spec_paragraph(t: Seq<char>, line: int, inside: bool) -> (int, int) {
    let first = para_first(t, line);
    let last = para_last(t, line);
    let s = start_of_line(t, first);
    let e = line_end(t, start_of_line(t, last));
    if inside { (s, e) } else { (s, blank_tail(t, last + 1, e)) }
}

/// The bounds of the text object `obj` (inside or around) at `pos`, before
/// the check that they are in order.
pub open spec fn spec_textobject_bounds(b: TextBuf, pos: int, obj: char, inside: bool) -> Option<(int, int)> {
    let t = b.t();
    let n = t.len() as int;
    if obj == 'w' {
        match spec_word_bounds_at(t, pos) {
            None => None,
            Some((s, e)) => if inside { Some((s, e)) } else { Some(around(t, s, e)) },
        }
    } else if obj == 'W' {
        if pos < n && in_long_word(t[pos]) {
            let s = long_start(t, pos);
            let e = long_end(t, pos);
            if inside { Some((s, e)) } else { Some(around(t, s, e)) }
        } else {
            None
        }
    } else if obj == 'p' {
        Some(spec_paragraph(t, line_of(t, pos) as int, inside))
    } else {
        let pair = if obj == 'm' {
            spec_closest_enclosing_pair(b, pos)
        } else {
            let (open, close) = spec_get_pair(obj);
            if open == close {
                spec_enclosing_quote_pair(b, pos, open)
            } else {
                spec_enclosing_bracket_pair(b, pos, open, close)
            }
        };
        match pair {
            None => None,
            Some((o, c)) => if inside { Some((o + 1, c)) } else { Some((o, c + 1)) },
        }
    }
}

/// The selection `(anchor, head)` that selecting `obj` leaves, or `None`
/// when it leaves the buffer as it is. The object is found at the start of
/// the selection (or at the cursor); positions past the end name the end.
pub open spec fn spec_select_textobject(b: TextBuf, obj: char, inside: bool) -> Option<(int, int)> {
    let pos = if b.anchor != b.head {
        if b.anchor < b.head { b.anchor as int } else { b.head as int }
    } else {
        b.head as int
    };
    if b.n() == 0 {
        None
    } else {
        match spec_textobject_bounds(b, pos, obj, inside) {
            Some((s, e)) => if s <= e {
                let n = b.n();
                Some((if s <= n { s } else { n }, if e <= n { e } else { n }))
            } else {
                None
            },
            None => None,
        }
    }
}

fn line_is_blank(buffer: &TextBuf, l: usize) -> (r: bool)
    requires
        buffer.wf(),
        l < line_count(buffer.t()),
    ensures
        r == line_blank(buffer.t(), l as int),
{
    let ghost t = buffer.t();
    let s = buffer.line_start_of(l);
    let e = buffer.line_end_at(s);
    let mut k = s;
    while k < e
        invariant
            t == buffer.t(),
            s <= k <= e <= t.len(),
            e == line_end(t, s as int),
            s == start_of_line(t, l as int),
            forall|j: int| s <= j < k ==> spec_is_whitespace(#[trigger] t[j]),
        decreases e - k,
    {
        if !is_whitespace(buffer.text[k]) {
            return false;
        }
        k = k + 1;
    }
    true
}

fn paragraph(buffer: &TextBuf, line: usize, inside: bool) -> (r: (usize, usize))
    requires
        buffer.wf(),
        line < line_count(buffer.t()),
    ensures
        (r.0 as int, r.1 as int) == spec_paragraph(buffer.t(), line as int, inside),
{
    let ghost t = buffer.t();
    let lc = buffer.line_count();
    let mut first = line;
    while first > 0 && !line_is_blank(buffer, first - 1)
        invariant
            t == buffer.t(),
            buffer.wf(),
            first <= line < lc,
            lc == line_count(t),
            para_first(t, first as int) == para_first(t, line as int),
        decreases first,
    {
        first = first - 1;
    }
    let mut last = line;
    while last + 1 < lc && !line_is_blank(buffer, last + 1)
        invariant
            t == buffer.t(),
            buffer.wf(),
            line <= last < lc,
            lc == line_count(t),
            para_last(t, last as int) == para_last(t, line as int),
        decreases lc - last,
    {
        last = last + 1;
    }
    let s = buffer.line_start_of(first);
    let ls = buffer.line_start_of(last);
    let e = buffer.line_end_at(ls);
    if inside {
        return (s, e);
    }
    let mut end = e;
    let mut bl = last + 1;
    let n = buffer.text.len();
    while bl < lc && line_is_blank(buffer, bl)
        invariant
            t == buffer.t(),
            buffer.wf(),
            n == t.len(),
            last < bl <= lc,
            lc == line_count(t),
            end <= n,
            blank_tail(t, bl as int, end as int) == blank_tail(t, last + 1, e as int),
        decreases lc - bl,
    {
        let st = buffer.line_start_of(bl);
        let le = buffer.line_end_at(st);
        end = if le < n { le + 1 } else { le };
        bl = bl + 1;
    }
    (s, end)
}

fn textobject_bounds(buffer: &TextBuf, pos: usize, obj: char, inside: bool) -> (r: Option<(usize, usize)>)
    requires
        buffer.wf(),
        pos <= buffer.n(),
    ensures
        r matches Some(x) ==> spec_textobject_bounds(*buffer, pos as int, obj, inside) == Some(
            (x.0 as int, x.1 as int),
        ),
        r is None ==> spec_textobject_bounds(*buffer, pos as int, obj, inside) is None,
{
    let ghost t = buffer.t();
    let n = buffer.text.len();
    if obj == 'w' {
        match word_bounds_at(buffer, pos) {
            None => None,
            Some((s, e)) => if inside {
                Some((s, e))
            } else {
                Some(around_exec(buffer, s, e))
            },
        }
    } else if obj == 'W' {
        if pos < n && !is_whitespace(buffer.text[pos]) && buffer.text[pos] != '\n'
            && buffer.text[pos] != '\r' {
            proof {
                lemma_long(t, pos as int);
            }
            let mut s = pos;
            while s > 0 && !is_whitespace(buffer.text[s - 1]) && buffer.text[s - 1] != '\n'
                && buffer.text[s - 1] != '\r'
                invariant
                    t == buffer.t(),
                    s <= pos < n,
                    n == t.len(),
                    long_start(t, s as int) == long_start(t, pos as int),
                decreases s,
            {
                s = s - 1;
            }
            let mut e = pos;
            while e < n && !is_whitespace(buffer.text[e]) && buffer.text[e] != '\n'
                && buffer.text[e] != '\r'
                invariant
                    t == buffer.t(),
                    pos <= e <= n,
                    n == t.len(),
                    long_end(t, e as int) == long_end(t, pos as int),
                decreases n - e,
            {
                e = e + 1;
            }
            if inside {
                Some((s, e))
            } else {
                Some(around_exec(buffer, s, e))
            }
        } else {
            None
        }
    } else if obj == 'p' {
        let line = buffer.line_at(pos);
        proof {
            crate::text::buffer::lemma_line_of_monotonic(t, pos as int, n as int);
        }
        Some(paragraph(buffer, line, inside))
    } else {
        let pair = if obj == 'm' {
            find_closest_enclosing_pair(buffer, pos)
        } else {
            let (open, close) = get_pair(obj);
            if open == close {
                find_enclosing_quote_pair(buffer, pos, open)
            } else {
                find_enclosing_bracket_pair(buffer, pos, open, close)
            }
        };
        match pair {
            None => None,
            Some((o, c)) => if inside {
                Some((o + 1, c))
            } else {
                Some((o, c + 1))
            },
        }
    }
}

/// `mi`/`ma` with `obj`: selects the text object around the cursor.
pub fn select_textobject(buffer: &mut TextBuf, obj: char, inside: bool)
    requires
        old(buffer).wf(),
    ensures
        final(buffer).wf(),
        final(buffer).text@ == old(buffer).text@,
        final(buffer).stops@ == old(buffer).stops@,
        final(buffer).syntax@ == old(buffer).syntax@,
        final(buffer).undo_stack@ == old(buffer).undo_stack@,
        final(buffer).redo_stack@ == old(buffer).redo_stack@,
        match spec_select_textobject(*old(buffer), obj, inside) {
            Some((s, e)) => final(buffer).anchor == s && final(buffer).head == e,
            None => final(buffer).anchor == old(buffer).anchor && final(buffer).head == old(
                buffer,
            ).head,
        },
{
    let n = buffer.text.len();
    if n == 0 {
        return ;
    }
    let pos = match buffer.selection_bounds() {
        Some((s, _)) => s,
        None => buffer.head,
    };
    match textobject_bounds(buffer, pos, obj, inside) {
        Some((s, e)) => {
            if s <= e {
                let s2 = if s <= n { s } else { n };
                let e2 = if e <= n { e } else { n };
                buffer.select_range(e2, s2);
            }
        },
        None => {},
    }
}

} // verus!
