//! Motions and edits on a [`TextBuf`].

use vstd::prelude::*;
use crate::text::buffer::{
    TextBuf, lemma_next_stop_bounds, lemma_prev_stop_bounds, line_start, line_end, line_of, line_count, start_of_line, is_line_start, splice,
    splice_chars, lemma_line_start_bounds, lemma_line_end_bounds, lemma_next_line_start,
    lemma_line_of_monotonic, lemma_line_start_is_start_of_line, lemma_start_of_line,
};
use crate::text::chars::{
    is_word_boundary, char_is_line_ending, spec_is_word_boundary, spec_char_is_line_ending,
};
use crate::text::selection::Range;
use crate::text::unicode::{
    is_whitespace, spec_is_whitespace, chars_of, push_all, string_from_chars, graphemes,
    spec_graphemes, is_lowercase, is_uppercase, to_uppercase, to_lowercase, unicode_is_lowercase,
    unicode_is_uppercase, unicode_to_uppercase, unicode_to_lowercase,
};

verus! {

// ---------------------------------------------------------------------------
// Word motions
// ---------------------------------------------------------------------------

/// The four targets of a word motion.
#[derive(Debug, Clone, Copy, PartialEq, Eq, Structural)]
pub enum WordMotionTarget {
    NextWordStart,
    NextWordEnd,
    PrevWordStart,
    PrevWordEnd,
}

/// Whether a motion that has just read `prev_ch` and then `next_ch` has
/// reached its target: a word boundary that is not followed (for word
/// starts) or preceded (for word ends) by plain whitespace.
pub open spec fn spec_reached_target(target: WordMotionTarget, prev_ch: char, next_ch: char) -> bool {
    match target {
        WordMotionTarget::NextWordStart | WordMotionTarget::PrevWordEnd => spec_is_word_boundary(
            prev_ch,
            next_ch,
        ) && (spec_char_is_line_ending(next_ch) || !spec_is_whitespace(next_ch)),
        WordMotionTarget::NextWordEnd | WordMotionTarget::PrevWordStart => spec_is_word_boundary(
            prev_ch,
            next_ch,
        ) && (!spec_is_whitespace(prev_ch) || spec_char_is_line_ending(next_ch)),
    }
}

/// Whether the motion has reached its target between `prev_ch` and `next_ch`.
pub fn reached_target(target: WordMotionTarget, prev_ch: char, next_ch: char) -> (r: bool)
    ensures
        r == spec_reached_target(target, prev_ch, next_ch),
{
    match target {
        WordMotionTarget::NextWordStart | WordMotionTarget::PrevWordEnd => {
            is_word_boundary(prev_ch, next_ch) && (char_is_line_ending(next_ch) || !is_whitespace(
                next_ch,
            ))
        },
        WordMotionTarget::NextWordEnd | WordMotionTarget::PrevWordStart => {
            is_word_boundary(prev_ch, next_ch) && (!is_whitespace(prev_ch) || char_is_line_ending(
                next_ch,
            ))
        },
    }
}

/// The first position at or after `p` that does not hold a line ending.
pub open spec fn skip_eol_fwd(t: Seq<char>, p: int) -> int
    decreases t.len() - p,
{
    if p >= t.len() || !spec_char_is_line_ending(t[p]) {
        p
    } else {
        skip_eol_fwd(t, p + 1)
    }
}

/// The first position at or before `p` that is not just after a line ending.
pub open spec fn skip_eol_bwd(t: Seq<char>, p: int) -> int
    decreases p,
{
    if p <= 0 || !spec_char_is_line_ending(t[p - 1]) {
        p
    } else {
        skip_eol_bwd(t, p - 1)
    }
}

/// The forward scan of a word motion that started at `q0`, now at `p`,
/// with the current anchor: it stops at the first target after `q0`, and a
/// target right at `q0` moves the anchor there.
pub open spec fn scan_fwd(t: Seq<char>, target: WordMotionTarget, q0: int, p: int, anchor: int) -> (
    int,
    int,
)
    decreases t.len() - p,
{
    if p >= t.len() {
        (anchor, p)
    } else {
        let hit = p <= 0 || spec_reached_target(target, t[p - 1], t[p]);
        if hit && p != q0 {
            (anchor, p)
        } else {
            scan_fwd(t, target, q0, p + 1, if hit { p } else { anchor })
        }
    }
}

/// The backward scan of a word motion, mirroring [`scan_fwd`].
pub open spec fn scan_bwd(t: Seq<char>, target: WordMotionTarget, q0: int, p: int, anchor: int) -> (
    int,
    int,
)
    decreases p,
{
    if p <= 0 {
        (anchor, p)
    } else {
        let hit = p >= t.len() || spec_reached_target(target, t[p], t[p - 1]);
        if hit && p != q0 {
            (anchor, p)
        } else {
            scan_bwd(t, target, q0, p - 1, if hit { p } else { anchor })
        }
    }
}

/// The range a word motion reaches from `origin`: line endings next to the
/// head are skipped first (moving the anchor past them), then characters
/// are consumed until the target is reached.
pub open spec fn spec_range_to_target(
    t: Seq<char>,
    origin: Range,
    target: WordMotionTarget,
    is_prev: bool,
) -> (int, int) {
    if !is_prev {
        let q = skip_eol_fwd(t, origin.head as int);
        let a = if q > 0 && spec_char_is_line_ending(t[q - 1]) { q } else { origin.anchor as int };
        scan_fwd(t, target, q, q, a)
    } else {
        let q = skip_eol_bwd(t, origin.head as int);
        let a = if q < t.len() && spec_char_is_line_ending(t[q]) {
            q
        } else {
            origin.anchor as int
        };
        scan_bwd(t, target, q, q, a)
    }
}

pub proof fn lemma_skip_eol_fwd(t: Seq<char>, p: int)
    requires
        0 <= p <= t.len(),
    ensures
        p <= skip_eol_fwd(t, p) <= t.len(),
    decreases t.len() - p,
{
    if p < t.len() && spec_char_is_line_ending(t[p]) {
        lemma_skip_eol_fwd(t, p + 1);
    }
}

pub proof fn lemma_skip_eol_bwd(t: Seq<char>, p: int)
    requires
        0 <= p <= t.len(),
    ensures
        0 <= skip_eol_bwd(t, p) <= p,
    decreases p,
{
    if p > 0 && spec_char_is_line_ending(t[p - 1]) {
        lemma_skip_eol_bwd(t, p - 1);
    }
}

pub proof fn lemma_scan_fwd(t: Seq<char>, target: WordMotionTarget, q0: int, p: int, anchor: int)
    requires
        0 <= p <= t.len(),
        0 <= anchor <= t.len(),
    ensures
        p <= scan_fwd(t, target, q0, p, anchor).1 <= t.len(),
        0 <= scan_fwd(t, target, q0, p, anchor).0 <= t.len(),
    decreases t.len() - p,
{
    if p < t.len() {
        let hit = p <= 0 || spec_reached_target(target, t[p - 1], t[p]);
        if !(hit && p != q0) {
            lemma_scan_fwd(t, target, q0, p + 1, if hit { p } else { anchor });
        }
    }
}

pub proof fn lemma_scan_bwd(t: Seq<char>, target: WordMotionTarget, q0: int, p: int, anchor: int)
    requires
        0 <= p <= t.len(),
        0 <= anchor <= t.len(),
    ensures
        0 <= scan_bwd(t, target, q0, p, anchor).1 <= p,
        0 <= scan_bwd(t, target, q0, p, anchor).0 <= t.len(),
    decreases p,
{
    if p > 0 {
        let hit = p >= t.len() || spec_reached_target(target, t[p], t[p - 1]);
        if !(hit && p != q0) {
            lemma_scan_bwd(t, target, q0, p - 1, if hit { p } else { anchor });
        }
    }
}

/// Runs a word motion from `origin` towards `target` (backwards when
/// `is_prev`), returning the range it selects.
pub fn range_to_target(buffer: &TextBuf, origin: Range, target: WordMotionTarget, is_prev: bool) -> (r:
    Range)
    requires
        buffer.wf(),
        origin.head <= buffer.n(),
        origin.anchor <= buffer.n(),
    ensures
        (r.anchor as int, r.head as int) == spec_range_to_target(
            buffer.t(),
            origin,
            target,
            is_prev,
        ),
        r.anchor <= buffer.n(),
        r.head <= buffer.n(),
{
    let ghost t = buffer.t();
    let n = buffer.text.len();
    let mut head = origin.head;
    let mut anchor = origin.anchor;
    if !is_prev {
        while head < n && char_is_line_ending(buffer.text[head])
            invariant
                n == t.len(),
                t == buffer.text@,
                origin.head <= head <= n,
                skip_eol_fwd(t, head as int) == skip_eol_fwd(t, origin.head as int),
            decreases n - head,
        {
            head = head + 1;
        }
        let q0 = head;
        if q0 > 0 && char_is_line_ending(buffer.text[q0 - 1]) {
            anchor = q0;
        }
        let ghost a0 = anchor;
        proof {
            lemma_scan_fwd(t, target, q0 as int, q0 as int, a0 as int);
        }
        while head < n
            invariant
                n == t.len(),
                t == buffer.text@,
                q0 <= head <= n,
                anchor <= n,
                scan_fwd(t, target, q0 as int, head as int, anchor as int) == scan_fwd(
                    t,
                    target,
                    q0 as int,
                    q0 as int,
                    a0 as int,
                ),
            ensures
                scan_fwd(t, target, q0 as int, q0 as int, a0 as int) == (anchor as int, head as int),
                anchor <= n,
                head <= n,
            decreases n - head,
        {
            let hit = head == 0 || reached_target(target, buffer.text[head - 1], buffer.text[head]);
            if hit {
                if head == q0 {
                    anchor = head;
                } else {
                    break;
                }
            }
            head = head + 1;
        }
        Range::new(anchor, head)
    } else {
        while head > 0 && char_is_line_ending(buffer.text[head - 1])
            invariant
                n == t.len(),
                t == buffer.text@,
                head <= origin.head <= n,
                skip_eol_bwd(t, head as int) == skip_eol_bwd(t, origin.head as int),
            decreases head,
        {
            head = head - 1;
        }
        let q0 = head;
        if q0 < n && char_is_line_ending(buffer.text[q0]) {
            anchor = q0;
        }
        let ghost a0 = anchor;
        proof {
            lemma_scan_bwd(t, target, q0 as int, q0 as int, a0 as int);
        }
        while head > 0
            invariant
                n == t.len(),
                t == buffer.text@,
                head <= q0 <= n,
                anchor <= n,
                scan_bwd(t, target, q0 as int, head as int, anchor as int) == scan_bwd(
                    t,
                    target,
                    q0 as int,
                    q0 as int,
                    a0 as int,
                ),
            ensures
                scan_bwd(t, target, q0 as int, q0 as int, a0 as int) == (anchor as int, head as int),
                anchor <= n,
                head <= n,
            decreases head,
        {
            let hit = head >= n || reached_target(target, buffer.text[head], buffer.text[head - 1]);
            if hit {
                if head == q0 {
                    anchor = head;
                } else {
                    break;
                }
            }
            head = head - 1;
        }
        Range::new(anchor, head)
    }
}

/// Whether a word motion target moves backwards.
pub open spec fn is_prev_target(target: WordMotionTarget) -> bool {
    target == WordMotionTarget::PrevWordStart || target == WordMotionTarget::PrevWordEnd
}

/// The range a word motion starts from: one character around the head,
/// in the direction of the motion.
pub open spec fn word_start_range(n: int, range: Range, is_prev: bool) -> Range {
    if is_prev {
        if range.anchor < range.head {
            Range { anchor: range.head, head: (range.head - 1) as usize }
        } else {
            Range { anchor: (if range.head + 1 <= n { range.head + 1 } else { n }) as usize, head: range.head }
        }
    } else {
        if range.anchor < range.head {
            Range { anchor: (range.head - 1) as usize, head: range.head }
        } else {
            Range { anchor: range.head, head: (if range.head + 1 <= n { range.head + 1 } else { n }) as usize }
        }
    }
}

/// The range selected by a word motion from `range`: unchanged at the
/// buffer edge it moves towards, otherwise the motion run from
/// [`word_start_range`].
pub open spec fn spec_word_move(t: Seq<char>, range: Range, target: WordMotionTarget) -> (int, int) {
    let is_prev = is_prev_target(target);
    if (is_prev && range.head == 0) || (!is_prev && range.head == t.len()) {
        (range.anchor as int, range.head as int)
    } else {
        spec_range_to_target(t, word_start_range(t.len() as int, range, is_prev), target, is_prev)
    }
}

/// Applies a word motion to `range`.
pub fn word_move(buffer: &TextBuf, range: Range, target: WordMotionTarget) -> (r: Range)
    requires
        buffer.wf(),
        range.head <= buffer.n(),
        range.anchor <= buffer.n(),
    ensures
        (r.anchor as int, r.head as int) == spec_word_move(buffer.t(), range, target),
        r.anchor <= buffer.n(),
        r.head <= buffer.n(),
{
    let is_prev = match target {
        WordMotionTarget::PrevWordStart | WordMotionTarget::PrevWordEnd => true,
        _ => false,
    };
    let total_len = buffer.text.len();
    if (is_prev && range.head == 0) || (!is_prev && range.head == total_len) {
        return range;
    }
    let start_range = if is_prev {
        if range.anchor < range.head {
            Range::new(range.head, range.head - 1)
        } else {
            Range::new(if range.head + 1 <= total_len { range.head + 1 } else { total_len }, range.head)
        }
    } else {
        if range.anchor < range.head {
            Range::new(range.head - 1, range.head)
        } else {
            Range::new(range.head, if range.head + 1 <= total_len { range.head + 1 } else { total_len })
        }
    };
    range_to_target(buffer, start_range, target, is_prev)
}

/// The first position in `[s, e)` that holds no line ending, or `e`.
pub open spec fn trim_front(t: Seq<char>, s: int, e: int) -> int
    decreases e - s,
{
    if s < e && spec_char_is_line_ending(t[s]) {
        trim_front(t, s + 1, e)
    } else {
        s
    }
}

/// The last position in `(s, e]` that does not follow a line ending, or `s`.
pub open spec fn trim_back(t: Seq<char>, s: int, e: int) -> int
    decreases e - s,
{
    if e > s && spec_char_is_line_ending(t[e - 1]) {
        trim_back(t, s, e - 1)
    } else {
        e
    }
}

/// The range a word key selects from the current selection: with
/// `extend`, the anchor stays and the head moves as a point motion from
/// the head would; otherwise the motion runs on the whole selection.
pub open spec fn spec_word_selection(b: TextBuf, target: WordMotionTarget, extend: bool) -> (int, int) {
    if extend {
        let w = spec_word_move(b.t(), Range { anchor: b.head, head: b.head }, target);
        (b.anchor as int, w.1)
    } else {
        spec_word_move(b.t(), Range { anchor: b.anchor, head: b.head }, target)
    }
}

/// The selection a word key leaves: the motion's range with line endings
/// trimmed from both ends, `None` when nothing is left (or the key does
/// nothing). `backward_head` puts the head at the start when the motion
/// ran backwards.
pub open spec fn spec_word_key(b: TextBuf, target: WordMotionTarget, extend: bool, backward_head: bool) -> Option<(int, int)> {
    let t = b.t();
    let pos = b.head as int;
    let blocked = if is_prev_target(target) { pos == 0 } else { pos >= t.len() };
    if t.len() == 0 || blocked {
        None
    } else {
        let (a, h) = spec_word_selection(b, target, extend);
        let s = if a <= h { a } else { h };
        let e = if a <= h { h } else { a };
        let s2 = trim_front(t, s, e);
        let e2 = trim_back(t, s2, e);
        if s2 >= e2 {
            None
        } else if backward_head && a > h {
            Some((e2, s2))
        } else {
            Some((s2, e2))
        }
    }
}

pub proof fn lemma_trim(t: Seq<char>, s: int, e: int)
    requires
        0 <= s <= e <= t.len(),
    ensures
        s <= trim_front(t, s, e) <= e,
        trim_front(t, s, e) <= trim_back(t, trim_front(t, s, e), e) <= e,
    decreases e - s,
{
    if s < e && spec_char_is_line_ending(t[s]) {
        lemma_trim(t, s + 1, e);
    } else {
        lemma_trim_back(t, s, e);
    }
}

pub proof fn lemma_trim_back(t: Seq<char>, s: int, e: int)
    requires
        0 <= s <= e <= t.len(),
    ensures
        s <= trim_back(t, s, e) <= e,
    decreases e - s,
{
    if e > s && spec_char_is_line_ending(t[e - 1]) {
        lemma_trim_back(t, s, e - 1);
    }
}

/// The state of the buffer after a selection-only change `(anchor, head)`.
pub open spec fn same_text(b: TextBuf, c: TextBuf) -> bool {
    &&& c.text@ == b.text@
    &&& c.stops@ == b.stops@
    &&& c.syntax@ == b.syntax@
    &&& c.undo_stack@ == b.undo_stack@
    &&& c.redo_stack@ == b.redo_stack@
}

fn word_key(buffer: &mut TextBuf, target: WordMotionTarget, extend: bool, backward_head: bool)
    requires
        old(buffer).wf(),
    ensures
        final(buffer).wf(),
        same_text(*old(buffer), *final(buffer)),
        match spec_word_key(*old(buffer), target, extend, backward_head) {
            None => final(buffer).anchor == old(buffer).anchor && final(buffer).head == old(
                buffer,
            ).head,
            Some((a, h)) => final(buffer).anchor == a && final(buffer).head == h,
        },
{
    let ghost t = buffer.t();
    let total = buffer.text.len();
    let pos = buffer.head;
    let blocked = match target {
        WordMotionTarget::PrevWordStart | WordMotionTarget::PrevWordEnd => pos == 0,
        _ => pos >= total,
    };
    if total == 0 || blocked {
        return ;
    }
    let cur = Range::new(buffer.anchor, pos);
    let new_range = if extend {
        let w = word_move(buffer, Range::new(pos, pos), target);
        Range::new(cur.anchor, w.head)
    } else {
        word_move(buffer, cur, target)
    };
    let s = if new_range.anchor <= new_range.head { new_range.anchor } else { new_range.head };
    let e = if new_range.anchor <= new_range.head { new_range.head } else { new_range.anchor };
    let mut start = s;
    while start < e && char_is_line_ending(buffer.text[start])
        invariant
            s <= start <= e <= total,
            total == t.len(),
            t == buffer.t(),
            trim_front(t, start as int, e as int) == trim_front(t, s as int, e as int),
        decreases e - start,
    {
        start = start + 1;
    }
    let mut end = e;
    while end > start && char_is_line_ending(buffer.text[end - 1])
        invariant
            start <= end <= e <= total,
            total == t.len(),
            t == buffer.t(),
            trim_back(t, start as int, end as int) == trim_back(t, start as int, e as int),
        decreases end,
    {
        end = end - 1;
    }
    if start >= end {
        return ;
    }
    if backward_head && new_range.anchor > new_range.head {
        buffer.select_range(start, end);
    } else {
        buffer.select_range(end, start);
    }
}

/// `w`: selects to the start of the next word.
pub fn move_word_forward(buffer: &mut TextBuf, extend: bool)
    requires
        old(buffer).wf(),
    ensures
        final(buffer).wf(),
        same_text(*old(buffer), *final(buffer)),
        match spec_word_key(*old(buffer), WordMotionTarget::NextWordStart, extend, false) {
            None => final(buffer).anchor == old(buffer).anchor && final(buffer).head == old(
                buffer,
            ).head,
            Some((a, h)) => final(buffer).anchor == a && final(buffer).head == h,
        },
{
    word_key(buffer, WordMotionTarget::NextWordStart, extend, false)
}

/// `b`: selects back to the start of the previous word.
pub fn move_word_backward(buffer: &mut TextBuf, extend: bool)
    requires
        old(buffer).wf(),
    ensures
        final(buffer).wf(),
        same_text(*old(buffer), *final(buffer)),
        match spec_word_key(*old(buffer), WordMotionTarget::PrevWordStart, extend, true) {
            None => final(buffer).anchor == old(buffer).anchor && final(buffer).head == old(
                buffer,
            ).head,
            Some((a, h)) => final(buffer).anchor == a && final(buffer).head == h,
        },
{
    word_key(buffer, WordMotionTarget::PrevWordStart, extend, true)
}

/// `e`: selects to the end of the next word.
pub fn move_word_end(buffer: &mut TextBuf, extend: bool)
    requires
        old(buffer).wf(),
    ensures
        final(buffer).wf(),
        same_text(*old(buffer), *final(buffer)),
        match spec_word_key(*old(buffer), WordMotionTarget::NextWordEnd, extend, false) {
            None => final(buffer).anchor == old(buffer).anchor && final(buffer).head == old(
                buffer,
            ).head,
            Some((a, h)) => final(buffer).anchor == a && final(buffer).head == h,
        },
{
    word_key(buffer, WordMotionTarget::NextWordEnd, extend, false)
}

// ---------------------------------------------------------------------------
// Character and line motions
// ---------------------------------------------------------------------------

/// Walking `k` cursor positions from `p` (forwards when `fwd`): the final
/// position; the walk stops at the first step that fails, which leaves
/// the position that step reached.
pub open spec fn spec_hwalk(b: TextBuf, p: int, k: int, fwd: bool) -> int
    decreases k,
{
    if k <= 0 {
        p
    } else {
        let step = if fwd { b.spec_fwd_cursor(p) } else { b.spec_bwd_cursor(p) };
        if step.1 {
            spec_hwalk(b, step.0, k - 1, fwd)
        } else {
            step.0
        }
    }
}

/// Whether the first step of such a walk succeeds.
pub open spec fn spec_hmoved(b: TextBuf, p: int, k: int, fwd: bool) -> bool {
    k > 0 && (if fwd { b.spec_fwd_cursor(p).1 } else { b.spec_bwd_cursor(p).1 })
}

/// The selection `(anchor, head)` after moving `dir` cursor positions
/// (left when negative): when the first step succeeds the cursor moves
/// (extending when asked); otherwise a non-extending move still collapses
/// the selection at where the walk stopped.
pub open spec fn spec_move_horizontally(b: TextBuf, dir: int, extend: bool) -> (int, int) {
    let k = if dir < 0 { -dir } else { dir };
    let fwd = dir >= 0;
    let p = spec_hwalk(b, b.head as int, k, fwd);
    if spec_hmoved(b, b.head as int, k, fwd) {
        b.spec_set_cursor(p, extend)
    } else if !extend {
        (p, p)
    } else {
        (b.anchor as int, b.head as int)
    }
}

pub proof fn lemma_hwalk(b: TextBuf, p: int, k: int, fwd: bool)
    requires
        b.wf(),
        0 <= p <= b.n(),
    ensures
        0 <= spec_hwalk(b, p, k, fwd) <= b.n(),
    decreases k,
{
    if k > 0 {
        if fwd {
            if p < b.n() {
                lemma_next_stop_bounds(b.stops@, p);
            }
        } else {
            if p > 0 {
                lemma_prev_stop_bounds(b.stops@, p);
            }
        }
        let step = if fwd { b.spec_fwd_cursor(p) } else { b.spec_bwd_cursor(p) };
        if step.1 {
            lemma_hwalk(b, step.0, k - 1, fwd);
        }
    }
}

/// `h`/`l`: moves the cursor `dir` positions (left when negative).
pub fn move_horizontally(buffer: &mut TextBuf, dir: i32, extend: bool)
    requires
        old(buffer).wf(),
        dir != i32::MIN,
    ensures
        final(buffer).wf(),
        same_text(*old(buffer), *final(buffer)),
        (final(buffer).anchor as int, final(buffer).head as int) == spec_move_horizontally(
            *old(buffer),
            dir as int,
            extend,
        ),
{
    let ghost b0 = *buffer;
    let steps: i32 = if dir < 0 { -dir } else { dir };
    let fwd = dir >= 0;
    let mut iter = buffer.head;
    let mut moved = false;
    let mut i: i32 = 0;
    while i < steps
        invariant_except_break
            i == 0 ==> iter == b0.head,
        invariant
            buffer.wf(),
            b0 == *buffer,
            0 <= i <= steps,
            iter <= buffer.n(),
            steps as int == (if dir < 0 { -(dir as int) } else { dir as int }),
            fwd == (dir >= 0),
            moved == (i > 0),
            i > 0 ==> spec_hmoved(b0, b0.head as int, steps as int, fwd),
            spec_hwalk(b0, b0.head as int, steps as int, fwd) == spec_hwalk(
                b0,
                iter as int,
                (steps - i) as int,
                fwd,
            ),
        ensures
            moved == spec_hmoved(b0, b0.head as int, steps as int, fwd),
            spec_hwalk(b0, b0.head as int, steps as int, fwd) == iter,
            iter <= buffer.n(),
        decreases steps - i,
    {
        let step = if fwd { buffer.fwd_cursor(iter) } else { buffer.bwd_cursor(iter) };
        iter = step.0;
        if step.1 {
            moved = true;
        } else {
            break;
        }
        i = i + 1;
    }
    if moved {
        buffer.set_cursor(iter, extend);
    } else if !extend {
        buffer.set_cursor(iter, false);
    }
}

/// Walking forward from `p` by cursor positions at most `k` times towards
/// the line end `end`: stops at `end`, at the buffer end, or after `k`
/// steps; a step that jumps past `end` lands on `end`.
pub open spec fn spec_vwalk(b: TextBuf, p: int, end: int, k: int) -> int
    decreases k,
{
    if k <= 0 || p >= end {
        p
    } else {
        let step = b.spec_fwd_cursor(p);
        if !step.1 {
            step.0
        } else if step.0 > end {
            end
        } else {
            spec_vwalk(b, step.0, end, k - 1)
        }
    }
}

/// The line `dir` lines away from `line`, clamped to the buffer.
pub open spec fn target_line(line: int, dir: int, count: int) -> int {
    if dir < 0 {
        if line < -dir { 0 } else { line + dir }
    } else {
        if line + dir >= count { if count - 1 >= 0 { count - 1 } else { 0 } } else { line + dir }
    }
}

/// The cursor position after moving `dir` lines (up when negative): on the
/// target line, as far right as the column of the head, but not past
/// that line's end.
pub open spec fn spec_move_vertically(b: TextBuf, dir: int) -> int {
    let t = b.t();
    let line = line_of(t, b.head as int) as int;
    let col = b.head - line_start(t, b.head as int);
    let tl = target_line(line, dir, line_count(t) as int);
    let start = start_of_line(t, tl);
    spec_vwalk(b, start, line_end(t, start), col)
}

pub proof fn lemma_vwalk(b: TextBuf, p: int, end: int, k: int)
    requires
        b.wf(),
        0 <= p <= b.n(),
        end <= b.n(),
    ensures
        0 <= spec_vwalk(b, p, end, k) <= b.n(),
    decreases k,
{
    if k > 0 && p < end {
        lemma_next_stop_bounds(b.stops@, p);
        let step = b.spec_fwd_cursor(p);
        if step.1 && step.0 <= end {
            lemma_vwalk(b, step.0, end, k - 1);
        }
    }
}

/// `j`/`k`: moves the cursor `dir` lines (up when negative).
pub fn move_vertically(buffer: &mut TextBuf, dir: i32, extend: bool)
    requires
        old(buffer).wf(),
        dir != i32::MIN,
    ensures
        final(buffer).wf(),
        same_text(*old(buffer), *final(buffer)),
        (final(buffer).anchor as int, final(buffer).head as int) == old(buffer).spec_set_cursor(
            spec_move_vertically(*old(buffer), dir as int),
            extend,
        ),
{
    let ghost b0 = *buffer;
    let ghost t = buffer.t();
    let head = buffer.head;
    let line = buffer.line_at(head);
    let ls = buffer.line_start_at(head);
    let col = head - ls;
    let lc = buffer.line_count();
    proof {
        lemma_line_of_monotonic(t, head as int, t.len() as int);
        lemma_line_of_monotonic(t, 0, t.len() as int);
    }
    let tl: usize = if dir < 0 {
        let steps = (-dir) as usize;
        if line < steps { 0 } else { line - steps }
    } else {
        let steps = dir as usize;
        if steps >= lc - line { lc - 1 } else { line + steps }
    };
    assert(tl as int == target_line(line as int, dir as int, lc as int));
    let start = buffer.line_start_of(tl);
    let end = buffer.line_end_at(start);
    let mut target = start;
    let mut i: usize = 0;
    while i < col
        invariant
            buffer.wf(),
            b0 == *buffer,
            i <= col,
            target <= buffer.n(),
            end <= buffer.n(),
            spec_vwalk(b0, start as int, end as int, col as int) == spec_vwalk(
                b0,
                target as int,
                end as int,
                (col - i) as int,
            ),
        ensures
            spec_vwalk(b0, start as int, end as int, col as int) == target,
            target <= buffer.n(),
        decreases col - i,
    {
        if target >= end {
            break;
        }
        let step = buffer.fwd_cursor(target);
        target = step.0;
        if !step.1 {
            break;
        }
        if target > end {
            target = end;
            break;
        }
        i = i + 1;
    }
    buffer.set_cursor(target, extend);
}

/// The first position at or after `p` that holds whitespace or a line
/// ending, or the end.
pub open spec fn skip_non_ws(t: Seq<char>, p: int) -> int
    decreases t.len() - p,
{
    if p >= t.len() || spec_is_whitespace(t[p]) || t[p] == '\n' || t[p] == '\r' {
        p
    } else {
        skip_non_ws(t, p + 1)
    }
}

/// The first position at or after `p` that holds no whitespace, or the end.
pub open spec fn skip_ws(t: Seq<char>, p: int) -> int
    decreases t.len() - p,
{
    if p >= t.len() || !spec_is_whitespace(t[p]) {
        p
    } else {
        skip_ws(t, p + 1)
    }
}

pub proof fn lemma_skips(t: Seq<char>, p: int)
    requires
        0 <= p <= t.len(),
    ensures
        p <= skip_non_ws(t, p) <= t.len(),
        p <= skip_ws(t, p) <= t.len(),
    decreases t.len() - p,
{
    if p < t.len() {
        lemma_skips(t, p + 1);
    }
}

/// `W`: moves to the start of the next long word (past the current run of
/// non-whitespace, then past whitespace).
pub fn move_long_word_forward(buffer: &mut TextBuf, extend: bool)
    requires
        old(buffer).wf(),
    ensures
        final(buffer).wf(),
        same_text(*old(buffer), *final(buffer)),
        old(buffer).head == old(buffer).n() ==> final(buffer).anchor == old(buffer).anchor
            && final(buffer).head == old(buffer).head,
        old(buffer).head < old(buffer).n() ==> {
            let t = old(buffer).t();
            let p = skip_ws(t, skip_non_ws(t, old(buffer).head as int));
            (final(buffer).anchor as int, final(buffer).head as int) == old(buffer).spec_set_cursor(
                p,
                extend,
            )
        },
{
    let ghost t = buffer.t();
    let n = buffer.text.len();
    let mut iter = buffer.head;
    if iter == n {
        return ;
    }
    proof {
        lemma_skips(t, iter as int);
    }
    while iter < n && !is_whitespace(buffer.text[iter]) && buffer.text[iter] != '\n'
        && buffer.text[iter] != '\r'
        invariant
            t == buffer.t(),
            n == t.len(),
            iter <= n,
            skip_non_ws(t, iter as int) == skip_non_ws(t, old(buffer).head as int),
        decreases n - iter,
    {
        iter = iter + 1;
    }
    let mid = iter;
    proof {
        lemma_skips(t, mid as int);
    }
    while iter < n && is_whitespace(buffer.text[iter])
        invariant
            t == buffer.t(),
            n == t.len(),
            iter <= n,
            skip_ws(t, iter as int) == skip_ws(t, mid as int),
        decreases n - iter,
    {
        iter = iter + 1;
    }
    buffer.set_cursor(iter, extend);
}

/// The end of the line selection covering `[s, e)`: one past the `\n` that
/// ends the last covered line, or the buffer end.
pub open spec fn line_sel_end(t: Seq<char>, s: int, e: int) -> int {
    let epos = if s == e { s } else { e - 1 };
    let le = line_end(t, epos);
    if le < t.len() { le + 1 } else { t.len() as int }
}

/// The selection `x` leaves, or `None` when it leaves the buffer as it is:
/// the covered lines in full, keeping the direction; when they are already
/// selected in full, the next line is added (head at its end).
pub open spec fn spec_select_line(b: TextBuf) -> Option<(int, int)> {
    let t = b.t();
    let (a, h) = (b.anchor as int, b.head as int);
    let s = if a <= h { a } else { h };
    let e = if a <= h { h } else { a };
    let start = line_start(t, s);
    let end = line_sel_end(t, s, e);
    if s == start && e == end {
        if end >= t.len() && line_end(t, if s == e { s } else { e - 1 }) >= t.len() {
            None
        } else {
            Some((start, line_sel_end(t, end, end)))
        }
    } else if a > h {
        Some((end, start))
    } else {
        Some((start, end))
    }
}

/// `x`: selects the lines the selection covers, or extends a full-line
/// selection by the next line.
pub fn select_line(buffer: &mut TextBuf, extend: bool)
    requires
        old(buffer).wf(),
    ensures
        final(buffer).wf(),
        same_text(*old(buffer), *final(buffer)),
        match spec_select_line(*old(buffer)) {
            None => final(buffer).anchor == old(buffer).anchor && final(buffer).head == old(
                buffer,
            ).head,
            Some((a, h)) => final(buffer).anchor == a && final(buffer).head == h,
        },
{
    let ghost t = buffer.t();
    let n = buffer.text.len();
    let a = buffer.anchor;
    let h = buffer.head;
    let s = if a <= h { a } else { h };
    let e = if a <= h { h } else { a };
    let start = buffer.line_start_at(s);
    let epos = if s == e { s } else { e - 1 };
    let le = buffer.line_end_at(epos);
    let end = if le < n { le + 1 } else { n };
    if s == start && e == end {
        if le >= n {
            return ;
        }
        let le2 = buffer.line_end_at(end);
        let new_end = if le2 < n { le2 + 1 } else { n };
        buffer.select_range(new_end, start);
    } else if a > h {
        buffer.select_range(start, end);
    } else {
        buffer.select_range(end, start);
    }
}

// ---------------------------------------------------------------------------
// Goto motions
// ---------------------------------------------------------------------------

/// `gg`: moves to the start of the buffer.
pub fn goto_file_start(buffer: &mut TextBuf, extend: bool)
    requires
        old(buffer).wf(),
    ensures
        final(buffer).wf(),
        same_text(*old(buffer), *final(buffer)),
        (final(buffer).anchor as int, final(buffer).head as int) == old(buffer).spec_set_cursor(
            0,
            extend,
        ),
{
    buffer.set_cursor(0, extend);
}

/// `<n>gg`: moves to the start of line `line`, or of the last line when
/// there are fewer lines.
pub fn goto_line(buffer: &mut TextBuf, line: usize, extend: bool)
    requires
        old(buffer).wf(),
    ensures
        final(buffer).wf(),
        same_text(*old(buffer), *final(buffer)),
        ({
            let lc = line_count(old(buffer).t()) as int;
            let tl = if line < lc { line as int } else { lc - 1 };
            (final(buffer).anchor as int, final(buffer).head as int) == old(buffer).spec_set_cursor(
                start_of_line(old(buffer).t(), tl),
                extend,
            )
        }),
{
    let lc = buffer.line_count();
    let tl = if line < lc { line } else { lc - 1 };
    let p = buffer.line_start_of(tl);
    buffer.set_cursor(p, extend);
}

/// The last line that is not the empty line after a final `\n`.
pub open spec fn last_text_line(t: Seq<char>) -> int {
    let lc = line_count(t) as int;
    if lc > 1 {
        if start_of_line(t, lc - 1) == t.len() { lc - 2 } else { lc - 1 }
    } else {
        0
    }
}

/// `ge`: moves to the start of the last line that holds text.
pub fn goto_file_end(buffer: &mut TextBuf, extend: bool)
    requires
        old(buffer).wf(),
    ensures
        final(buffer).wf(),
        same_text(*old(buffer), *final(buffer)),
        (final(buffer).anchor as int, final(buffer).head as int) == old(buffer).spec_set_cursor(
            start_of_line(old(buffer).t(), last_text_line(old(buffer).t())),
            extend,
        ),
{
    let lc = buffer.line_count();
    let tl = if lc > 1 {
        let last = buffer.line_start_of(lc - 1);
        if last == buffer.text.len() {
            lc - 2
        } else {
            lc - 1
        }
    } else {
        0
    };
    let p = buffer.line_start_of(tl);
    buffer.set_cursor(p, extend);
}

/// `gh`: moves to the start of the current line.
pub fn goto_line_start(buffer: &mut TextBuf, extend: bool)
    requires
        old(buffer).wf(),
    ensures
        final(buffer).wf(),
        same_text(*old(buffer), *final(buffer)),
        (final(buffer).anchor as int, final(buffer).head as int) == old(buffer).spec_set_cursor(
            line_start(old(buffer).t(), old(buffer).head as int),
            extend,
        ),
{
    let p = buffer.line_start_at(buffer.head);
    buffer.set_cursor(p, extend);
}

/// The last cursor position of the line holding `p`: one cursor position
/// before its end, or its start when it is empty.
pub open spec fn spec_line_last(b: TextBuf, p: int) -> int {
    let ls = line_start(b.t(), p);
    let le = line_end(b.t(), ls);
    if le > ls { b.spec_bwd_cursor(le).0 } else { le }
}

/// `gl`: moves to the last character of the current line.
pub fn goto_line_end(buffer: &mut TextBuf, extend: bool)
    requires
        old(buffer).wf(),
    ensures
        final(buffer).wf(),
        same_text(*old(buffer), *final(buffer)),
        (final(buffer).anchor as int, final(buffer).head as int) == old(buffer).spec_set_cursor(
            spec_line_last(*old(buffer), old(buffer).head as int),
            extend,
        ),
{
    let ls = buffer.line_start_at(buffer.head);
    let mut it = buffer.line_end_at(ls);
    if it > ls {
        it = buffer.bwd_cursor(it).0;
    }
    buffer.set_cursor(it, extend);
}

/// The first position in `[p, line end)` that holds no whitespace, or
/// `None` when there is none.
pub open spec fn first_non_ws(t: Seq<char>, p: int) -> Option<int>
    decreases t.len() - p,
{
    if p >= t.len() || t[p] == '\n' {
        None
    } else if !spec_is_whitespace(t[p]) {
        Some(p)
    } else {
        first_non_ws(t, p + 1)
    }
}

/// The first non-whitespace position of the line holding `p`, or the
/// line's start when the line is blank.
pub open spec fn spec_first_nonwhitespace(t: Seq<char>, p: int) -> int {
    let ls = line_start(t, p);
    match first_non_ws(t, ls) {
        Some(q) => q,
        None => ls,
    }
}

pub proof fn lemma_first_non_ws(t: Seq<char>, p: int)
    requires
        0 <= p <= t.len(),
    ensures
        first_non_ws(t, p) matches Some(q) ==> p <= q < t.len(),
    decreases t.len() - p,
{
    if p < t.len() && t[p] != '\n' && spec_is_whitespace(t[p]) {
        lemma_first_non_ws(t, p + 1);
    }
}

fn find_first_nonwhitespace(buffer: &TextBuf, p: usize) -> (r: usize)
    requires
        buffer.wf(),
        p <= buffer.n(),
    ensures
        r == spec_first_nonwhitespace(buffer.t(), p as int),
        r <= buffer.n(),
{
    let ghost t = buffer.t();
    let ls = buffer.line_start_at(p);
    proof {
        lemma_first_non_ws(t, ls as int);
    }
    let n = buffer.text.len();
    let mut target = ls;
    while !buffer.ends_line(target)
        invariant
            t == buffer.t(),
            n == t.len(),
            ls <= target <= n,
            ls == line_start(t, p as int),
            first_non_ws(t, target as int) == first_non_ws(t, ls as int),
        decreases n - target,
    {
        if !is_whitespace(buffer.text[target]) {
            assert(first_non_ws(t, target as int) == Some(target as int));
            return target;
        }
        target = target + 1;
    }
    ls
}

/// `gs`: moves to the first non-whitespace character of the line.
pub fn goto_first_nonwhitespace(buffer: &mut TextBuf, extend: bool)
    requires
        old(buffer).wf(),
    ensures
        final(buffer).wf(),
        same_text(*old(buffer), *final(buffer)),
        (final(buffer).anchor as int, final(buffer).head as int) == old(buffer).spec_set_cursor(
            spec_first_nonwhitespace(old(buffer).t(), old(buffer).head as int),
            extend,
        ),
{
    let p = find_first_nonwhitespace(buffer, buffer.head);
    buffer.set_cursor(p, extend);
}

/// `I`: places the cursor on the first non-whitespace character of the line.
pub fn insert_at_line_start(buffer: &mut TextBuf)
    requires
        old(buffer).wf(),
    ensures
        final(buffer).wf(),
        same_text(*old(buffer), *final(buffer)),
        final(buffer).anchor == final(buffer).head,
        final(buffer).head == spec_first_nonwhitespace(old(buffer).t(), old(buffer).head as int),
{
    let p = find_first_nonwhitespace(buffer, buffer.head);
    buffer.place_cursor(p);
}

/// `A`: places the cursor at the end of the line.
pub fn insert_at_line_end(buffer: &mut TextBuf)
    requires
        old(buffer).wf(),
    ensures
        final(buffer).wf(),
        same_text(*old(buffer), *final(buffer)),
        final(buffer).anchor == final(buffer).head,
        final(buffer).head == line_end(old(buffer).t(), old(buffer).head as int),
{
    let p = buffer.line_end_at(buffer.head);
    buffer.place_cursor(p);
}

/// `%`: selects the whole buffer, head at the end.
pub fn select_all(buffer: &mut TextBuf)
    requires
        old(buffer).wf(),
    ensures
        final(buffer).wf(),
        same_text(*old(buffer), *final(buffer)),
        final(buffer).anchor == 0,
        final(buffer).head == old(buffer).n(),
{
    let n = buffer.text.len();
    buffer.select_range(n, 0);
}

/// `;`: collapses the selection onto the head.
pub fn collapse_selection(buffer: &mut TextBuf)
    requires
        old(buffer).wf(),
    ensures
        final(buffer).wf(),
        same_text(*old(buffer), *final(buffer)),
        final(buffer).anchor == old(buffer).head,
        final(buffer).head == old(buffer).head,
{
    let h = buffer.head;
    buffer.place_cursor(h);
}

/// `A-;`: exchanges anchor and head.
pub fn flip_selection(buffer: &mut TextBuf)
    requires
        old(buffer).wf(),
    ensures
        final(buffer).wf(),
        same_text(*old(buffer), *final(buffer)),
        final(buffer).anchor == old(buffer).head,
        final(buffer).head == old(buffer).anchor,
{
    let h = buffer.head;
    let a = buffer.anchor;
    buffer.select_range(a, h);
}

// ---------------------------------------------------------------------------
// Edits
// ---------------------------------------------------------------------------

/// Whether a text of `k` characters fits the buffer.
pub open spec fn fits(k: int) -> bool {
    k < usize::MAX
}

/// The range an edit at the cursor acts on: the selection, or the cursor
/// position after the head when that step lands before the buffer end.
pub open spec fn spec_target_range(b: TextBuf) -> Option<(int, int)> {
    if b.anchor != b.head {
        let s = if b.anchor < b.head { b.anchor as int } else { b.head as int };
        let e = if b.anchor < b.head { b.head as int } else { b.anchor as int };
        Some((s, e))
    } else {
        let step = b.spec_fwd_cursor(b.head as int);
        if step.1 { Some((b.head as int, step.0)) } else { None }
    }
}

fn target_range(buffer: &TextBuf) -> (r: Option<(usize, usize)>)
    requires
        buffer.wf(),
    ensures
        r matches Some(x) ==> spec_target_range(*buffer) == Some((x.0 as int, x.1 as int)) && x.0
            < x.1 <= buffer.n(),
        r is None ==> spec_target_range(*buffer) is None,
{
    match buffer.selection_bounds() {
        Some(b) => Some(b),
        None => {
            let step = buffer.fwd_cursor(buffer.head);
            if step.1 {
                Some((buffer.head, step.0))
            } else {
                None
            }
        },
    }
}

/// `d`: deletes the selection, or the character under a point cursor (but
/// not the last one, whose cursor step reaches the buffer end). The
/// cursor rests where the deleted text began.
pub fn delete_selection(buffer: &mut TextBuf)
    requires
        old(buffer).wf(),
    ensures
        match spec_target_range(*old(buffer)) {
            Some((s, e)) => TextBuf::is_edit(
                *old(buffer),
                *final(buffer),
                splice(old(buffer).t(), s, e, Seq::empty()),
                s,
                s,
            ),
            None => *final(buffer) == *old(buffer),
        },
{
    match target_range(buffer) {
        Some((s, e)) => {
            let empty: Vec<char> = Vec::new();
            let t = splice_chars(&buffer.text, s, e, &empty);
            buffer.apply_edit(t, s, s);
        },
        None => {},
    }
}

/// The text `y` copies: the selection, or the character under a point
/// cursor (nothing at the last character, as for `d`).
pub open spec fn spec_yank(b: TextBuf) -> Seq<char> {
    match spec_target_range(b) {
        Some((s, e)) => b.t().subrange(s, e),
        None => Seq::empty(),
    }
}

/// `y`: the selected text, or the character under a point cursor.
pub fn yank_selection(buffer: &TextBuf) -> (r: String)
    requires
        buffer.wf(),
    ensures
        r@ == spec_yank(*buffer),
{
    match target_range(buffer) {
        Some((s, e)) => {
            let v = buffer.slice(s, e);
            string_from_chars(&v)
        },
        None => {
            let v: Vec<char> = Vec::new();
            string_from_chars(&v)
        },
    }
}

/// Text that ends with a line break is pasted line-wise.
pub open spec fn spec_is_linewise(text: Seq<char>) -> bool {
    text.len() > 0 && text.last() == '\n'
}

/// Whether `text` is line-wise: it ends with `\n` (or `\r\n`).
pub fn is_linewise(text: &str) -> (r: bool)
    ensures
        r == spec_is_linewise(text@),
{
    let n = text.unicode_len();
    n > 0 && text.get_char(n - 1) == '\n'
}

/// The result of pasting `ins` after the cursor: the new text and the
/// cursor position (the start of the pasted text), or `None` when nothing
/// is pasted. Line-wise text goes to the start of the next line (a line
/// break is added first at a last line that has text); otherwise it
/// replaces the selection, or goes after the character under a point cursor.
pub open spec fn spec_paste_after(b: TextBuf, ins: Seq<char>) -> Option<(Seq<char>, int)> {
    let t = b.t();
    let n = t.len() as int;
    let h = b.head as int;
    let r = if ins.len() == 0 {
        None
    } else if spec_is_linewise(ins) {
        let le = line_end(t, h);
        if le < n {
            Some((splice(t, le + 1, le + 1, ins), le + 1))
        } else if is_line_start(t, n) {
            Some((t + ins, n))
        } else {
            Some((t + seq!['\n'] + ins, n + 1))
        }
    } else if b.anchor != b.head {
        let s = if b.anchor < b.head { b.anchor as int } else { h };
        let e = if b.anchor < b.head { h } else { b.anchor as int };
        Some((splice(t, s, e, ins), s))
    } else {
        let p = if !(h == n || t[h] == '\n') { b.spec_fwd_cursor(h).0 } else { h };
        Some((splice(t, p, p, ins), p))
    };
    match r {
        Some((text, c)) => if fits(text.len() as int) { r } else { None },
        None => None,
    }
}

/// The result of pasting `ins` before the cursor: line-wise text goes to
/// the start of the current line; otherwise it replaces the selection or
/// goes at the head.
pub open spec fn spec_paste_before(b: TextBuf, ins: Seq<char>) -> Option<(Seq<char>, int)> {
    let t = b.t();
    let h = b.head as int;
    let r = if ins.len() == 0 {
        None
    } else if spec_is_linewise(ins) {
        let ls = line_start(t, h);
        Some((splice(t, ls, ls, ins), ls))
    } else if b.anchor != b.head {
        let s = if b.anchor < b.head { b.anchor as int } else { h };
        let e = if b.anchor < b.head { h } else { b.anchor as int };
        Some((splice(t, s, e, ins), s))
    } else {
        Some((splice(t, h, h, ins), h))
    };
    match r {
        Some((text, c)) => if fits(text.len() as int) { r } else { None },
        None => None,
    }
}

fn apply_insert(buffer: &mut TextBuf, s: usize, e: usize, ins: &Vec<char>, cursor: usize)
    requires
        old(buffer).wf(),
        s <= e <= old(buffer).n(),
        s <= cursor <= s + ins@.len(),
    ensures
        fits(splice(old(buffer).t(), s as int, e as int, ins@).len() as int) ==> TextBuf::is_edit(
            *old(buffer),
            *final(buffer),
            splice(old(buffer).t(), s as int, e as int, ins@),
            cursor as int,
            cursor as int,
        ),
        !fits(splice(old(buffer).t(), s as int, e as int, ins@).len() as int) ==> *final(buffer)
            == *old(buffer),
{
    let kept = buffer.text.len() - (e - s);
    if ins.len() >= usize::MAX - kept {
        return ;
    }
    let t = splice_chars(&buffer.text, s, e, ins);
    buffer.apply_edit(t, cursor, cursor);
}

/// `p`: pastes `text` after the cursor.
pub fn paste_after(buffer: &mut TextBuf, text: &str)
    requires
        old(buffer).wf(),
    ensures
        match spec_paste_after(*old(buffer), text@) {
            Some((t, c)) => TextBuf::is_edit(*old(buffer), *final(buffer), t, c, c),
            None => *final(buffer) == *old(buffer),
        },
{
    let ghost t0 = buffer.t();
    let ins = chars_of(text);
    if ins.len() == 0 {
        return ;
    }
    let n = buffer.text.len();
    let h = buffer.head;
    if is_linewise(text) {
        let le = buffer.line_end_at(h);
        if le < n {
            apply_insert(buffer, le + 1, le + 1, &ins, le + 1);
        } else if buffer.starts_line(n) {
            assert(splice(t0, n as int, n as int, ins@) =~= t0 + ins@);
            apply_insert(buffer, n, n, &ins, n);
        } else {
            let mut nl: Vec<char> = Vec::new();
            nl.push('\n');
            push_all(&mut nl, &ins);
            assert(splice(t0, n as int, n as int, nl@) =~= t0 + seq!['\n'] + ins@);
            apply_insert(buffer, n, n, &nl, n + 1);
        }
    } else if let Some((s, e)) = buffer.selection_bounds() {
        apply_insert(buffer, s, e, &ins, s);
    } else {
        let p = if !buffer.ends_line(h) { buffer.fwd_cursor(h).0 } else { h };
        apply_insert(buffer, p, p, &ins, p);
    }
}

/// `P`: pastes `text` before the cursor.
pub fn paste_before(buffer: &mut TextBuf, text: &str)
    requires
        old(buffer).wf(),
    ensures
        match spec_paste_before(*old(buffer), text@) {
            Some((t, c)) => TextBuf::is_edit(*old(buffer), *final(buffer), t, c, c),
            None => *final(buffer) == *old(buffer),
        },
{
    let ins = chars_of(text);
    if ins.len() == 0 {
        return ;
    }
    let h = buffer.head;
    if is_linewise(text) {
        let ls = buffer.line_start_at(h);
        apply_insert(buffer, ls, ls, &ins, ls);
    } else if let Some((s, e)) = buffer.selection_bounds() {
        apply_insert(buffer, s, e, &ins, s);
    } else {
        apply_insert(buffer, h, h, &ins, h);
    }
}

/// The indentation at `p`: the run of whitespace (other than line
/// endings) that starts there.
pub open spec fn indent_at(t: Seq<char>, p: int) -> Seq<char>
    decreases t.len() - p,
{
    if p < 0 || p >= t.len() || t[p] == '\n' || t[p] == '\r' || !spec_is_whitespace(t[p]) {
        Seq::empty()
    } else {
        seq![t[p]] + indent_at(t, p + 1)
    }
}

/// `k` copies of `s` one after another.
pub open spec fn repeat(s: Seq<char>, k: int) -> Seq<char>
    decreases k,
{
    if k <= 0 {
        Seq::empty()
    } else {
        repeat(s, k - 1) + s
    }
}

fn indent_of(buffer: &TextBuf, p: usize) -> (r: Vec<char>)
    requires
        buffer.wf(),
        p <= buffer.n(),
    ensures
        r@ == indent_at(buffer.t(), p as int),
        r@.len() <= buffer.n() - p,
    decreases buffer.n() - p,
{
    let n = buffer.text.len();
    if p >= n || buffer.text[p] == '\n' || buffer.text[p] == '\r' || !is_whitespace(
        buffer.text[p],
    ) {
        Vec::new()
    } else {
        let rest = indent_of(buffer, p + 1);
        let mut r: Vec<char> = Vec::new();
        r.push(buffer.text[p]);
        push_all(&mut r, &rest);
        r
    }
}

fn repeat_chars(s: &Vec<char>, k: usize, limit: usize) -> (r: Option<Vec<char>>)
    ensures
        r matches Some(v) ==> v@ == repeat(s@, k as int) && v@.len() <= limit,
        r is None ==> repeat(s@, k as int).len() > limit,
{
    let mut v: Vec<char> = Vec::new();
    let mut i: usize = 0;
    while i < k
        invariant
            i <= k,
            v@ == repeat(s@, i as int),
            v@.len() <= limit,
        decreases k - i,
    {
        if s.len() > limit - v.len() {
            proof {
                lemma_repeat_len_grows(s@, i as int + 1, k as int);
            }
            return None;
        }
        push_all(&mut v, s);
        i = i + 1;
    }
    Some(v)
}

pub proof fn lemma_repeat_len_grows(s: Seq<char>, i: int, k: int)
    requires
        0 <= i <= k,
    ensures
        repeat(s, i).len() <= repeat(s, k).len(),
    decreases k - i,
{
    if i < k {
        lemma_repeat_len_grows(s, i, k - 1);
    }
}

/// The result of `o` with `count` (at least one new line): new lines
/// indented like the current one are opened below it, and the cursor goes
/// to the end of the indentation of the last one; `None` when the text
/// would not fit.
pub open spec fn spec_open_below(b: TextBuf, count: int) -> Option<(Seq<char>, int)> {
    let t = b.t();
    let n = t.len() as int;
    let ind = indent_at(t, line_start(t, b.head as int));
    let k = if count < 1 { 1 } else { count };
    let line = ind + seq!['\n'];
    let le = line_end(t, b.head as int);
    let r = if le < n {
        let ins = repeat(line, k);
        Some((splice(t, le + 1, le + 1, ins), le + 1 + ins.len() - 1))
    } else {
        let pre = if is_line_start(t, n) { Seq::<char>::empty() } else { seq!['\n'] };
        let ins = pre + repeat(line, k - 1) + ind;
        Some((t + ins, n + ins.len()))
    };
    match r {
        Some((text, c)) => if fits(text.len() as int) { r } else { None },
        None => None,
    }
}

/// `o`: opens `count` indented lines below the current one.
pub fn open_below(buffer: &mut TextBuf, count: usize)
    requires
        old(buffer).wf(),
    ensures
        match spec_open_below(*old(buffer), count as int) {
            Some((t, c)) => TextBuf::is_edit(*old(buffer), *final(buffer), t, c, c),
            None => *final(buffer) == *old(buffer),
        },
{
    let ghost t0 = buffer.t();
    let n = buffer.text.len();
    let h = buffer.head;
    let ls = buffer.line_start_at(h);
    let ind = indent_of(buffer, ls);
    let k = if count < 1 { 1 } else { count };
    let mut line = ind.clone();
    assert(line@ =~= ind@);
    line.push('\n');
    assert(line@ =~= ind@ + seq!['\n']);
    let le = buffer.line_end_at(h);
    let limit = usize::MAX - 1 - n;
    if le < n {
        match repeat_chars(&line, k, limit) {
            None => {
                proof {
                    lemma_splice_len(t0, le as int + 1, le as int + 1, repeat(line@, k as int));
                }
            },
            Some(ins) => {
                proof {
                    lemma_repeat_nonempty(line@, k as int);
                }
                let c = le + ins.len();
                apply_insert(buffer, le + 1, le + 1, &ins, c);
            },
        }
    } else {
        let mut ins: Vec<char> = Vec::new();
        if !buffer.starts_line(n) {
            ins.push('\n');
        }
        let ghost pre = ins@;
        match repeat_chars(&line, k - 1, limit) {
            None => {
                proof {
                    lemma_splice_len(t0, n as int, n as int, pre + repeat(line@, k - 1) + ind@);
                }
            },
            Some(mid) => {
                push_all(&mut ins, &mid);
                push_all(&mut ins, &ind);
                assert(splice(t0, n as int, n as int, ins@) =~= t0 + ins@);
                assert(ins@ =~= pre + repeat(line@, k - 1) + ind@);
                if ins.len() >= usize::MAX - n {
                    return ;
                }
                let c = n + ins.len();
                apply_insert(buffer, n, n, &ins, c);
            },
        }
    }
}

pub proof fn lemma_splice_len(t: Seq<char>, s: int, e: int, ins: Seq<char>)
    requires
        0 <= s <= e <= t.len(),
    ensures
        splice(t, s, e, ins).len() == t.len() - (e - s) + ins.len(),
{
}

pub proof fn lemma_repeat_nonempty(s: Seq<char>, k: int)
    requires
        k >= 1,
    ensures
        repeat(s, k).len() >= s.len(),
    decreases k,
{
    if k > 1 {
        lemma_repeat_nonempty(s, k - 1);
    }
}

/// The line number in a prefix of a text is the one in the text.
proof fn lemma_line_of_prefix(a: Seq<char>, b: Seq<char>, i: int)
    requires
        0 <= i <= a.len(),
    ensures
        line_of(a + b, i) == line_of(a, i),
    decreases i,
{
    if i > 0 {
        lemma_line_of_prefix(a, b, i - 1);
        assert((a + b)[i - 1] == a[i - 1]);
    }
}

/// The line number in the second part of a text is the number of lines
/// the first part ends on plus the number within the second part.
proof fn lemma_line_of_concat(a: Seq<char>, b: Seq<char>, j: int)
    requires
        0 <= j <= b.len(),
    ensures
        line_of(a + b, a.len() + j) == line_of(a, a.len() as int) + line_of(b, j),
    decreases j,
{
    if j == 0 {
        lemma_line_of_prefix(a, b, a.len() as int);
    } else {
        lemma_line_of_concat(a, b, j - 1);
        assert((a + b)[a.len() + j - 1] == b[j - 1]);
    }
}

/// A text without a line break stays on its first line.
proof fn lemma_line_of_single(s: Seq<char>, j: int)
    requires
        0 <= j <= s.len(),
        forall|i: int| 0 <= i < s.len() ==> #[trigger] s[i] != '\n',
    ensures
        line_of(s, j) == 0,
    decreases j,
{
    if j > 0 {
        lemma_line_of_single(s, j - 1);
    }
}

/// An indentation holds no line break.
proof fn lemma_indent_single_line(t: Seq<char>, p: int)
    ensures
        forall|i: int| 0 <= i < indent_at(t, p).len() ==> #[trigger] indent_at(t, p)[i] != '\n',
    decreases t.len() - p,
{
    if !(p < 0 || p >= t.len() || t[p] == '\n' || t[p] == '\r' || !spec_is_whitespace(t[p])) {
        lemma_indent_single_line(t, p + 1);
        let r = indent_at(t, p + 1);
        assert forall|i: int| 0 <= i < indent_at(t, p).len() implies #[trigger] indent_at(t, p)[i] != '\n' by {
            if i > 0 {
                assert(indent_at(t, p)[i] == r[i - 1]);
            }
        }
    }
}

/// `k` lines, each a line break after a text without one, end on line `k`,
/// and their last character (for `k` at least one) is on line `k - 1`.
proof fn lemma_line_of_repeat(ind: Seq<char>, k: int)
    requires
        0 <= k,
        forall|i: int| 0 <= i < ind.len() ==> #[trigger] ind[i] != '\n',
    ensures
        line_of(repeat(ind + seq!['\n'], k), repeat(ind + seq!['\n'], k).len() as int) == k,
        k >= 1 ==> line_of(repeat(ind + seq!['\n'], k), repeat(ind + seq!['\n'], k).len() - 1) == k - 1,
        repeat(ind + seq!['\n'], k).len() == k * (ind.len() + 1),
    decreases k,
{
    let line = ind + seq!['\n'];
    if k > 0 {
        lemma_line_of_repeat(ind, k - 1);
        let r = repeat(line, k - 1);
        lemma_line_of_single(ind, ind.len() as int);
        lemma_line_of_prefix(ind, seq!['\n'], ind.len() as int);
        assert(line[ind.len() as int] == '\n');
        assert(line_of(line, line.len() as int) == 1);
        lemma_line_of_concat(r, line, line.len() as int);
        lemma_line_of_concat(r, line, line.len() - 1);
        assert(k * (ind.len() + 1) == (k - 1) * (ind.len() + 1) + ind.len() + 1) by (nonlinear_arith);
    }
}

/// `o` opens new lines: with count `k` (at least one), the text gains `k`
/// line breaks and the cursor goes `k` lines down; only at the end of a
/// text whose last line is empty, where the cursor's own line serves as
/// the first new one, it gains `k - 1` and goes `k - 1` lines down.
pub proof fn lemma_open_below_lines(b: TextBuf, count: int)
    requires
        b.wf(),
    ensures
        spec_open_below(b, count) matches Some((t2, c)) ==> {
            let t = b.t();
            let k = if count < 1 { 1 } else { count };
            let opened = if b.head == t.len() && is_line_start(t, t.len() as int) { k - 1 } else { k };
            &&& 0 <= c <= t2.len()
            &&& line_count(t2) == line_count(t) + opened
            &&& line_of(t2, c) == line_of(t, b.head as int) + opened
        },
{
    let t = b.t();
    let n = t.len() as int;
    let h = b.head as int;
    let ind = indent_at(t, line_start(t, h));
    let k = if count < 1 { 1 } else { count };
    let line = ind + seq!['\n'];
    let le = line_end(t, h);
    lemma_line_end_bounds(t, h);
    lemma_indent_single_line(t, line_start(t, h));
    if let Some((t2, c)) = spec_open_below(b, count) {
        if le < n {
            let ins = repeat(line, k);
            lemma_line_of_repeat(ind, k);
            let a = t.subrange(0, le + 1);
            let bb = t.subrange(le + 1, n);
            assert(t =~= a + bb);
            assert(t2 =~= (a + ins) + bb);
            assert(line_of(t, le + 1) == line_of(t, le) + 1);
            lemma_line_of_prefix(a, bb, le + 1);
            lemma_line_of_concat(a, bb, bb.len() as int);
            lemma_line_of_concat(a, ins, ins.len() - 1);
            lemma_line_of_concat(a, ins, ins.len() as int);
            lemma_line_of_prefix(a + ins, bb, c);
            lemma_line_of_concat(a + ins, bb, bb.len() as int);
            assert(!(b.head == t.len() && is_line_start(t, t.len() as int)));
        } else {
            let pre = if is_line_start(t, n) { Seq::<char>::empty() } else { seq!['\n'] };
            let mid = repeat(line, k - 1);
            let ins = pre + mid + ind;
            lemma_line_of_repeat(ind, k - 1);
            lemma_line_of_single(ind, ind.len() as int);
            if is_line_start(t, n) {
                assert(line_of(pre, 0) == 0);
                if h < n {
                    assert(n > 0);
                    assert(t[n - 1] != '\n');
                }
            } else {
                assert(pre[0] == '\n');
                assert(line_of(pre, 0) == 0);
                assert(line_of(pre, 1) == 1);
            }
            lemma_line_of_concat(pre, mid, mid.len() as int);
            lemma_line_of_concat(pre + mid, ind, ind.len() as int);
            lemma_line_of_concat(t, ins, ins.len() as int);
            assert(t2 =~= t + ins);
        }
    }
}

/// The result of `O` with `count`: indented lines opened above the current
/// one, the cursor at the end of the indentation of the last of them.
pub open spec fn spec_open_above(b: TextBuf, count: int) -> Option<(Seq<char>, int)> {
    let t = b.t();
    let ls = line_start(t, b.head as int);
    let ind = indent_at(t, ls);
    let k = if count < 1 { 1 } else { count };
    let ins = repeat(ind + seq!['\n'], k);
    let text = splice(t, ls, ls, ins);
    if fits(text.len() as int) { Some((text, ls + ins.len() - 1)) } else { None }
}

/// `O`: opens `count` indented lines above the current one.
pub fn open_above(buffer: &mut TextBuf, count: usize)
    requires
        old(buffer).wf(),
    ensures
        match spec_open_above(*old(buffer), count as int) {
            Some((t, c)) => TextBuf::is_edit(*old(buffer), *final(buffer), t, c, c),
            None => *final(buffer) == *old(buffer),
        },
{
    let ghost t0 = buffer.t();
    let n = buffer.text.len();
    let h = buffer.head;
    let ls = buffer.line_start_at(h);
    let ind = indent_of(buffer, ls);
    let k = if count < 1 { 1 } else { count };
    let mut line = ind.clone();
    assert(line@ =~= ind@);
    line.push('\n');
    assert(line@ =~= ind@ + seq!['\n']);
    let limit = usize::MAX - 1 - n;
    match repeat_chars(&line, k, limit) {
        None => {
            proof {
                lemma_splice_len(t0, ls as int, ls as int, repeat(line@, k as int));
            }
        },
        Some(ins) => {
            proof {
                lemma_repeat_nonempty(line@, k as int);
                lemma_splice_len(t0, ls as int, ls as int, ins@);
            }
            let c = ls + ins.len() - 1;
            apply_insert(buffer, ls, ls, &ins, c);
        },
    }
}

/// The range a one-character edit at a point cursor acts on: the cursor
/// position after the head, unless the head ends its line.
pub open spec fn spec_point_edit_end(b: TextBuf) -> int {
    let t = b.t();
    let h = b.head as int;
    if !(h == t.len() || t[h] == '\n') { b.spec_fwd_cursor(h).0 } else { h }
}

/// The result of `r` with `ch`: each grapheme cluster of the selection
/// becomes a copy of `ch`; a point cursor's character becomes `ch`; the
/// cursor goes to the start of the replaced text.
pub open spec fn spec_replace_char(b: TextBuf, ch: Seq<char>) -> Option<(Seq<char>, int)> {
    let t = b.t();
    let r = if b.anchor != b.head {
        let s = if b.anchor < b.head { b.anchor as int } else { b.head as int };
        let e = if b.anchor < b.head { b.head as int } else { b.anchor as int };
        let k = spec_graphemes(t.subrange(s, e)).len();
        Some((splice(t, s, e, repeat(ch, k as int)), s))
    } else {
        let h = b.head as int;
        let e = spec_point_edit_end(b);
        if h < e { Some((splice(t, h, e, ch), h)) } else { None }
    };
    match r {
        Some((text, c)) => if fits(text.len() as int) { r } else { None },
        None => None,
    }
}

fn point_edit_end(buffer: &TextBuf) -> (r: usize)
    requires
        buffer.wf(),
    ensures
        r == spec_point_edit_end(*buffer),
        buffer.head <= r <= buffer.n(),
{
    let h = buffer.head;
    if !buffer.ends_line(h) {
        buffer.fwd_cursor(h).0
    } else {
        h
    }
}

/// `r`: replaces the selected grapheme clusters (or the character under a
/// point cursor) by `ch`.
pub fn replace_char(buffer: &mut TextBuf, ch: &str)
    requires
        old(buffer).wf(),
    ensures
        match spec_replace_char(*old(buffer), ch@) {
            Some((t, c)) => TextBuf::is_edit(*old(buffer), *final(buffer), t, c, c),
            None => *final(buffer) == *old(buffer),
        },
{
    let ghost t0 = buffer.t();
    let n = buffer.text.len();
    let chv = chars_of(ch);
    if let Some((s, e)) = buffer.selection_bounds() {
        let sel = buffer.slice(s, e);
        let sel_s = string_from_chars(&sel);
        let gs = graphemes(sel_s.as_str());
        let limit = usize::MAX - 1 - (n - (e - s));
        match repeat_chars(&chv, gs.len(), limit) {
            None => {
                proof {
                    lemma_splice_len(t0, s as int, e as int, repeat(chv@, gs.len() as int));
                }
            },
            Some(ins) => {
                apply_insert(buffer, s, e, &ins, s);
            },
        }
    } else {
        let h = buffer.head;
        let e = point_edit_end(buffer);
        if h < e {
            apply_insert(buffer, h, e, &chv, h);
        }
    }
}

/// What `~` makes of one character: lowercase letters become their
/// uppercase mapping, uppercase letters their lowercase mapping, anything
/// else stays.
pub open spec fn toggle_char(c: char) -> Seq<char> {
    if unicode_is_lowercase(c) {
        unicode_to_uppercase(c)
    } else if unicode_is_uppercase(c) {
        unicode_to_lowercase(c)
    } else {
        seq![c]
    }
}

/// `~` applied to every character of `s`.
pub open spec fn toggle_seq(s: Seq<char>) -> Seq<char>
    decreases s.len(),
{
    if s.len() == 0 {
        Seq::empty()
    } else {
        toggle_seq(s.drop_last()) + toggle_char(s.last())
    }
}

fn toggle_chars(s: &Vec<char>, limit: usize) -> (r: Option<Vec<char>>)
    ensures
        r matches Some(v) ==> v@ == toggle_seq(s@),
        r is None ==> toggle_seq(s@).len() > limit,
{
    let mut v: Vec<char> = Vec::new();
    let mut i: usize = 0;
    while i < s.len()
        invariant
            i <= s@.len(),
            v@ == toggle_seq(s@.subrange(0, i as int)),
            v@.len() <= limit,
        decreases s@.len() - i,
    {
        let c = s[i];
        let m = if is_lowercase(c) {
            to_uppercase(c)
        } else if is_uppercase(c) {
            to_lowercase(c)
        } else {
            let mut one: Vec<char> = Vec::new();
            one.push(c);
            assert(one@ =~= seq![c]);
            one
        };
        assert(s@.subrange(0, i as int + 1).drop_last() =~= s@.subrange(0, i as int));
        if m.len() > limit - v.len() {
            proof {
                lemma_toggle_prefix_len(s@, i as int + 1);
            }
            return None;
        }
        push_all(&mut v, &m);
        i = i + 1;
    }
    assert(s@.subrange(0, s@.len() as int) =~= s@);
    Some(v)
}

pub proof fn lemma_toggle_prefix_len(s: Seq<char>, i: int)
    requires
        0 <= i <= s.len(),
    ensures
        toggle_seq(s.subrange(0, i)).len() <= toggle_seq(s).len(),
    decreases s.len() - i,
{
    if i < s.len() {
        lemma_toggle_prefix_len(s, i + 1);
        assert(s.subrange(0, i + 1).drop_last() =~= s.subrange(0, i));
    } else {
        assert(s.subrange(0, i) =~= s);
    }
}

/// The result of `~`: the selection (or the character under a point
/// cursor) with its case toggled, the cursor at its start.
pub open spec fn spec_toggle_case(b: TextBuf) -> Option<(Seq<char>, int)> {
    let t = b.t();
    let r = if b.anchor != b.head {
        let s = if b.anchor < b.head { b.anchor as int } else { b.head as int };
        let e = if b.anchor < b.head { b.head as int } else { b.anchor as int };
        Some((splice(t, s, e, toggle_seq(t.subrange(s, e))), s))
    } else {
        let h = b.head as int;
        let e = spec_point_edit_end(b);
        if h < e { Some((splice(t, h, e, toggle_seq(t.subrange(h, e))), h)) } else { None }
    };
    match r {
        Some((text, c)) => if fits(text.len() as int) { r } else { None },
        None => None,
    }
}

/// `~`: toggles the case of the selection or of the character under a
/// point cursor.
pub fn toggle_case(buffer: &mut TextBuf)
    requires
        old(buffer).wf(),
    ensures
        match spec_toggle_case(*old(buffer)) {
            Some((t, c)) => TextBuf::is_edit(*old(buffer), *final(buffer), t, c, c),
            None => *final(buffer) == *old(buffer),
        },
{
    let ghost t0 = buffer.t();
    let n = buffer.text.len();
    let (s, e) = match buffer.selection_bounds() {
        Some(b) => b,
        None => (buffer.head, point_edit_end(buffer)),
    };
    if s < e {
        let sel = buffer.slice(s, e);
        let limit = usize::MAX - 1 - (n - (e - s));
        match toggle_chars(&sel, limit) {
            None => {
                proof {
                    lemma_splice_len(t0, s as int, e as int, toggle_seq(sel@));
                }
            },
            Some(ins) => {
                apply_insert(buffer, s, e, &ins, s);
            },
        }
    }
}

/// `u`: undoes the latest edit, if any.
pub fn undo(buffer: &mut TextBuf)
    requires
        old(buffer).wf(),
    ensures
        old(buffer).undo_stack@.len() == 0 ==> *final(buffer) == *old(buffer),
        old(buffer).undo_stack@.len() > 0 ==> {
            &&& final(buffer).wf()
            &&& final(buffer).text@ == old(buffer).undo_stack@.last().text@
            &&& final(buffer).anchor == old(buffer).undo_stack@.last().anchor
            &&& final(buffer).head == old(buffer).undo_stack@.last().head
            &&& final(buffer).undo_stack@ == old(buffer).undo_stack@.drop_last()
            &&& final(buffer).redo_stack@.last().text@ == old(buffer).text@
            &&& final(buffer).redo_stack@.last().anchor == old(buffer).anchor
            &&& final(buffer).redo_stack@.last().head == old(buffer).head
            &&& final(buffer).redo_stack@.drop_last() == old(buffer).redo_stack@
            &&& final(buffer).redo_stack@.len() == old(buffer).redo_stack@.len() + 1
        },
{
    if buffer.can_undo() {
        buffer.undo();
    }
}

/// `U`: redoes the latest undone edit, if any.
pub fn redo(buffer: &mut TextBuf)
    requires
        old(buffer).wf(),
    ensures
        old(buffer).redo_stack@.len() == 0 ==> *final(buffer) == *old(buffer),
        old(buffer).redo_stack@.len() > 0 ==> {
            &&& final(buffer).wf()
            &&& final(buffer).text@ == old(buffer).redo_stack@.last().text@
            &&& final(buffer).anchor == old(buffer).redo_stack@.last().anchor
            &&& final(buffer).head == old(buffer).redo_stack@.last().head
            &&& final(buffer).redo_stack@ == old(buffer).redo_stack@.drop_last()
            &&& final(buffer).undo_stack@.last().text@ == old(buffer).text@
            &&& final(buffer).undo_stack@.last().anchor == old(buffer).anchor
            &&& final(buffer).undo_stack@.last().head == old(buffer).head
            &&& final(buffer).undo_stack@.drop_last() == old(buffer).undo_stack@
            &&& final(buffer).undo_stack@.len() == old(buffer).undo_stack@.len() + 1
        },
{
    if buffer.can_redo() {
        buffer.redo();
    }
}

} // verus!
