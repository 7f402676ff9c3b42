//! Bracket and quote pairs, and matching them in a [`TextBuf`].

use vstd::prelude::*;
use crate::text::buffer::TextBuf;

verus! {

/// The bracket pairs, in order: `()`, `{}`, `[]`, `<>`, `‘’`, `“”`, `«»`,
/// `「」` and `（）`.
pub open spec fn spec_bracket(i: int) -> (char, char) {
    if i == 0 {
        ('(', ')')
    } else if i == 1 {
        ('{', '}')
    } else if i == 2 {
        ('[', ']')
    } else if i == 3 {
        ('<', '>')
    } else if i == 4 {
        ('‘', '’')
    } else if i == 5 {
        ('“', '”')
    } else if i == 6 {
        ('«', '»')
    } else if i == 7 {
        ('「', '」')
    } else {
        ('（', '）')
    }
}

/// The surround pairs: the brackets followed by `""`, `''`, ``` `` ``` and `||`.
pub open spec fn spec_pair(i: int) -> (char, char) {
    if i < 9 {
        spec_bracket(i)
    } else if i == 9 {
        ('"', '"')
    } else if i == 10 {
        ('\'', '\'')
    } else if i == 11 {
        ('`', '`')
    } else {
        ('|', '|')
    }
}

/// The bracket pair at index `i` (`i < 9`).
pub fn bracket(i: usize) -> (r: (char, char))
    requires
        i < 9,
    ensures
        r == spec_bracket(i as int),
{
    if i == 0 {
        ('(', ')')
    } else if i == 1 {
        ('{', '}')
    } else if i == 2 {
        ('[', ']')
    } else if i == 3 {
        ('<', '>')
    } else if i == 4 {
        ('‘', '’')
    } else if i == 5 {
        ('“', '”')
    } else if i == 6 {
        ('«', '»')
    } else if i == 7 {
        ('「', '」')
    } else {
        ('（', '）')
    }
}

/// The surround pair at index `i` (`i < 13`).
pub fn pair(i: usize) -> (r: (char, char))
    requires
        i < 13,
    ensures
        r == spec_pair(i as int),
{
    if i < 9 {
        bracket(i)
    } else if i == 9 {
        ('"', '"')
    } else if i == 10 {
        ('\'', '\'')
    } else if i == 11 {
        ('`', '`')
    } else {
        ('|', '|')
    }
}

/// The first surround pair from index `i` on that has `ch` as either side.
pub open spec fn find_pair_from(ch: char, i: int) -> Option<(char, char)>
    decreases 13 - i,
{
    if i >= 13 {
        None
    } else if spec_pair(i).0 == ch || spec_pair(i).1 == ch {
        Some(spec_pair(i))
    } else {
        find_pair_from(ch, i + 1)
    }
}

/// The pair that `ch` belongs to, or `(ch, ch)` when it belongs to none.
pub open spec fn spec_get_pair(ch: char) -> (char, char) {
    match find_pair_from(ch, 0) {
        Some(p) => p,
        None => (ch, ch),
    }
}

/// The pair `ch` belongs to, or `(ch, ch)`.
pub fn get_pair(ch: char) -> (r: (char, char))
    ensures
        r == spec_get_pair(ch),
{
    let mut i: usize = 0;
    while i < 13
        invariant
            i <= 13,
            find_pair_from(ch, i as int) == find_pair_from(ch, 0),
        decreases 13 - i,
    {
        let p = pair(i);
        if p.0 == ch || p.1 == ch {
            return p;
        }
        i = i + 1;
    }
    (ch, ch)
}

pub proof fn lemma_get_pair_nul()
    ensures
        spec_get_pair('\0') == ('\0', '\0'),
{
    assert(find_pair_from('\0', 13) is None);
    assert(find_pair_from('\0', 12) is None);
    assert(find_pair_from('\0', 11) is None);
    assert(find_pair_from('\0', 10) is None);
    assert(find_pair_from('\0', 9) is None);
    assert(find_pair_from('\0', 8) is None);
    assert(find_pair_from('\0', 7) is None);
    assert(find_pair_from('\0', 6) is None);
    assert(find_pair_from('\0', 5) is None);
    assert(find_pair_from('\0', 4) is None);
    assert(find_pair_from('\0', 3) is None);
    assert(find_pair_from('\0', 2) is None);
    assert(find_pair_from('\0', 1) is None);
    assert(find_pair_from('\0', 0) is None);
}

/// Whether some bracket pair has `ch` as its opening side.
pub open spec fn spec_is_open_bracket(ch: char) -> bool {
    exists|i: int| 0 <= i < 9 && #[trigger] spec_bracket(i).0 == ch
}

/// Whether some bracket pair has `ch` as its closing side.
pub open spec fn spec_is_close_bracket(ch: char) -> bool {
    exists|i: int| 0 <= i < 9 && #[trigger] spec_bracket(i).1 == ch
}

/// Whether some surround pair has `ch` as its opening side.
pub open spec fn spec_is_open_pair(ch: char) -> bool {
    exists|i: int| 0 <= i < 13 && #[trigger] spec_pair(i).0 == ch
}

/// Whether some surround pair has `ch` as its closing side.
pub open spec fn spec_is_close_pair(ch: char) -> bool {
    exists|i: int| 0 <= i < 13 && #[trigger] spec_pair(i).1 == ch
}

fn any_bracket(ch: char, side: u8) -> (r: bool)
    ensures
        side == 0 ==> r == spec_is_open_bracket(ch),
        side == 1 ==> r == spec_is_close_bracket(ch),
        side >= 2 ==> r == (spec_is_open_bracket(ch) || spec_is_close_bracket(ch)),
{
    let mut i: usize = 0;
    while i < 9
        invariant
            i <= 9,
            side == 0 ==> forall|j: int| 0 <= j < i ==> spec_bracket(j).0 != ch,
            side == 1 ==> forall|j: int| 0 <= j < i ==> spec_bracket(j).1 != ch,
            side >= 2 ==> forall|j: int|
                0 <= j < i ==> spec_bracket(j).0 != ch && spec_bracket(j).1 != ch,
        decreases 9 - i,
    {
        let (l, r) = bracket(i);
        if (side != 1 && l == ch) || (side != 0 && r == ch) {
            return true;
        }
        i = i + 1;
    }
    false
}

fn any_pair(ch: char, side: u8) -> (r: bool)
    ensures
        side == 0 ==> r == spec_is_open_pair(ch),
        side == 1 ==> r == spec_is_close_pair(ch),
        side >= 2 ==> r == (spec_is_open_pair(ch) || spec_is_close_pair(ch)),
{
    let mut i: usize = 0;
    while i < 13
        invariant
            i <= 13,
            side == 0 ==> forall|j: int| 0 <= j < i ==> spec_pair(j).0 != ch,
            side == 1 ==> forall|j: int| 0 <= j < i ==> spec_pair(j).1 != ch,
            side >= 2 ==> forall|j: int| 0 <= j < i ==> spec_pair(j).0 != ch && spec_pair(j).1 != ch,
        decreases 13 - i,
    {
        let (l, r) = pair(i);
        if (side != 1 && l == ch) || (side != 0 && r == ch) {
            return true;
        }
        i = i + 1;
    }
    false
}

/// Whether `ch` opens a bracket pair.
pub fn is_open_bracket(ch: char) -> (r: bool)
    ensures
        r == spec_is_open_bracket(ch),
{
    any_bracket(ch, 0)
}

/// Whether `ch` closes a bracket pair.
pub fn is_close_bracket(ch: char) -> (r: bool)
    ensures
        r == spec_is_close_bracket(ch),
{
    any_bracket(ch, 1)
}

/// Whether `ch` is either side of a bracket pair.
pub fn is_valid_bracket(ch: char) -> (r: bool)
    ensures
        r == (spec_is_open_bracket(ch) || spec_is_close_bracket(ch)),
{
    any_bracket(ch, 2)
}

/// Whether `ch` opens a surround pair.
pub fn is_open_pair(ch: char) -> (r: bool)
    ensures
        r == spec_is_open_pair(ch),
{
    any_pair(ch, 0)
}

/// Whether `ch` closes a surround pair.
pub fn is_close_pair(ch: char) -> (r: bool)
    ensures
        r == spec_is_close_pair(ch),
{
    any_pair(ch, 1)
}

/// Whether `ch` is either side of a surround pair.
pub fn is_valid_pair(ch: char) -> (r: bool)
    ensures
        r == (spec_is_open_pair(ch) || spec_is_close_pair(ch)),
{
    any_pair(ch, 2)
}

// ---------------------------------------------------------------------------
// Matching in a buffer
// ---------------------------------------------------------------------------

/// Whether position `p` lies in a comment or a string.
pub open spec fn in_cs(b: TextBuf, p: int) -> bool {
    0 <= p < b.n() && b.syntax@[p]
}

/// Whether the character at `iter` lies in a comment or a string.
pub fn is_in_comment_or_string(buffer: &TextBuf, iter: usize) -> (r: bool)
    requires
        buffer.wf(),
    ensures
        r == in_cs(*buffer, iter as int),
{
    iter < buffer.text.len() && buffer.syntax[iter]
}

/// Scanning forward from `q` at nesting `depth` for the closing side:
/// positions in comments or strings are skipped; `open` nests one level
/// deeper and `close` one level out; the close that leaves the outermost
/// level is the match.
pub open spec fn scan_close(b: TextBuf, open: char, close: char, q: int, depth: int) -> Option<int>
    decreases b.n() - q,
{
    if q >= b.n() || q < 0 {
        None
    } else if in_cs(b, q) {
        scan_close(b, open, close, q + 1, depth)
    } else if b.t()[q] == open {
        scan_close(b, open, close, q + 1, depth + 1)
    } else if b.t()[q] == close {
        if depth == 1 { Some(q) } else { scan_close(b, open, close, q + 1, depth - 1) }
    } else {
        scan_close(b, open, close, q + 1, depth)
    }
}

/// Scanning backward from `q` (the position before the last one read) for
/// the opening side, mirroring [`scan_close`].
pub open spec fn scan_open(b: TextBuf, open: char, close: char, q: int, depth: int) -> Option<int>
    decreases q + 1,
{
    if q < 0 || q >= b.n() {
        None
    } else if in_cs(b, q) {
        scan_open(b, open, close, q - 1, depth)
    } else if b.t()[q] == close {
        scan_open(b, open, close, q - 1, depth + 1)
    } else if b.t()[q] == open {
        if depth == 1 { Some(q) } else { scan_open(b, open, close, q - 1, depth - 1) }
    } else {
        scan_open(b, open, close, q - 1, depth)
    }
}

/// The match of the opening bracket at `p`: `None` unless the character at
/// `p` belongs to a pair with distinct sides.
pub open spec fn spec_matching_close(b: TextBuf, p: int) -> Option<int> {
    let open = b.spec_char_at(p);
    let close = spec_get_pair(open).1;
    if open == close { None } else { scan_close(b, open, close, p + 1, 1) }
}

/// The match of the closing bracket at `p`.
pub open spec fn spec_matching_open(b: TextBuf, p: int) -> Option<int> {
    let close = b.spec_char_at(p);
    let open = spec_get_pair(close).0;
    if open == close { None } else { scan_open(b, open, close, p - 1, 1) }
}

pub proof fn lemma_scan_close(b: TextBuf, open: char, close: char, q: int, depth: int)
    requires
        q >= 0,
    ensures
        scan_close(b, open, close, q, depth) matches Some(r) ==> q <= r < b.n(),
    decreases b.n() - q,
{
    if q < b.n() {
        lemma_scan_close(b, open, close, q + 1, depth);
        lemma_scan_close(b, open, close, q + 1, depth + 1);
        lemma_scan_close(b, open, close, q + 1, depth - 1);
    }
}

pub proof fn lemma_scan_open(b: TextBuf, open: char, close: char, q: int, depth: int)
    requires
        q < b.n(),
    ensures
        scan_open(b, open, close, q, depth) matches Some(r) ==> 0 <= r <= q,
    decreases q + 1,
{
    if q >= 0 {
        lemma_scan_open(b, open, close, q - 1, depth);
        lemma_scan_open(b, open, close, q - 1, depth + 1);
        lemma_scan_open(b, open, close, q - 1, depth - 1);
    }
}

/// How the character at `q` changes the nesting of `open` and `close`:
/// one deeper for `open`, one out for `close`, nothing in a comment or a
/// string or for any other character.
pub open spec fn nest_step(b: TextBuf, open: char, close: char, q: int) -> int {
    if q < 0 || q >= b.n() || in_cs(b, q) {
        0
    } else if b.t()[q] == open {
        1
    } else if b.t()[q] == close {
        -1
    } else {
        0
    }
}

/// The nesting that the characters from `lo` to `hi` (exclusive) add up to:
/// the `open`s minus the `close`s among them, outside comments and strings.
pub open spec fn nesting(b: TextBuf, open: char, close: char, lo: int, hi: int) -> int
    decreases hi - lo,
{
    if hi <= lo {
        0
    } else {
        nest_step(b, open, close, lo) + nesting(b, open, close, lo + 1, hi)
    }
}

/// Adding one character at the right end of a span adds its step.
proof fn lemma_nesting_right(b: TextBuf, open: char, close: char, lo: int, hi: int)
    requires
        lo <= hi,
    ensures
        nesting(b, open, close, lo, hi + 1) == nesting(b, open, close, lo, hi) + nest_step(b, open, close, hi),
    decreases hi - lo,
{
    if lo < hi {
        lemma_nesting_right(b, open, close, lo + 1, hi);
    } else {
        assert(nesting(b, open, close, lo + 1, hi + 1) == 0);
    }
}

/// Whether the bracket at `q` closes the one at `p`: `p` holds the opening
/// side of a pair, `q` after it holds the closing side outside comments and
/// strings, and the text strictly between them is balanced: as many opens
/// as closes of that pair, and no prefix with more closes than opens.
pub open spec fn closes_balanced(b: TextBuf, p: int, q: int) -> bool {
    let open = b.spec_char_at(p);
    let close = spec_get_pair(open).1;
    &&& open != close
    &&& p < q < b.n()
    &&& !in_cs(b, q)
    &&& b.t()[q] == close
    &&& nesting(b, open, close, p + 1, q) == 0
    &&& forall|m: int| p + 1 <= m <= q ==> #[trigger] nesting(b, open, close, p + 1, m) >= 0
}

/// Whether the bracket at `q` opens the one at `p`: `p` holds the closing
/// side of a pair, `q` before it holds the opening side outside comments
/// and strings, and the text strictly between them is balanced: as many
/// opens as closes of that pair, and no suffix with more opens than closes.
pub open spec fn opens_balanced(b: TextBuf, p: int, q: int) -> bool {
    let close = b.spec_char_at(p);
    let open = spec_get_pair(close).0;
    &&& open != close
    &&& 0 <= q < p
    &&& !in_cs(b, q)
    &&& b.t()[q] == open
    &&& nesting(b, open, close, q + 1, p) == 0
    &&& forall|m: int| q + 1 <= m <= p ==> #[trigger] nesting(b, open, close, m, p) <= 0
}

/// The forward scan from `q0` at depth `d` stops at `q` exactly when `q`
/// holds an unnested `close` that brings the depth from `d` back to zero,
/// the depth staying above zero on the way.
proof fn lemma_scan_close_balanced(b: TextBuf, open: char, close: char, q0: int, d: int, q: int)
    requires
        open != close,
        0 <= q0,
        1 <= d,
    ensures
        scan_close(b, open, close, q0, d) == Some(q) <==> (q0 <= q < b.n() && !in_cs(b, q) && b.t()[q] == close
            && d + nesting(b, open, close, q0, q) == 1 && forall|m: int|
            q0 <= m <= q ==> d + #[trigger] nesting(b, open, close, q0, m) >= 1),
    decreases b.n() - q0,
{
    if q0 < b.n() {
        let st = nest_step(b, open, close, q0);
        assert(nesting(b, open, close, q0, q0) == 0);
        if !in_cs(b, q0) && b.t()[q0] == close && d == 1 {
            if q > q0 {
                assert(nesting(b, open, close, q0 + 1, q0 + 1) == 0);
                assert(nesting(b, open, close, q0, q0 + 1) == -1);
            }
        } else {
            let d2 = d + st;
            lemma_scan_close_balanced(b, open, close, q0 + 1, d2, q);
            assert forall|m: int| q0 + 1 <= m implies #[trigger] nesting(b, open, close, q0, m) == st + nesting(
                b,
                open,
                close,
                q0 + 1,
                m,
            ) by {}
            if q > q0 {
                assert((forall|m: int| q0 <= m <= q ==> d + #[trigger] nesting(b, open, close, q0, m) >= 1) <==> (
                forall|m: int| q0 + 1 <= m <= q ==> d2 + #[trigger] nesting(b, open, close, q0 + 1, m) >= 1)) by {
                    if forall|m: int| q0 + 1 <= m <= q ==> d2 + #[trigger] nesting(b, open, close, q0 + 1, m) >= 1 {
                        assert forall|m: int| q0 <= m <= q implies d + #[trigger] nesting(b, open, close, q0, m)
                            >= 1 by {
                            if m > q0 {
                                assert(d2 + nesting(b, open, close, q0 + 1, m) >= 1);
                            }
                        }
                    }
                    if forall|m: int| q0 <= m <= q ==> d + #[trigger] nesting(b, open, close, q0, m) >= 1 {
                        assert forall|m: int| q0 + 1 <= m <= q implies d2 + #[trigger] nesting(
                            b,
                            open,
                            close,
                            q0 + 1,
                            m,
                        ) >= 1 by {
                            assert(d + nesting(b, open, close, q0, m) >= 1);
                        }
                    }
                }
            }
        }
    }
}

/// The backward scan from `q0` at depth `d` stops at `q` exactly when `q`
/// holds an unnested `open` that brings the depth from `d` back to zero,
/// the depth staying above zero on the way.
proof fn lemma_scan_open_balanced(b: TextBuf, open: char, close: char, q0: int, d: int, q: int)
    requires
        open != close,
        q0 < b.n(),
        1 <= d,
    ensures
        scan_open(b, open, close, q0, d) == Some(q) <==> (0 <= q <= q0 && !in_cs(b, q) && b.t()[q] == open
            && d - nesting(b, open, close, q + 1, q0 + 1) == 1 && forall|m: int|
            q + 1 <= m <= q0 + 1 ==> d - #[trigger] nesting(b, open, close, m, q0 + 1) >= 1),
    decreases q0 + 1,
{
    if q0 >= 0 {
        let st = nest_step(b, open, close, q0);
        assert(nesting(b, open, close, q0 + 1, q0 + 1) == 0);
        if !in_cs(b, q0) && b.t()[q0] == open && d == 1 {
            if q < q0 {
                assert(nesting(b, open, close, q0 + 1, q0 + 1) == 0);
                assert(nesting(b, open, close, q0, q0 + 1) == 1);
            }
        } else {
            let d2 = d - st;
            lemma_scan_open_balanced(b, open, close, q0 - 1, d2, q);
            assert forall|m: int| m <= q0 implies #[trigger] nesting(b, open, close, m, q0 + 1) == nesting(
                b,
                open,
                close,
                m,
                q0,
            ) + st by {
                lemma_nesting_right(b, open, close, m, q0);
            }
            if q < q0 {
                assert((forall|m: int| q + 1 <= m <= q0 + 1 ==> d - #[trigger] nesting(b, open, close, m, q0 + 1)
                    >= 1) <==> (forall|m: int| q + 1 <= m <= q0 ==> d2 - #[trigger] nesting(b, open, close, m, q0)
                    >= 1)) by {
                    if forall|m: int| q + 1 <= m <= q0 ==> d2 - #[trigger] nesting(b, open, close, m, q0) >= 1 {
                        assert forall|m: int| q + 1 <= m <= q0 + 1 implies d - #[trigger] nesting(
                            b,
                            open,
                            close,
                            m,
                            q0 + 1,
                        ) >= 1 by {
                            if m <= q0 {
                                assert(d2 - nesting(b, open, close, m, q0) >= 1);
                            }
                        }
                    }
                    if forall|m: int| q + 1 <= m <= q0 + 1 ==> d - #[trigger] nesting(b, open, close, m, q0 + 1)
                        >= 1 {
                        assert forall|m: int| q + 1 <= m <= q0 implies d2 - #[trigger] nesting(b, open, close, m, q0)
                            >= 1 by {
                            assert(d - nesting(b, open, close, m, q0 + 1) >= 1);
                        }
                    }
                }
            }
        }
    }
}

/// `mm` on an opening bracket goes to the closing bracket whose span with
/// it is balanced, and stays when there is none.
pub proof fn lemma_matching_close_balanced(b: TextBuf, p: int, q: int)
    requires
        0 <= p,
    ensures
        spec_matching_close(b, p) == Some(q) <==> closes_balanced(b, p, q),
{
    let open = b.spec_char_at(p);
    let close = spec_get_pair(open).1;
    if open != close {
        lemma_scan_close_balanced(b, open, close, p + 1, 1, q);
    }
}

/// `mm` on a closing bracket goes to the opening bracket whose span with
/// it is balanced, and stays when there is none.
pub proof fn lemma_matching_open_balanced(b: TextBuf, p: int, q: int)
    requires
        0 <= p <= b.n(),
    ensures
        spec_matching_open(b, p) == Some(q) <==> opens_balanced(b, p, q),
{
    let close = b.spec_char_at(p);
    let open = spec_get_pair(close).0;
    if open != close {
        if p == b.n() {
            lemma_get_pair_nul();
        }
        lemma_scan_open_balanced(b, open, close, p - 1, 1, q);
    }
}

/// The position of the bracket that closes the one at `start`.
pub fn find_matching_close_bracket(buffer: &TextBuf, start: usize) -> (r: Option<usize>)
    requires
        buffer.wf(),
        start <= buffer.n(),
    ensures
        r matches Some(q) ==> spec_matching_close(*buffer, start as int) == Some(q as int) && start
            < q < buffer.n(),
        r is None ==> spec_matching_close(*buffer, start as int) is None,
        r matches Some(q) ==> closes_balanced(*buffer, start as int, q as int),
        r is None ==> forall|q: int| !#[trigger] closes_balanced(*buffer, start as int, q),
{
    proof {
        assert forall|q: int| #[trigger] closes_balanced(*buffer, start as int, q) <==> spec_matching_close(
            *buffer,
            start as int,
        ) == Some(q) by {
            lemma_matching_close_balanced(*buffer, start as int, q);
        }
    }
    let open = buffer.char_at(start);
    let (_, close) = get_pair(open);
    if open == close {
        return None;
    }
    let n = buffer.text.len();
    if start >= n {
        return None;
    }
    let mut q = start + 1;
    let mut depth: usize = 1;
    proof {
        lemma_scan_close(*buffer, open, close, q as int, depth as int);
    }
    while q < n
        invariant
            buffer.wf(),
            n == buffer.n(),
            start < q <= n,
            1 <= depth <= q - start,
            scan_close(*buffer, open, close, q as int, depth as int) == spec_matching_close(
                *buffer,
                start as int,
            ),
            forall|q: int| #[trigger] closes_balanced(*buffer, start as int, q) <==> spec_matching_close(
                *buffer,
                start as int,
            ) == Some(q),
        decreases n - q,
    {
        if !is_in_comment_or_string(buffer, q) {
            let c = buffer.text[q];
            if c == open {
                depth = depth + 1;
            } else if c == close {
                if depth == 1 {
                    proof {
                        lemma_matching_close_balanced(*buffer, start as int, q as int);
                    }
                    return Some(q);
                }
                depth = depth - 1;
            }
        }
        q = q + 1;
    }
    None
}

/// The position of the bracket that opens the one at `start`.
pub fn find_matching_open_bracket(buffer: &TextBuf, start: usize) -> (r: Option<usize>)
    requires
        buffer.wf(),
        start <= buffer.n(),
    ensures
        r matches Some(q) ==> spec_matching_open(*buffer, start as int) == Some(q as int) && q
            < start,
        r is None ==> spec_matching_open(*buffer, start as int) is None,
        r matches Some(q) ==> opens_balanced(*buffer, start as int, q as int),
        r is None ==> forall|q: int| !#[trigger] opens_balanced(*buffer, start as int, q),
{
    proof {
        assert forall|q: int| #[trigger] opens_balanced(*buffer, start as int, q) <==> spec_matching_open(
            *buffer,
            start as int,
        ) == Some(q) by {
            lemma_matching_open_balanced(*buffer, start as int, q);
        }
    }
    let close = buffer.char_at(start);
    let (open, _) = get_pair(close);
    if open == close {
        return None;
    }
    let n = buffer.text.len();
    if start == 0 {
        return None;
    }
    let mut q = start;
    let mut depth: usize = 1;
    while q > 0
        invariant
            buffer.wf(),
            n == buffer.n(),
            q <= start <= n,
            1 <= depth <= start - q + 1,
            start < n || q < start || (start == n && q == n),
            scan_open(*buffer, open, close, q - 1, depth as int) == spec_matching_open(
                *buffer,
                start as int,
            ),
            forall|j: int| #[trigger] opens_balanced(*buffer, start as int, j) <==> spec_matching_open(
                *buffer,
                start as int,
            ) == Some(j),
        decreases q,
    {
        let i = q - 1;
        if i < n && !is_in_comment_or_string(buffer, i) {
            let c = buffer.text[i];
            if c == close {
                depth = depth + 1;
            } else if c == open {
                if depth == 1 {
                    return Some(i);
                }
                depth = depth - 1;
            }
        }
        q = i;
    }
    None
}

/// Scanning forward along the line from `cur` for an unescaped `q`.
pub open spec fn quote_fwd(t: Seq<char>, q: char, cur: int) -> Option<int>
    decreases t.len() - cur,
{
    if cur < 0 || cur >= t.len() || t[cur] == '\n' {
        None
    } else {
        let i = cur + 1;
        if i >= t.len() {
            None
        } else if t[i] == q && t[i - 1] != '\\' {
            Some(i)
        } else {
            quote_fwd(t, q, i)
        }
    }
}

/// Scanning backward along the line from `cur` for an unescaped `q`.
pub open spec fn quote_bwd(t: Seq<char>, q: char, cur: int) -> Option<int>
    decreases cur,
{
    if cur <= 0 || cur > t.len() || t[cur - 1] == '\n' {
        None
    } else {
        let i = cur - 1;
        if t[i] == q && (i == 0 || t[i - 1] != '\\') {
            Some(i)
        } else {
            quote_bwd(t, q, i)
        }
    }
}

pub proof fn lemma_quote_fwd(t: Seq<char>, q: char, cur: int)
    ensures
        quote_fwd(t, q, cur) matches Some(r) ==> cur < r < t.len(),
    decreases t.len() - cur,
{
    if 0 <= cur < t.len() && t[cur] != '\n' && cur + 1 < t.len() {
        lemma_quote_fwd(t, q, cur + 1);
    }
}

pub proof fn lemma_quote_bwd(t: Seq<char>, q: char, cur: int)
    ensures
        quote_bwd(t, q, cur) matches Some(r) ==> 0 <= r < cur,
    decreases cur,
{
    if 0 < cur <= t.len() && t[cur - 1] != '\n' {
        lemma_quote_bwd(t, q, cur - 1);
    }
}

fn find_quote_fwd(buffer: &TextBuf, q: char, start: usize) -> (r: Option<usize>)
    requires
        buffer.wf(),
        start <= buffer.n(),
    ensures
        r matches Some(i) ==> quote_fwd(buffer.t(), q, start as int) == Some(i as int),
        r is None ==> quote_fwd(buffer.t(), q, start as int) is None,
{
    let n = buffer.text.len();
    let mut cur = start;
    proof {
        lemma_quote_fwd(buffer.t(), q, start as int);
    }
    while cur < n && buffer.text[cur] != '\n'
        invariant
            buffer.wf(),
            n == buffer.n(),
            start <= cur <= n,
            quote_fwd(buffer.t(), q, cur as int) == quote_fwd(buffer.t(), q, start as int),
        decreases n - cur,
    {
        let i = cur + 1;
        if i >= n {
            return None;
        }
        if buffer.text[i] == q && buffer.text[i - 1] != '\\' {
            return Some(i);
        }
        cur = i;
    }
    None
}

fn find_quote_bwd(buffer: &TextBuf, q: char, start: usize) -> (r: Option<usize>)
    requires
        buffer.wf(),
        start <= buffer.n(),
    ensures
        r matches Some(i) ==> quote_bwd(buffer.t(), q, start as int) == Some(i as int) && i < start,
        r is None ==> quote_bwd(buffer.t(), q, start as int) is None,
{
    let mut cur = start;
    proof {
        lemma_quote_bwd(buffer.t(), q, start as int);
    }
    while cur > 0 && buffer.text[cur - 1] != '\n'
        invariant
            buffer.wf(),
            cur <= start <= buffer.n(),
            quote_bwd(buffer.t(), q, cur as int) == quote_bwd(buffer.t(), q, start as int),
        decreases cur,
    {
        let i = cur - 1;
        if buffer.text[i] == q && (i == 0 || buffer.text[i - 1] != '\\') {
            return Some(i);
        }
        cur = i;
    }
    None
}

/// The quote that matches the one at `p` on the same line: the next
/// unescaped one after it, else the previous one before it.
pub open spec fn spec_matching_quote(b: TextBuf, p: int) -> Option<int> {
    let q = b.spec_char_at(p);
    match quote_fwd(b.t(), q, p) {
        Some(i) => Some(i),
        None => quote_bwd(b.t(), q, p),
    }
}

/// The position of the quote matching the one at `start`.
pub fn find_matching_quote(buffer: &TextBuf, start: usize) -> (r: Option<usize>)
    requires
        buffer.wf(),
        start <= buffer.n(),
    ensures
        r matches Some(i) ==> spec_matching_quote(*buffer, start as int) == Some(i as int) && i
            < buffer.n(),
        r is None ==> spec_matching_quote(*buffer, start as int) is None,
{
    let q = buffer.char_at(start);
    proof {
        lemma_quote_fwd(buffer.t(), q, start as int);
        lemma_quote_bwd(buffer.t(), q, start as int);
    }
    match find_quote_fwd(buffer, q, start) {
        Some(i) => Some(i),
        None => find_quote_bwd(buffer, q, start),
    }
}

/// Scanning forward from `q` at nesting `depth` for a `close` that is not
/// nested inside the scanned text and whose opening side lies at or
/// before `p`.
pub open spec fn scan_enclosing(b: TextBuf, p: int, open: char, close: char, q: int, depth: int) -> Option<(int, int)>
    decreases b.n() - q,
{
    if q >= b.n() || q < 0 {
        None
    } else if in_cs(b, q) {
        scan_enclosing(b, p, open, close, q + 1, depth)
    } else if b.t()[q] == open {
        scan_enclosing(b, p, open, close, q + 1, depth + 1)
    } else if b.t()[q] == close {
        if depth == 0 {
            match spec_matching_open(b, q) {
                Some(o) if o <= p => Some((o, q)),
                _ => scan_enclosing(b, p, open, close, q + 1, depth),
            }
        } else {
            scan_enclosing(b, p, open, close, q + 1, depth - 1)
        }
    } else {
        scan_enclosing(b, p, open, close, q + 1, depth)
    }
}

/// The `open`/`close` pair around `p`: a bracket at `p` itself (outside
/// comments and strings) pairs with its match; otherwise the first
/// unnested `close` after `p` whose match opens at or before `p`.
pub open spec fn spec_enclosing_bracket_pair(b: TextBuf, p: int, open: char, close: char) -> Option<(int, int)> {
    let c = b.spec_char_at(p);
    if c == open && !in_cs(b, p) {
        match spec_matching_close(b, p) {
            Some(m) => Some((p, m)),
            None => None,
        }
    } else if c == close && !in_cs(b, p) {
        match spec_matching_open(b, p) {
            Some(m) => Some((m, p)),
            None => None,
        }
    } else {
        scan_enclosing(b, p, open, close, p + 1, 0)
    }
}

pub proof fn lemma_scan_enclosing(b: TextBuf, p: int, open: char, close: char, q: int, depth: int)
    requires
        q >= 0,
    ensures
        scan_enclosing(b, p, open, close, q, depth) matches Some((o, c)) ==> o <= p && q <= c < b.n()
            && o < c,
    decreases b.n() - q,
{
    if q < b.n() {
        lemma_scan_enclosing(b, p, open, close, q + 1, depth);
        lemma_scan_enclosing(b, p, open, close, q + 1, depth + 1);
        lemma_scan_enclosing(b, p, open, close, q + 1, depth - 1);
        if !in_cs(b, q) && b.t()[q] == close && depth == 0 {
            let close2 = b.spec_char_at(q);
            let open2 = spec_get_pair(close2).0;
            lemma_scan_open(b, open2, close2, q - 1, 1);
        }
    }
}

/// What the scan for an enclosing `close` finds is a closing bracket whose
/// match opens at or before `p`.
proof fn lemma_scan_enclosing_matched(b: TextBuf, p: int, open: char, close: char, q: int, depth: int)
    ensures
        scan_enclosing(b, p, open, close, q, depth) matches Some((o, c)) ==> spec_matching_open(b, c) == Some(o)
            && o <= p,
    decreases b.n() - q,
{
    if 0 <= q < b.n() {
        lemma_scan_enclosing_matched(b, p, open, close, q + 1, depth);
        lemma_scan_enclosing_matched(b, p, open, close, q + 1, depth + 1);
        lemma_scan_enclosing_matched(b, p, open, close, q + 1, depth - 1);
    }
}

/// The `open`/`close` pair found around `p` holds `p` between its sides,
/// and the text between the sides is balanced: the closing side is the
/// match of the opening one, or the opening side the match of the closing one.
pub proof fn lemma_enclosing_bracket_pair_balanced(b: TextBuf, p: int, open: char, close: char)
    requires
        0 <= p <= b.n(),
    ensures
        spec_enclosing_bracket_pair(b, p, open, close) matches Some((x, y)) ==> x <= p <= y && (closes_balanced(
            b,
            x,
            y,
        ) || opens_balanced(b, y, x)),
{
    let c = b.spec_char_at(p);
    if c == open && !in_cs(b, p) {
        if let Some(m) = spec_matching_close(b, p) {
            lemma_matching_close_balanced(b, p, m);
        }
    } else if c == close && !in_cs(b, p) {
        if let Some(m) = spec_matching_open(b, p) {
            lemma_matching_open_balanced(b, p, m);
        }
    } else {
        lemma_scan_enclosing(b, p, open, close, p + 1, 0);
        lemma_scan_enclosing_matched(b, p, open, close, p + 1, 0);
        if let Some((o, q)) = scan_enclosing(b, p, open, close, p + 1, 0) {
            lemma_matching_open_balanced(b, q, o);
        }
    }
}

/// The bracket pair `open`/`close` that encloses `pos`.
pub fn find_enclosing_bracket_pair(buffer: &TextBuf, pos: usize, open: char, close: char) -> (r:
    Option<(usize, usize)>)
    requires
        buffer.wf(),
        pos <= buffer.n(),
    ensures
        r matches Some(x) ==> spec_enclosing_bracket_pair(*buffer, pos as int, open, close) == Some(
            (x.0 as int, x.1 as int),
        ) && x.0 < x.1 < buffer.n(),
        r is None ==> spec_enclosing_bracket_pair(*buffer, pos as int, open, close) is None,
{
    let c = buffer.char_at(pos);
    let cs = is_in_comment_or_string(buffer, pos);
    if c == open && !cs {
        return match find_matching_close_bracket(buffer, pos) {
            Some(m) => Some((pos, m)),
            None => None,
        };
    }
    if c == close && !cs {
        return match find_matching_open_bracket(buffer, pos) {
            Some(m) => {
                assert(pos < buffer.n()) by {
                    if pos == buffer.n() {
                        lemma_get_pair_nul();
                    }
                }
                Some((m, pos))
            },
            None => None,
        };
    }
    let n = buffer.text.len();
    if pos >= n {
        return None;
    }
    let mut q = pos + 1;
    let mut depth: usize = 0;
    proof {
        lemma_scan_enclosing(*buffer, pos as int, open, close, q as int, depth as int);
    }
    while q < n
        invariant
            buffer.wf(),
            n == buffer.n(),
            pos < q <= n,
            depth <= q - pos,
            scan_enclosing(*buffer, pos as int, open, close, q as int, depth as int)
                == scan_enclosing(*buffer, pos as int, open, close, pos + 1, 0),
            c == buffer.spec_char_at(pos as int),
            !(c == open && !in_cs(*buffer, pos as int)),
            !(c == close && !in_cs(*buffer, pos as int)),
        decreases n - q,
    {
        if !is_in_comment_or_string(buffer, q) {
            let ch = buffer.text[q];
            if ch == open {
                depth = depth + 1;
            } else if ch == close {
                if depth == 0 {
                    match find_matching_open_bracket(buffer, q) {
                        Some(o) => {
                            if o <= pos {
                                proof {
                                    lemma_scan_enclosing(
                                        *buffer,
                                        pos as int,
                                        open,
                                        close,
                                        q as int,
                                        depth as int,
                                    );
                                }
                                return Some((o, q));
                            }
                        },
                        None => {},
                    }
                } else {
                    depth = depth - 1;
                }
            }
        }
        q = q + 1;
    }
    None
}

/// The `q`-quoted span around `p` on its line: when `p` holds `q` and has
/// a match, the two; otherwise the nearest unescaped `q` before `p` and
/// the nearest after it.
pub open spec fn spec_enclosing_quote_pair(b: TextBuf, p: int, q: char) -> Option<(int, int)> {
    let t = b.t();
    let at = b.spec_char_at(p) == q;
    if at && spec_matching_quote(b, p) is Some {
        let m = spec_matching_quote(b, p)->0;
        if p < m { Some((p, m)) } else { Some((m, p)) }
    } else {
        match quote_bwd(t, q, p) {
            None => None,
            Some(o) => match quote_fwd(t, q, p) {
                None => None,
                Some(c) => Some((o, c)),
            },
        }
    }
}

/// The `q`-quoted span that encloses `pos` on its line.
pub fn find_enclosing_quote_pair(buffer: &TextBuf, pos: usize, q: char) -> (r: Option<(usize, usize)>)
    requires
        buffer.wf(),
        pos <= buffer.n(),
    ensures
        r matches Some(x) ==> spec_enclosing_quote_pair(*buffer, pos as int, q) == Some(
            (x.0 as int, x.1 as int),
        ) && x.0 <= x.1 <= buffer.n(),
        r is None ==> spec_enclosing_quote_pair(*buffer, pos as int, q) is None,
{
    let c = buffer.char_at(pos);
    if c == q {
        match find_matching_quote(buffer, pos) {
            Some(m) => {
                return if pos < m {
                    Some((pos, m))
                } else {
                    Some((m, pos))
                };
            },
            None => {},
        }
    }
    proof {
        lemma_quote_fwd(buffer.t(), q, pos as int);
        lemma_quote_bwd(buffer.t(), q, pos as int);
    }
    match find_quote_bwd(buffer, q, pos) {
        None => None,
        Some(o) => match find_quote_fwd(buffer, q, pos) {
            None => None,
            Some(cl) => Some((o, cl)),
        },
    }
}

/// The candidate pairs searched, in order: the nine bracket pairs, then the
/// quotes `"`, `'`, `` ` `` and `|`.
pub open spec fn spec_candidate(b: TextBuf, p: int, i: int) -> Option<(int, int)> {
    if i < 9 {
        spec_enclosing_bracket_pair(b, p, spec_bracket(i).0, spec_bracket(i).1)
    } else {
        spec_enclosing_quote_pair(b, p, spec_pair(i).0)
    }
}

/// Keeping the narrower of the best pair so far and a candidate (the
/// earlier one on a tie).
pub open spec fn closer(best: Option<(int, int)>, cand: Option<(int, int)>) -> Option<(int, int)> {
    match cand {
        None => best,
        Some((o, c)) => match best {
            Some((bo, bc)) if bc - bo <= c - o => best,
            _ => cand,
        },
    }
}

/// The narrowest of the first `k` candidates.
pub open spec fn closest_upto(b: TextBuf, p: int, k: int) -> Option<(int, int)>
    decreases k,
{
    if k <= 0 {
        None
    } else {
        closer(closest_upto(b, p, k - 1), spec_candidate(b, p, k - 1))
    }
}

/// The narrowest bracket or quote pair around `p`.
pub open spec fn spec_closest_enclosing_pair(b: TextBuf, p: int) -> Option<(int, int)> {
    closest_upto(b, p, 13)
}

/// What the narrowest of the first `k` candidates is: nothing exactly when
/// none of them is found, else one of them no wider than any other.
proof fn lemma_closest_upto(b: TextBuf, p: int, k: int)
    requires
        0 <= k,
    ensures
        closest_upto(b, p, k) is None <==> forall|i: int| 0 <= i < k ==> (#[trigger] spec_candidate(b, p, i)) is None,
        closest_upto(b, p, k) matches Some((o, c)) ==> exists|i: int|
            0 <= i < k && #[trigger] spec_candidate(b, p, i) == Some((o, c)),
        closest_upto(b, p, k) matches Some((o, c)) ==> forall|i: int|
            0 <= i < k && (#[trigger] spec_candidate(b, p, i)) is Some ==> c - o <= spec_candidate(b, p, i).unwrap().1
                - spec_candidate(b, p, i).unwrap().0,
    decreases k,
{
    if k > 0 {
        lemma_closest_upto(b, p, k - 1);
        let prev = closest_upto(b, p, k - 1);
        let cand = spec_candidate(b, p, k - 1);
        if let Some((o, c)) = closest_upto(b, p, k) {
            if prev is Some && closest_upto(b, p, k) == prev {
                let i = choose|i: int| 0 <= i < k - 1 && #[trigger] spec_candidate(b, p, i) == prev;
                assert(spec_candidate(b, p, i) == Some((o, c)));
            } else {
                assert(cand == Some((o, c)));
            }
        }
        if closest_upto(b, p, k) is None {
            assert forall|i: int| 0 <= i < k implies (#[trigger] spec_candidate(b, p, i)) is None by {
                if i < k - 1 {
                } else {
                }
            }
        }
    }
}

/// The pair that `mm` and the `m` surround and text objects use: with no
/// bracket or quote pair around `p`, nothing; otherwise one of those pairs,
/// and none of them is narrower.
pub proof fn lemma_closest_is_narrowest(b: TextBuf, p: int)
    ensures
        spec_closest_enclosing_pair(b, p) is None <==> forall|i: int|
            0 <= i < 13 ==> (#[trigger] spec_candidate(b, p, i)) is None,
        spec_closest_enclosing_pair(b, p) matches Some((o, c)) ==> exists|i: int|
            0 <= i < 13 && #[trigger] spec_candidate(b, p, i) == Some((o, c)),
        spec_closest_enclosing_pair(b, p) matches Some((o, c)) ==> forall|i: int|
            0 <= i < 13 && (#[trigger] spec_candidate(b, p, i)) is Some ==> c - o <= spec_candidate(b, p, i).unwrap().1
                - spec_candidate(b, p, i).unwrap().0,
{
    lemma_closest_upto(b, p, 13);
}

fn candidate(buffer: &TextBuf, pos: usize, i: usize) -> (r: Option<(usize, usize)>)
    requires
        buffer.wf(),
        pos <= buffer.n(),
        i < 13,
    ensures
        r matches Some(x) ==> spec_candidate(*buffer, pos as int, i as int) == Some(
            (x.0 as int, x.1 as int),
        ) && x.0 <= x.1 <= buffer.n(),
        r is None ==> spec_candidate(*buffer, pos as int, i as int) is None,
{
    if i < 9 {
        let (o, c) = bracket(i);
        find_enclosing_bracket_pair(buffer, pos, o, c)
    } else {
        let (q, _) = pair(i);
        find_enclosing_quote_pair(buffer, pos, q)
    }
}

/// The narrowest pair of brackets or quotes that encloses `pos`.
pub fn find_closest_enclosing_pair(buffer: &TextBuf, pos: usize) -> (r: Option<(usize, usize)>)
    requires
        buffer.wf(),
        pos <= buffer.n(),
    ensures
        r matches Some(x) ==> spec_closest_enclosing_pair(*buffer, pos as int) == Some(
            (x.0 as int, x.1 as int),
        ) && x.0 <= x.1 <= buffer.n(),
        r is None ==> spec_closest_enclosing_pair(*buffer, pos as int) is None,
        r is None <==> forall|i: int| 0 <= i < 13 ==> (#[trigger] spec_candidate(*buffer, pos as int, i)) is None,
        r matches Some(x) ==> forall|i: int|
            0 <= i < 13 && (#[trigger] spec_candidate(*buffer, pos as int, i)) is Some ==> x.1 - x.0
                <= spec_candidate(*buffer, pos as int, i).unwrap().1 - spec_candidate(*buffer, pos as int, i).unwrap().0,
{
    proof {
        lemma_closest_is_narrowest(*buffer, pos as int);
    }
    let mut best: Option<(usize, usize)> = None;
    let mut i: usize = 0;
    while i < 13
        invariant
            buffer.wf(),
            pos <= buffer.n(),
            i <= 13,
            best matches Some(x) ==> closest_upto(*buffer, pos as int, i as int) == Some(
                (x.0 as int, x.1 as int),
            ) && x.0 <= x.1 <= buffer.n(),
            best is None ==> closest_upto(*buffer, pos as int, i as int) is None,
        decreases 13 - i,
    {
        match candidate(buffer, pos, i) {
            None => {},
            Some((o, c)) => {
                let keep = match best {
                    Some((bo, bc)) => bc - bo <= c - o,
                    None => false,
                };
                if !keep {
                    best = Some((o, c));
                }
            },
        }
        i = i + 1;
    }
    best
}

/// The position `offset` names in the buffer: itself when in range, the
/// end otherwise.
pub open spec fn clamp_offset(b: TextBuf, offset: int) -> int {
    if 0 <= offset <= b.n() { offset } else { b.n() }
}

/// Where `mm` moves the cursor from `p`, or `None` when it stays: the match
/// already known for a bracket under the cursor; otherwise the match of an
/// opening or closing bracket, or of a quote, under the cursor; otherwise
/// the far side of the narrowest enclosing pair (its opening side when the
/// cursor is on its closing side).
pub open spec fn spec_match_target(b: TextBuf, p: int, known: Option<i32>) -> Option<int> {
    let ch = b.spec_char_at(p);
    if (spec_is_open_bracket(ch) || spec_is_close_bracket(ch)) && known is Some {
        Some(clamp_offset(b, known->0 as int))
    } else if spec_is_open_bracket(ch) {
        spec_matching_close(b, p)
    } else if spec_is_close_bracket(ch) {
        spec_matching_open(b, p)
    } else if ch == '"' || ch == '\'' || ch == '`' || ch == '|' {
        spec_matching_quote(b, p)
    } else {
        match spec_closest_enclosing_pair(b, p) {
            Some((o, c)) => if p == c { Some(o) } else { Some(c) },
            None => None,
        }
    }
}

/// `mm`: jumps to the matching bracket (extending the selection in select
/// mode). `last_matched_bracket` is a match the caller already knows for
/// the bracket under the cursor.
pub fn match_brackets(buffer: &mut TextBuf, last_matched_bracket: Option<i32>, extend: bool)
    requires
        old(buffer).wf(),
    ensures
        final(buffer).wf(),
        final(buffer).text@ == old(buffer).text@,
        final(buffer).stops@ == old(buffer).stops@,
        final(buffer).syntax@ == old(buffer).syntax@,
        final(buffer).undo_stack@ == old(buffer).undo_stack@,
        final(buffer).redo_stack@ == old(buffer).redo_stack@,
        match spec_match_target(*old(buffer), old(buffer).head as int, last_matched_bracket) {
            Some(q) => (final(buffer).anchor as int, final(buffer).head as int) == old(
                buffer,
            ).spec_set_cursor(q, extend),
            None => final(buffer).anchor == old(buffer).anchor && final(buffer).head == old(
                buffer,
            ).head,
        },
{
    let cur = buffer.head;
    let ch = buffer.char_at(cur);
    if is_valid_bracket(ch) {
        if let Some(off) = last_matched_bracket {
            let n = buffer.text.len();
            let p = if 0 <= off && (off as usize) <= n { off as usize } else { n };
            buffer.set_cursor(p, extend);
            return ;
        }
    }
    let target = if is_open_bracket(ch) {
        find_matching_close_bracket(buffer, cur)
    } else if is_close_bracket(ch) {
        find_matching_open_bracket(buffer, cur)
    } else if ch == '"' || ch == '\'' || ch == '`' || ch == '|' {
        find_matching_quote(buffer, cur)
    } else {
        match find_closest_enclosing_pair(buffer, cur) {
            Some((o, c)) => if cur == c {
                Some(o)
            } else {
                Some(c)
            },
            None => None,
        }
    };
    match target {
        Some(q) => buffer.set_cursor(q, extend),
        None => {},
    }
}

} // verus!
