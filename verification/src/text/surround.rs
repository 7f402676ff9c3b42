//! Surround operations: adding, deleting and replacing a pair around the
//! selection or the cursor.

use vstd::prelude::*;
use crate::text::buffer::{TextBuf, splice, splice_chars};
use crate::text::match_brackets::{
    spec_closest_enclosing_pair, spec_enclosing_bracket_pair, spec_enclosing_quote_pair,
    spec_get_pair, find_closest_enclosing_pair, find_enclosing_bracket_pair,
    find_enclosing_quote_pair, get_pair,
};
use crate::text::movement::fits;

verus! {

/// The span `ms` surrounds: the selection, or the character under a point
/// cursor (an empty span at the end).
pub open spec fn spec_surround_span(b: TextBuf) -> (int, int) {
    if b.anchor != b.head {
        if b.anchor < b.head { (b.anchor as int, b.head as int) } else { (b.head as int, b.anchor as int) }
    } else if b.head < b.n() {
        (b.head as int, b.head + 1)
    } else {
        (b.head as int, b.head as int)
    }
}

/// The text after `ms` with `ch`: the pair of `ch` wrapped around the span.
pub open spec fn spec_surround_add_text(b: TextBuf, ch: char) -> Seq<char> {
    let (open, close) = spec_get_pair(ch);
    let (s, e) = spec_surround_span(b);
    b.t().subrange(0, s) + seq![open] + b.t().subrange(s, e) + seq![close] + b.t().subrange(
        e,
        b.n(),
    )
}

/// `ms` with `ch`: surrounds the selection with the pair of `ch` and selects
/// the result (head at its end). Nothing changes when the text would not fit.
pub fn surround_add(buffer: &mut TextBuf, ch: char)
    requires
        old(buffer).wf(),
    ensures
        fits(old(buffer).n() + 2) ==> TextBuf::is_edit(
            *old(buffer),
            *final(buffer),
            spec_surround_add_text(*old(buffer), ch),
            spec_surround_span(*old(buffer)).0,
            spec_surround_span(*old(buffer)).1 + 2,
        ),
        !fits(old(buffer).n() + 2) ==> *final(buffer) == *old(buffer),
{
    let ghost t0 = buffer.t();
    let (open, close) = get_pair(ch);
    let n = buffer.text.len();
    let (s, e) = match buffer.selection_bounds() {
        Some(b) => b,
        None => {
            let cur = buffer.head;
            if cur < n {
                (cur, cur + 1)
            } else {
                (cur, cur)
            }
        },
    };
    if n >= usize::MAX - 2 {
        return ;
    }
    let mut ins: Vec<char> = Vec::new();
    ins.push(open);
    let mid = buffer.slice(s, e);
    crate::text::unicode::push_all(&mut ins, &mid);
    ins.push(close);
    let t = splice_chars(&buffer.text, s, e, &ins);
    assert(t@ =~= spec_surround_add_text(*old(buffer), ch));
    buffer.apply_edit(t, s, e + 2);
}

/// The pair `md`/`mr` act on for `ch` at `p`: the narrowest enclosing pair
/// for `m`, otherwise the enclosing quotes or brackets of the pair of `ch`.
pub open spec fn spec_surround_pair(b: TextBuf, p: int, ch: char) -> Option<(int, int)> {
    if ch == 'm' {
        spec_closest_enclosing_pair(b, p)
    } else {
        let (open, close) = spec_get_pair(ch);
        if open == close {
            spec_enclosing_quote_pair(b, p, open)
        } else {
            spec_enclosing_bracket_pair(b, p, open, close)
        }
    }
}

fn surround_pair(buffer: &TextBuf, p: usize, ch: char) -> (r: Option<(usize, usize)>)
    requires
        buffer.wf(),
        p <= buffer.n(),
    ensures
        r matches Some(x) ==> spec_surround_pair(*buffer, p as int, ch) == Some(
            (x.0 as int, x.1 as int),
        ) && x.0 <= x.1 <= buffer.n(),
        r is None ==> spec_surround_pair(*buffer, p as int, ch) is None,
{
    if ch == 'm' {
        find_closest_enclosing_pair(buffer, p)
    } else {
        let (open, close) = get_pair(ch);
        if open == close {
            find_enclosing_quote_pair(buffer, p, open)
        } else {
            find_enclosing_bracket_pair(buffer, p, open, close)
        }
    }
}

/// The end of the cursor cluster at `p` when the step after it lands before
/// the end of the buffer (the only steps a deletion takes).
pub open spec fn cluster_end(b: TextBuf, p: int) -> Option<int> {
    let step = b.spec_fwd_cursor(p);
    if step.1 { Some(step.0) } else { None }
}

/// The text after replacing the clusters at `o` and `c` (`o < c`) by
/// `new_open` and `new_close` (each deleted without a replacement when
/// the sequence given is empty); a cluster whose step does not land
/// before the end of the buffer, or (for `o`) would reach `c`, is kept.
pub open spec fn replace_ends(b: TextBuf, o: int, c: int, new_open: Seq<char>, new_close: Seq<char>) -> Seq<char> {
    let t = b.t();
    let t1 = match cluster_end(b, c) {
        Some(ce) => splice(t, c, ce, new_close),
        None => t,
    };
    match cluster_end(b, o) {
        Some(oe) => if oe <= c { splice(t1, o, oe, new_open) } else { t1 },
        None => t1,
    }
}

fn replace_ends_exec(buffer: &TextBuf, o: usize, c: usize, new_open: &Vec<char>, new_close: &Vec<char>) -> (r: Vec<char>)
    requires
        buffer.wf(),
        o < c <= buffer.n(),
    ensures
        r@ == replace_ends(*buffer, o as int, c as int, new_open@, new_close@),
{
    let (ce, cok) = buffer.fwd_cursor(c);
    let t1 = if cok {
        splice_chars(&buffer.text, c, ce, new_close)
    } else {
        buffer.text.clone()
    };
    assert(!cok ==> t1@ =~= buffer.t());
    let (oe, ook) = buffer.fwd_cursor(o);
    if ook && oe <= c {
        assert(t1@.len() >= c);
        splice_chars(&t1, o, oe, new_open)
    } else {
        t1
    }
}

/// The result of `md` with `ch` at the head: the pair's characters removed
/// and the cursor at the opening side; `None` when there is no such pair.
pub open spec fn spec_surround_delete(b: TextBuf, ch: char) -> Option<(Seq<char>, int)> {
    match spec_surround_pair(b, b.head as int, ch) {
        Some((o, c)) => if o < c {
            Some((replace_ends(b, o, c, Seq::empty(), Seq::empty()), o))
        } else {
            None
        },
        None => None,
    }
}

/// `md` with `ch`: deletes the surrounding pair.
pub fn surround_delete(buffer: &mut TextBuf, ch: char)
    requires
        old(buffer).wf(),
    ensures
        match spec_surround_delete(*old(buffer), ch) {
            Some((t, c)) => TextBuf::is_edit(*old(buffer), *final(buffer), t, c, c),
            None => *final(buffer) == *old(buffer),
        },
{
    match surround_pair(buffer, buffer.head, ch) {
        Some((o, c)) => {
            if o < c {
                let empty: Vec<char> = Vec::new();
                let t = replace_ends_exec(buffer, o, c, &empty, &empty);
                proof {
                    lemma_replace_ends_len(*buffer, o as int, c as int, Seq::empty(), Seq::empty());
                }
                buffer.apply_edit(t, o, o);
            }
        },
        None => {},
    }
}

pub proof fn lemma_replace_ends_len(b: TextBuf, o: int, c: int, no: Seq<char>, nc: Seq<char>)
    requires
        b.wf(),
        0 <= o < c <= b.n(),
        no.len() <= 1,
        nc.len() <= 1,
    ensures
        replace_ends(b, o, c, no, nc).len() <= b.n(),
        replace_ends(b, o, c, no, nc).len() >= o,
{
    if c < b.n() {
        crate::text::buffer::lemma_next_stop_bounds(b.stops@, c);
    }
    crate::text::buffer::lemma_next_stop_bounds(b.stops@, o);
}

/// The result of `mr` with `from` then `to` at the head: the pair of
/// `from` replaced by the pair of `to`, the cursor at the opening side.
pub open spec fn spec_surround_replace(b: TextBuf, from: char, to: char) -> Option<(Seq<char>, int)> {
    match spec_surround_pair(b, b.head as int, from) {
        Some((o, c)) => if o < c {
            let (no, nc) = spec_get_pair(to);
            Some((replace_ends(b, o, c, seq![no], seq![nc]), o))
        } else {
            None
        },
        None => None,
    }
}

/// `mr` with `from` and `to`: replaces the surrounding pair.
pub fn surround_replace(buffer: &mut TextBuf, from: char, to: char)
    requires
        old(buffer).wf(),
    ensures
        match spec_surround_replace(*old(buffer), from, to) {
            Some((t, c)) => TextBuf::is_edit(*old(buffer), *final(buffer), t, c, c),
            None => *final(buffer) == *old(buffer),
        },
{
    match surround_pair(buffer, buffer.head, from) {
        Some((o, c)) => {
            if o < c {
                let (no, nc) = get_pair(to);
                let mut vo: Vec<char> = Vec::new();
                vo.push(no);
                let mut vc: Vec<char> = Vec::new();
                vc.push(nc);
                assert(vo@ =~= seq![no]);
                assert(vc@ =~= seq![nc]);
                let t = replace_ends_exec(buffer, o, c, &vo, &vc);
                proof {
                    lemma_replace_ends_len(*buffer, o as int, c as int, seq![no], seq![nc]);
                }
                buffer.apply_edit(t, o, o);
            }
        },
        None => {},
    }
}

} // verus!
