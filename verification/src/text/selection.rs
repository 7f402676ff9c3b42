//! Selection ranges.
//!
//! A cursor is a selection: even a point cursor is a range whose block
//! cursor covers one character inward from the head.

use vstd::prelude::*;

verus! {

/// The direction of a selection.
#[derive(Debug, Clone, Copy, PartialEq, Eq, Hash, Structural)]
pub enum Direction {
    Forward,
    Backward,
}

/// A selection between an `anchor` and a `head` (gap indices).
///
/// When `head > anchor` the block cursor covers the character just before
/// `head`; otherwise it covers the character at `head`.
#[derive(Debug, Clone, Copy, PartialEq, Eq, Hash, Structural)]
pub struct Range {
    pub anchor: usize,
    pub head: usize,
}

impl Range {
    /// The lower end of the range.
    pub open spec fn spec_from(self) -> int {
        if self.anchor <= self.head { self.anchor as int } else { self.head as int }
    }

    /// The upper end of the range.
    pub open spec fn spec_to(self) -> int {
        if self.anchor <= self.head { self.head as int } else { self.anchor as int }
    }

    /// The character index covered by the block cursor.
    pub open spec fn spec_cursor(self) -> int {
        if self.head > self.anchor { self.head - 1 } else { self.head as int }
    }

    /// The same range with anchor and head exchanged.
    pub open spec fn spec_flipped(self) -> Range {
        Range { anchor: self.head, head: self.anchor }
    }

    /// A range from `anchor` to `head`.
    pub fn new(anchor: usize, head: usize) -> (r: Self)
        ensures
            r.anchor == anchor,
            r.head == head,
    {
        Range { anchor, head }
    }

    /// An empty range at `head`.
    pub fn point(head: usize) -> (r: Self)
        ensures
            r.anchor == head,
            r.head == head,
    {
        Self::new(head, head)
    }

    /// The character index under the block cursor.
    pub fn cursor(&self) -> (r: usize)
        ensures
            r == self.spec_cursor(),
    {
        if self.head > self.anchor {
            self.head - 1
        } else {
            self.head
        }
    }

    /// The smaller of anchor and head.
    pub fn from(&self) -> (r: usize)
        ensures
            r == self.spec_from(),
    {
        if self.anchor <= self.head {
            self.anchor
        } else {
            self.head
        }
    }

    /// The larger of anchor and head.
    pub fn to(&self) -> (r: usize)
        ensures
            r == self.spec_to(),
    {
        if self.anchor <= self.head {
            self.head
        } else {
            self.anchor
        }
    }

    /// Whether anchor and head coincide.
    pub fn is_empty(&self) -> (r: bool)
        ensures
            r == (self.anchor == self.head),
    {
        self.anchor == self.head
    }

    /// The number of positions the range spans.
    pub fn len(&self) -> (r: usize)
        ensures
            r == self.spec_to() - self.spec_from(),
    {
        self.to() - self.from()
    }

    /// Forward when `anchor <= head`, backward otherwise.
    pub fn direction(&self) -> (r: Direction)
        ensures
            r == (if self.anchor <= self.head { Direction::Forward } else { Direction::Backward }),
    {
        if self.anchor <= self.head {
            Direction::Forward
        } else {
            Direction::Backward
        }
    }
}

/// The ends and length of a range do not depend on which end is the head.
pub proof fn lemma_range_flip(r: Range)
    ensures
        r.spec_flipped().spec_from() == r.spec_from(),
        r.spec_flipped().spec_to() == r.spec_to(),
        r.spec_from() <= r.spec_to(),
        r.spec_from() <= r.spec_cursor() <= r.spec_to(),
        r.anchor == r.head <==> r.spec_to() == r.spec_from(),
{
}

} // verus!
