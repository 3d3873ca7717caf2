//! Positions and ranges inside a buffer, and how they move when text is
//! inserted or deleted around them.

use vstd::prelude::*;

verus! {

/// A place in a buffer: a line and a column inside that line.
#[derive(Debug, Clone, Copy, PartialEq, Eq, Structural, Hash)]
pub struct BufferPosition {
    pub line_index: usize,
    pub column_index: usize,
}

/// A span of a buffer, from `from` up to (not including) `to`.
#[derive(Debug, Clone, Copy, PartialEq, Eq, Structural, Hash)]
pub struct BufferRange {
    pub from: BufferPosition,
    pub to: BufferPosition,
}

/// Lexicographic order on positions: by line first, then by column.
pub open spec fn position_le(a: BufferPosition, b: BufferPosition) -> bool {
    a.line_index < b.line_index || (a.line_index == b.line_index && a.column_index
        <= b.column_index)
}

/// Strict lexicographic order on positions.
pub open spec fn position_lt(a: BufferPosition, b: BufferPosition) -> bool {
    a.line_index < b.line_index || (a.line_index == b.line_index && a.column_index
        < b.column_index)
}

/// An integer brought into the range of `usize`.
pub open spec fn clip(i: int) -> usize {
    if i < 0 {
        0
    } else if i > usize::MAX {
        usize::MAX
    } else {
        i as usize
    }
}

/// Where `pos` ends up after text covering `range` was inserted at `range.from`.
///
/// Positions before the insertion point stay; positions on later lines move
/// down by the number of inserted lines; positions on the insertion line at or
/// after the insertion column move along with the text that follows them.
pub open spec fn position_after_insert(pos: BufferPosition, range: BufferRange) -> BufferPosition {
    if pos.line_index < range.from.line_index {
        pos
    } else if pos.line_index > range.from.line_index {
        BufferPosition {
            line_index: clip(pos.line_index + range.to.line_index - range.from.line_index),
            column_index: pos.column_index,
        }
    } else if pos.column_index < range.from.column_index {
        pos
    } else {
        BufferPosition {
            line_index: clip(pos.line_index + range.to.line_index - range.from.line_index),
            column_index: clip(
                pos.column_index + range.to.column_index
                    - range.from.column_index,
            ),
        }
    }
}

/// Where `pos` ends up after the text covered by `range` was deleted.
///
/// Positions before the range stay; positions inside it collapse to its start;
/// positions after it move back by what was removed.
pub open spec fn position_after_delete(pos: BufferPosition, range: BufferRange) -> BufferPosition {
    if pos.line_index < range.from.line_index {
        pos
    } else if pos.line_index > range.to.line_index {
        BufferPosition {
            line_index: clip(pos.line_index - (range.to.line_index - range.from.line_index)),
            column_index: pos.column_index,
        }
    } else if pos.line_index == range.from.line_index && pos.column_index
        < range.from.column_index {
        pos
    } else if pos.line_index == range.to.line_index && pos.column_index
        > range.to.column_index {
        BufferPosition {
            line_index: range.from.line_index,
            column_index: clip(
                range.from.column_index + pos.column_index
                    - range.to.column_index,
            ),
        }
    } else {
        range.from
    }
}

/// `range` with both ends moved by an insertion covering `inserted`.
pub open spec fn range_after_insert(range: BufferRange, inserted: BufferRange) -> BufferRange {
    BufferRange {
        from: position_after_insert(range.from, inserted),
        to: position_after_insert(range.to, inserted),
    }
}

/// `range` with both ends moved by the deletion of `deleted`.
pub open spec fn range_after_delete(range: BufferRange, deleted: BufferRange) -> BufferRange {
    BufferRange {
        from: position_after_delete(range.from, deleted),
        to: position_after_delete(range.to, deleted),
    }
}

/// `a + b - c`, saturating at the bounds of `usize`.
fn add_sub(a: usize, b: usize, c: usize) -> (r: usize)
    ensures
        r == clip(a + b - c),
{
    let sum: u128 = a as u128 + b as u128;
    if sum <= c as u128 {
        0
    } else {
        let d: u128 = sum - c as u128;
        if d > usize::MAX as u128 {
            usize::MAX
        } else {
            d as usize
        }
    }
}

impl BufferPosition {
    /// The start of any buffer.
    pub open spec fn at_zero() -> BufferPosition {
        BufferPosition { line_index: 0, column_index: 0 }
    }

    /// The start of any buffer.
    pub fn zero() -> (r: Self)
        ensures
            r.line_index == 0,
            r.column_index == 0,
            r == Self::at_zero(),
    {
        BufferPosition { line_index: 0, column_index: 0 }
    }

    pub fn line_col(line_index: usize, column_index: usize) -> (r: Self)
        ensures
            r.line_index == line_index,
            r.column_index == column_index,
    {
        BufferPosition { line_index, column_index }
    }

    /// `self <= other` in the lexicographic order.
    pub fn le(self, other: BufferPosition) -> (r: bool)
        ensures
            r == position_le(self, other),
    {
        self.line_index < other.line_index || (self.line_index == other.line_index
            && self.column_index <= other.column_index)
    }

    /// `self < other` in the lexicographic order.
    pub fn lt(self, other: BufferPosition) -> (r: bool)
        ensures
            r == position_lt(self, other),
    {
        self.line_index < other.line_index || (self.line_index == other.line_index
            && self.column_index < other.column_index)
    }

    /// Moves this position as an insertion covering `range` moves it.
    pub fn insert(self, range: BufferRange) -> (r: Self)
        ensures
            r == position_after_insert(self, range),
    {
        if self.line_index < range.from.line_index {
            self
        } else if self.line_index > range.from.line_index {
            BufferPosition {
                line_index: add_sub(self.line_index, range.to.line_index, range.from.line_index),
                column_index: self.column_index,
            }
        } else if self.column_index < range.from.column_index {
            self
        } else {
            BufferPosition {
                line_index: add_sub(self.line_index, range.to.line_index, range.from.line_index),
                column_index: add_sub(
                    self.column_index,
                    range.to.column_index,
                    range.from.column_index,
                ),
            }
        }
    }

    /// Moves this position as the deletion of `range` moves it.
    pub fn delete(self, range: BufferRange) -> (r: Self)
        ensures
            r == position_after_delete(self, range),
    {
        if self.line_index < range.from.line_index {
            self
        } else if self.line_index > range.to.line_index {
            BufferPosition {
                line_index: add_sub(self.line_index, range.from.line_index, range.to.line_index),
                column_index: self.column_index,
            }
        } else if self.line_index == range.from.line_index && self.column_index
            < range.from.column_index {
            self
        } else if self.line_index == range.to.line_index && self.column_index
            > range.to.column_index {
            BufferPosition {
                line_index: range.from.line_index,
                column_index: add_sub(
                    range.from.column_index,
                    self.column_index,
                    range.to.column_index,
                ),
            }
        } else {
            range.from
        }
    }
}

impl Default for BufferPosition {
    fn default() -> (r: Self)
        ensures
            r.line_index == 0,
            r.column_index == 0,
    {
        BufferPosition { line_index: 0, column_index: 0 }
    }
}

impl BufferRange {
    /// The range between two positions, given in either order.
    pub fn between(from: BufferPosition, to: BufferPosition) -> (r: Self)
        ensures
            position_le(r.from, r.to),
            position_le(from, to) ==> r.from == from && r.to == to,
            !position_le(from, to) ==> r.from == to && r.to == from,
    {
        if from.le(to) {
            BufferRange { from, to }
        } else {
            BufferRange { from: to, to: from }
        }
    }

    /// Moves both ends as an insertion covering `inserted` moves them.
    pub fn insert(self, inserted: BufferRange) -> (r: Self)
        ensures
            r == range_after_insert(self, inserted),
    {
        BufferRange { from: self.from.insert(inserted), to: self.to.insert(inserted) }
    }

    /// Moves both ends as the deletion of `deleted` moves them.
    pub fn delete(self, deleted: BufferRange) -> (r: Self)
        ensures
            r == range_after_delete(self, deleted),
    {
        BufferRange { from: self.from.delete(deleted), to: self.to.delete(deleted) }
    }
}

impl Default for BufferRange {
    fn default() -> (r: Self)
        ensures
            r.from == (BufferPosition { line_index: 0, column_index: 0 }),
            r.to == (BufferPosition { line_index: 0, column_index: 0 }),
    {
        BufferRange { from: BufferPosition::zero(), to: BufferPosition::zero() }
    }
}

} // verus!
