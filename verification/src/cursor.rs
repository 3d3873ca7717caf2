//! Cursors: selections inside a buffer, each from an anchor to a position.

use crate::buffer_position::{position_le, position_lt, BufferPosition, BufferRange};
use vstd::prelude::*;

verus! {

/// A selection that runs from `anchor` to `position`; a cursor without a
/// selection has both at the same place.
#[derive(Debug, Clone, Copy, PartialEq, Eq, Structural)]
pub struct Cursor {
    pub anchor: BufferPosition,
    pub position: BufferPosition,
}

impl Cursor {
    /// A cursor without a selection at the start of the buffer.
    pub fn zero() -> (r: Self)
        ensures
            r.anchor == (BufferPosition { line_index: 0, column_index: 0 }),
            r.position == r.anchor,
            r == Self::at_zero(),
    {
        Cursor { anchor: BufferPosition::zero(), position: BufferPosition::zero() }
    }

    /// The cursor without a selection at the start of the buffer.
    pub open spec fn at_zero() -> Cursor {
        Cursor {
            anchor: BufferPosition { line_index: 0, column_index: 0 },
            position: BufferPosition { line_index: 0, column_index: 0 },
        }
    }

    /// The range that the cursor covers, its lesser end first.
    pub open spec fn range(self) -> BufferRange {
        if position_le(self.anchor, self.position) {
            BufferRange { from: self.anchor, to: self.position }
        } else {
            BufferRange { from: self.position, to: self.anchor }
        }
    }

    pub fn to_range(self) -> (r: BufferRange)
        ensures
            r == self.range(),
            position_le(r.from, r.to),
    {
        BufferRange::between(self.anchor, self.position)
    }
}

/// The cursors are in order and apart: each begins behind the end of the one
/// before it.
pub open spec fn sorted_apart(cursors: Seq<Cursor>) -> bool {
    forall|i: int, j: int|
        0 <= i < j < cursors.len() ==> position_lt(
            (#[trigger] cursors[i]).range().to,
            (#[trigger] cursors[j]).range().from,
        )
}

/// `inner` lies within `outer`.
pub open spec fn within(inner: BufferRange, outer: BufferRange) -> bool {
    position_le(outer.from, inner.from) && position_le(inner.to, outer.to)
}

/// Some cursor of the list covers the range.
pub open spec fn covered(cursors: Seq<Cursor>, range: BufferRange) -> bool {
    exists|i: int| 0 <= i < cursors.len() && within(range, (#[trigger] cursors[i]).range())
}

/// The cursors of a view. There is always at least one; they are kept in
/// order, and cursors that touch are merged into one.
pub struct CursorCollection {
    cursors: Vec<Cursor>,
}

impl View for CursorCollection {
    type V = Seq<Cursor>;

    closed spec fn view(&self) -> Seq<Cursor> {
        self.cursors@
    }
}

/// The place of the first cursor, from `at` on, that does not end before
/// `from`; the length of the list where every cursor ends before it.
pub open spec fn first_reaching(cursors: Seq<Cursor>, from: BufferPosition, at: int) -> int
    decreases cursors.len() - at,
{
    if at < 0 || at >= cursors.len() || !position_lt(cursors[at].range().to, from) {
        at
    } else {
        first_reaching(cursors, from, at + 1)
    }
}

/// A range grown by the cursors from `at` on, as long as the next cursor
/// begins no later than the range ends; and the place of the first cursor
/// that is left out.
pub open spec fn grown(cursors: Seq<Cursor>, range: BufferRange, at: int) -> (BufferRange, int)
    decreases cursors.len() - at,
{
    if at < 0 || at >= cursors.len() || !position_le(cursors[at].range().from, range.to) {
        (range, at)
    } else {
        let other = cursors[at].range();
        grown(
            cursors,
            BufferRange {
                from: if position_lt(other.from, range.from) {
                    other.from
                } else {
                    range.from
                },
                to: if position_lt(range.to, other.to) {
                    other.to
                } else {
                    range.to
                },
            },
            at + 1,
        )
    }
}

/// A list of cursors with one more cursor: the cursors that end before it
/// begins, then the cursor, grown by every cursor that it touches and
/// pointing the way it pointed, then the cursors that are left.
pub open spec fn with_cursor(cursors: Seq<Cursor>, cursor: Cursor) -> Seq<Cursor> {
    let first = first_reaching(cursors, cursor.range().from, 0);
    let (range, rest) = grown(cursors, cursor.range(), first);
    let merged = if position_le(cursor.anchor, cursor.position) {
        Cursor { anchor: range.from, position: range.to }
    } else {
        Cursor { anchor: range.to, position: range.from }
    };
    cursors.take(first).push(merged) + cursors.skip(rest)
}

/// The first `count` cursors of a list, put together one by one.
pub open spec fn gathered(list: Seq<Cursor>, count: int) -> Seq<Cursor>
    decreases count,
{
    if count <= 0 || count > list.len() {
        Seq::empty()
    } else {
        with_cursor(gathered(list, count - 1), list[count - 1])
    }
}

/// Puts `cursor` into a list that is in order and apart, merging it with
/// every cursor that it touches. The merged cursor keeps the direction of
/// `cursor`.
fn insert_merged(cursors: &Vec<Cursor>, cursor: Cursor) -> (r: Vec<Cursor>)
    requires
        sorted_apart(cursors@),
    ensures
        r@ == with_cursor(cursors@, cursor),
        sorted_apart(r@),
        r@.len() >= 1,
        r@.len() <= cursors@.len() + 1,
        covered(r@, cursor.range()),
        forall|i: int| 0 <= i < cursors@.len() ==> covered(r@, (#[trigger] cursors@[i]).range()),
{
    let range = cursor.to_range();
    let forward = cursor.anchor.le(cursor.position);
    let mut out: Vec<Cursor> = Vec::new();
    let mut from = range.from;
    let mut to = range.to;
    let mut i: usize = 0;
    // cursors that end before the new one begins
    while i < cursors.len() && cursors[i].to_range().to.lt(range.from)
        invariant
            0 <= i <= cursors.len(),
            sorted_apart(cursors@),
            out@ == cursors@.take(i as int),
            forall|k: int| 0 <= k < i ==> position_lt((#[trigger] cursors@[k]).range().to, range.from),
            first_reaching(cursors@, range.from, i as int) == first_reaching(cursors@, range.from, 0),
        decreases cursors.len() - i,
    {
        out.push(cursors[i]);
        assert(out@ =~= cursors@.take(i + 1));
        i = i + 1;
    }
    let first = i;
    // cursors that touch the new one
    while i < cursors.len() && cursors[i].to_range().from.le(to)
        invariant
            first <= i <= cursors.len(),
            sorted_apart(cursors@),
            position_le(from, range.from),
            position_le(range.to, to),
            position_le(from, to),
            first < cursors.len() ==> position_le(range.from, cursors@[first as int].range().to),
            grown(cursors@, BufferRange { from, to }, i as int) == grown(
                cursors@,
                range,
                first as int,
            ),
            forall|k: int|
                first <= k < i ==> within((#[trigger] cursors@[k]).range(), BufferRange { from, to }),
            forall|k: int| 0 <= k < first ==> position_lt((#[trigger] cursors@[k]).range().to, from),
        decreases cursors.len() - i,
    {
        let other = cursors[i].to_range();
        if other.from.lt(from) {
            from = other.from;
        }
        if to.lt(other.to) {
            to = other.to;
        }
        i = i + 1;
    }
    let merged = if forward {
        Cursor { anchor: from, position: to }
    } else {
        Cursor { anchor: to, position: from }
    };
    assert(merged.range() == (BufferRange { from, to }));
    let ghost before = out@;
    out.push(merged);
    let middle = i;
    while i < cursors.len()
        invariant
            middle <= i <= cursors.len(),
            out@ == before.push(merged) + cursors@.subrange(middle as int, i as int),
        decreases cursors.len() - i,
    {
        out.push(cursors[i]);
        assert(out@ =~= before.push(merged) + cursors@.subrange(middle as int, i + 1));
        i = i + 1;
    }
    proof {
        let rest = cursors@.subrange(middle as int, cursors@.len() as int);
        assert(out@ =~= before.push(merged) + rest);
        assert(before == cursors@.take(first as int));
        assert(rest =~= cursors@.skip(middle as int));
        assert(first == first_reaching(cursors@, cursor.range().from, 0));
        assert(grown(cursors@, cursor.range(), first as int) == (BufferRange { from, to }, middle as int));
        assert(out@ == with_cursor(cursors@, cursor));
        assert forall|k: int| middle <= k < cursors@.len() implies position_lt(
            to,
            (#[trigger] cursors@[k]).range().from,
        ) by {
            if k > middle {
                assert(position_lt(cursors@[middle as int].range().to, cursors@[k].range().from));
            }
        }
        assert forall|a: int, b: int| 0 <= a < b < out@.len() implies position_lt(
            (#[trigger] out@[a]).range().to,
            (#[trigger] out@[b]).range().from,
        ) by {
            if b < first {
                assert(out@[a] == cursors@[a]);
                assert(out@[b] == cursors@[b]);
            } else if b == first {
                assert(out@[a] == cursors@[a]);
            } else {
                assert(out@[b] == cursors@[middle + b - first - 1]);
                if a < first {
                    assert(out@[a] == cursors@[a]);
                } else if a > first {
                    assert(out@[a] == cursors@[middle + a - first - 1]);
                }
            }
        }
        assert(within(cursor.range(), out@[first as int].range()));
        assert forall|k: int| 0 <= k < cursors@.len() implies covered(
            out@,
            (#[trigger] cursors@[k]).range(),
        ) by {
            if k < first {
                assert(out@[k] == cursors@[k]);
                assert(within(cursors@[k].range(), out@[k].range()));
            } else if k < middle {
                assert(within(cursors@[k].range(), out@[first as int].range()));
            } else {
                assert(out@[first + 1 + k - middle] == cursors@[k]);
                assert(within(cursors@[k].range(), out@[first + 1 + k - middle].range()));
            }
        }
    }
    out
}

impl CursorCollection {
    /// At least one cursor, in order and apart.
    pub closed spec fn well_formed(&self) -> bool {
        self.cursors@.len() >= 1 && sorted_apart(self.cursors@)
    }

    pub proof fn lemma_well_formed(&self)
        requires
            self.well_formed(),
        ensures
            self@.len() >= 1,
            sorted_apart(self@),
    {
    }

    /// One cursor without a selection at the start of the buffer.
    pub fn new() -> (r: Self)
        ensures
            r.well_formed(),
            r@ == seq![Cursor {
                anchor: BufferPosition { line_index: 0, column_index: 0 },
                position: BufferPosition { line_index: 0, column_index: 0 },
            }],
    {
        let mut cursors: Vec<Cursor> = Vec::new();
        cursors.push(Cursor::zero());
        CursorCollection { cursors }
    }

    pub fn as_slice(&self) -> (r: &[Cursor])
        ensures
            r@ == self@,
    {
        self.cursors.as_slice()
    }

    /// The first cursor.
    pub fn main_cursor(&self) -> (r: Cursor)
        requires
            self.well_formed(),
        ensures
            r == self@[0],
    {
        self.cursors[0]
    }

    /// The same cursors, once more.
    pub fn copy(&self) -> (r: Self)
        requires
            self.well_formed(),
        ensures
            r.well_formed(),
            r@ == self@,
    {
        let mut cursors: Vec<Cursor> = Vec::new();
        let mut i: usize = 0;
        while i < self.cursors.len()
            invariant
                0 <= i <= self.cursors.len(),
                cursors@ == self.cursors@.take(i as int),
            decreases self.cursors.len() - i,
        {
            cursors.push(self.cursors[i]);
            assert(cursors@ =~= self.cursors@.take(i + 1));
            i = i + 1;
        }
        assert(self.cursors@.take(self.cursors@.len() as int) =~= self.cursors@);
        CursorCollection { cursors }
    }

    /// Replaces the cursors by the single cursor given.
    pub fn set_single(&mut self, cursor: Cursor)
        ensures
            final(self).well_formed(),
            final(self)@ == seq![cursor],
    {
        let mut cursors: Vec<Cursor> = Vec::new();
        cursors.push(cursor);
        self.cursors = cursors;
    }

    /// Replaces the cursors by those given, put in order, with cursors that
    /// touch merged into one. An empty list leaves one cursor at the start of
    /// the buffer.
    pub fn set(&mut self, cursors: &Vec<Cursor>)
        ensures
            final(self).well_formed(),
            final(self)@ == if cursors@.len() == 0 {
                seq![Cursor::at_zero()]
            } else {
                gathered(cursors@, cursors@.len() as int)
            },
            final(self)@.len() <= cursors@.len() || final(self)@.len() == 1,
            forall|i: int|
                0 <= i < cursors@.len() ==> covered(final(self)@, (#[trigger] cursors@[i]).range()),
            cursors@.len() == 0 ==> final(self)@ == seq![Cursor {
                anchor: BufferPosition { line_index: 0, column_index: 0 },
                position: BufferPosition { line_index: 0, column_index: 0 },
            }],
    {
        if cursors.len() == 0 {
            self.set_single(Cursor::zero());
            return ;
        }
        let mut out: Vec<Cursor> = Vec::new();
        let mut i: usize = 0;
        while i < cursors.len()
            invariant
                0 <= i <= cursors.len(),
                sorted_apart(out@),
                out@ == gathered(cursors@, i as int),
                out@.len() <= i,
                i > 0 ==> out@.len() >= 1,
                forall|k: int| 0 <= k < i ==> covered(out@, (#[trigger] cursors@[k]).range()),
            decreases cursors.len() - i,
        {
            let ghost before = out@;
            let next = insert_merged(&out, cursors[i]);
            proof {
                assert forall|k: int| 0 <= k < i + 1 implies covered(
                    next@,
                    (#[trigger] cursors@[k]).range(),
                ) by {
                    if k < i {
                        let w = choose|w: int|
                            0 <= w < before.len() && within(
                                cursors@[k].range(),
                                (#[trigger] before[w]).range(),
                            );
                        lemma_covered_through(next@, cursors@[k].range(), before[w].range());
                    }
                }
            }
            out = next;
            i = i + 1;
        }
        self.cursors = out;
    }
}

/// What lies within a covered range is covered.
proof fn lemma_covered_through(cursors: Seq<Cursor>, inner: BufferRange, outer: BufferRange)
    requires
        within(inner, outer),
        covered(cursors, outer),
    ensures
        covered(cursors, inner),
{
    let w = choose|w: int| 0 <= w < cursors.len() && within(outer, (#[trigger] cursors[w]).range());
    assert(within(inner, cursors[w].range()));
}

impl Default for CursorCollection {
    fn default() -> (r: Self)
        ensures
            r.well_formed(),
    {
        CursorCollection::new()
    }
}

} // verus!
