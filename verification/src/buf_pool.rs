//! A pool of byte buffers that are written once, shared by count, and
//! taken back into the pool when the last share is released.

use vstd::prelude::*;

verus! {

/// What a slot of the pool is used for.
#[derive(Clone, Copy, PartialEq, Eq, Structural)]
pub enum BufState {
    /// The buffer waits to be acquired.
    Free,
    /// The buffer is being written by the one who acquired it.
    Writing,
    /// The buffer is frozen and shared by this many holders.
    Shared(usize),
}

/// The right to write a buffer of the pool. It cannot be copied: whoever
/// holds it writes alone, and shares the buffer at most once.
pub struct WriteBuf {
    slot: usize,
}

/// A share of a frozen buffer of the pool.
pub struct SharedBuf {
    slot: usize,
}

/// The pool: the buffers by slot, and what each slot is used for.
pub struct BufPool {
    bufs: Vec<Vec<u8>>,
    states: Vec<BufState>,
}

impl WriteBuf {
    /// The slot of the buffer.
    pub closed spec fn slot(&self) -> int {
        self.slot as int
    }
}

impl SharedBuf {
    /// The slot of the buffer.
    pub closed spec fn slot(&self) -> int {
        self.slot as int
    }
}

/// The place of the first free slot from `from` on, or the number of slots.
pub open spec fn first_free(states: Seq<BufState>, from: int) -> int
    decreases states.len() - from,
{
    if from < 0 || from >= states.len() {
        states.len() as int
    } else if states[from] == BufState::Free {
        from
    } else {
        first_free(states, from + 1)
    }
}

impl BufPool {
    /// What each slot is used for.
    pub closed spec fn states(&self) -> Seq<BufState> {
        self.states@
    }

    /// What the buffer of a slot holds.
    pub closed spec fn contents(&self, slot: int) -> Seq<u8> {
        self.bufs@[slot]@
    }

    /// Every slot has a buffer; free buffers are empty, and a shared buffer
    /// has at least one holder.
    pub closed spec fn well_formed(&self) -> bool {
        &&& self.bufs@.len() == self.states@.len()
        &&& forall|i: int|
            0 <= i < self.states@.len() ==> match #[trigger] self.states@[i] {
                BufState::Free => self.bufs@[i]@.len() == 0,
                BufState::Writing => true,
                BufState::Shared(count) => count > 0,
            }
    }

    /// Whether the right to write belongs to a buffer that is being written.
    pub open spec fn is_writing(&self, buf: &WriteBuf) -> bool {
        0 <= buf.slot() < self.states().len() && self.states()[buf.slot()] == BufState::Writing
    }

    /// Whether the share belongs to a buffer that is shared.
    pub open spec fn is_shared(&self, buf: &SharedBuf) -> bool {
        0 <= buf.slot() < self.states().len() && self.states()[buf.slot()] is Shared
    }

    /// Nothing but the slot `slot` differs between the two pools.
    pub open spec fn same_but(&self, other: &BufPool, slot: int) -> bool {
        &&& self.states().len() >= other.states().len()
        &&& forall|i: int|
            0 <= i < other.states().len() && i != slot ==> self.states()[i] == other.states()[i]
                && self.contents(i) == other.contents(i)
    }

    /// A pool without buffers.
    pub fn new() -> (r: Self)
        ensures
            r.well_formed(),
            r.states().len() == 0,
    {
        BufPool { bufs: Vec::new(), states: Vec::new() }
    }

    /// Hands out the first free buffer, or a new one where none is free,
    /// to be written. The buffer is empty.
    pub fn acquire(&mut self) -> (r: WriteBuf)
        requires
            old(self).well_formed(),
        ensures
            final(self).well_formed(),
            r.slot() == first_free(old(self).states(), 0),
            final(self).is_writing(&r),
            final(self).contents(r.slot()).len() == 0,
            final(self).same_but(old(self), r.slot()),
            final(self).states().len() == if r.slot() < old(self).states().len() {
                old(self).states().len()
            } else {
                old(self).states().len() + 1
            },
    {
        let mut i: usize = 0;
        while i < self.states.len()
            invariant
                0 <= i <= self.states.len(),
                *self == *old(self),
                self.well_formed(),
                first_free(self.states@, 0) == first_free(self.states@, i as int),
            decreases self.states.len() - i,
        {
            match self.states[i] {
                BufState::Free => {
                    self.states.set(i, BufState::Writing);
                    return WriteBuf { slot: i };
                },
                _ => {},
            }
            i = i + 1;
        }
        self.bufs.push(Vec::new());
        self.states.push(BufState::Writing);
        WriteBuf { slot: i }
    }

    /// Appends bytes to a buffer that is being written.
    pub fn write(&mut self, buf: &WriteBuf, bytes: &[u8])
        requires
            old(self).well_formed(),
            old(self).is_writing(buf),
        ensures
            final(self).well_formed(),
            final(self).states() == old(self).states(),
            final(self).contents(buf.slot()) == old(self).contents(buf.slot()) + bytes@,
            final(self).same_but(old(self), buf.slot()),
    {
        let mut taken: Vec<u8> = Vec::new();
        core::mem::swap(&mut self.bufs[buf.slot], &mut taken);
        let ghost held = taken@;
        let mut i: usize = 0;
        while i < bytes.len()
            invariant
                0 <= i <= bytes.len(),
                taken@ == held + bytes@.take(i as int),
            decreases bytes.len() - i,
        {
            taken.push(bytes[i]);
            i = i + 1;
            assert(taken@ =~= held + bytes@.take(i as int));
        }
        assert(bytes@.take(bytes@.len() as int) =~= bytes@);
        self.bufs.set(buf.slot, taken);
    }

    /// Freezes a buffer that was written; the one who wrote it is its
    /// first holder.
    pub fn share(&mut self, buf: WriteBuf) -> (r: SharedBuf)
        requires
            old(self).well_formed(),
            old(self).is_writing(&buf),
        ensures
            final(self).well_formed(),
            r.slot() == buf.slot(),
            final(self).states() == old(self).states().update(buf.slot(), BufState::Shared(1)),
            final(self).contents(r.slot()) == old(self).contents(buf.slot()),
            final(self).same_but(old(self), buf.slot()),
    {
        self.states.set(buf.slot, BufState::Shared(1));
        SharedBuf { slot: buf.slot }
    }

    /// One more share of a buffer; `None`, with nothing changed, where the
    /// holders cannot be counted any further.
    pub fn retain(&mut self, buf: &SharedBuf) -> (r: Option<SharedBuf>)
        requires
            old(self).well_formed(),
            old(self).is_shared(buf),
        ensures
            final(self).well_formed(),
            final(self).same_but(old(self), buf.slot()),
            final(self).contents(buf.slot()) == old(self).contents(buf.slot()),
            match (r, old(self).states()[buf.slot()]) {
                (Some(share), BufState::Shared(count)) => count < usize::MAX && share.slot()
                    == buf.slot() && final(self).states() == old(self).states().update(
                    buf.slot(),
                    BufState::Shared((count + 1) as usize),
                ),
                (None, BufState::Shared(count)) => count == usize::MAX && final(self).states()
                    == old(self).states(),
                _ => false,
            },
    {
        match self.states[buf.slot] {
            BufState::Shared(count) => {
                if count < usize::MAX {
                    self.states.set(buf.slot, BufState::Shared(count + 1));
                    Some(SharedBuf { slot: buf.slot })
                } else {
                    None
                }
            },
            _ => None,
        }
    }

    /// What a shared buffer holds.
    pub fn bytes(&self, buf: &SharedBuf) -> (r: &[u8])
        requires
            self.well_formed(),
            self.is_shared(buf),
        ensures
            r@ == self.contents(buf.slot()),
    {
        self.bufs[buf.slot].as_slice()
    }

    /// Gives a share back. The buffer of the last share is emptied and
    /// free again.
    pub fn release(&mut self, buf: SharedBuf)
        requires
            old(self).well_formed(),
            old(self).is_shared(&buf),
        ensures
            final(self).well_formed(),
            final(self).same_but(old(self), buf.slot()),
            final(self).states().len() == old(self).states().len(),
            match old(self).states()[buf.slot()] {
                BufState::Shared(count) => if count > 1 {
                    final(self).states()[buf.slot()] == BufState::Shared((count - 1) as usize)
                        && final(self).contents(buf.slot()) == old(self).contents(buf.slot())
                } else {
                    final(self).states()[buf.slot()] == BufState::Free && final(self).contents(
                        buf.slot(),
                    ).len() == 0
                },
                _ => false,
            },
    {
        match self.states[buf.slot] {
            BufState::Shared(count) => {
                if count > 1 {
                    self.states.set(buf.slot, BufState::Shared(count - 1));
                } else {
                    let mut taken: Vec<u8> = Vec::new();
                    core::mem::swap(&mut self.bufs[buf.slot], &mut taken);
                    taken.clear();
                    self.bufs.set(buf.slot, taken);
                    self.states.set(buf.slot, BufState::Free);
                }
            },
            _ => {},
        }
    }
}

impl Default for BufPool {
    fn default() -> (r: Self)
        ensures
            r.well_formed(),
            r.states().len() == 0,
    {
        BufPool::new()
    }
}

} // verus!
