//! Connections to remote clients, kept in numbered slots that are handed out
//! again once a connection is gone.

use vstd::prelude::*;

verus! {

/// Whom an event comes from or goes to.
#[derive(Clone, Copy, Eq, PartialEq, Structural)]
pub enum TargetClient {
    All,
    Local,
    Remote(RemoteConnectionWithClientHandle),
}

/// The number of the slot that holds a connection. It stays the same for as
/// long as the connection lives.
#[derive(Clone, Copy, Eq, PartialEq, Structural)]
pub struct RemoteConnectionWithClientHandle(usize);

pub struct RemoteConnectionWithClient {}

pub struct RemoteConnectionWithServer {}

pub struct RemoteConnectionWithClientCollection {
    connections: Vec<Option<RemoteConnectionWithClient>>,
    free_slots: Vec<RemoteConnectionWithClientHandle>,
}

impl RemoteConnectionWithClientHandle {
    /// The number of the slot.
    pub closed spec fn index(self) -> int {
        self.0 as int
    }

    /// The handle of the slot `index`.
    pub closed spec fn of_index(index: usize) -> Self {
        RemoteConnectionWithClientHandle(index)
    }

    /// A handle is the handle of its slot, and a slot has one handle.
    pub broadcast proof fn lemma_index(self)
        ensures
            #[trigger] Self::of_index(self.index() as usize) == self,
            0 <= self.index() <= usize::MAX,
    {
    }

    /// The handle of a slot names that slot.
    pub broadcast proof fn lemma_of_index(index: usize)
        ensures
            (#[trigger] Self::of_index(index)).index() == index,
    {
    }

    pub fn into_index(self) -> (r: usize)
        ensures
            r == self.index(),
    {
        self.0
    }

    pub fn from_index(index: usize) -> (r: Self)
        ensures
            r.index() == index,
            r == Self::of_index(index),
    {
        RemoteConnectionWithClientHandle(index)
    }
}

impl RemoteConnectionWithClientCollection {
    /// The number of slots, free ones included.
    pub closed spec fn slots(&self) -> int {
        self.connections@.len() as int
    }

    /// The handles of the empty slots, in the order in which they were
    /// freed: the one freed last stands last, and is taken first.
    pub closed spec fn free_list(&self) -> Seq<RemoteConnectionWithClientHandle> {
        self.free_slots@
    }

    /// Whether `handle` names a live connection.
    pub closed spec fn is_live(&self, handle: RemoteConnectionWithClientHandle) -> bool {
        handle.0 < self.connections@.len() && self.connections@[handle.0 as int].is_some()
    }

    /// The free list names each empty slot exactly once, and nothing else.
    pub closed spec fn well_formed(&self) -> bool {
        &&& forall|i: int|
            0 <= i < self.free_slots@.len() ==> (#[trigger] self.free_slots@[i]).0
                < self.connections@.len() && self.connections@[self.free_slots@[i].0 as int].is_none()
        &&& forall|i: int, j: int|
            0 <= i < j < self.free_slots@.len() ==> (#[trigger] self.free_slots@[i]).0
                != (#[trigger] self.free_slots@[j]).0
        &&& forall|k: int|
            0 <= k < self.connections@.len() && (#[trigger] self.connections@[k]).is_none()
                ==> exists|i: int|
                0 <= i < self.free_slots@.len() && (#[trigger] self.free_slots@[i]).0 == k
    }

    pub fn new() -> (r: Self)
        ensures
            r.well_formed(),
            r.slots() == 0,
            r.free_list().len() == 0,
            forall|h: RemoteConnectionWithClientHandle| !r.is_live(h),
    {
        RemoteConnectionWithClientCollection { connections: Vec::new(), free_slots: Vec::new() }
    }

    /// Stores `connection` in a slot that held none, and returns its handle:
    /// the slot that was freed last, if a slot is free, else a new slot at
    /// the end.
    pub fn add(&mut self, connection: RemoteConnectionWithClient) -> (handle:
        RemoteConnectionWithClientHandle)
        requires
            old(self).well_formed(),
        ensures
            final(self).well_formed(),
            handle == if old(self).free_list().len() > 0 {
                old(self).free_list().last()
            } else {
                RemoteConnectionWithClientHandle::of_index(old(self).slots() as usize)
            },
            final(self).free_list() == if old(self).free_list().len() > 0 {
                old(self).free_list().drop_last()
            } else {
                old(self).free_list()
            },
            !old(self).is_live(handle),
            final(self).is_live(handle),
            forall|h: RemoteConnectionWithClientHandle|
                h != handle ==> final(self).is_live(h) == old(self).is_live(h),
            old(self).slots() <= final(self).slots() <= old(self).slots() + 1,
            handle.index() < final(self).slots(),
            (exists|h: RemoteConnectionWithClientHandle|
                0 <= h.index() < old(self).slots() && !old(self).is_live(h)) ==> final(self).slots() == old(self).slots(),
    {
        match self.free_slots.pop() {
            Some(handle) => {
                proof {
                    let last = old(self).free_slots@.len() - 1;
                    assert(old(self).free_slots@[last] == handle);
                    assert(self.free_slots@ =~= old(self).free_slots@.drop_last());
                    assert forall|i: int| 0 <= i < self.free_slots@.len() implies (
                    #[trigger] self.free_slots@[i]).0 != handle.0 by {
                        assert(self.free_slots@[i] == old(self).free_slots@[i]);
                    }
                }
                self.connections.set(handle.0, Some(connection));
                proof {
                    assert forall|i: int| 0 <= i < self.free_slots@.len() implies (
                    #[trigger] self.free_slots@[i]).0 < self.connections@.len()
                        && self.connections@[self.free_slots@[i].0 as int].is_none() by {
                        assert(self.free_slots@[i] == old(self).free_slots@[i]);
                    }
                    assert forall|k: int|
                        0 <= k < self.connections@.len() && (
                        #[trigger] self.connections@[k]).is_none() implies exists|i: int|
                        0 <= i < self.free_slots@.len() && (#[trigger] self.free_slots@[i]).0
                            == k by {
                        assert(old(self).connections@[k].is_none());
                        let i = choose|i: int|
                            0 <= i < old(self).free_slots@.len() && (
                            #[trigger] old(self).free_slots@[i]).0 == k;
                        assert(self.free_slots@[i] == old(self).free_slots@[i]);
                    }
                    assert forall|h: RemoteConnectionWithClientHandle| h != handle implies self.is_live(h)
                        == old(self).is_live(h) by {
                        assert(h.0 != handle.0);
                    }
                }
                handle
            },
            None => {
                let index = self.connections.len();
                self.connections.push(Some(connection));
                proof {
                    assert forall|k: int| 0 <= k < old(self).connections@.len() implies (
                    #[trigger] old(self).connections@[k]).is_some() by {
                        if old(self).connections@[k].is_none() {
                            let i = choose|i: int|
                                0 <= i < old(self).free_slots@.len() && (
                                #[trigger] old(self).free_slots@[i]).0 == k;
                            assert(false);
                        }
                    }
                    assert forall|h: RemoteConnectionWithClientHandle|
                        0 <= h.index() < old(self).slots() implies old(self).is_live(h) by {
                        assert(old(self).connections@[h.0 as int].is_some());
                    }
                    assert forall|h: RemoteConnectionWithClientHandle|
                        h != RemoteConnectionWithClientHandle(index) implies self.is_live(h)
                        == old(self).is_live(h) by {
                        assert(h.0 != index);
                    }
                }
                RemoteConnectionWithClientHandle(index)
            },
        }
    }

    /// Empties the slot of a live connection and puts it on the free list.
    pub fn remove(&mut self, handle: RemoteConnectionWithClientHandle)
        requires
            old(self).well_formed(),
            old(self).is_live(handle),
        ensures
            final(self).well_formed(),
            final(self).free_list() == old(self).free_list().push(handle),
            !final(self).is_live(handle),
            forall|h: RemoteConnectionWithClientHandle|
                h != handle ==> final(self).is_live(h) == old(self).is_live(h),
            final(self).slots() == old(self).slots(),
    {
        self.connections.set(handle.0, None);
        self.free_slots.push(handle);
        proof {
            let n = old(self).free_slots@.len() as int;
            assert(self.free_slots@[n] == handle);
            assert forall|i: int| 0 <= i < self.free_slots@.len() implies (
            #[trigger] self.free_slots@[i]).0 < self.connections@.len()
                && self.connections@[self.free_slots@[i].0 as int].is_none() by {
                if i < n {
                    assert(self.free_slots@[i] == old(self).free_slots@[i]);
                }
            }
            assert forall|i: int, j: int| 0 <= i < j < self.free_slots@.len() implies (
            #[trigger] self.free_slots@[i]).0 != (#[trigger] self.free_slots@[j]).0 by {
                assert(self.free_slots@[i] == old(self).free_slots@[i]);
                if j < n {
                    assert(self.free_slots@[j] == old(self).free_slots@[j]);
                }
            }
            assert forall|k: int|
                0 <= k < self.connections@.len() && (
                #[trigger] self.connections@[k]).is_none() implies exists|i: int|
                0 <= i < self.free_slots@.len() && (#[trigger] self.free_slots@[i]).0 == k by {
                if k == handle.0 {
                    assert(self.free_slots@[n].0 == k);
                } else {
                    assert(old(self).connections@[k].is_none());
                    let i = choose|i: int|
                        0 <= i < old(self).free_slots@.len() && (
                        #[trigger] old(self).free_slots@[i]).0 == k;
                    assert(self.free_slots@[i] == old(self).free_slots@[i]);
                }
            }
            assert forall|h: RemoteConnectionWithClientHandle| h != handle implies self.is_live(h) == old(self).is_live(h) by {
                assert(h.0 != handle.0);
            }
        }
    }

    /// The connection in the slot of `handle`, if the slot holds one.
    pub fn get(&self, handle: RemoteConnectionWithClientHandle) -> (r: Option<
        &RemoteConnectionWithClient,
    >)
        ensures
            r.is_some() == self.is_live(handle),
    {
        if handle.0 < self.connections.len() {
            self.connections[handle.0].as_ref()
        } else {
            None
        }
    }
}

impl Default for RemoteConnectionWithClientCollection {
    fn default() -> (r: Self)
        ensures
            r.well_formed(),
            r.slots() == 0,
            r.free_list().len() == 0,
    {
        RemoteConnectionWithClientCollection::new()
    }
}

} // verus!
