//! Views: what a client sees of a buffer, with the client's cursors in it.

use crate::connection::TargetClient;
use crate::cursor::{Cursor, CursorCollection};
use crate::events::BufferHandle;
use vstd::prelude::*;

verus! {

/// The stable number of a view.
#[derive(Debug, Clone, Copy, PartialEq, Eq, Structural, Hash)]
pub struct BufferViewHandle(pub u32);

pub struct BufferView {
    pub client: TargetClient,
    pub buffer_handle: BufferHandle,
    pub cursors: CursorCollection,
}

impl BufferView {
    /// A view of `buffer_handle` for `client`, with one cursor at the start.
    pub fn new(client: TargetClient, buffer_handle: BufferHandle) -> (r: Self)
        ensures
            r.client == client,
            r.buffer_handle == buffer_handle,
            r.cursors.well_formed(),
            r.cursors@ == seq![Cursor::at_zero()],
    {
        BufferView { client, buffer_handle, cursors: CursorCollection::new() }
    }

    /// A view of the same buffer with the same cursors, for another client.
    pub fn clone_with_target_client(&self, client: TargetClient) -> (r: Self)
        requires
            self.cursors.well_formed(),
        ensures
            r.client == client,
            r.buffer_handle == self.buffer_handle,
            r.cursors.well_formed(),
            r.cursors@ == self.cursors@,
    {
        BufferView { client, buffer_handle: self.buffer_handle, cursors: self.cursors.copy() }
    }
}

/// The table of the editor's views.
pub struct BufferViewCollection {
    pub views: Vec<Option<BufferView>>,
}

impl BufferViewCollection {
    /// Every view has at least one cursor, and there are no more views than
    /// handles.
    pub open spec fn well_formed(&self) -> bool {
        &&& self.views@.len() <= u32::MAX
        &&& forall|i: int|
            0 <= i < self.views@.len() && (#[trigger] self.views@[i]).is_some()
                ==> self.views@[i].unwrap().cursors.well_formed()
    }

    pub open spec fn contains(&self, handle: BufferViewHandle) -> bool {
        handle.0 < self.views@.len() && self.views@[handle.0 as int].is_some()
    }

    pub open spec fn view_of(&self, handle: BufferViewHandle) -> BufferView {
        self.views@[handle.0 as int].unwrap()
    }

    /// `handle` names a view of `buffer_handle` for `client`.
    pub open spec fn shows(
        &self,
        handle: BufferViewHandle,
        client: TargetClient,
        buffer_handle: BufferHandle,
    ) -> bool {
        self.contains(handle) && self.view_of(handle).client == client && self.view_of(handle).buffer_handle == buffer_handle
    }

    /// Nothing but the slot of `handle` differs between the two tables.
    pub open spec fn same_but(&self, other: &Self, handle: BufferViewHandle) -> bool {
        forall|h: BufferViewHandle|
            h != handle ==> self.contains(h) == other.contains(h) && (other.contains(h)
                ==> self.view_of(h) == other.view_of(h))
    }

    pub fn new() -> (r: Self)
        ensures
            r.well_formed(),
            r.views@.len() == 0,
    {
        BufferViewCollection { views: Vec::new() }
    }

    /// Stores the view in the first free slot and returns its handle; `None`
    /// where the table is full.
    pub fn add(&mut self, view: BufferView) -> (r: Option<BufferViewHandle>)
        requires
            old(self).well_formed(),
            view.cursors.well_formed(),
        ensures
            final(self).well_formed(),
            match r {
                Some(handle) => {
                    &&& !old(self).contains(handle)
                    &&& final(self).contains(handle)
                    &&& final(self).view_of(handle) == view
                    &&& final(self).same_but(old(self), handle)
                    &&& forall|i: int| 0 <= i < handle.0 ==> (#[trigger] old(self).views@[i]).is_some()
                },
                None => *final(self) == *old(self) && old(self).views@.len() == u32::MAX,
            },
    {
        let mut i: usize = 0;
        while i < self.views.len()
            invariant
                0 <= i <= self.views.len(),
                *self == *old(self),
                self.well_formed(),
                view.cursors.well_formed(),
                forall|j: int| 0 <= j < i ==> (#[trigger] self.views@[j]).is_some(),
            decreases self.views.len() - i,
        {
            if self.views[i].is_none() {
                self.views.set(i, Some(view));
                return Some(BufferViewHandle(i as u32));
            }
            i = i + 1;
        }
        if self.views.len() >= u32::MAX as usize {
            return None;
        }
        let handle = BufferViewHandle(self.views.len() as u32);
        self.views.push(Some(view));
        Some(handle)
    }

    pub fn get(&self, handle: BufferViewHandle) -> (r: Option<&BufferView>)
        ensures
            r.is_some() == self.contains(handle),
            r.is_some() ==> *r.unwrap() == self.view_of(handle),
    {
        if (handle.0 as usize) < self.views.len() {
            self.views[handle.0 as usize].as_ref()
        } else {
            None
        }
    }

    /// Removes the view that `handle` names, if there is one.
    pub fn remove(&mut self, handle: BufferViewHandle)
        requires
            old(self).well_formed(),
        ensures
            final(self).well_formed(),
            !final(self).contains(handle),
            final(self).same_but(old(self), handle),
    {
        if (handle.0 as usize) < self.views.len() {
            self.views.set(handle.0 as usize, None);
        }
    }

    /// The first view of `buffer_handle` for `client`.
    pub fn find(&self, client: TargetClient, buffer_handle: BufferHandle) -> (r: Option<
        BufferViewHandle,
    >)
        ensures
            match r {
                Some(handle) => self.shows(handle, client, buffer_handle) && forall|
                    h: BufferViewHandle,
                | h.0 < handle.0 ==> !self.shows(h, client, buffer_handle),
                None => forall|h: BufferViewHandle| !self.shows(h, client, buffer_handle),
            },
    {
        let mut i: usize = 0;
        while i < self.views.len()
            invariant
                0 <= i <= self.views.len(),
                forall|h: BufferViewHandle| h.0 < i ==> !self.shows(h, client, buffer_handle),
            decreases self.views.len() - i,
        {
            if let Some(view) = &self.views[i] {
                if view.client == client && view.buffer_handle == buffer_handle {
                    if i <= u32::MAX as usize {
                        return Some(BufferViewHandle(i as u32));
                    }
                }
            }
            i = i + 1;
        }
        None
    }

    /// The view of `buffer_handle` for `client`: the first one there is, or a
    /// new one with one cursor at the start. `None` where a new view is
    /// needed and the table is full.
    pub fn buffer_view_handle_from_buffer_handle(
        &mut self,
        client: TargetClient,
        buffer_handle: BufferHandle,
    ) -> (r: Option<BufferViewHandle>)
        requires
            old(self).well_formed(),
        ensures
            final(self).well_formed(),
            match r {
                Some(handle) => {
                    &&& final(self).shows(handle, client, buffer_handle)
                    &&& final(self).same_but(old(self), handle)
                    &&& old(self).contains(handle) ==> *final(self) == *old(self)
                    &&& !old(self).contains(handle) ==> final(self).view_of(handle).cursors@
                        == seq![Cursor::at_zero()] && forall|h: BufferViewHandle|
                        !old(self).shows(h, client, buffer_handle)
                },
                None => *final(self) == *old(self) && old(self).views@.len() == u32::MAX,
            },
    {
        match self.find(client, buffer_handle) {
            Some(handle) => Some(handle),
            None => self.add(BufferView::new(client, buffer_handle)),
        }
    }

    /// Gives the view that `handle` names the single cursor `cursor`. Returns
    /// whether there is such a view.
    pub fn set_cursor(&mut self, handle: BufferViewHandle, cursor: Cursor) -> (r: bool)
        requires
            old(self).well_formed(),
        ensures
            final(self).well_formed(),
            r == old(self).contains(handle),
            final(self).same_but(old(self), handle),
            r ==> final(self).contains(handle) && final(self).view_of(handle).cursors@
                == seq![cursor] && final(self).view_of(handle).client == old(self).view_of(handle).client && final(self).view_of(handle).buffer_handle == old(self).view_of(handle).buffer_handle,
            !r ==> *final(self) == *old(self),
    {
        if (handle.0 as usize) >= self.views.len() {
            return false;
        }
        let (client, buffer_handle) = match &self.views[handle.0 as usize] {
            Some(view) => (view.client, view.buffer_handle),
            None => {
                return false;
            },
        };
        let mut view = BufferView::new(client, buffer_handle);
        view.cursors.set_single(cursor);
        self.views.set(handle.0 as usize, Some(view));
        true
    }
}

impl Default for BufferViewCollection {
    fn default() -> (r: Self)
        ensures
            r.well_formed(),
            r.views@.len() == 0,
    {
        BufferViewCollection::new()
    }
}

} // verus!
