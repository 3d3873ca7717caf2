//! What happened to the editor's buffers, queued for those who follow them.

use crate::buffer_position::BufferRange;
use crate::connection::TargetClient;
use vstd::prelude::*;

verus! {

/// The stable number of a buffer.
#[derive(Debug, Clone, Copy, PartialEq, Eq, Structural, Hash)]
pub struct BufferHandle(pub u32);

/// Something that happened in the editor.
pub enum EditorEvent {
    Idle,
    BufferLoad { handle: BufferHandle },
    BufferInsertText { handle: BufferHandle, range: BufferRange, text: String },
    BufferDeleteText { handle: BufferHandle, range: BufferRange },
    BufferSave { handle: BufferHandle, new_path: bool },
    BufferClose { handle: BufferHandle },
    ClientChangeBufferView { client: TargetClient },
}

/// An event with its text as a sequence of characters.
pub enum EditorEventView {
    Idle,
    BufferLoad { handle: BufferHandle },
    BufferInsertText { handle: BufferHandle, range: BufferRange, text: Seq<char> },
    BufferDeleteText { handle: BufferHandle, range: BufferRange },
    BufferSave { handle: BufferHandle, new_path: bool },
    BufferClose { handle: BufferHandle },
    ClientChangeBufferView { client: TargetClient },
}

impl View for EditorEvent {
    type V = EditorEventView;

    open spec fn view(&self) -> EditorEventView {
        match self {
            EditorEvent::Idle => EditorEventView::Idle,
            EditorEvent::BufferLoad { handle } => EditorEventView::BufferLoad { handle: *handle },
            EditorEvent::BufferInsertText { handle, range, text } => {
                EditorEventView::BufferInsertText { handle: *handle, range: *range, text: text@ }
            },
            EditorEvent::BufferDeleteText { handle, range } => EditorEventView::BufferDeleteText {
                handle: *handle,
                range: *range,
            },
            EditorEvent::BufferSave { handle, new_path } => EditorEventView::BufferSave {
                handle: *handle,
                new_path: *new_path,
            },
            EditorEvent::BufferClose { handle } => EditorEventView::BufferClose { handle: *handle },
            EditorEvent::ClientChangeBufferView { client } => {
                EditorEventView::ClientChangeBufferView { client: *client }
            },
        }
    }
}

/// The views of a list of events.
pub open spec fn event_views(events: Seq<EditorEvent>) -> Seq<EditorEventView> {
    Seq::new(events.len(), |i: int| events[i]@)
}

/// Two queues of events: one that is being filled, and one that is being
/// read. `flip` hands what was filled over to the readers.
pub struct EditorEventQueue {
    pub read: Vec<EditorEvent>,
    pub write: Vec<EditorEvent>,
}

impl EditorEventQueue {
    /// The events that are being read.
    pub open spec fn reading(&self) -> Seq<EditorEventView> {
        event_views(self.read@)
    }

    /// The events that were queued since the last flip.
    pub open spec fn pending(&self) -> Seq<EditorEventView> {
        event_views(self.write@)
    }

    pub fn new() -> (r: Self)
        ensures
            r.reading() == Seq::<EditorEventView>::empty(),
            r.pending() == Seq::<EditorEventView>::empty(),
    {
        let r = EditorEventQueue { read: Vec::new(), write: Vec::new() };
        assert(r.reading() =~= Seq::<EditorEventView>::empty());
        assert(r.pending() =~= Seq::<EditorEventView>::empty());
        r
    }

    /// Queues an event behind those that are pending.
    pub fn enqueue(&mut self, event: EditorEvent)
        ensures
            final(self).pending() == old(self).pending().push(event@),
            final(self).reading() == old(self).reading(),
    {
        self.write.push(event);
        assert(self.pending() =~= old(self).pending().push(event@));
    }

    /// Drops what was being read, and makes the pending events readable.
    pub fn flip(&mut self)
        ensures
            final(self).reading() == old(self).pending(),
            final(self).pending() == Seq::<EditorEventView>::empty(),
    {
        let mut fresh: Vec<EditorEvent> = Vec::new();
        core::mem::swap(&mut self.write, &mut fresh);
        self.read = fresh;
        assert(self.pending() =~= Seq::<EditorEventView>::empty());
    }

    /// The events that are being read, oldest first.
    pub fn events(&self) -> (r: &Vec<EditorEvent>)
        ensures
            event_views(r@) == self.reading(),
    {
        &self.read
    }
}

impl Default for EditorEventQueue {
    fn default() -> (r: Self)
        ensures
            r.reading() == Seq::<EditorEventView>::empty(),
            r.pending() == Seq::<EditorEventView>::empty(),
    {
        EditorEventQueue::new()
    }
}

} // verus!
