//! Buffers: a text with a path, capabilities and an undo history, and the
//! table that owns all buffers of the editor.

use crate::buffer_content::{
    clamped,
    deleted,
    end_of_insert,
    inserted,
    ordered,
    text_between,
    BufferContent,
};
use crate::buffer_position::{BufferPosition, BufferRange};
use crate::events::{EditorEvent, EditorEventQueue, EditorEventView, BufferHandle};
use crate::history::{committed, redone, undone, with_edit, Edit, EditKind, EditView, History};
use crate::text::same_text;
use vstd::prelude::*;

verus! {

/// What may be done with a buffer.
#[derive(Debug, Clone, Copy, PartialEq, Eq, Structural)]
pub struct BufferCapabilities {
    pub can_save: bool,
    pub auto_close: bool,
    pub is_log: bool,
}

impl BufferCapabilities {
    /// The capabilities of a buffer that holds a file: it can be saved.
    pub fn text() -> (r: Self)
        ensures
            r == (BufferCapabilities { can_save: true, auto_close: false, is_log: false }),
    {
        BufferCapabilities { can_save: true, auto_close: false, is_log: false }
    }

    /// The capabilities of a buffer that holds a log: it is never saved.
    pub fn log() -> (r: Self)
        ensures
            r == (BufferCapabilities { can_save: false, auto_close: false, is_log: true }),
    {
        BufferCapabilities { can_save: false, auto_close: false, is_log: true }
    }
}

pub struct Buffer {
    pub handle: BufferHandle,
    pub path: String,
    pub content: BufferContent,
    pub capabilities: BufferCapabilities,
    pub history: History,
    pub needs_save: bool,
}

/// The content after an edit was applied at the places nearest to its ends.
pub open spec fn content_after(c: Seq<Seq<char>>, e: EditView) -> Seq<Seq<char>> {
    match e.kind {
        EditKind::Insert => inserted(c, clamped(c, e.range.from), e.text),
        EditKind::Delete => {
            let span = ordered(clamped(c, e.range.from), clamped(c, e.range.to));
            deleted(c, span.from, span.to)
        },
    }
}

/// The content after the edits were applied in order.
pub open spec fn content_after_all(c: Seq<Seq<char>>, edits: Seq<EditView>) -> Seq<Seq<char>>
    decreases edits.len(),
{
    if edits.len() == 0 {
        c
    } else {
        content_after(content_after_all(c, edits.drop_last()), edits.last())
    }
}

/// The event that tells of an edit to the buffer `handle`.
pub open spec fn event_of(handle: BufferHandle, c: Seq<Seq<char>>, e: EditView) -> EditorEventView {
    match e.kind {
        EditKind::Insert => EditorEventView::BufferInsertText {
            handle,
            range: BufferRange {
                from: clamped(c, e.range.from),
                to: end_of_insert(clamped(c, e.range.from), e.text),
            },
            text: e.text,
        },
        EditKind::Delete => EditorEventView::BufferDeleteText {
            handle,
            range: ordered(clamped(c, e.range.from), clamped(c, e.range.to)),
        },
    }
}

/// The events that tell of the edits, applied in order from the content `c`.
pub open spec fn events_of(handle: BufferHandle, c: Seq<Seq<char>>, edits: Seq<EditView>) -> Seq<
    EditorEventView,
>
    decreases edits.len(),
{
    if edits.len() == 0 {
        Seq::empty()
    } else {
        events_of(handle, c, edits.drop_last()).push(
            event_of(handle, content_after_all(c, edits.drop_last()), edits.last()),
        )
    }
}

/// What inserting `text` at `position` for the cursor `cursor_index` makes
/// of a buffer and of the queue of events, and the range `r` that it fills.
pub open spec fn text_inserted(
    b0: &Buffer,
    b1: &Buffer,
    q0: &EditorEventQueue,
    q1: &EditorEventQueue,
    position: BufferPosition,
    text: Seq<char>,
    cursor_index: u8,
    r: BufferRange,
) -> bool {
    &&& b1.handle == b0.handle
    &&& b1.path == b0.path
    &&& b1.capabilities == b0.capabilities
    &&& r.from == clamped(b0.content@, position)
    &&& q1.reading() == q0.reading()
    &&& if text.len() == 0 {
        r.to == r.from && *b1 == *b0 && q1.pending() == q0.pending()
    } else {
        &&& r.to == end_of_insert(r.from, text)
        &&& b1.content@ == inserted(b0.content@, r.from, text)
        &&& b1.needs_save
        &&& b1.history@ == with_edit(
            b0.history@,
            EditView { kind: EditKind::Insert, range: r, text, cursor_index },
        )
        &&& q1.pending() == q0.pending().push(
            EditorEventView::BufferInsertText { handle: b0.handle, range: r, text },
        )
    }
}

/// What deleting `range` for the cursor `cursor_index` makes of a buffer and
/// of the queue of events, and the range `r` that it empties.
pub open spec fn range_deleted(
    b0: &Buffer,
    b1: &Buffer,
    q0: &EditorEventQueue,
    q1: &EditorEventQueue,
    range: BufferRange,
    cursor_index: u8,
    r: BufferRange,
) -> bool {
    &&& b1.handle == b0.handle
    &&& b1.path == b0.path
    &&& b1.capabilities == b0.capabilities
    &&& r == ordered(clamped(b0.content@, range.from), clamped(b0.content@, range.to))
    &&& q1.reading() == q0.reading()
    &&& if r.from == r.to {
        *b1 == *b0 && q1.pending() == q0.pending()
    } else {
        &&& b1.content@ == deleted(b0.content@, r.from, r.to)
        &&& b1.needs_save
        &&& b1.history@ == with_edit(
            b0.history@,
            EditView {
                kind: EditKind::Delete,
                range: r,
                text: text_between(b0.content@, r.from, r.to),
                cursor_index,
            },
        )
        &&& q1.pending() == q0.pending().push(
            EditorEventView::BufferDeleteText { handle: b0.handle, range: r },
        )
    }
}

impl Buffer {
    pub open spec fn well_formed(&self) -> bool {
        self.content.well_formed() && self.history.well_formed()
    }

    /// An empty buffer without a path, which can be saved.
    pub fn new(handle: BufferHandle) -> (r: Self)
        ensures
            r.well_formed(),
            r.handle == handle,
            r.path@ == Seq::<char>::empty(),
            r.content@ == seq![Seq::<char>::empty()],
            r.capabilities == (BufferCapabilities {
                can_save: true,
                auto_close: false,
                is_log: false,
            }),
            !r.needs_save,
            r.history@.edits.len() == 0,
    {
        Buffer {
            handle,
            path: String::new(),
            content: BufferContent::new(),
            capabilities: BufferCapabilities::text(),
            history: History::new(),
            needs_save: false,
        }
    }

    pub fn handle(&self) -> (r: BufferHandle)
        ensures
            r == self.handle,
    {
        self.handle
    }

    pub fn path(&self) -> (r: &str)
        ensures
            r@ == self.path@,
    {
        self.path.as_str()
    }

    pub fn set_path(&mut self, path: &str)
        ensures
            final(self).path@ == path@,
            final(self).handle == old(self).handle,
            final(self).content == old(self).content,
            final(self).capabilities == old(self).capabilities,
            final(self).history == old(self).history,
            final(self).needs_save == old(self).needs_save,
    {
        self.path = String::from_str(path);
    }

    pub fn content(&self) -> (r: &BufferContent)
        ensures
            *r == self.content,
    {
        &self.content
    }

    pub fn needs_save(&self) -> (r: bool)
        ensures
            r == self.needs_save,
    {
        self.needs_save
    }

    /// Inserts `text` at the place nearest to `position`, records the edit
    /// for `cursor_index` in the history, queues the event, and returns the
    /// range that the text fills. An empty text changes nothing.
    pub fn insert_text(
        &mut self,
        position: BufferPosition,
        text: &str,
        cursor_index: u8,
        events: &mut EditorEventQueue,
    ) -> (r: BufferRange)
        requires
            old(self).well_formed(),
        ensures
            final(self).well_formed(),
            final(self).handle == old(self).handle,
            final(self).path == old(self).path,
            final(self).capabilities == old(self).capabilities,
            text_inserted(
                old(self),
                final(self),
                old(events),
                final(events),
                position,
                text@,
                cursor_index,
                r,
            ),
            r.from == clamped(old(self).content@, position),
            text@.len() == 0 ==> r.to == r.from && *final(self) == *old(self) && *final(events)
                == *old(events),
            text@.len() > 0 ==> {
                &&& r.to == end_of_insert(r.from, text@)
                &&& final(self).content@ == inserted(old(self).content@, r.from, text@)
                &&& final(self).needs_save
                &&& final(self).history@ == with_edit(
                    old(self).history@,
                    EditView { kind: EditKind::Insert, range: r, text: text@, cursor_index },
                )
                &&& final(events).pending() == old(events).pending().push(
                    EditorEventView::BufferInsertText { handle: old(self).handle, range: r, text: text@ },
                )
                &&& final(events).reading() == old(events).reading()
            },
    {
        if text.unicode_len() == 0 {
            let from = self.content.clamp_position(position);
            return BufferRange { from, to: from };
        }
        let range = self.content.insert_text(position, text);
        self.needs_save = true;
        self.history.add_edit(Edit { kind: EditKind::Insert, range, text, cursor_index });
        events.enqueue(
            EditorEvent::BufferInsertText {
                handle: self.handle,
                range,
                text: String::from_str(text),
            },
        );
        range
    }

    /// Deletes what stands between the places nearest to the ends of `range`,
    /// records the edit for `cursor_index` in the history, queues the event,
    /// and returns the range that was emptied. An empty range changes nothing.
    pub fn delete_range(
        &mut self,
        range: BufferRange,
        cursor_index: u8,
        events: &mut EditorEventQueue,
    ) -> (r: BufferRange)
        requires
            old(self).well_formed(),
        ensures
            final(self).well_formed(),
            final(self).handle == old(self).handle,
            final(self).path == old(self).path,
            final(self).capabilities == old(self).capabilities,
            range_deleted(
                old(self),
                final(self),
                old(events),
                final(events),
                range,
                cursor_index,
                r,
            ),
            r == ordered(
                clamped(old(self).content@, range.from),
                clamped(old(self).content@, range.to),
            ),
            r.from == r.to ==> *final(self) == *old(self) && *final(events) == *old(events),
            r.from != r.to ==> {
                &&& final(self).content@ == deleted(old(self).content@, r.from, r.to)
                &&& final(self).needs_save
                &&& final(self).history@ == with_edit(
                    old(self).history@,
                    EditView {
                        kind: EditKind::Delete,
                        range: r,
                        text: text_between(old(self).content@, r.from, r.to),
                        cursor_index,
                    },
                )
                &&& final(events).pending() == old(events).pending().push(
                    EditorEventView::BufferDeleteText { handle: old(self).handle, range: r },
                )
                &&& final(events).reading() == old(events).reading()
            },
    {
        let a = self.content.clamp_position(range.from);
        let b = self.content.clamp_position(range.to);
        let span = BufferRange::between(a, b);
        if span.from == span.to {
            return span;
        }
        let (range, text) = self.content.delete_range(span);
        self.needs_save = true;
        self.history.add_edit(
            Edit { kind: EditKind::Delete, range, text: text.as_str(), cursor_index },
        );
        events.enqueue(EditorEvent::BufferDeleteText { handle: self.handle, range });
        range
    }

    /// Closes the open group of the history.
    pub fn commit_edits(&mut self)
        requires
            old(self).well_formed(),
        ensures
            final(self).well_formed(),
            final(self).history@ == committed(old(self).history@),
            final(self).handle == old(self).handle,
            final(self).path == old(self).path,
            final(self).content == old(self).content,
            final(self).capabilities == old(self).capabilities,
            final(self).needs_save == old(self).needs_save,
    {
        self.history.commit_edits();
    }

    /// Steps the history one group back and applies the edits that undo the
    /// group to the content, queueing an event for each. Returns the kind and
    /// the range of each edit as it was applied.
    pub fn undo(&mut self, events: &mut EditorEventQueue) -> (r: Vec<(EditKind, BufferRange)>)
        requires
            old(self).well_formed(),
        ensures
            final(self).well_formed(),
            final(self).handle == old(self).handle,
            final(self).path == old(self).path,
            final(self).capabilities == old(self).capabilities,
            final(self).needs_save == (old(self).needs_save || undone(old(self).history@).1.len()
                > 0),
            final(self).history@ == undone(old(self).history@).0,
            final(self).content@ == content_after_all(
                old(self).content@,
                undone(old(self).history@).1,
            ),
            final(events).pending() == old(events).pending() + events_of(
                old(self).handle,
                old(self).content@,
                undone(old(self).history@).1,
            ),
            final(events).reading() == old(events).reading(),
            r@.len() == undone(old(self).history@).1.len(),
    {
        let edits = self.history.undo_edits();
        let applied = apply_edits(&mut self.content, self.handle, &edits, events);
        if edits.len() > 0 {
            self.needs_save = true;
        }
        applied
    }

    /// Steps the history one group forward and applies the edits of that
    /// group to the content, queueing an event for each. Returns the kind and
    /// the range of each edit as it was applied.
    pub fn redo(&mut self, events: &mut EditorEventQueue) -> (r: Vec<(EditKind, BufferRange)>)
        requires
            old(self).well_formed(),
        ensures
            final(self).well_formed(),
            final(self).handle == old(self).handle,
            final(self).path == old(self).path,
            final(self).capabilities == old(self).capabilities,
            final(self).needs_save == (old(self).needs_save || redone(old(self).history@).1.len()
                > 0),
            final(self).history@ == redone(old(self).history@).0,
            final(self).content@ == content_after_all(
                old(self).content@,
                redone(old(self).history@).1,
            ),
            final(events).pending() == old(events).pending() + events_of(
                old(self).handle,
                old(self).content@,
                redone(old(self).history@).1,
            ),
            final(events).reading() == old(events).reading(),
            r@.len() == redone(old(self).history@).1.len(),
    {
        let edits = self.history.redo_edits();
        let applied = apply_edits(&mut self.content, self.handle, &edits, events);
        if edits.len() > 0 {
            self.needs_save = true;
        }
        applied
    }
}

/// Applies the edits to the content in order, without recording them.
fn apply_edits(
    content: &mut BufferContent,
    handle: BufferHandle,
    edits: &Vec<Edit>,
    events: &mut EditorEventQueue,
) -> (r: Vec<(EditKind, BufferRange)>)
    requires
        old(content).well_formed(),
    ensures
        final(content).well_formed(),
        final(content)@ == content_after_all(old(content)@, crate::history::edits_view(edits@)),
        final(events).pending() == old(events).pending() + events_of(
            handle,
            old(content)@,
            crate::history::edits_view(edits@),
        ),
        final(events).reading() == old(events).reading(),
        r@.len() == edits@.len(),
{
    let ghost all = crate::history::edits_view(edits@);
    let mut applied: Vec<(EditKind, BufferRange)> = Vec::new();
    let mut i: usize = 0;
    assert(all.take(0) =~= Seq::<EditView>::empty());
    assert(events.pending() =~= old(events).pending() + Seq::<EditorEventView>::empty());
    while i < edits.len()
        invariant
            0 <= i <= edits.len(),
            all == crate::history::edits_view(edits@),
            content.well_formed(),
            content@ == content_after_all(old(content)@, all.take(i as int)),
            events.pending() == old(events).pending() + events_of(
                handle,
                old(content)@,
                all.take(i as int),
            ),
            events.reading() == old(events).reading(),
            applied@.len() == i,
        decreases edits.len() - i,
    {
        let edit = edits[i];
        proof {
            assert(all.take(i + 1).drop_last() =~= all.take(i as int));
            assert(all.take(i + 1).last() == edit@);
        }
        let ghost before = events.pending();
        match edit.kind {
            EditKind::Insert => {
                let range = content.insert_text(edit.range.from, edit.text);
                events.enqueue(
                    EditorEvent::BufferInsertText {
                        handle,
                        range,
                        text: String::from_str(edit.text),
                    },
                );
                applied.push((EditKind::Insert, range));
            },
            EditKind::Delete => {
                let (range, _) = content.delete_range(edit.range);
                events.enqueue(EditorEvent::BufferDeleteText { handle, range });
                applied.push((EditKind::Delete, range));
            },
        }
        proof {
            assert(events.pending() =~= old(events).pending() + events_of(
                handle,
                old(content)@,
                all.take(i + 1),
            ));
        }
        i = i + 1;
    }
    assert(all.take(edits.len() as int) =~= all);
    applied
}

/// The table of the editor's buffers. A buffer keeps its handle for as long
/// as it lives; the handle of a buffer that was removed is given out again.
pub struct BufferCollection {
    pub buffers: Vec<Option<Buffer>>,
}

impl BufferCollection {
    /// Every buffer is well formed and sits in the slot that its handle names.
    pub open spec fn well_formed(&self) -> bool {
        &&& self.buffers@.len() <= u32::MAX
        &&& forall|i: int|
            0 <= i < self.buffers@.len() && (#[trigger] self.buffers@[i]).is_some() ==> {
                &&& self.buffers@[i].unwrap().well_formed()
                &&& self.buffers@[i].unwrap().handle.0 == i
            }
    }

    /// Whether `handle` names a buffer.
    pub open spec fn contains(&self, handle: BufferHandle) -> bool {
        handle.0 < self.buffers@.len() && self.buffers@[handle.0 as int].is_some()
    }

    /// The buffer that `handle` names.
    pub open spec fn buffer(&self, handle: BufferHandle) -> Buffer {
        self.buffers@[handle.0 as int].unwrap()
    }

    pub fn new() -> (r: Self)
        ensures
            r.well_formed(),
            r.buffers@.len() == 0,
    {
        BufferCollection { buffers: Vec::new() }
    }

    /// Adds an empty buffer in the first free slot, and returns its handle;
    /// `None` where the table is full.
    pub fn add_new(&mut self) -> (r: Option<BufferHandle>)
        requires
            old(self).well_formed(),
        ensures
            final(self).well_formed(),
            match r {
                Some(handle) => {
                    &&& !old(self).contains(handle)
                    &&& final(self).contains(handle)
                    &&& final(self).buffer(handle).handle == handle
                    &&& final(self).buffer(handle).content@ == seq![Seq::<char>::empty()]
                    &&& final(self).buffer(handle).path@ == Seq::<char>::empty()
                    &&& final(self).buffer(handle).capabilities == (BufferCapabilities {
                        can_save: true,
                        auto_close: false,
                        is_log: false,
                    })
                    &&& forall|h: BufferHandle|
                        h != handle ==> final(self).contains(h) == old(self).contains(h) && (
                        old(self).contains(h) ==> final(self).buffer(h) == old(self).buffer(h))
                    &&& forall|i: int| 0 <= i < handle.0 ==> (#[trigger] old(self).buffers@[i]).is_some()
                },
                None => *final(self) == *old(self) && old(self).buffers@.len() == u32::MAX
                    && forall|i: int|
                    0 <= i < old(self).buffers@.len() ==> (
                    #[trigger] old(self).buffers@[i]).is_some(),
            },
    {
        let mut i: usize = 0;
        while i < self.buffers.len()
            invariant
                0 <= i <= self.buffers.len(),
                *self == *old(self),
                self.well_formed(),
                forall|j: int| 0 <= j < i ==> (#[trigger] self.buffers@[j]).is_some(),
            decreases self.buffers.len() - i,
        {
            if self.buffers[i].is_none() {
                let handle = BufferHandle(i as u32);
                self.buffers.set(i, Some(Buffer::new(handle)));
                return Some(handle);
            }
            i = i + 1;
        }
        if self.buffers.len() >= u32::MAX as usize {
            return None;
        }
        let handle = BufferHandle(self.buffers.len() as u32);
        self.buffers.push(Some(Buffer::new(handle)));
        Some(handle)
    }

    /// The buffer that `handle` names, if there is one.
    pub fn get(&self, handle: BufferHandle) -> (r: Option<&Buffer>)
        ensures
            r.is_some() == self.contains(handle),
            r.is_some() ==> *r.unwrap() == self.buffer(handle),
    {
        if (handle.0 as usize) < self.buffers.len() {
            self.buffers[handle.0 as usize].as_ref()
        } else {
            None
        }
    }

    /// Removes the buffer that `handle` names, if there is one, and returns it.
    pub fn remove(&mut self, handle: BufferHandle) -> (r: Option<Buffer>)
        requires
            old(self).well_formed(),
        ensures
            final(self).well_formed(),
            !final(self).contains(handle),
            r.is_some() == old(self).contains(handle),
            r.is_some() ==> r.unwrap() == old(self).buffer(handle),
            forall|h: BufferHandle|
                h != handle ==> final(self).contains(h) == old(self).contains(h) && (old(self).contains(h) ==> final(self).buffer(h) == old(self).buffer(h)),
    {
        if (handle.0 as usize) < self.buffers.len() {
            let mut slot: Option<Buffer> = None;
            let index = handle.0 as usize;
            let mut taken = self.buffers.remove(index);
            self.buffers.insert(index, slot);
            assert(self.buffers@ =~= old(self).buffers@.update(index as int, None));
            taken
        } else {
            None
        }
    }

    /// The handle of the first buffer whose path is `path`.
    pub fn find_with_path(&self, path: &str) -> (r: Option<BufferHandle>)
        requires
            self.well_formed(),
        ensures
            r == self.path_handle(path@),
            match r {
                Some(handle) => self.contains(handle) && self.buffer(handle).path@ == path@
                    && forall|h: BufferHandle|
                    h.0 < handle.0 && self.contains(h) ==> self.buffer(h).path@ != path@,
                None => forall|h: BufferHandle| self.contains(h) ==> self.buffer(h).path@ != path@,
            },
    {
        let mut i: usize = 0;
        while i < self.buffers.len()
            invariant
                0 <= i <= self.buffers.len(),
                self.well_formed(),
                path_handle_from(self.buffers@, path@, 0) == path_handle_from(
                    self.buffers@,
                    path@,
                    i as int,
                ),
                forall|h: BufferHandle|
                    h.0 < i && self.contains(h) ==> self.buffer(h).path@ != path@,
            decreases self.buffers.len() - i,
        {
            if let Some(buffer) = &self.buffers[i] {
                if same_text(buffer.path.as_str(), path) {
                    return Some(BufferHandle(i as u32));
                }
            }
            i = i + 1;
        }
        None
    }
}

impl Default for BufferCollection {
    fn default() -> (r: Self)
        ensures
            r.well_formed(),
            r.buffers@.len() == 0,
    {
        BufferCollection::new()
    }
}

/// The handle of the first buffer from `from` on whose path is `path`.
pub open spec fn path_handle_from(buffers: Seq<Option<Buffer>>, path: Seq<char>, from: int) -> Option<
    BufferHandle,
>
    decreases buffers.len() - from,
{
    if from < 0 || from >= buffers.len() || from > u32::MAX {
        None
    } else if buffers[from].is_some() && buffers[from].unwrap().path@ == path {
        Some(BufferHandle(from as u32))
    } else {
        path_handle_from(buffers, path, from + 1)
    }
}

impl BufferCollection {
    /// The handle of the first buffer whose path is `path`.
    pub open spec fn path_handle(&self, path: Seq<char>) -> Option<BufferHandle> {
        path_handle_from(self.buffers@, path, 0)
    }

    /// Gives a buffer another path.
    pub fn set_path(&mut self, handle: BufferHandle, path: &str)
        requires
            old(self).well_formed(),
            old(self).contains(handle),
        ensures
            final(self).well_formed(),
            final(self).contains(handle),
            final(self).buffer(handle).path@ == path@,
            final(self).buffer(handle).handle == old(self).buffer(handle).handle,
            final(self).buffer(handle).content == old(self).buffer(handle).content,
            final(self).buffer(handle).capabilities == old(self).buffer(handle).capabilities,
            final(self).buffer(handle).history == old(self).buffer(handle).history,
            final(self).buffer(handle).needs_save == old(self).buffer(handle).needs_save,
            forall|h: BufferHandle|
                h != handle ==> final(self).contains(h) == old(self).contains(h) && (old(self).contains(h) ==> final(self).buffer(h) == old(self).buffer(h)),
            final(self).buffers@.len() == old(self).buffers@.len(),
    {
        let index = handle.0 as usize;
        let mut slot: Option<Buffer> = None;
        core::mem::swap(&mut self.buffers[index], &mut slot);
        match slot {
            Some(mut buffer) => {
                buffer.set_path(path);
                self.buffers.set(index, Some(buffer));
            },
            None => {},
        }
    }
}

} // verus!
