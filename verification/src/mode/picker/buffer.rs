//! Picking the buffer to show.

use crate::buffer::Buffer;
use crate::client_collection::ClientCollection;
use crate::connection::TargetClient;
use crate::editor::Editor;
use crate::events::BufferHandle;
use crate::mode::picker::{enter_picker_mode, picking, ClientOperation, PickerPurpose};
use vstd::prelude::*;

verus! {

/// What the picker says of a buffer: its path, and whether it has changes
/// that were not saved.
pub open spec fn buffer_entry(buffer: Buffer) -> (Seq<char>, Seq<char>) {
    (
        buffer.path@,
        if buffer.needs_save {
            "changed"@
        } else {
            Seq::empty()
        },
    )
}

/// The buffer that the client showed before the one that it shows, if it
/// is still there.
pub open spec fn previous_buffer(
    editor: &Editor,
    clients: &ClientCollection,
    client: TargetClient,
) -> Option<BufferHandle> {
    match clients.client(client) {
        Some(data) => match data.previous_buffer_view_handle {
            Some(view) => if editor.buffer_views.contains(view) && editor.buffers.contains(
                editor.buffer_views.view_of(view).buffer_handle,
            ) {
                Some(editor.buffer_views.view_of(view).buffer_handle)
            } else {
                None
            },
            None => None,
        },
        None => None,
    }
}

/// The entries for the first `count` buffers but `first`, behind `out`.
pub open spec fn other_entries(
    buffers: Seq<Option<Buffer>>,
    count: int,
    first: Option<BufferHandle>,
    out: Seq<(Seq<char>, Seq<char>)>,
) -> Seq<(Seq<char>, Seq<char>)>
    decreases count,
{
    if count <= 0 || count > buffers.len() {
        out
    } else {
        let before = other_entries(buffers, count - 1, first, out);
        match buffers[count - 1] {
            Some(buffer) => if first == Some(buffer.handle) {
                before
            } else {
                before.push(buffer_entry(buffer))
            },
            None => before,
        }
    }
}

/// The entries to pick a buffer from: the buffer that the client showed
/// before, then the others in the order of the table.
pub open spec fn buffer_entries(
    editor: &Editor,
    clients: &ClientCollection,
    client: TargetClient,
) -> Seq<(Seq<char>, Seq<char>)> {
    let first = previous_buffer(editor, clients, client);
    other_entries(
        editor.buffers.buffers@,
        editor.buffers.buffers@.len() as int,
        first,
        match first {
            Some(handle) => seq![buffer_entry(editor.buffers.buffer(handle))],
            None => Seq::empty(),
        },
    )
}

/// The picker holds the entries given, not filtered yet, and the editor is
/// the same otherwise.
pub open spec fn entries_listed(
    before: &Editor,
    after: &Editor,
    entries: Seq<(Seq<char>, Seq<char>)>,
) -> bool {
    &&& *after == (Editor { picker: after.picker, ..*before })
    &&& after.picker.names() == Seq::new(entries.len(), |i: int| entries[i].0)
    &&& after.picker.descriptions() == Seq::new(entries.len(), |i: int| entries[i].1)
    &&& after.picker.filtered().len() == 0
    &&& after.picker.cursor_index() == 0
}

fn add_buffer(editor: &mut Editor, index: usize, Ghost(entries): Ghost<Seq<(Seq<char>, Seq<char>)>>)
    requires
        old(editor).well_formed(),
        index < old(editor).buffers.buffers@.len(),
        old(editor).buffers.buffers@[index as int] is Some,
        old(editor).picker.names() == Seq::new(entries.len(), |i: int| entries[i].0),
        old(editor).picker.descriptions() == Seq::new(entries.len(), |i: int| entries[i].1),
    ensures
        final(editor).well_formed(),
        *final(editor) == (Editor { picker: final(editor).picker, ..*old(editor) }),
        final(editor).picker.filtered() == old(editor).picker.filtered(),
        final(editor).picker.cursor_index() == old(editor).picker.cursor_index(),
        ({
            let listed = entries.push(
                buffer_entry(old(editor).buffers.buffers@[index as int].unwrap()),
            );
            final(editor).picker.names() == Seq::new(listed.len(), |i: int| listed[i].0) && final(editor).picker.descriptions() == Seq::new(listed.len(), |i: int| listed[i].1)
        }),
{
    let (path, changed) = match &editor.buffers.buffers[index] {
        Some(buffer) => (buffer.path.clone(), buffer.needs_save),
        None => (String::new(), false),
    };
    proof {
        reveal_strlit("");
        assert(""@ =~= Seq::<char>::empty());
    }
    editor.picker.add_custom_entry(
        path.as_str(),
        if changed {
            "changed"
        } else {
            ""
        },
    );
    proof {
        let listed = entries.push(buffer_entry(old(editor).buffers.buffers@[index as int].unwrap()));
        assert(editor.picker.names() =~= Seq::new(listed.len(), |i: int| listed[i].0));
        assert(editor.picker.descriptions() =~= Seq::new(listed.len(), |i: int| listed[i].1));
    }
}

/// Lets the client pick the buffer to show: the picker lists the buffers
/// and the editor enters picker mode, where there is a buffer.
#[verifier::loop_isolation(false)]
pub fn mode(editor: &mut Editor, clients: &ClientCollection, client: TargetClient) -> (r:
    ClientOperation)
    requires
        old(editor).well_formed(),
    ensures
        final(editor).well_formed(),
        exists|listed: Editor|
            #![trigger picking(&listed, final(editor), "buffer:"@, PickerPurpose::Buffer)]
            {
                &&& listed.well_formed()
                &&& entries_listed(old(editor), &listed, buffer_entries(old(editor), clients, client))
                &&& picking(&listed, final(editor), "buffer:"@, PickerPurpose::Buffer)
                &&& r == if crate::mode::picker::has_matches(&listed) {
                    ClientOperation::EnteredPickerMode
                } else {
                    ClientOperation::Nothing
                }
            },
{
    editor.picker.clear();
    let first = match clients.get(client) {
        Some(data) => match data.previous_buffer_view_handle {
            Some(view) => match editor.buffer_views.get(view) {
                Some(found) => if editor.buffers.get(found.buffer_handle).is_some() {
                    Some(found.buffer_handle)
                } else {
                    None
                },
                None => None,
            },
            None => None,
        },
        None => None,
    };
    let ghost mut entries: Seq<(Seq<char>, Seq<char>)> = Seq::empty();
    assert(editor.picker.names() =~= Seq::new(entries.len(), |i: int| entries[i].0));
    assert(editor.picker.descriptions() =~= Seq::new(entries.len(), |i: int| entries[i].1));
    match first {
        Some(handle) => {
            add_buffer(editor, handle.0 as usize, Ghost(entries));
            proof {
                entries = entries.push(buffer_entry(old(editor).buffers.buffer(handle)));
                assert(entries =~= seq![buffer_entry(old(editor).buffers.buffer(handle))]);
            }
        },
        None => {},
    }
    let ghost start = entries;
    let count = editor.buffers.buffers.len();
    let mut i: usize = 0;
    while i < count
        invariant
            0 <= i <= count,
            count == old(editor).buffers.buffers@.len(),
            editor.well_formed(),
            *editor == (Editor { picker: editor.picker, ..*old(editor) }),
            editor.picker.filtered().len() == 0,
            editor.picker.cursor_index() == 0,
            entries == other_entries(old(editor).buffers.buffers@, i as int, first, start),
            editor.picker.names() == Seq::new(entries.len(), |k: int| entries[k].0),
            editor.picker.descriptions() == Seq::new(entries.len(), |k: int| entries[k].1),
        decreases count - i,
    {
        let listed = match &editor.buffers.buffers[i] {
            Some(buffer) => first != Some(buffer.handle),
            None => false,
        };
        if listed {
            add_buffer(editor, i, Ghost(entries));
            proof {
                entries = entries.push(buffer_entry(old(editor).buffers.buffers@[i as int].unwrap()));
            }
        }
        i = i + 1;
    }
    let ghost listed = *editor;
    let entered = enter_picker_mode(editor, "buffer:", PickerPurpose::Buffer);
    assert(entries_listed(old(editor), &listed, buffer_entries(old(editor), clients, client)));
    if entered {
        ClientOperation::EnteredPickerMode
    } else {
        ClientOperation::Nothing
    }
}

} // verus!
