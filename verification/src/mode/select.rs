//! Select mode: keys move the end of the selection and act on what is
//! selected. The mode works on the first cursor of the view.

use crate::buffer::range_deleted;
use crate::buffer_content::{clamped, ordered};
use crate::buffer_position::{BufferPosition, BufferRange};
use crate::client_collection::ClientCollection;
use crate::connection::TargetClient;
use crate::cursor::Cursor;
use crate::editor::{
    buffers_changed_at, clipboard_store, clipboard_text, focus_of, pasted_view, same_but_buffers,
    Editor, Focus, KeysIterator,
};
use crate::mode::insert::{edits_committed, text_typed};
use crate::mode::{ModeKind, ModeOperation};
use crate::platform::Key;
use vstd::prelude::*;

verus! {

/// Whether a key leaves select mode for normal mode without acting on what
/// is selected.
pub open spec fn leaves_select(key: Key) -> bool {
    key == Key::Esc || key == Key::Ctrl('c')
}

/// Where a key points from a place, if it moves: `h` one column back, `l`
/// one column on, `k` one line up, `j` one line down.
pub open spec fn pointed(position: BufferPosition, key: Key) -> Option<BufferPosition> {
    if key == Key::Char('h') {
        Some(
            BufferPosition {
                line_index: position.line_index,
                column_index: if position.column_index > 0 {
                    (position.column_index - 1) as usize
                } else {
                    0
                },
            },
        )
    } else if key == Key::Char('l') {
        Some(
            BufferPosition {
                line_index: position.line_index,
                column_index: if position.column_index < usize::MAX {
                    (position.column_index + 1) as usize
                } else {
                    usize::MAX
                },
            },
        )
    } else if key == Key::Char('k') {
        Some(
            BufferPosition {
                line_index: if position.line_index > 0 {
                    (position.line_index - 1) as usize
                } else {
                    0
                },
                column_index: position.column_index,
            },
        )
    } else if key == Key::Char('j') {
        Some(
            BufferPosition {
                line_index: if position.line_index < usize::MAX {
                    (position.line_index + 1) as usize
                } else {
                    usize::MAX
                },
                column_index: position.column_index,
            },
        )
    } else {
        None
    }
}

/// The view `view` has the single cursor `cursor`, and shows the same
/// buffer to the same client; nothing else has changed.
pub open spec fn cursor_set(e0: &Editor, e1: &Editor, view: crate::buffer_view::BufferViewHandle, cursor: Cursor) -> bool {
    &&& *e1 == (Editor { buffer_views: e1.buffer_views, ..*e0 })
    &&& e1.buffer_views.same_but(&e0.buffer_views, view)
    &&& e1.buffer_views.contains(view)
    &&& e1.buffer_views.view_of(view).cursors@ == seq![cursor]
    &&& e1.buffer_views.view_of(view).client == e0.buffer_views.view_of(view).client
    &&& e1.buffer_views.view_of(view).buffer_handle == e0.buffer_views.view_of(view).buffer_handle
}

/// The range that is deleted when what the cursor selects is removed.
pub open spec fn removed_range(e0: &Editor, focus: Focus) -> BufferRange {
    let content = e0.buffers.buffer(focus.buffer).content@;
    ordered(clamped(content, focus.cursor.range().from), clamped(content, focus.cursor.range().to))
}

/// What the cursor selects was removed from the buffer, as an edit of the
/// first cursor, and the view has its single cursor where the selection
/// began.
pub open spec fn selection_removed(e0: &Editor, e1: &Editor, focus: Focus) -> bool {
    let range = removed_range(e0, focus);
    &&& same_but_buffers(e1, e0)
    &&& buffers_changed_at(&e0.buffers, &e1.buffers, focus.buffer)
    &&& range_deleted(
        &e0.buffers.buffer(focus.buffer),
        &e1.buffers.buffer(focus.buffer),
        &e0.editor_events,
        &e1.editor_events,
        focus.cursor.range(),
        0,
        range,
    )
    &&& crate::editor::cursor_moved(&e0.buffer_views, &e1.buffer_views, focus.view, range.from)
}

/// What is left of what the client looks at once the selection was
/// removed: the same view and buffer, with the cursor where it began.
pub open spec fn after_removal(e0: &Editor, focus: Focus) -> Focus {
    let from = removed_range(e0, focus).from;
    Focus { cursor: Cursor { anchor: from, position: from }, ..focus }
}

/// The parts of what `d` and `p` do: the selection is removed, which
/// leaves the editor as `removed`; what was pasted is typed there, which
/// leaves it as `typed`; and the open group of the history is closed.
pub open spec fn replaced_parts(
    e0: &Editor,
    e1: &Editor,
    focus: Focus,
    pasted: Option<Seq<char>>,
    removed: Editor,
    typed: Editor,
) -> bool {
    &&& removed.well_formed()
    &&& typed.well_formed()
    &&& selection_removed(e0, &removed, focus)
    &&& match pasted {
        Some(text) => text_typed(&removed, &typed, after_removal(e0, focus), text),
        None => typed == removed,
    }
    &&& edits_committed(&typed, e1, focus)
}

/// The selection gave way to what was pasted, if anything, as one group of
/// the history.
pub open spec fn selection_replaced(
    e0: &Editor,
    e1: &Editor,
    focus: Focus,
    pasted: Option<Seq<char>>,
) -> bool {
    exists|removed: Editor, typed: Editor|
        #![trigger replaced_parts(e0, e1, focus, pasted, removed, typed)]
        replaced_parts(e0, e1, focus, pasted, removed, typed)
}

/// The parts of what leaving select mode does: the open group of the
/// history is closed, which leaves the editor as `committed`, and the
/// selection is given up for its end.
pub open spec fn collapsed_parts(e0: &Editor, e1: &Editor, focus: Focus, committed: Editor) -> bool {
    edits_committed(e0, &committed, focus) && cursor_set(
        &committed,
        e1,
        focus.view,
        Cursor { anchor: focus.cursor.position, position: focus.cursor.position },
    )
}

/// What a key does in select mode. The escape key and control-c close the
/// open group of the history and give the selection up. `h`, `j`, `k` and
/// `l` move the end of the selection within the buffer; `o` swaps its ends.
/// `d` removes what is selected; `p` puts what was pasted in its place.
/// Nothing happens where the client looks at no buffer, or for another key;
/// `y` changes nothing in the editor.
pub open spec fn select_effect(
    e0: &Editor,
    e1: &Editor,
    clients: &ClientCollection,
    client: TargetClient,
    key: Key,
    pasted: Option<Seq<char>>,
) -> bool {
    match focus_of(e0, clients, client) {
        Some(focus) => {
            let content = e0.buffers.buffer(focus.buffer).content@;
            if leaves_select(key) {
                exists|committed: Editor|
                    #![trigger collapsed_parts(e0, e1, focus, committed)]
                    collapsed_parts(e0, e1, focus, committed)
            } else if pointed(focus.cursor.position, key) is Some {
                cursor_set(
                    e0,
                    e1,
                    focus.view,
                    Cursor {
                        anchor: focus.cursor.anchor,
                        position: clamped(content, pointed(focus.cursor.position, key).unwrap()),
                    },
                )
            } else if key == Key::Char('o') {
                cursor_set(
                    e0,
                    e1,
                    focus.view,
                    Cursor { anchor: focus.cursor.position, position: focus.cursor.anchor },
                )
            } else if key == Key::Char('d') {
                selection_replaced(e0, e1, focus, None)
            } else if key == Key::Char('p') {
                selection_replaced(e0, e1, focus, pasted)
            } else {
                *e1 == *e0
            }
        },
        None => *e1 == *e0,
    }
}

/// What select mode answers to a key: normal mode where the client looks
/// at no buffer, and behind the keys that end the selection; command mode
/// behind a colon.
pub open spec fn select_answer(
    editor: &Editor,
    clients: &ClientCollection,
    client: TargetClient,
    key: Key,
) -> ModeOperation {
    if focus_of(editor, clients, client) is None || leaves_select(key) || key == Key::Char('d')
        || key == Key::Char('p') {
        ModeOperation::EnterMode(ModeKind::Normal)
    } else if key == Key::Char(':') {
        ModeOperation::EnterMode(ModeKind::Command)
    } else {
        ModeOperation::Handled
    }
}

/// Select mode has handled the key at the place `at0`, is at the place
/// `at1` now, and answers `r`: the editor is as `on_key` leaves it for some
/// outcome of reading the clipboard, which is read for `p` only. Nothing
/// happens behind the last key.
pub open spec fn keys_handled(
    e0: &Editor,
    e1: &Editor,
    clients: &ClientCollection,
    client: TargetClient,
    at0: int,
    at1: int,
    r: ModeOperation,
) -> bool {
    if at0 >= e0.buffered_keys.0@.len() {
        r == ModeOperation::Handled && *e1 == *e0 && at1 == at0
    } else {
        let key = e0.buffered_keys.0@[at0];
        &&& at1 == at0 + 1
        &&& r == select_answer(e0, clients, client, key)
        &&& exists|pasted: Option<Seq<char>>|
            #![trigger select_effect(e0, e1, clients, client, key, pasted)]
            (key != Key::Char('p') ==> pasted is None) && select_effect(
                e0,
                e1,
                clients,
                client,
                key,
                pasted,
            )
    }
}

/// Entering select mode changes nothing: the selection is what the cursor
/// holds.
pub fn on_enter(editor: &mut Editor)
    ensures
        *final(editor) == *old(editor),
{
}

fn pointed_by(position: BufferPosition, key: Key) -> (r: Option<BufferPosition>)
    ensures
        r == pointed(position, key),
{
    let c = match key {
        Key::Char(c) => c,
        _ => {
            return None;
        },
    };
    let line = position.line_index;
    let column = position.column_index;
    if c == 'h' {
        Some(BufferPosition { line_index: line, column_index: column.saturating_sub(1) })
    } else if c == 'l' {
        Some(BufferPosition { line_index: line, column_index: column.saturating_add(1) })
    } else if c == 'k' {
        Some(BufferPosition { line_index: line.saturating_sub(1), column_index: column })
    } else if c == 'j' {
        Some(BufferPosition { line_index: line.saturating_add(1), column_index: column })
    } else {
        None
    }
}

impl Editor {
    /// Removes what the cursor of what a client looks at selects.
    pub fn remove_selection(&mut self, focus: Focus)
        requires
            old(self).well_formed(),
            old(self).buffers.contains(focus.buffer),
            old(self).buffer_views.contains(focus.view),
        ensures
            final(self).well_formed(),
            selection_removed(old(self), final(self), focus),
    {
        match self.delete_range(focus.buffer, focus.cursor.to_range(), 0) {
            Some(range) => {
                self.buffer_views.set_cursor(
                    focus.view,
                    Cursor { anchor: range.from, position: range.from },
                );
            },
            None => {},
        }
    }
}

fn replace_selection(editor: &mut Editor, focus: Focus, pasted: Option<&str>)
    requires
        old(editor).well_formed(),
        old(editor).buffers.contains(focus.buffer),
        old(editor).buffer_views.contains(focus.view),
    ensures
        final(editor).well_formed(),
        selection_replaced(old(editor), final(editor), focus, pasted_view(pasted)),
{
    editor.remove_selection(focus);
    let ghost removed = *editor;
    let from = match editor.buffer_views.get(focus.view) {
        Some(view) => view.cursors.main_cursor().position,
        None => focus.cursor.position,
    };
    match pasted {
        Some(text) => {
            editor.type_text(
                Focus { view: focus.view, buffer: focus.buffer, cursor: Cursor { anchor: from, position: from } },
                text,
            );
        },
        None => {},
    }
    let ghost typed = *editor;
    editor.commit_edits(focus.buffer);
    assert(replaced_parts(old(editor), editor, focus, pasted_view(pasted), removed, typed));
}

/// Handles a key in select mode, with `pasted` as what the clipboard
/// holds.
pub fn on_key(
    editor: &mut Editor,
    clients: &mut ClientCollection,
    client: TargetClient,
    key: Key,
    pasted: Option<&str>,
) -> (r: ModeOperation)
    requires
        old(editor).well_formed(),
    ensures
        final(editor).well_formed(),
        final(editor).buffered_keys == old(editor).buffered_keys,
        *final(clients) == *old(clients),
        r == select_answer(old(editor), old(clients), client, key),
        select_effect(old(editor), final(editor), old(clients), client, key, pasted_view(pasted)),
{
    let focus = match editor.focus(clients, client) {
        Some(focus) => focus,
        None => {
            return ModeOperation::EnterMode(ModeKind::Normal);
        },
    };
    let leaves = match key {
        Key::Esc => true,
        Key::Ctrl(c) => c == 'c',
        _ => false,
    };
    if leaves {
        editor.commit_edits(focus.buffer);
        let ghost committed = *editor;
        editor.buffer_views.set_cursor(
            focus.view,
            Cursor { anchor: focus.cursor.position, position: focus.cursor.position },
        );
        assert(collapsed_parts(old(editor), editor, focus, committed));
        return ModeOperation::EnterMode(ModeKind::Normal);
    }
    match pointed_by(focus.cursor.position, key) {
        Some(target) => {
            let position = match editor.buffers.get(focus.buffer) {
                Some(buffer) => buffer.content.clamp_position(target),
                None => target,
            };
            editor.buffer_views.set_cursor(
                focus.view,
                Cursor { anchor: focus.cursor.anchor, position },
            );
            return ModeOperation::Handled;
        },
        None => {},
    }
    let c = match key {
        Key::Char(c) => c,
        _ => {
            return ModeOperation::Handled;
        },
    };
    if c == 'o' {
        editor.buffer_views.set_cursor(
            focus.view,
            Cursor { anchor: focus.cursor.position, position: focus.cursor.anchor },
        );
        ModeOperation::Handled
    } else if c == 'd' {
        replace_selection(editor, focus, None);
        ModeOperation::EnterMode(ModeKind::Normal)
    } else if c == 'p' {
        replace_selection(editor, focus, pasted);
        ModeOperation::EnterMode(ModeKind::Normal)
    } else if c == 'y' {
        match editor.buffers.get(focus.buffer) {
            Some(buffer) => {
                let text = buffer.content.text_in(focus.cursor.to_range());
                clipboard_store(text.as_str());
            },
            None => {},
        }
        ModeOperation::Handled
    } else if c == ':' {
        ModeOperation::EnterMode(ModeKind::Command)
    } else {
        ModeOperation::Handled
    }
}

/// Handles the next key in select mode. The clipboard is read for `p`, so
/// the editor ends up as `on_key` leaves it for some outcome of the
/// reading.
pub fn on_client_keys(
    editor: &mut Editor,
    clients: &mut ClientCollection,
    client: TargetClient,
    keys: &mut KeysIterator,
) -> (r: ModeOperation)
    requires
        old(editor).well_formed(),
    ensures
        final(editor).well_formed(),
        final(editor).buffered_keys == old(editor).buffered_keys,
        *final(clients) == *old(clients),
        keys_handled(
            old(editor),
            final(editor),
            old(clients),
            client,
            old(keys).position(),
            final(keys).position(),
            r,
        ),
{
    proof {
        keys.lemma_position();
    }
    if keys.index() >= editor.buffered_keys.0.len() {
        return ModeOperation::Handled;
    }
    let key = keys.next(&editor.buffered_keys);
    let wanted = match key {
        Key::Char(c) => c == 'p',
        _ => false,
    };
    let pasted = clipboard_text(wanted);
    match &pasted {
        Some(text) => {
            let r = on_key(editor, clients, client, key, Some(text.as_str()));
            assert(select_effect(old(editor), editor, old(clients), client, key, Some(text@)));
            r
        },
        None => {
            let r = on_key(editor, clients, client, key, None);
            assert(select_effect(old(editor), editor, old(clients), client, key, None));
            r
        },
    }
}

} // verus!
