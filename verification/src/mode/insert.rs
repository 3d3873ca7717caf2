//! Insert mode: keys are text.

use crate::buffer::{range_deleted, text_inserted};
use crate::buffer_content::{clamped, end_of_insert, ordered};
use crate::buffer_position::{BufferPosition, BufferRange};
use crate::client_collection::ClientCollection;
use crate::connection::TargetClient;
use crate::editor::{
    buffer_edited, buffers_changed_at, cursor_moved, focus_of, same_but_buffers, Config, Editor,
    Focus, KeysIterator,
};
use crate::cursor::Cursor;
use crate::mode::{ModeKind, ModeOperation};
use crate::platform::Key;
use vstd::prelude::*;

verus! {

/// The text that a key types: its character; a line end for the enter key;
/// for the tab key a tab, or as many spaces as a tab is wide.
pub open spec fn typed_text(key: Key, config: Config) -> Option<Seq<char>> {
    match key {
        Key::Char(c) => Some(seq![c]),
        Key::Enter => Some(seq!['\n']),
        Key::Tab => if config.indent_with_tabs {
            Some(seq!['\t'])
        } else {
            Some(Seq::new(config.tab_size as nat, |i: int| ' '))
        },
        _ => None,
    }
}

/// Whether a key leaves insert mode.
pub open spec fn leaves_insert(key: Key) -> bool {
    key == Key::Esc || key == Key::Ctrl('c')
}

/// The range that text typed at `position` fills.
pub open spec fn typed_range(
    content: Seq<Seq<char>>,
    position: BufferPosition,
    text: Seq<char>,
) -> BufferRange {
    let from = clamped(content, position);
    BufferRange {
        from,
        to: if text.len() == 0 {
            from
        } else {
            end_of_insert(from, text)
        },
    }
}

/// The place before `position`: one column back, or the end of the line
/// above at the start of a line, or the start of the content.
pub open spec fn place_before(content: Seq<Seq<char>>, position: BufferPosition) -> BufferPosition {
    let p = clamped(content, position);
    if p.column_index > 0 {
        BufferPosition { line_index: p.line_index, column_index: (p.column_index - 1) as usize }
    } else if p.line_index > 0 {
        clamped(
            content,
            BufferPosition { line_index: (p.line_index - 1) as usize, column_index: usize::MAX },
        )
    } else {
        p
    }
}

/// The text was typed at the cursor of the view that the client looks at:
/// it stands in the buffer, as an edit of the first cursor, and the view
/// has its single cursor behind it.
pub open spec fn text_typed(e0: &Editor, e1: &Editor, focus: Focus, text: Seq<char>) -> bool {
    let range = typed_range(e0.buffers.buffer(focus.buffer).content@, focus.cursor.position, text);
    &&& same_but_buffers(e1, e0)
    &&& buffers_changed_at(&e0.buffers, &e1.buffers, focus.buffer)
    &&& text_inserted(
        &e0.buffers.buffer(focus.buffer),
        &e1.buffers.buffer(focus.buffer),
        &e0.editor_events,
        &e1.editor_events,
        focus.cursor.position,
        text,
        0,
        range,
    )
    &&& cursor_moved(&e0.buffer_views, &e1.buffer_views, focus.view, range.to)
}

/// What stands before the cursor of the view that the client looks at was
/// erased, as an edit of the first cursor, and the view has its single
/// cursor where it stood.
pub open spec fn erased(e0: &Editor, e1: &Editor, focus: Focus) -> bool {
    let content = e0.buffers.buffer(focus.buffer).content@;
    let asked = BufferRange {
        from: place_before(content, focus.cursor.position),
        to: clamped(content, focus.cursor.position),
    };
    let range = ordered(clamped(content, asked.from), clamped(content, asked.to));
    &&& same_but_buffers(e1, e0)
    &&& buffers_changed_at(&e0.buffers, &e1.buffers, focus.buffer)
    &&& range_deleted(
        &e0.buffers.buffer(focus.buffer),
        &e1.buffers.buffer(focus.buffer),
        &e0.editor_events,
        &e1.editor_events,
        asked,
        0,
        range,
    )
    &&& cursor_moved(&e0.buffer_views, &e1.buffer_views, focus.view, range.from)
}

/// The open group of the history of the buffer was closed; nothing else
/// has changed.
pub open spec fn edits_committed(e0: &Editor, e1: &Editor, focus: Focus) -> bool {
    &&& buffer_edited(e0, e1, focus.buffer)
    &&& e1.editor_events == e0.editor_events
    &&& e1.buffers.buffer(focus.buffer) == (crate::buffer::Buffer {
        history: e1.buffers.buffer(focus.buffer).history,
        ..e0.buffers.buffer(focus.buffer)
    })
    &&& e1.buffers.buffer(focus.buffer).history@ == crate::history::committed(
        e0.buffers.buffer(focus.buffer).history@,
    )
}

/// What a key does in insert mode: the escape key and control-c close the
/// open group of the history; a key that types text inserts it at the
/// cursor; the backspace key erases what stands before the cursor. Nothing
/// happens where the client looks at no buffer, or for another key.
pub open spec fn insert_effect(
    e0: &Editor,
    e1: &Editor,
    clients: &ClientCollection,
    client: TargetClient,
    key: Key,
) -> bool {
    match focus_of(e0, clients, client) {
        Some(focus) => if leaves_insert(key) {
            edits_committed(e0, e1, focus)
        } else if typed_text(key, e0.config) is Some {
            text_typed(e0, e1, focus, typed_text(key, e0.config).unwrap())
        } else if key == Key::Backspace {
            erased(e0, e1, focus)
        } else {
            *e1 == *e0
        },
        None => *e1 == *e0,
    }
}

fn text_of_key(key: Key, config: Config) -> (r: Option<String>)
    ensures
        match typed_text(key, config) {
            Some(text) => r is Some && r.unwrap()@ == text,
            None => r is None,
        },
{
    let mut text = String::new();
    match key {
        Key::Char(c) => {
            text.push(c);
            assert(text@ =~= seq![c]);
        },
        Key::Enter => {
            text.push('\n');
            assert(text@ =~= seq!['\n']);
        },
        Key::Tab => {
            if config.indent_with_tabs {
                text.push('\t');
                assert(text@ =~= seq!['\t']);
            } else {
                let mut i: u8 = 0;
                while i < config.tab_size
                    invariant
                        0 <= i <= config.tab_size,
                        text@ == Seq::new(i as nat, |k: int| ' '),
                    decreases config.tab_size - i,
                {
                    text.push(' ');
                    i = i + 1;
                    assert(text@ =~= Seq::new(i as nat, |k: int| ' '));
                }
            }
        },
        _ => {
            return None;
        },
    }
    Some(text)
}

impl Editor {
    /// Types text at the cursor of what a client looks at.
    pub fn type_text(&mut self, focus: Focus, text: &str)
        requires
            old(self).well_formed(),
            old(self).buffers.contains(focus.buffer),
            old(self).buffer_views.contains(focus.view),
        ensures
            final(self).well_formed(),
            text_typed(old(self), final(self), focus, text@),
    {
        match self.insert_text(focus.buffer, focus.cursor.position, text, 0) {
            Some(range) => {
                self.buffer_views.set_cursor(
                    focus.view,
                    Cursor { anchor: range.to, position: range.to },
                );
            },
            None => {},
        }
    }

    /// Erases what stands before the cursor of what a client looks at.
    pub fn erase_before(&mut self, focus: Focus)
        requires
            old(self).well_formed(),
            old(self).buffers.contains(focus.buffer),
            old(self).buffer_views.contains(focus.view),
        ensures
            final(self).well_formed(),
            erased(old(self), final(self), focus),
    {
        let asked = match self.buffers.get(focus.buffer) {
            Some(buffer) => {
                let p = buffer.content.clamp_position(focus.cursor.position);
                let before = if p.column_index > 0 {
                    BufferPosition { line_index: p.line_index, column_index: p.column_index - 1 }
                } else if p.line_index > 0 {
                    buffer.content.clamp_position(
                        BufferPosition { line_index: p.line_index - 1, column_index: usize::MAX },
                    )
                } else {
                    p
                };
                BufferRange { from: before, to: p }
            },
            None => {
                return ;
            },
        };
        match self.delete_range(focus.buffer, asked, 0) {
            Some(range) => {
                self.buffer_views.set_cursor(
                    focus.view,
                    Cursor { anchor: range.from, position: range.from },
                );
            },
            None => {},
        }
    }
}

/// Insert mode has handled the key at the place `at0`, is at the place
/// `at1` now, and answers `r`. Nothing happens behind the last key.
pub open spec fn keys_handled(
    e0: &Editor,
    e1: &Editor,
    clients: &ClientCollection,
    client: TargetClient,
    at0: int,
    at1: int,
    r: ModeOperation,
) -> bool {
    if at0 >= e0.buffered_keys.0@.len() {
        r == ModeOperation::Handled && *e1 == *e0 && at1 == at0
    } else {
        let key = e0.buffered_keys.0@[at0];
        &&& at1 == at0 + 1
        &&& r == if leaves_insert(key) {
            ModeOperation::EnterMode(ModeKind::Normal)
        } else {
            ModeOperation::Handled
        }
        &&& insert_effect(e0, e1, clients, client, key)
    }
}

/// Handles the next key in insert mode. The escape key and control-c lead
/// back to normal mode.
pub fn on_client_keys(
    editor: &mut Editor,
    clients: &ClientCollection,
    client: TargetClient,
    keys: &mut KeysIterator,
) -> (r: ModeOperation)
    requires
        old(editor).well_formed(),
    ensures
        final(editor).well_formed(),
        final(editor).buffered_keys == old(editor).buffered_keys,
        keys_handled(
            old(editor),
            final(editor),
            clients,
            client,
            old(keys).position(),
            final(keys).position(),
            r,
        ),
{
    proof {
        keys.lemma_position();
    }
    if keys.index() >= editor.buffered_keys.0.len() {
        return ModeOperation::Handled;
    }
    let key = keys.next(&editor.buffered_keys);
    let leaves = match key {
        Key::Esc => true,
        Key::Ctrl(c) => c == 'c',
        _ => false,
    };
    let focus = editor.focus(clients, client);
    match focus {
        Some(focus) => {
            if leaves {
                editor.commit_edits(focus.buffer);
            } else {
                match text_of_key(key, editor.config) {
                    Some(text) => {
                        editor.type_text(focus, text.as_str());
                    },
                    None => {
                        match key {
                            Key::Backspace => {
                                editor.erase_before(focus);
                            },
                            _ => {},
                        }
                    },
                }
            }
        },
        None => {},
    }
    if leaves {
        ModeOperation::EnterMode(ModeKind::Normal)
    } else {
        ModeOperation::Handled
    }
}

} // verus!
