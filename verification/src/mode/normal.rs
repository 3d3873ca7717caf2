//! Normal mode: keys are commands.

use crate::client_collection::ClientCollection;
use crate::connection::TargetClient;
use crate::editor::{
    buffer_edited, focus_of, stepped_back, stepped_forward, Editor, KeysIterator,
};
use crate::mode::{ModeKind, ModeOperation};
use crate::platform::Key;
use crate::register::RegisterKey;
use vstd::prelude::*;

verus! {

/// The key at the place `at` of the keys, or no key behind their end.
pub open spec fn key_at(keys: Seq<Key>, at: int) -> Key {
    if 0 <= at < keys.len() {
        keys[at]
    } else {
        Key::NoKey
    }
}

/// The register that a key names: the keys `a` to `z` name one each.
pub open spec fn register_of(key: Key) -> Option<int> {
    match key {
        Key::Char(c) => if 'a' <= c <= 'z' {
            Some((c as u32) - ('a' as u32))
        } else {
            None
        },
        _ => None,
    }
}

fn register_key(key: Key) -> (r: Option<RegisterKey>)
    ensures
        match register_of(key) {
            Some(index) => r is Some && r.unwrap().well_formed() && r.unwrap().index() == index,
            None => r is None,
        },
{
    match key {
        Key::Char(c) => RegisterKey::from_char(c),
        _ => None,
    }
}

/// What normal mode answers to the keys from the place `at` on. `i` enters
/// insert mode, `v` select mode and `:` command mode. `q` and the name of a register start
/// recording into that register; `q` while recording stops it. `@` and the
/// name of a register run the keys of that register. A `q` or `@` that no
/// key follows yet waits for more keys.
pub open spec fn normal_answer(editor: &Editor, keys: Seq<Key>, at: int) -> ModeOperation {
    let key = key_at(keys, at);
    if key == Key::Char('i') {
        ModeOperation::EnterMode(ModeKind::Insert)
    } else if key == Key::Char(':') {
        ModeOperation::EnterMode(ModeKind::Command)
    } else if key == Key::Char('v') {
        ModeOperation::EnterMode(ModeKind::Select)
    } else if key == Key::Char('q') && editor.recording_macro is None && key_at(keys, at + 1)
        == Key::NoKey {
        ModeOperation::Pending
    } else if key == Key::Char('@') {
        if key_at(keys, at + 1) == Key::NoKey {
            ModeOperation::Pending
        } else {
            match register_of(key_at(keys, at + 1)) {
                Some(index) => ModeOperation::ExecuteMacro(
                    choose|k: RegisterKey| k.well_formed() && k.index() == index,
                ),
                None => ModeOperation::Handled,
            }
        }
    } else {
        ModeOperation::Handled
    }
}

/// How many keys normal mode takes from the place `at` on.
pub open spec fn normal_taken(editor: &Editor, keys: Seq<Key>, at: int) -> int {
    let key = key_at(keys, at);
    if at < 0 || at >= keys.len() {
        0
    } else if (key == Key::Char('q') && editor.recording_macro is None) || key == Key::Char('@') {
        if at + 1 < keys.len() {
            2
        } else {
            1
        }
    } else {
        1
    }
}

/// What the keys that normal mode took make of the editor. `q` while
/// recording stops it; `q` and the name of a register empty the register
/// and record into it; `u` steps the history of the buffer that the client
/// looks at one group back, after closing its open group, and `U` steps it
/// forward. Other keys change nothing.
pub open spec fn normal_effect(
    e0: &Editor,
    e1: &Editor,
    clients: &ClientCollection,
    client: TargetClient,
    keys: Seq<Key>,
    at: int,
) -> bool {
    let key = key_at(keys, at);
    if key == Key::Char('q') {
        if e0.recording_macro is Some {
            *e1 == (Editor { recording_macro: None, ..*e0 })
        } else {
            match register_of(key_at(keys, at + 1)) {
                Some(index) => exists|k: RegisterKey|
                    #![trigger k.index()]
                    k.well_formed() && k.index() == index && e1.registers@ == e0.registers@.update(
                        index,
                        Seq::empty(),
                    ) && *e1 == (Editor {
                        recording_macro: Some(k),
                        registers: e1.registers,
                        ..*e0
                    }),
                None => *e1 == *e0,
            }
        }
    } else if key == Key::Char('u') || key == Key::Char('U') {
        match focus_of(e0, clients, client) {
            Some(focus) => exists|committed: Editor|
                #![trigger committed.buffers]
                {
                    &&& buffer_edited(e0, &committed, focus.buffer)
                    &&& committed.editor_events == e0.editor_events
                    &&& committed.buffers.buffer(focus.buffer) == (crate::buffer::Buffer {
                        history: committed.buffers.buffer(focus.buffer).history,
                        ..e0.buffers.buffer(focus.buffer)
                    })
                    &&& committed.buffers.buffer(focus.buffer).history@
                        == crate::history::committed(e0.buffers.buffer(focus.buffer).history@)
                    &&& buffer_edited(&committed, e1, focus.buffer)
                    &&& if key == Key::Char('u') {
                        stepped_back(
                            &committed.buffers.buffer(focus.buffer),
                            &e1.buffers.buffer(focus.buffer),
                            &committed.editor_events,
                            &e1.editor_events,
                        )
                    } else {
                        stepped_forward(
                            &committed.buffers.buffer(focus.buffer),
                            &e1.buffers.buffer(focus.buffer),
                            &committed.editor_events,
                            &e1.editor_events,
                        )
                    }
                },
            None => *e1 == *e0,
        }
    } else {
        *e1 == *e0
    }
}

/// Normal mode has handled the keys from the place `at0` on, is at the
/// place `at1` now, and answers `r`. Where it waits for more keys nothing
/// has changed.
pub open spec fn keys_handled(
    e0: &Editor,
    e1: &Editor,
    clients: &ClientCollection,
    client: TargetClient,
    at0: int,
    at1: int,
    r: ModeOperation,
) -> bool {
    let keys = e0.buffered_keys.0@;
    &&& r == normal_answer(e0, keys, at0)
    &&& r == ModeOperation::Pending ==> *e1 == *e0
    &&& r != ModeOperation::Pending ==> at1 == at0 + normal_taken(e0, keys, at0) && normal_effect(
        e0,
        e1,
        clients,
        client,
        keys,
        at0,
    )
}

/// Handles the next keys in normal mode.
pub fn on_client_keys(
    editor: &mut Editor,
    clients: &ClientCollection,
    client: TargetClient,
    keys: &mut KeysIterator,
) -> (r: ModeOperation)
    requires
        old(editor).well_formed(),
    ensures
        final(editor).well_formed(),
        final(editor).buffered_keys == old(editor).buffered_keys,
        keys_handled(
            old(editor),
            final(editor),
            clients,
            client,
            old(keys).position(),
            final(keys).position(),
            r,
        ),
{
    proof {
        keys.lemma_position();
    }
    let key = keys.next(&editor.buffered_keys);
    let c = match key {
        Key::Char(c) => c,
        _ => {
            return ModeOperation::Handled;
        },
    };
    if c == 'i' {
        ModeOperation::EnterMode(ModeKind::Insert)
    } else if c == ':' {
        ModeOperation::EnterMode(ModeKind::Command)
    } else if c == 'v' {
        ModeOperation::EnterMode(ModeKind::Select)
    } else if c == 'q' {
        if editor.recording_macro.is_some() {
            editor.recording_macro = None;
            return ModeOperation::Handled;
        }
        let name = keys.next(&editor.buffered_keys);
        match name {
            Key::NoKey => {
                return ModeOperation::Pending;
            },
            _ => {},
        }
        match register_key(name) {
            Some(register) => {
                proof {
                    reveal_strlit("");
                    assert(""@ =~= Seq::<char>::empty());
                }
                editor.registers.set(register, "");
                editor.recording_macro = Some(register);
            },
            None => {},
        }
        ModeOperation::Handled
    } else if c == '@' {
        let name = keys.next(&editor.buffered_keys);
        match name {
            Key::NoKey => {
                return ModeOperation::Pending;
            },
            _ => {},
        }
        match register_key(name) {
            Some(register) => {
                proof {
                    crate::register::lemma_key_by_index(register);
                }
                ModeOperation::ExecuteMacro(register)
            },
            None => ModeOperation::Handled,
        }
    } else if c == 'u' || c == 'U' {
        match editor.focus(clients, client) {
            Some(focus) => {
                editor.commit_edits(focus.buffer);
                if c == 'u' {
                    editor.undo(focus.buffer);
                } else {
                    editor.redo(focus.buffer);
                }
            },
            None => {},
        }
        ModeOperation::Handled
    } else {
        ModeOperation::Handled
    }
}

} // verus!
