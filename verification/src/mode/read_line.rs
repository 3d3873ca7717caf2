//! Read line mode: a line is typed, for the purpose that the mode was
//! entered for.

use crate::editor::{
    line_typed,
    pasted_for,
    pasted_view,
    poll_of,
    Editor,
    KeysIterator,
    ReadLinePoll,
};
use crate::lsp::actions::rename_finished;
use crate::lsp::client::{ClientHandle, ClientManager, ClientModel, RequestState};
use crate::lsp::manager::{client_at, client_changed, occupied};
use crate::mode::{ModeKind, ModeOperation, ReadLinePurpose};
use crate::platform::{Key, Platform, PlatformRequestView};
use vstd::prelude::*;

verus! {

/// The client in the slot of `handle` has given up waiting; nothing
/// happens where the slot holds no client.
pub open spec fn request_canceled(e0: &Editor, e1: &Editor, handle: ClientHandle) -> bool {
    if occupied(e0.lsp.entries@, handle) {
        client_changed(e0, e1, handle) && client_at(e1.lsp.entries@, handle)@ == (ClientModel {
            request_state: RequestState::Idle,
            ..client_at(e0.lsp.entries@, handle)@
        })
    } else {
        *e1 == *e0
    }
}

/// What a key does in read line mode. A key that neither submits nor
/// cancels is applied to the line. The escape key gives up what the line
/// was for: a client that was renaming waits no longer. The enter key hands
/// the line over: a client that was renaming asks its server to rename to
/// the name that was read. Both lead back to normal mode.
pub open spec fn read_line_effect(
    e0: &Editor,
    e1: &Editor,
    w0: Seq<PlatformRequestView>,
    w1: Seq<PlatformRequestView>,
    key: Key,
    pasted: Option<Seq<char>>,
) -> bool {
    match poll_of(key) {
        ReadLinePoll::Pending => line_typed(e0, e1, key, pasted) && w1 == w0,
        ReadLinePoll::Canceled => w1 == w0 && match e0.mode.read_line_purpose {
            ReadLinePurpose::LspRename(handle) => request_canceled(e0, e1, handle),
            ReadLinePurpose::Idle => *e1 == *e0,
        },
        ReadLinePoll::Submitted => match e0.mode.read_line_purpose {
            ReadLinePurpose::LspRename(handle) => if occupied(e0.lsp.entries@, handle) {
                client_changed(e0, e1, handle) && rename_finished(
                    client_at(e0.lsp.entries@, handle)@,
                    client_at(e1.lsp.entries@, handle)@,
                    w0,
                    w1,
                    &e0.buffers,
                    e0.read_line.input_text(),
                )
            } else {
                *e1 == *e0 && w1 == w0
            },
            ReadLinePurpose::Idle => *e1 == *e0 && w1 == w0,
        },
    }
}

/// What read line mode answers to a key.
pub open spec fn read_line_answer(key: Key) -> ModeOperation {
    match poll_of(key) {
        ReadLinePoll::Pending => ModeOperation::Handled,
        _ => ModeOperation::EnterMode(ModeKind::Normal),
    }
}

impl ClientManager {
    /// Lets the client in the slot of `handle` give up waiting.
    pub fn cancel_request(editor: &mut Editor, handle: ClientHandle)
        ensures
            request_canceled(old(editor), final(editor), handle),
    {
        match ClientManager::access(editor, handle) {
            Some(mut client) => {
                client.cancel_current_request();
                ClientManager::release(editor, handle, client);
                assert(editor.lsp.entries@ =~= old(editor).lsp.entries@.update(
                    handle.0 as int,
                    editor.lsp.entries@[handle.0 as int],
                ));
            },
            None => {},
        }
    }
}

/// Handles a key in read line mode, with `pasted` as what the clipboard
/// holds.
pub fn on_key(editor: &mut Editor, platform: &mut Platform, key: Key, pasted: Option<&str>) -> (r:
    ModeOperation)
    requires
        old(editor).well_formed(),
    ensures
        final(editor).well_formed(),
        final(editor).buffered_keys == old(editor).buffered_keys,
        r == read_line_answer(key),
        read_line_effect(
            old(editor),
            final(editor),
            old(platform)@,
            final(platform)@,
            key,
            pasted_view(pasted),
        ),
{
    match editor.read_line.apply_key(key, pasted) {
        ReadLinePoll::Pending => ModeOperation::Handled,
        ReadLinePoll::Canceled => {
            match editor.mode.read_line_purpose {
                ReadLinePurpose::LspRename(handle) => {
                    ClientManager::cancel_request(editor, handle);
                },
                ReadLinePurpose::Idle => {},
            }
            ModeOperation::EnterMode(ModeKind::Normal)
        },
        ReadLinePoll::Submitted => {
            match editor.mode.read_line_purpose {
                ReadLinePurpose::LspRename(handle) => {
                    match ClientManager::access(editor, handle) {
                        Some(mut client) => {
                            client.finish_rename(editor, platform);
                            ClientManager::release(editor, handle, client);
                            assert(editor.lsp.entries@ =~= old(editor).lsp.entries@.update(
                                handle.0 as int,
                                editor.lsp.entries@[handle.0 as int],
                            ));
                        },
                        None => {},
                    }
                },
                ReadLinePurpose::Idle => {},
            }
            ModeOperation::EnterMode(ModeKind::Normal)
        },
    }
}

/// Read line mode has handled the key at the place `at0`, is at the place
/// `at1` now, and answers `r`: the editor is as `on_key` leaves it for some
/// outcome of reading the clipboard, which is read for the key that pastes
/// only. Nothing happens behind the last key.
pub open spec fn keys_handled(
    e0: &Editor,
    e1: &Editor,
    w0: Seq<PlatformRequestView>,
    w1: Seq<PlatformRequestView>,
    at0: int,
    at1: int,
    r: ModeOperation,
) -> bool {
    if at0 >= e0.buffered_keys.0@.len() {
        r == ModeOperation::Handled && *e1 == *e0 && w1 == w0 && at1 == at0
    } else {
        let key = e0.buffered_keys.0@[at0];
        &&& at1 == at0 + 1
        &&& r == read_line_answer(key)
        &&& exists|pasted: Option<Seq<char>>|
            #![trigger read_line_effect(e0, e1, w0, w1, key, pasted)]
            (key != Key::Ctrl('y') ==> pasted is None) && read_line_effect(
                e0,
                e1,
                w0,
                w1,
                key,
                pasted,
            )
    }
}

/// Handles the next key in read line mode. The clipboard is read for the
/// key that pastes, so the editor ends up as `on_key` leaves it for some
/// outcome of the reading.
pub fn on_client_keys(editor: &mut Editor, platform: &mut Platform, keys: &mut KeysIterator) -> (r:
    ModeOperation)
    requires
        old(editor).well_formed(),
    ensures
        final(editor).well_formed(),
        final(editor).buffered_keys == old(editor).buffered_keys,
        keys_handled(
            old(editor),
            final(editor),
            old(platform)@,
            final(platform)@,
            old(keys).position(),
            final(keys).position(),
            r,
        ),
{
    proof {
        keys.lemma_position();
    }
    if keys.index() >= editor.buffered_keys.0.len() {
        return ModeOperation::Handled;
    }
    let key = keys.next(&editor.buffered_keys);
    let pasted = pasted_for(key);
    match &pasted {
        Some(text) => {
            let r = on_key(editor, platform, key, Some(text.as_str()));
            assert(read_line_effect(
                old(editor),
                editor,
                old(platform)@,
                platform@,
                key,
                Some(text@),
            ));
            r
        },
        None => {
            let r = on_key(editor, platform, key, None);
            assert(read_line_effect(old(editor), editor, old(platform)@, platform@, key, None));
            r
        },
    }
}

} // verus!
