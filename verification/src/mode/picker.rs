//! Picker mode: an entry is chosen from a filtered list.

use crate::client_collection::ClientCollection;
use crate::connection::TargetClient;
use crate::cursor::Cursor;
use crate::dispatch::{path_and_position, split_path_and_position};
use crate::editor::{
    leaves_input, pasted_for, pasted_view, poll_of, shown_at, tables_full, with_lsp, Editor,
    KeysIterator, ReadLinePoll, StatusMessageKind,
};
use crate::lsp::actions::{code_action_chosen, symbol_chosen};
use crate::lsp::client::{Client, ClientHandle, ClientManager, ClientModel, RequestState};
use crate::lsp::manager::{client_at, occupied};
use crate::lsp::responses::status_shown;
use crate::mode::read_line::{read_line_answer, request_canceled};
use crate::mode::{ModeKind, ModeOperation};
use crate::platform::Key;
use crate::picker::is_ranking;
use vstd::prelude::*;

pub mod buffer;

verus! {

/// What the entry that is picked is for.
#[derive(Clone, Copy, PartialEq, Eq, Structural)]
pub enum PickerPurpose {
    /// For nothing: picking leaves the mode.
    Idle,
    /// The buffer to show.
    Buffer,
    /// The place of a definition to go to.
    LspDefinition,
    /// The code action that a language server is to apply.
    LspCodeAction(ClientHandle),
    /// The symbol of the document to go to.
    LspDocumentSymbol(ClientHandle),
    /// The symbol of the workspace to go to.
    LspWorkspaceSymbol(ClientHandle),
}

/// What picker mode keeps between keys.
pub struct State {
    pub purpose: PickerPurpose,
}

impl State {
    pub fn new() -> (r: Self)
        ensures
            r.purpose == PickerPurpose::Idle,
    {
        State { purpose: PickerPurpose::Idle }
    }
}

impl Default for State {
    fn default() -> (r: Self)
        ensures
            r.purpose == PickerPurpose::Idle,
    {
        State::new()
    }
}

/// What became of a request to pick something.
#[derive(Clone, Copy, PartialEq, Eq, Structural)]
pub enum ClientOperation {
    /// There was nothing to pick from.
    Nothing,
    /// The editor waits for an entry to be picked.
    EnteredPickerMode,
}

/// The editor is ready to pick among the entries of its picker: the prompt
/// is `prompt`, the entries are ranked without a pattern, the cursor is on
/// the first of them, and, where there are entries, the editor is in picker
/// mode for `purpose`. Without entries the mode stays.
pub open spec fn picking(
    before: &Editor,
    after: &Editor,
    prompt: Seq<char>,
    purpose: PickerPurpose,
) -> bool {
    &&& crate::editor::same_but_mode(after, before)
    &&& after.read_line.prompt_text() == prompt
    &&& after.mode.read_line_purpose == before.mode.read_line_purpose
    &&& after.mode.command_state == before.mode.command_state
    &&& if has_matches(before) && !leaves_input(before.mode.kind) {
        &&& after.mode.kind == ModeKind::Picker
        &&& after.mode.picker_state.purpose == purpose
        &&& after.picker.names() == before.picker.names()
        &&& after.picker.descriptions() == before.picker.descriptions()
        &&& is_ranking(
            after.picker.names(),
            after.picker.names().len() as int,
            Seq::empty(),
            after.picker.filtered(),
            true,
        )
        &&& after.picker.filtered().len() > 0
        &&& 0 <= after.picker.cursor_index() < after.picker.filtered().len()
        &&& after.read_line.input_text() == Seq::<char>::empty()
    } else if has_matches(before) {
        &&& after.mode.kind == ModeKind::Picker
        &&& after.mode.picker_state.purpose == purpose
        &&& after.picker.names().len() == 0
        &&& after.read_line.input_text() == Seq::<char>::empty()
    } else {
        &&& after.mode.kind == before.mode.kind
        &&& after.mode.picker_state == before.mode.picker_state
        &&& after.picker.names() == before.picker.names()
        &&& after.picker.filtered().len() == 0
        &&& after.read_line.input_text() == before.read_line.input_text()
    }
}

/// Whether an entry of the picker matches the empty pattern.
pub open spec fn has_matches(editor: &Editor) -> bool {
    exists|i: int|
        0 <= i < editor.picker.names().len() && (#[trigger] crate::picker::fuzzy_score(
            editor.picker.names()[i],
            Seq::empty(),
        )).is_some()
}

/// Gets the editor ready to pick among the entries of its picker, under
/// the prompt and for the purpose given. Returns whether there is an entry
/// to pick.
pub fn enter_picker_mode(editor: &mut Editor, prompt: &str, purpose: PickerPurpose) -> (r: bool)
    requires
        old(editor).well_formed(),
    ensures
        final(editor).well_formed(),
        picking(old(editor), final(editor), prompt@, purpose),
        r == has_matches(old(editor)),
{
    editor.read_line.set_prompt(prompt);
    proof {
        reveal_strlit("");
    }
    assert(""@ =~= Seq::<char>::empty());
    editor.picker.filter("");
    editor.picker.move_cursor(0);
    let ghost filtered = editor.picker.filtered();
    proof {
        if has_matches(old(editor)) {
            let i = choose|i: int|
                0 <= i < old(editor).picker.names().len() && (
                #[trigger] crate::picker::fuzzy_score(
                    old(editor).picker.names()[i],
                    Seq::empty(),
                )).is_some();
            assert(filtered.len() > 0);
        } else {
            if filtered.len() > 0 {
                let entry = filtered[0];
                assert(crate::picker::fuzzy_score(
                    editor.picker.names()[entry.entry_index as int],
                    Seq::empty(),
                ).is_some());
            }
        }
    }
    if editor.picker.len() > 0 {
        editor.mode.picker_state.purpose = purpose;
        let ghost ready = *editor;
        editor.enter_mode(ModeKind::Picker);
        proof {
            editor.picker.lemma_cursor_within();
            if !leaves_input(old(editor).mode.kind) {
                crate::picker::law_ranking_is_unique(
                    editor.picker.names(),
                    editor.picker.names().len() as int,
                    Seq::empty(),
                    editor.picker.filtered(),
                    ready.picker.filtered(),
                    true,
                );
            }
        }
        true
    } else {
        false
    }
}

/// Lets the user pick the definition to go to among the entries of the picker.
pub fn enter_definition_mode(editor: &mut Editor) -> (r: ClientOperation)
    requires
        old(editor).well_formed(),
    ensures
        final(editor).well_formed(),
        picking(old(editor), final(editor), "definition:"@, PickerPurpose::LspDefinition),
        r == ClientOperation::EnteredPickerMode,
{
    enter_picker_mode(editor, "definition:", PickerPurpose::LspDefinition);
    ClientOperation::EnteredPickerMode
}

/// Lets the user pick the code action to apply among the entries of the
/// picker. Where there is nothing to pick from, the client stops waiting.
pub fn enter_code_action_mode(editor: &mut Editor, client: &mut Client) -> (r: ClientOperation)
    requires
        old(editor).well_formed(),
    ensures
        final(editor).well_formed(),
        picking(
            old(editor),
            final(editor),
            "code action:"@,
            PickerPurpose::LspCodeAction(old(client)@.handle),
        ),
        r == if has_matches(old(editor)) {
            ClientOperation::EnteredPickerMode
        } else {
            ClientOperation::Nothing
        },
        final(client)@ == if has_matches(old(editor)) {
            old(client)@
        } else {
            ClientModel { request_state: RequestState::Idle, ..old(client)@ }
        },
{
    if enter_picker_mode(editor, "code action:", PickerPurpose::LspCodeAction(client.handle)) {
        ClientOperation::EnteredPickerMode
    } else {
        client.cancel_current_request();
        ClientOperation::Nothing
    }
}

/// Lets the user pick the symbol of the document to go to among the entries
/// of the picker. Where there is nothing to pick from, the client stops
/// waiting.
pub fn enter_document_symbol_mode(editor: &mut Editor, client: &mut Client) -> (r: ClientOperation)
    requires
        old(editor).well_formed(),
    ensures
        final(editor).well_formed(),
        picking(
            old(editor),
            final(editor),
            "document symbol:"@,
            PickerPurpose::LspDocumentSymbol(old(client)@.handle),
        ),
        r == if has_matches(old(editor)) {
            ClientOperation::EnteredPickerMode
        } else {
            ClientOperation::Nothing
        },
        final(client)@ == if has_matches(old(editor)) {
            old(client)@
        } else {
            ClientModel { request_state: RequestState::Idle, ..old(client)@ }
        },
{
    if enter_picker_mode(
        editor,
        "document symbol:",
        PickerPurpose::LspDocumentSymbol(client.handle),
    ) {
        ClientOperation::EnteredPickerMode
    } else {
        client.cancel_current_request();
        ClientOperation::Nothing
    }
}

/// Lets the user pick the symbol of the workspace to go to among the
/// entries of the picker. Where there is nothing to pick from, the client
/// stops waiting.
pub fn enter_workspace_symbol_mode(editor: &mut Editor, client: &mut Client) -> (r: ClientOperation)
    requires
        old(editor).well_formed(),
    ensures
        final(editor).well_formed(),
        picking(
            old(editor),
            final(editor),
            "workspace symbol:"@,
            PickerPurpose::LspWorkspaceSymbol(old(client)@.handle),
        ),
        r == if has_matches(old(editor)) {
            ClientOperation::EnteredPickerMode
        } else {
            ClientOperation::Nothing
        },
        final(client)@ == if has_matches(old(editor)) {
            old(client)@
        } else {
            ClientModel { request_state: RequestState::Idle, ..old(client)@ }
        },
{
    if enter_picker_mode(
        editor,
        "workspace symbol:",
        PickerPurpose::LspWorkspaceSymbol(client.handle),
    ) {
        ClientOperation::EnteredPickerMode
    } else {
        client.cancel_current_request();
        ClientOperation::Nothing
    }
}

/// How far a key moves the cursor of the picker, if it moves it: by one
/// entry, by half of the height of the picker, or as far as the first or
/// the last entry is.
pub open spec fn picker_offset(editor: &Editor, key: Key) -> Option<int> {
    let count = editor.picker.filtered().len();
    let height: int = if count < editor.config.picker_max_height {
        count as int
    } else {
        editor.config.picker_max_height as int
    };
    match key {
        Key::Down => Some(1),
        Key::Up => Some(-1),
        Key::PageDown => Some(height / 2),
        Key::PageUp => Some(-(height / 2)),
        Key::Home => Some(-editor.picker.cursor_index()),
        Key::End => Some(count - editor.picker.cursor_index() - 1),
        Key::Ctrl(c) => if c == 'n' || c == 'j' {
            Some(1)
        } else if c == 'p' || c == 'k' {
            Some(-1)
        } else if c == 'd' {
            Some(height / 2)
        } else if c == 'u' {
            Some(-(height / 2))
        } else if c == 'b' {
            Some(-editor.picker.cursor_index())
        } else if c == 'e' {
            Some(count - editor.picker.cursor_index() - 1)
        } else {
            None
        },
        _ => None,
    }
}

/// The entry under the cursor of the picker: its place among the entries.
pub open spec fn chosen_entry(editor: &Editor) -> Option<usize> {
    if editor.picker.filtered().len() > 0 {
        Some(editor.picker.filtered()[editor.picker.cursor_index()].entry_index)
    } else {
        None
    }
}

/// Nothing but the client in the slot of `handle` differs between the two
/// tables; the slot holds a client in both.
pub open spec fn slot_changed(l0: &ClientManager, l1: &ClientManager, handle: ClientHandle) -> bool {
    &&& l1.recipes == l0.recipes
    &&& occupied(l0.entries@, handle)
    &&& occupied(l1.entries@, handle)
    &&& l1.entries@ == l0.entries@.update(handle.0 as int, l1.entries@[handle.0 as int])
}

/// What a key that neither submits nor cancels does in picker mode: it is
/// applied to the line; then a key that moves the cursor does so, and any
/// other key ranks the entries against the line.
pub open spec fn picker_typed(e0: &Editor, e1: &Editor, key: Key, pasted: Option<Seq<char>>) -> bool {
    let input = crate::editor::input_after(e0.read_line.input_text(), key, pasted);
    let count = e0.picker.filtered().len();
    &&& *e1 == (Editor { read_line: e1.read_line, picker: e1.picker, ..*e0 })
    &&& e1.read_line.prompt_text() == e0.read_line.prompt_text()
    &&& e1.read_line.input_text() == input
    &&& e1.picker.names() == e0.picker.names()
    &&& e1.picker.descriptions() == e0.picker.descriptions()
    &&& e1.picker.scroll_index() == e0.picker.scroll_index()
    &&& match picker_offset(e0, key) {
        Some(offset) => e1.picker.filtered() == e0.picker.filtered() && e1.picker.cursor_index()
            == if count > 0 {
            crate::picker::moved_cursor(e0.picker.cursor_index(), offset, count as int)
        } else {
            0
        },
        None => is_ranking(
            e1.picker.names(),
            e1.picker.names().len() as int,
            input,
            e1.picker.filtered(),
            true,
        ) && e1.picker.cursor_index() == if e0.picker.cursor_index() < e1.picker.filtered().len() {
            e0.picker.cursor_index()
        } else if e1.picker.filtered().len() > 0 {
            e1.picker.filtered().len() - 1
        } else {
            0
        },
    }
}

/// The path and the cursor that an entry names. An entry that is picked
/// as a buffer is a path. An entry that is picked as a definition or as a
/// symbol of the workspace is a path that may end in a line and a column;
/// the cursor stands there.
pub open spec fn picked_place(purpose: PickerPurpose, entry: Seq<char>) -> (Seq<char>, Cursor) {
    match purpose {
        PickerPurpose::Buffer => (entry, Cursor::at_zero()),
        _ => {
            let (path, position) = path_and_position(entry);
            (
                path,
                match position {
                    Some(position) => Cursor { anchor: position, position },
                    None => Cursor::at_zero(),
                },
            )
        },
    }
}

/// What the enter key does in picker mode, by what the entry is picked
/// for: the buffer of the path that the entry names is shown to the client,
/// at the place that the entry names;
/// the code action or the symbol at the place of the entry is chosen.
/// Nothing happens without an entry.
pub open spec fn picker_submitted(
    e0: &Editor,
    e1: &Editor,
    k0: &ClientCollection,
    k1: &ClientCollection,
    client: TargetClient,
) -> bool {
    match chosen_entry(e0) {
        None => *e1 == *e0 && *k1 == *k0,
        Some(index) => match e0.mode.picker_state.purpose {
            PickerPurpose::Idle => *e1 == *e0 && *k1 == *k0,
            PickerPurpose::LspCodeAction(handle) => *k1 == *k0 && if occupied(
                e0.lsp.entries@,
                handle,
            ) {
                slot_changed(&e0.lsp, &e1.lsp, handle) && code_action_chosen(
                    client_at(e0.lsp.entries@, handle)@,
                    client_at(e1.lsp.entries@, handle)@,
                    &with_lsp(e0, e1.lsp),
                    e1,
                    index,
                )
            } else {
                *e1 == *e0
            },
            PickerPurpose::LspDocumentSymbol(handle) => *k1 == *k0 && if occupied(
                e0.lsp.entries@,
                handle,
            ) {
                slot_changed(&e0.lsp, &e1.lsp, handle) && symbol_chosen(
                    client_at(e0.lsp.entries@, handle)@,
                    client_at(e1.lsp.entries@, handle)@,
                    &with_lsp(e0, e1.lsp),
                    e1,
                    index,
                )
            } else {
                *e1 == *e0
            },
            purpose => {
                let (path, cursor) = picked_place(purpose, e0.picker.names()[index as int]);
                if k0.client(client) is Some && !tables_full(e0, path) {
                    shown_at(e0, e1, k0, k1, client, path, cursor)
                } else {
                    status_shown(e0, e1, StatusMessageKind::Error, "could not open buffer"@) && *k1
                        == *k0
                }
            },
        },
    }
}

/// What the escape key does in picker mode: a client that waited for the
/// choice waits no longer.
pub open spec fn picker_canceled(e0: &Editor, e1: &Editor) -> bool {
    match e0.mode.picker_state.purpose {
        PickerPurpose::LspCodeAction(handle) => request_canceled(e0, e1, handle),
        PickerPurpose::LspDocumentSymbol(handle) => request_canceled(e0, e1, handle),
        PickerPurpose::LspWorkspaceSymbol(handle) => request_canceled(e0, e1, handle),
        _ => *e1 == *e0,
    }
}

/// What a key does in picker mode.
pub open spec fn picker_effect(
    e0: &Editor,
    e1: &Editor,
    k0: &ClientCollection,
    k1: &ClientCollection,
    client: TargetClient,
    key: Key,
    pasted: Option<Seq<char>>,
) -> bool {
    match poll_of(key) {
        ReadLinePoll::Pending => picker_typed(e0, e1, key, pasted) && *k1 == *k0,
        ReadLinePoll::Submitted => picker_submitted(e0, e1, k0, k1, client),
        ReadLinePoll::Canceled => picker_canceled(e0, e1) && *k1 == *k0,
    }
}

/// How a key moves the cursor of the picker.
#[derive(Clone, Copy, PartialEq, Eq, Structural)]
pub enum PickerMove {
    /// By so many entries.
    By(isize),
    /// To the first entry.
    First,
    /// To the last entry.
    Last,
}

/// Whether a key moves the cursor of the picker to the first entry.
pub open spec fn moves_to_first(key: Key) -> bool {
    key == Key::Home || key == Key::Ctrl('b')
}

/// Whether a key moves the cursor of the picker to the last entry.
pub open spec fn moves_to_last(key: Key) -> bool {
    key == Key::End || key == Key::Ctrl('e')
}

fn move_of(editor: &Editor, key: Key) -> (r: Option<PickerMove>)
    ensures
        match picker_offset(editor, key) {
            Some(offset) => if moves_to_first(key) {
                r == Some(PickerMove::First)
            } else if moves_to_last(key) {
                r == Some(PickerMove::Last)
            } else {
                r == Some(PickerMove::By(offset as isize)) && isize::MIN <= offset <= isize::MAX
            },
            None => r is None,
        },
{
    let height = editor.picker.height(editor.config.picker_max_height as usize);
    let half = (height / 2) as isize;
    match key {
        Key::Down => Some(PickerMove::By(1)),
        Key::Up => Some(PickerMove::By(-1)),
        Key::PageDown => Some(PickerMove::By(half)),
        Key::PageUp => Some(PickerMove::By(-half)),
        Key::Home => Some(PickerMove::First),
        Key::End => Some(PickerMove::Last),
        Key::Ctrl(c) => {
            if c == 'n' || c == 'j' {
                Some(PickerMove::By(1))
            } else if c == 'p' || c == 'k' {
                Some(PickerMove::By(-1))
            } else if c == 'd' {
                Some(PickerMove::By(half))
            } else if c == 'u' {
                Some(PickerMove::By(-half))
            } else if c == 'b' {
                Some(PickerMove::First)
            } else if c == 'e' {
                Some(PickerMove::Last)
            } else {
                None
            }
        },
        _ => None,
    }
}

fn on_submitted(editor: &mut Editor, clients: &mut ClientCollection, client: TargetClient)
    requires
        old(editor).well_formed(),
    ensures
        final(editor).well_formed(),
        picker_submitted(old(editor), final(editor), old(clients), final(clients), client),
{
    let (index, path) = match editor.picker.current_entry() {
        Some((index, name, _)) => (index, String::from_str(name)),
        None => {
            return ;
        },
    };
    match editor.mode.picker_state.purpose {
        PickerPurpose::Idle => {},
        PickerPurpose::LspCodeAction(handle) => {
            match ClientManager::access(editor, handle) {
                Some(mut client) => {
                    client.finish_code_action(editor, index);
                    ClientManager::release(editor, handle, client);
                    assert(editor.lsp.entries@ =~= old(editor).lsp.entries@.update(
                        handle.0 as int,
                        editor.lsp.entries@[handle.0 as int],
                    ));
                },
                None => {},
            }
        },
        PickerPurpose::LspDocumentSymbol(handle) => {
            match ClientManager::access(editor, handle) {
                Some(mut client) => {
                    client.finish_document_symbols(editor, index);
                    ClientManager::release(editor, handle, client);
                    assert(editor.lsp.entries@ =~= old(editor).lsp.entries@.update(
                        handle.0 as int,
                        editor.lsp.entries@[handle.0 as int],
                    ));
                },
                None => {},
            }
        },
        purpose => {
            let (path, cursor) = match purpose {
                PickerPurpose::Buffer => (path, Cursor::zero()),
                _ => {
                    let (path, position) = split_path_and_position(path.as_str());
                    (
                        path,
                        match position {
                            Some(position) => Cursor { anchor: position, position },
                            None => Cursor::zero(),
                        },
                    )
                },
            };
            if !editor.show_path(clients, client, path.as_str(), cursor) {
                editor.status_message.write_str(StatusMessageKind::Error, "could not open buffer");
            }
        },
    }
}

/// Handles a key in picker mode, with `pasted` as what the clipboard
/// holds. The enter key and the escape key lead back to normal mode.
pub fn on_key(
    editor: &mut Editor,
    clients: &mut ClientCollection,
    client: TargetClient,
    key: Key,
    pasted: Option<&str>,
) -> (r: ModeOperation)
    requires
        old(editor).well_formed(),
    ensures
        final(editor).well_formed(),
        final(editor).buffered_keys == old(editor).buffered_keys,
        r == read_line_answer(key),
        picker_effect(
            old(editor),
            final(editor),
            old(clients),
            final(clients),
            client,
            key,
            pasted_view(pasted),
        ),
{
    match editor.read_line.apply_key(key, pasted) {
        ReadLinePoll::Pending => {
            proof {
                editor.picker.lemma_cursor_within();
            }
            match move_of(editor, key) {
                Some(PickerMove::By(offset)) => {
                    editor.picker.move_cursor(offset);
                },
                Some(PickerMove::First) => {
                    editor.picker.move_cursor_to_first();
                },
                Some(PickerMove::Last) => {
                    editor.picker.move_cursor_to_last();
                },
                None => {
                    let input = String::from_str(editor.read_line.input());
                    editor.picker.filter(input.as_str());
                },
            }
            ModeOperation::Handled
        },
        ReadLinePoll::Submitted => {
            on_submitted(editor, clients, client);
            ModeOperation::EnterMode(ModeKind::Normal)
        },
        ReadLinePoll::Canceled => {
            match editor.mode.picker_state.purpose {
                PickerPurpose::LspCodeAction(handle) => {
                    ClientManager::cancel_request(editor, handle);
                },
                PickerPurpose::LspDocumentSymbol(handle) => {
                    ClientManager::cancel_request(editor, handle);
                },
                PickerPurpose::LspWorkspaceSymbol(handle) => {
                    ClientManager::cancel_request(editor, handle);
                },
                _ => {},
            }
            ModeOperation::EnterMode(ModeKind::Normal)
        },
    }
}

/// Picker mode has handled the key at the place `at0`, is at the place
/// `at1` now, and answers `r`: the editor is as `on_key` leaves it for some
/// outcome of reading the clipboard, which is read for the key that pastes
/// only. Nothing happens behind the last key.
pub open spec fn keys_handled(
    e0: &Editor,
    e1: &Editor,
    k0: &ClientCollection,
    k1: &ClientCollection,
    client: TargetClient,
    at0: int,
    at1: int,
    r: ModeOperation,
) -> bool {
    if at0 >= e0.buffered_keys.0@.len() {
        r == ModeOperation::Handled && *e1 == *e0 && *k1 == *k0 && at1 == at0
    } else {
        let key = e0.buffered_keys.0@[at0];
        &&& at1 == at0 + 1
        &&& r == read_line_answer(key)
        &&& exists|pasted: Option<Seq<char>>|
            #![trigger picker_effect(e0, e1, k0, k1, client, key, pasted)]
            (key != Key::Ctrl('y') ==> pasted is None) && picker_effect(
                e0,
                e1,
                k0,
                k1,
                client,
                key,
                pasted,
            )
    }
}

/// Handles the next key in picker mode. The clipboard is read for the key
/// that pastes, so the editor ends up as `on_key` leaves it for some
/// outcome of the reading.
pub fn on_client_keys(
    editor: &mut Editor,
    clients: &mut ClientCollection,
    client: TargetClient,
    keys: &mut KeysIterator,
) -> (r: ModeOperation)
    requires
        old(editor).well_formed(),
    ensures
        final(editor).well_formed(),
        final(editor).buffered_keys == old(editor).buffered_keys,
        keys_handled(
            old(editor),
            final(editor),
            old(clients),
            final(clients),
            client,
            old(keys).position(),
            final(keys).position(),
            r,
        ),
{
    proof {
        keys.lemma_position();
    }
    if keys.index() >= editor.buffered_keys.0.len() {
        return ModeOperation::Handled;
    }
    let key = keys.next(&editor.buffered_keys);
    let pasted = pasted_for(key);
    match &pasted {
        Some(text) => {
            let r = on_key(editor, clients, client, key, Some(text.as_str()));
            assert(picker_effect(old(editor), editor, old(clients), clients, client, key, Some(text@)));
            r
        },
        None => {
            let r = on_key(editor, clients, client, key, None);
            assert(picker_effect(old(editor), editor, old(clients), clients, client, key, None));
            r
        },
    }
}

/// A key that moves the cursor of the picker leaves the entries as they
/// are and puts the cursor at the sum of its place and the key's offset,
/// held within the entries: never before the first, never behind the last.
/// The keys for the first and for the last entry put it exactly there.
pub proof fn law_navigation_stays_within(
    e0: &Editor,
    e1: &Editor,
    key: Key,
    pasted: Option<Seq<char>>,
)
    requires
        picker_typed(e0, e1, key, pasted),
        picker_offset(e0, key) is Some,
        0 <= e0.picker.cursor_index() < e0.picker.filtered().len(),
    ensures
        e1.picker.filtered() == e0.picker.filtered(),
        0 <= e1.picker.cursor_index() < e0.picker.filtered().len(),
        ({
            let wanted = e0.picker.cursor_index() + picker_offset(e0, key)->Some_0;
            let last = e0.picker.filtered().len() - 1;
            e1.picker.cursor_index() == if wanted < 0 {
                0
            } else if wanted > last {
                last
            } else {
                wanted
            }
        }),
        moves_to_first(key) ==> e1.picker.cursor_index() == 0,
        moves_to_last(key) ==> e1.picker.cursor_index() == e0.picker.filtered().len() - 1,
{
}

} // verus!
