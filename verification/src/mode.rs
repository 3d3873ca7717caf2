//! The modes of the editor and what a mode answers to the keys it is given.

use crate::client_collection::ClientCollection;
use crate::connection::TargetClient;
use crate::editor::{Editor, KeysIterator};
use crate::lsp::client::ClientHandle;
use crate::platform::{Platform, PlatformRequestView};
use crate::register::RegisterKey;
use vstd::prelude::*;

pub mod command;
pub mod insert;
pub mod normal;
pub mod picker;
pub mod read_line;
pub mod select;

verus! {

/// The modes of the editor.
#[derive(Debug, Clone, Copy, PartialEq, Eq, Structural)]
pub enum ModeKind {
    Normal,
    Insert,
    ReadLine,
    Picker,
    Command,
    Select,
}

impl Default for ModeKind {
    fn default() -> (r: Self)
        ensures
            r == ModeKind::Normal,
    {
        ModeKind::Normal
    }
}

/// What a mode answers to the keys it was given.
#[derive(Clone, Copy, PartialEq, Eq, Structural)]
pub enum ModeOperation {
    /// The keys are the start of something: more keys are needed.
    Pending,
    /// The keys were handled.
    Handled,
    /// The editor is to enter another mode.
    EnterMode(ModeKind),
    /// The client is to leave.
    Quit,
    /// All clients are to leave.
    QuitAll,
    /// The keys of a register are to be run.
    ExecuteMacro(RegisterKey),
}

/// What the line that is being read is for.
#[derive(Clone, Copy, PartialEq, Eq, Structural)]
pub enum ReadLinePurpose {
    /// For nothing: what is read is dropped.
    Idle,
    /// The new name of what a language server is to rename.
    LspRename(ClientHandle),
}

/// The mode that the editor is in, with what each mode keeps between keys.
pub struct Mode {
    pub kind: ModeKind,
    pub command_state: command::State,
    pub picker_state: picker::State,
    pub read_line_purpose: ReadLinePurpose,
}

impl Mode {
    /// Normal mode, with every mode in its first state.
    pub fn new() -> (r: Self)
        ensures
            r.kind == ModeKind::Normal,
            r.read_line_purpose == ReadLinePurpose::Idle,
            r.picker_state.purpose == picker::PickerPurpose::Idle,
            r.command_state.read_state == command::ReadCommandState::TypingCommand,
            r.command_state.completion_index == 0,
    {
        Mode {
            kind: ModeKind::Normal,
            command_state: command::State::new(),
            picker_state: picker::State::new(),
            read_line_purpose: ReadLinePurpose::Idle,
        }
    }

    pub fn kind(&self) -> (r: ModeKind)
        ensures
            r == self.kind,
    {
        self.kind
    }
}

impl Default for Mode {
    fn default() -> (r: Self)
        ensures
            r.kind == ModeKind::Normal,
    {
        Mode::new()
    }
}

/// The mode of the editor has handled the keys from the place `at0` on, is
/// at the place `at1` now, and answers `r`, as the mode itself says.
pub open spec fn keys_handled(
    e0: &Editor,
    e1: &Editor,
    k0: &ClientCollection,
    k1: &ClientCollection,
    w0: Seq<PlatformRequestView>,
    w1: Seq<PlatformRequestView>,
    client: TargetClient,
    at0: int,
    at1: int,
    r: ModeOperation,
) -> bool {
    match e0.mode.kind {
        ModeKind::Normal => *k1 == *k0 && w1 == w0 && normal::keys_handled(
            e0,
            e1,
            k0,
            client,
            at0,
            at1,
            r,
        ),
        ModeKind::Insert => *k1 == *k0 && w1 == w0 && insert::keys_handled(
            e0,
            e1,
            k0,
            client,
            at0,
            at1,
            r,
        ),
        ModeKind::ReadLine => *k1 == *k0 && read_line::keys_handled(e0, e1, w0, w1, at0, at1, r),
        ModeKind::Picker => w1 == w0 && picker::keys_handled(e0, e1, k0, k1, client, at0, at1, r),
        ModeKind::Command => w1 == w0 && command::keys_handled(e0, e1, k0, k1, client, at0, at1, r),
        ModeKind::Select => *k1 == *k0 && w1 == w0 && select::keys_handled(
            e0,
            e1,
            k0,
            client,
            at0,
            at1,
            r,
        ),
    }
}

impl Mode {
    /// Hands the next keys to the mode that the editor is in. A mode that
    /// does not wait for more keys has taken at least one key, if there was
    /// one.
    pub fn on_client_keys(
        editor: &mut Editor,
        platform: &mut Platform,
        clients: &mut ClientCollection,
        client: TargetClient,
        keys: &mut KeysIterator,
    ) -> (r: ModeOperation)
        requires
            old(editor).well_formed(),
        ensures
            final(editor).well_formed(),
            final(editor).buffered_keys == old(editor).buffered_keys,
            keys_handled(
                old(editor),
                final(editor),
                old(clients),
                final(clients),
                old(platform)@,
                final(platform)@,
                client,
                old(keys).position(),
                final(keys).position(),
                r,
            ),
            r != ModeOperation::Pending && old(keys).position() < old(editor).buffered_keys.0@.len()
                ==> final(keys).position() > old(keys).position(),
            r != ModeOperation::Pending ==> final(keys).position() <= old(editor).buffered_keys.0@.len() || final(keys).position() == old(keys).position(),
    {
        proof {
            keys.lemma_position();
        }
        match editor.mode.kind {
            ModeKind::Normal => normal::on_client_keys(editor, clients, client, keys),
            ModeKind::Insert => insert::on_client_keys(editor, clients, client, keys),
            ModeKind::ReadLine => read_line::on_client_keys(editor, platform, keys),
            ModeKind::Picker => picker::on_client_keys(editor, clients, client, keys),
            ModeKind::Command => command::on_client_keys(editor, clients, client, keys),
            ModeKind::Select => select::on_client_keys(editor, clients, client, keys),
        }
    }
}

} // verus!
