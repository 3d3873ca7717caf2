//! What a client does with the responses of its server.

use crate::buffer::BufferCollection;
use crate::buffer_content::{clamped, ordered, text_between, word_range};
use crate::buffer_position::{BufferPosition, BufferRange};
use crate::connection::TargetClient;
use crate::cursor::Cursor;
use crate::buffer::BufferCapabilities;
use crate::editor::{shown_at, tables_full, text_replaced};
use crate::lsp::edits::workspace_edit_applied;
use crate::lsp::protocol::{
    code_action_of,
    location_of,
    member_position,
    member_text,
    position_from_document,
    range_from_document,
    range_of,
    symbol_of,
    uri_path,
    workspace_edit_of,
    DocumentCodeAction,
    DocumentLocation,
    DocumentRange,
    DocumentSymbolInformation,
    WorkspaceEdit,
    clone_json,
    parse_uri,
    DocumentPosition,
};
use crate::mode::picker::{
    enter_code_action_mode, enter_document_symbol_mode, has_matches, picking, PickerPurpose,
};
use crate::mode::{ModeKind, ReadLinePurpose};
use crate::client_collection::ClientCollection;
use crate::editor::{same_but_status, Editor, StatusMessageKind};
use crate::events::BufferHandle;
use crate::json::{elements, has_member, json_text, json_views, member, Json, JsonValue, ObjectBuilder};
use crate::lsp::capabilities::{capabilities_of, ServerCapabilities, ServerCapabilitiesView};
use crate::lsp::client::{
    extract_markup_content, logged, markup_text, notified, opened, send_did_open, Client,
    ClientModel, RequestState,
};
use crate::lsp::edits::{bottom_up, content_after_edits};
use crate::lsp::protocol::{
    error_json,
    pending_index,
    text_edits_of,
    ResponseError,
    ResponseErrorView,
    ServerResponse,
    TextEdit,
};
use crate::platform::{Platform, PlatformRequestView};
use crate::text::{chars_of, decimal, find_last, push_decimal, same_text, substring, views};
use vstd::prelude::*;

verus! {

/// What the log says of a response that came in.
pub open spec fn response_received_log(
    id: usize,
    method: Seq<char>,
    result: Result<Json, ResponseErrorView>,
) -> Seq<char> {
    "receive response\nid: "@ + decimal(id as nat) + "\nmethod: '"@ + method + (match result {
        Ok(value) => "'\nresult:\n"@ + json_text(value),
        Err(error) => "'\nerror:\n"@ + json_text(error_json(error)),
    })
}

/// The client and the requests after every buffer among the first `count`
/// was told to the server as opened, in the order of the buffers.
pub open spec fn all_opened(
    m: ClientModel,
    p: Seq<PlatformRequestView>,
    buffers: &BufferCollection,
    count: int,
) -> (ClientModel, Seq<PlatformRequestView>)
    decreases count,
{
    if count <= 0 {
        (m, p)
    } else {
        let (m1, w1) = all_opened(m, p, buffers, count - 1);
        if count - 1 <= u32::MAX {
            opened(m1, w1, buffers, BufferHandle((count - 1) as u32))
        } else {
            (m1, w1)
        }
    }
}

/// The client and the requests after the server answered `initialize` with
/// these capabilities: the client is initialized, tells the server so, and
/// tells it of every buffer.
pub open spec fn initialized(
    m: ClientModel,
    p: Seq<PlatformRequestView>,
    buffers: &BufferCollection,
    capabilities: ServerCapabilitiesView,
) -> (ClientModel, Seq<PlatformRequestView>) {
    let (m1, w1) = notified(
        ClientModel { capabilities, initialized: true, ..m },
        p,
        "initialized"@,
        Json::Object(Seq::empty(), Seq::empty()),
    );
    all_opened(m1, w1, buffers, buffers.buffers@.len() as int)
}

/// The signature that a response to `textDocument/signatureHelp` tells
/// of: the one at the place that the member `activeSignature` names, the
/// first one where that member is missing.
pub open spec fn active_signature(result: Json) -> Option<Json> {
    match result {
        Json::Object(_, _) => {
            let signatures = elements(member(result, "signatures"@));
            match crate::lsp::protocol::member_u32(result, "activeSignature"@) {
                Some(active) => if active < signatures.len() {
                    Some(signatures[active as int])
                } else {
                    None
                },
                None => None,
            }
        },
        _ => None,
    }
}

/// The text that is shown for a signature: its label, below its
/// documentation where it has one.
pub open spec fn signature_text(signature: Json) -> Option<Seq<char>> {
    match signature {
        Json::Object(_, _) => match crate::lsp::protocol::member_text(signature, "label"@) {
            Some(label) => {
                let documentation = markup_text(member(signature, "documentation"@));
                if documentation.len() == 0 {
                    Some(label)
                } else {
                    Some(documentation.push('\n') + label)
                }
            },
            None => None,
        },
        _ => None,
    }
}

/// The editor shows `text` on its status bar, and is the same otherwise.
pub open spec fn status_shown(
    before: &Editor,
    after: &Editor,
    kind: StatusMessageKind,
    text: Seq<char>,
) -> bool {
    same_but_status(after, before) && after.status_message.kind() == kind
        && after.status_message.text() == text
}

impl Client {
    /// Handles the answer to `initialize`.
    pub fn on_initialize_response(
        &mut self,
        editor: &Editor,
        platform: &mut Platform,
        result: &JsonValue,
    )
        ensures
            final(self)@.read_buf == old(self)@.read_buf,
            (final(self)@, final(platform)@) == match capabilities_of(
                member(result@, "capabilities"@),
            ) {
                Some(capabilities) => initialized(
                    old(self)@,
                    old(platform)@,
                    &editor.buffers,
                    capabilities,
                ),
                None => (old(self)@, old(platform)@),
            },
    {
        let null = JsonValue::Null;
        let capabilities = match result.get("capabilities") {
            Some(capabilities) => ServerCapabilities::from_json(capabilities),
            None => ServerCapabilities::from_json(&null),
        };
        let capabilities = match capabilities {
            Ok(capabilities) => capabilities,
            Err(_) => {
                return ;
            },
        };
        let ghost view = capabilities@;
        self.server_capabilities = capabilities;
        self.initialized = true;
        let params = ObjectBuilder::new().build();
        self.notify(platform, "initialized", params);
        let count = editor.buffers.buffers.len();
        let ghost m1 = self@;
        let ghost w1 = platform@;
        let mut i: usize = 0;
        while i < count
            invariant
                0 <= i <= count,
                count == editor.buffers.buffers@.len(),
                self@.read_buf == m1.read_buf,
                (self@, platform@) == all_opened(m1, w1, &editor.buffers, i as int),
            decreases count - i,
        {
            if i <= u32::MAX as usize {
                send_did_open(self, editor, platform, BufferHandle(i as u32));
            }
            i = i + 1;
        }
    }

    /// Shows what the server knows of a place.
    pub fn on_hover_response(&self, editor: &mut Editor, result: &JsonValue)
        ensures
            status_shown(
                old(editor),
                final(editor),
                StatusMessageKind::Info,
                markup_text(member(result@, "contents"@)),
            ),
    {
        let null = JsonValue::Null;
        let contents = match result.get("contents") {
            Some(contents) => contents,
            None => &null,
        };
        editor.status_message.write_str(StatusMessageKind::Info, extract_markup_content(contents));
    }

    /// Shows the signature that the server tells of. Nothing is shown where
    /// it tells of none.
    pub fn on_signature_help_response(&self, editor: &mut Editor, result: &JsonValue)
        ensures
            match active_signature(result@) {
                Some(signature) => match signature_text(signature) {
                    Some(text) => status_shown(
                        old(editor),
                        final(editor),
                        StatusMessageKind::Info,
                        text,
                    ),
                    None => *final(editor) == *old(editor),
                },
                None => *final(editor) == *old(editor),
            },
    {
        match result {
            JsonValue::Object(_, _) => {},
            _ => {
                return ;
            },
        }
        let active = match crate::lsp::protocol::get_u32(result, "activeSignature") {
            Some(active) => active as usize,
            None => {
                return ;
            },
        };
        let signatures = match result.get("signatures") {
            Some(signatures) => match signatures.items() {
                Some(items) => items,
                None => {
                    return ;
                },
            },
            None => {
                return ;
            },
        };
        if active >= signatures.len() {
            return ;
        }
        let signature = &signatures[active];
        match signature {
            JsonValue::Object(_, _) => {},
            _ => {
                return ;
            },
        }
        let label = match crate::lsp::protocol::get_text(signature, "label") {
            Some(label) => label,
            None => {
                return ;
            },
        };
        let null = JsonValue::Null;
        let documentation = extract_markup_content(
            match signature.get("documentation") {
                Some(documentation) => documentation,
                None => &null,
            },
        );
        if documentation.unicode_len() == 0 {
            editor.status_message.write_str(StatusMessageKind::Info, label);
        } else {
            let mut text = String::from_str(documentation);
            text.push('\n');
            text.append(label);
            editor.status_message.write_str(StatusMessageKind::Info, text.as_str());
        }
    }

    /// Applies the edits that the server sent to format a buffer, bottom up.
    /// Nothing happens where the client waited for something else; where the
    /// edits are malformed or the buffer is gone, the client stops waiting
    /// and nothing else happens.
    pub fn on_formatting_response(&mut self, editor: &mut Editor, result: &JsonValue)
        requires
            old(editor).well_formed(),
        ensures
            final(self)@.read_buf == old(self)@.read_buf,
            final(editor).well_formed(),
            match old(self)@.request_state {
                RequestState::Formatting { buffer_handle } => {
                    &&& final(self)@ == (ClientModel {
                        request_state: RequestState::Idle,
                        ..old(self)@
                    })
                    &&& match text_edits_of(elements(result@), elements(result@).len() as int) {
                        Some(edits) => if result@ is Array && old(editor).buffers.contains(
                            buffer_handle,
                        ) {
                            &&& final(editor).buffers.contains(buffer_handle)
                            &&& final(editor).buffers.buffer(buffer_handle).content@
                                == content_after_edits(
                                old(editor).buffers.buffer(buffer_handle).content@,
                                bottom_up(edits, edits.len() as int),
                            )
                            &&& final(editor).buffers.buffer(buffer_handle).path == old(editor).buffers.buffer(buffer_handle).path
                            &&& forall|h: BufferHandle|
                                h != buffer_handle ==> final(editor).buffers.contains(h) == old(editor).buffers.contains(h) && (old(editor).buffers.contains(h)
                                    ==> final(editor).buffers.buffer(h) == old(editor).buffers.buffer(h))
                            &&& crate::editor::same_but_buffers(final(editor), old(editor))
                            &&& final(editor).buffer_views == old(editor).buffer_views
                        } else {
                            *final(editor) == *old(editor)
                        },
                        None => *final(editor) == *old(editor),
                    }
                },
                _ => final(self)@ == old(self)@ && *final(editor) == *old(editor),
            },
    {
        let buffer_handle = match self.request_state {
            RequestState::Formatting { buffer_handle } => buffer_handle,
            _ => {
                return ;
            },
        };
        self.request_state = RequestState::Idle;
        match result {
            JsonValue::Array(_) => {},
            _ => {
                return ;
            },
        }
        let edits = match TextEdit::list_from_json(result) {
            Ok(edits) => edits,
            Err(_) => {
                return ;
            },
        };
        editor.apply_edits_to_buffer(buffer_handle, &edits);
    }
}

/// Where a response to `textDocument/definition` points: the place of the
/// location that it holds, or of the first of the locations that it holds.
pub open spec fn definition_target(root: Seq<char>, result: Json) -> Option<
    (Seq<char>, BufferPosition),
> {
    let location = match result {
        Json::Object(_, _) => Some(result),
        Json::Array(items) => if items.len() > 0 {
            Some(items[0])
        } else {
            None
        },
        _ => None,
    };
    match location {
        Some(location) => match location_of(location) {
            Some(location) => match uri_path(root, location.uri) {
                Some(path) => Some((path, position_from_document(location.range.start))),
                None => None,
            },
            None => None,
        },
        None => None,
    }
}

/// The titles of the code actions among the first `count` values that are
/// well formed and not disabled.
pub open spec fn action_titles(items: Seq<Json>, count: int) -> Seq<Seq<char>>
    decreases count,
{
    if count <= 0 || count > items.len() {
        Seq::empty()
    } else {
        match code_action_of(items[count - 1]) {
            Some(action) => if action.disabled {
                action_titles(items, count - 1)
            } else {
                action_titles(items, count - 1).push(action.title)
            },
            None => action_titles(items, count - 1),
        }
    }
}

/// What the picker shows for a symbol: its name, followed by the name of
/// what holds it, in brackets, where it is held by something.
pub open spec fn symbol_label(name: Seq<char>, container: Option<Seq<char>>) -> Seq<char> {
    match container {
        Some(container) => name + " ("@ + container + ")"@,
        None => name,
    }
}

/// The labels of the symbols among the first `count` values that are well
/// formed.
pub open spec fn symbol_labels(items: Seq<Json>, count: int) -> Seq<Seq<char>>
    decreases count,
{
    if count <= 0 || count > items.len() {
        Seq::empty()
    } else {
        match symbol_of(items[count - 1]) {
            Some(symbol) => symbol_labels(items, count - 1).push(
                symbol_label(symbol.name, symbol.container_name),
            ),
            None => symbol_labels(items, count - 1),
        }
    }
}

/// The picker holds the entries `names`, without descriptions and not
/// filtered yet, and the editor is the same otherwise.
pub open spec fn picker_filled(before: &Editor, after: &Editor, names: Seq<Seq<char>>) -> bool {
    &&& *after == (Editor { picker: after.picker, ..*before })
    &&& after.picker.names() == names
    &&& after.picker.descriptions().len() == names.len()
    &&& after.picker.filtered().len() == 0
    &&& after.picker.cursor_index() == 0
}

/// The range and the text that a rename starts from, as a response to
/// `textDocument/prepareRename` tells them: the range is its member
/// `range`, or runs from its member `start` to its member `end`, and gives
/// way to the word under the cursor where its member `defaultBehavior` is
/// `true`; the text is its member `placeholder`, or what stands in the range.
pub open spec fn rename_start(
    result: Json,
    content: Seq<Seq<char>>,
    position: BufferPosition,
) -> Option<Seq<char>> {
    let told = if has_member(result, "range"@) {
        range_of(member(result, "range"@))
    } else {
        match (member_position(result, "start"@), member_position(result, "end"@)) {
            (Some(start), Some(end)) => Some(DocumentRange { start, end }),
            _ => None,
        }
    };
    let placeholder = if has_member(result, "placeholder"@) {
        match member(result, "placeholder"@) {
            Json::String(text) => Some(Some(text)),
            _ => None,
        }
    } else {
        Some(None)
    };
    match (told, placeholder) {
        (Some(told), Some(placeholder)) => {
            let range = if member(result, "defaultBehavior"@) == Json::Boolean(true) {
                word_range(content, position)
            } else {
                range_from_document(told)
            };
            match placeholder {
                Some(text) => Some(text),
                None => {
                    let span = ordered(clamped(content, range.from), clamped(content, range.to));
                    Some(text_between(content, span.from, span.to))
                },
            }
        },
        _ => None,
    }
}

/// The editor reads the new name for a rename: it is in read line mode for
/// the client `handle`, under the prompt `rename:`, with `input` as what is
/// typed so far. The picker is emptied where the mode that was left empties
/// it; everything else is the same.
pub open spec fn reading_new_name(
    before: &Editor,
    after: &Editor,
    handle: crate::lsp::client::ClientHandle,
    input: Seq<char>,
) -> bool {
    &&& crate::editor::same_but_mode(after, before)
    &&& after.mode.kind == ModeKind::ReadLine
    &&& after.mode.read_line_purpose == ReadLinePurpose::LspRename(handle)
    &&& after.mode.picker_state == before.mode.picker_state
    &&& after.mode.command_state == before.mode.command_state
    &&& after.read_line.prompt_text() == "rename:"@
    &&& after.read_line.input_text() == input
    &&& if crate::editor::leaves_input(before.mode.kind) {
        after.picker.names().len() == 0 && after.picker.filtered().len() == 0
    } else {
        after.picker == before.picker
    }
}

/// Puts the editor into read line mode for the new name of a rename.
pub fn enter_rename_mode(editor: &mut Editor, handle: crate::lsp::client::ClientHandle, input: &str)
    requires
        old(editor).well_formed(),
    ensures
        final(editor).well_formed(),
        reading_new_name(old(editor), final(editor), handle, input@),
{
    editor.enter_mode(ModeKind::ReadLine);
    editor.mode.read_line_purpose = ReadLinePurpose::LspRename(handle);
    editor.read_line.set_prompt("rename:");
    editor.read_line.set_input(input);
}

impl Client {
    /// Takes the client that asked for a definition to the place that the
    /// server names. Nothing happens where the client waited for something
    /// else; where the response names no place, or the place cannot be
    /// shown, the client stops waiting and nothing else happens.
    pub fn on_definition_response(
        &mut self,
        editor: &mut Editor,
        clients: &mut ClientCollection,
        result: &JsonValue,
    )
        requires
            old(editor).well_formed(),
        ensures
            final(self)@.read_buf == old(self)@.read_buf,
            final(editor).well_formed(),
            match old(self)@.request_state {
                RequestState::Definition { client } => {
                    &&& final(self)@ == (ClientModel {
                        request_state: RequestState::Idle,
                        ..old(self)@
                    })
                    &&& match definition_target(old(self)@.root, result@) {
                        Some((path, position)) => if old(clients).client(client) is Some
                            && !tables_full(old(editor), path) {
                            shown_at(
                                old(editor),
                                final(editor),
                                old(clients),
                                final(clients),
                                client,
                                path,
                                Cursor { anchor: position, position },
                            )
                        } else {
                            *final(editor) == *old(editor) && *final(clients) == *old(clients)
                        },
                        None => *final(editor) == *old(editor) && *final(clients) == *old(clients),
                    }
                },
                _ => final(self)@ == old(self)@ && *final(editor) == *old(editor) && *final(clients) == *old(clients),
            },
    {
        let client = match self.request_state {
            RequestState::Definition { client } => client,
            _ => {
                return ;
            },
        };
        self.request_state = RequestState::Idle;
        let location = match result {
            JsonValue::Object(_, _) => result,
            JsonValue::Array(items) => {
                proof {
                    crate::json::lemma_array_view(*items);
                }
                if items.len() > 0 {
                    &items[0]
                } else {
                    return ;
                }
            },
            _ => {
                return ;
            },
        };
        let location = match DocumentLocation::from_json(location) {
            Ok(location) => location,
            Err(_) => {
                return ;
            },
        };
        let path = match parse_uri(self.root.as_str(), location.uri.as_str()) {
            Some(path) => path,
            None => {
                return ;
            },
        };
        let position = location.range.start.into_buffer_position();
        editor.show_path(clients, client, path.as_str(), Cursor { anchor: position, position });
    }

    /// Applies the edits that the server sent for a rename to the buffers.
    /// Nothing changes where the edits are malformed.
    pub fn on_rename_response(&self, editor: &mut Editor, result: &JsonValue)
        requires
            old(editor).well_formed(),
        ensures
            final(editor).well_formed(),
            match workspace_edit_of(result@) {
                Some(entries) => workspace_edit_applied(
                    old(editor),
                    final(editor),
                    self@.root,
                    entries,
                    entries.len() as int,
                ),
                None => *final(editor) == *old(editor),
            },
    {
        match WorkspaceEdit::from_json(result) {
            Ok(edit) => {
                edit.apply(editor, self.root.as_str());
            },
            Err(_) => {},
        }
    }

    /// Starts reading the new name for a rename that the server agreed to.
    /// Nothing happens where the client waited for something else. Where
    /// the server refused, this is shown on the status bar; where the
    /// response is malformed or the buffer is gone, the client stops waiting
    /// and nothing else happens.
    pub fn on_prepare_rename_response(&mut self, editor: &mut Editor, result: &JsonValue)
        requires
            old(editor).well_formed(),
        ensures
            final(self)@.read_buf == old(self)@.read_buf,
            final(editor).well_formed(),
            match old(self)@.request_state {
                RequestState::Rename { client, buffer_handle, buffer_position } => {
                    let idle = ClientModel { request_state: RequestState::Idle, ..old(self)@ };
                    match result@ {
                        Json::Null => final(self)@ == idle && status_shown(
                            old(editor),
                            final(editor),
                            StatusMessageKind::Error,
                            "could not rename item under cursor"@,
                        ),
                        Json::Object(_, _) => if old(editor).buffers.contains(buffer_handle) {
                            match rename_start(
                                result@,
                                old(editor).buffers.buffer(buffer_handle).content@,
                                buffer_position,
                            ) {
                                Some(input) => final(self)@ == (ClientModel {
                                    request_state: RequestState::FinishRename {
                                        buffer_handle,
                                        buffer_position,
                                    },
                                    ..old(self)@
                                }) && reading_new_name(
                                    old(editor),
                                    final(editor),
                                    old(self)@.handle,
                                    input,
                                ),
                                None => final(self)@ == idle && *final(editor) == *old(editor),
                            }
                        } else {
                            final(self)@ == idle && *final(editor) == *old(editor)
                        },
                        _ => final(self)@ == idle && *final(editor) == *old(editor),
                    }
                },
                _ => final(self)@ == old(self)@ && *final(editor) == *old(editor),
            },
    {
        let (buffer_handle, buffer_position) = match self.request_state {
            RequestState::Rename { client, buffer_handle, buffer_position } => (
                buffer_handle,
                buffer_position,
            ),
            _ => {
                return ;
            },
        };
        self.request_state = RequestState::Idle;
        match result {
            JsonValue::Null => {
                editor.status_message.write_str(
                    StatusMessageKind::Error,
                    "could not rename item under cursor",
                );
                return ;
            },
            JsonValue::Object(_, _) => {},
            _ => {
                return ;
            },
        }
        let buffer = match editor.buffers.get(buffer_handle) {
            Some(buffer) => buffer,
            None => {
                return ;
            },
        };
        let told = match result.get("range") {
            Some(range) => match DocumentRange::from_json(range) {
                Ok(range) => range,
                Err(_) => {
                    return ;
                },
            },
            None => {
                let start = match result.get("start") {
                    Some(start) => match DocumentPosition::from_json(start) {
                        Ok(start) => start,
                        Err(_) => {
                            return ;
                        },
                    },
                    None => DocumentPosition { line: 0, character: 0 },
                };
                let end = match result.get("end") {
                    Some(end) => match DocumentPosition::from_json(end) {
                        Ok(end) => end,
                        Err(_) => {
                            return ;
                        },
                    },
                    None => DocumentPosition { line: 0, character: 0 },
                };
                DocumentRange { start, end }
            },
        };
        let placeholder = match result.get("placeholder") {
            Some(JsonValue::String(text)) => Some(text.as_str()),
            Some(_) => {
                return ;
            },
            None => None,
        };
        let default_behaviour = match result.get("defaultBehavior") {
            Some(JsonValue::Boolean(b)) => *b,
            _ => false,
        };
        let range = if default_behaviour {
            buffer.content.word_range_at(buffer_position)
        } else {
            told.into_buffer_range()
        };
        let input = match placeholder {
            Some(text) => String::from_str(text),
            None => buffer.content.text_in(range),
        };
        enter_rename_mode(editor, self.handle, input.as_str());
        self.request_state = RequestState::FinishRename { buffer_handle, buffer_position };
    }

    /// Offers the code actions that the server sent in the picker. Nothing
    /// happens where the client waited for something else.
    #[verifier::loop_isolation(false)]
    pub fn on_code_action_response(&mut self, editor: &mut Editor, result: &JsonValue)
        requires
            old(editor).well_formed(),
        ensures
            final(self)@.read_buf == old(self)@.read_buf,
            final(editor).well_formed(),
            match old(self)@.request_state {
                RequestState::CodeAction { client } => match result@ {
                    Json::Array(items) => exists|filled: Editor|
                        {
                            &&& filled.well_formed()
                            &&& picker_filled(
                                old(editor),
                                &filled,
                                action_titles(items, items.len() as int),
                            )
                            &&& picking(
                                &filled,
                                final(editor),
                                "code action:"@,
                                PickerPurpose::LspCodeAction(old(self)@.handle),
                            )
                            &&& final(self)@ == (ClientModel {
                                request_state: if has_matches(&filled) {
                                    RequestState::FinishCodeAction
                                } else {
                                    RequestState::Idle
                                },
                                request_raw_json: result@,
                                ..old(self)@
                            })
                        },
                    _ => final(self)@ == (ClientModel {
                        request_state: RequestState::Idle,
                        ..old(self)@
                    }) && *final(editor) == *old(editor),
                },
                _ => final(self)@ == old(self)@ && *final(editor) == *old(editor),
            },
    {
        match self.request_state {
            RequestState::CodeAction { client } => {},
            _ => {
                return ;
            },
        }
        self.request_state = RequestState::Idle;
        let items = match result {
            JsonValue::Array(items) => items,
            _ => {
                return ;
            },
        };
        proof {
            crate::json::lemma_array_view(*items);
        }
        editor.picker.clear();
        assert(editor.picker.names() =~= Seq::<Seq<char>>::empty());
        let mut i: usize = 0;
        while i < items.len()
            invariant
                0 <= i <= items.len(),
                editor.well_formed(),
                picker_filled(old(editor), editor, action_titles(json_views(items@), i as int)),
            decreases items.len() - i,
        {
            if let Ok(action) = DocumentCodeAction::from_json(&items[i]) {
                if !action.disabled {
                    editor.picker.add_custom_entry(action.title.as_str(), "");
                }
            }
            i = i + 1;
        }
        self.request_state = RequestState::FinishCodeAction;
        self.request_raw_json = clone_json(result);
        let ghost filled = *editor;
        enter_code_action_mode(editor, self);
    }

    /// Offers the symbols of a document that the server sent in the picker.
    /// Nothing happens where the client waited for something else.
    #[verifier::loop_isolation(false)]
    pub fn on_document_symbol_response(&mut self, editor: &mut Editor, result: &JsonValue)
        requires
            old(editor).well_formed(),
        ensures
            final(self)@.read_buf == old(self)@.read_buf,
            final(editor).well_formed(),
            match old(self)@.request_state {
                RequestState::DocumentSymbols { client, buffer_view_handle } => match result@ {
                    Json::Array(items) => exists|filled: Editor|
                        {
                            &&& filled.well_formed()
                            &&& picker_filled(
                                old(editor),
                                &filled,
                                symbol_labels(items, items.len() as int),
                            )
                            &&& picking(
                                &filled,
                                final(editor),
                                "document symbol:"@,
                                PickerPurpose::LspDocumentSymbol(old(self)@.handle),
                            )
                            &&& final(self)@ == (ClientModel {
                                request_state: if has_matches(&filled) {
                                    RequestState::FinishDocumentSymbols { buffer_view_handle }
                                } else {
                                    RequestState::Idle
                                },
                                request_raw_json: result@,
                                ..old(self)@
                            })
                        },
                    _ => final(self)@ == (ClientModel {
                        request_state: RequestState::Idle,
                        ..old(self)@
                    }) && *final(editor) == *old(editor),
                },
                _ => final(self)@ == old(self)@ && *final(editor) == *old(editor),
            },
    {
        let buffer_view_handle = match self.request_state {
            RequestState::DocumentSymbols { client, buffer_view_handle } => buffer_view_handle,
            _ => {
                return ;
            },
        };
        self.request_state = RequestState::Idle;
        let items = match result {
            JsonValue::Array(items) => items,
            _ => {
                return ;
            },
        };
        proof {
            crate::json::lemma_array_view(*items);
        }
        editor.picker.clear();
        assert(editor.picker.names() =~= Seq::<Seq<char>>::empty());
        let mut i: usize = 0;
        while i < items.len()
            invariant
                0 <= i <= items.len(),
                editor.well_formed(),
                picker_filled(old(editor), editor, symbol_labels(json_views(items@), i as int)),
            decreases items.len() - i,
        {
            if let Ok(symbol) = DocumentSymbolInformation::from_json(&items[i]) {
                match &symbol.container_name {
                    Some(container) => {
                        let mut label = symbol.name.clone();
                        label.append(" (");
                        label.append(container.as_str());
                        label.append(")");
                        editor.picker.add_custom_entry(label.as_str(), "");
                    },
                    None => {
                        editor.picker.add_custom_entry(symbol.name.as_str(), "");
                    },
                }
            }
            i = i + 1;
        }
        self.request_state = RequestState::FinishDocumentSymbols { buffer_view_handle };
        self.request_raw_json = clone_json(result);
        let ghost filled = *editor;
        enter_document_symbol_mode(editor, self);
    }
}

/// The line that names a place: the path, the line and the column, the
/// two counted from one.
pub open spec fn place_line(path: Seq<char>, position: BufferPosition) -> Seq<char> {
    path + ":"@ + decimal((position.line_index + 1) as nat) + ","@ + decimal(
        (position.column_index + 1) as nat,
    )
}

/// The lines `from..=to` of a content, each followed by a line feed,
/// without the empty lines that they start with.
pub open spec fn context_lines(c: Seq<Seq<char>>, from: int, to: int, leading: bool) -> Seq<char>
    decreases to + 1 - from,
{
    if from < 0 || from > to || from >= c.len() {
        Seq::empty()
    } else if leading && c[from].len() == 0 {
        context_lines(c, from + 1, to, true)
    } else {
        c[from].push('\n') + context_lines(c, from + 1, to, false)
    }
}

/// The text of the file `path` among the files that were read, from the
/// place `from` on: the text that stands with the first mention of the path,
/// if the file could be read.
pub open spec fn file_text(
    paths: Seq<Seq<char>>,
    texts: Seq<Option<Seq<char>>>,
    path: Seq<char>,
    from: int,
) -> Option<Seq<char>>
    decreases paths.len() - from,
{
    if from < 0 || from >= paths.len() || from >= texts.len() {
        None
    } else if paths[from] == path {
        texts[from]
    } else {
        file_text(paths, texts, path, from + 1)
    }
}

/// The lines of the file `path`: those of the buffer that holds it, or
/// else those of its text as it was read.
pub open spec fn lines_of_file(
    buffers: &BufferCollection,
    paths: Seq<Seq<char>>,
    texts: Seq<Option<Seq<char>>>,
    path: Seq<char>,
) -> Option<Seq<Seq<char>>> {
    match buffers.path_handle(path) {
        Some(handle) => Some(buffers.buffer(handle).content@),
        None => match file_text(paths, texts, path, 0) {
            Some(text) => Some(crate::buffer_content::split_lines(text)),
            None => None,
        },
    }
}

/// What the list of references says of one place: the line that names it,
/// and, where context is asked for, the lines of the file around it, as far
/// as the file is known, followed by an empty line.
pub open spec fn reference_entry(
    lines: Option<Seq<Seq<char>>>,
    path: Seq<char>,
    range: BufferRange,
    context_len: usize,
) -> Seq<char> {
    place_line(path, range.from).push('\n') + (if context_len > 0 {
        let around = context_len - 1;
        let from = if range.from.line_index >= around {
            range.from.line_index - around
        } else {
            0
        };
        let to = range.to.line_index + around;
        (match lines {
            Some(content) => context_lines(content, from, to, true),
            None => Seq::empty(),
        }).push('\n')
    } else {
        Seq::empty()
    })
}

/// The place that a value of a list of locations names, where it names one.
pub open spec fn located(root: Seq<char>, item: Json) -> Option<(Seq<char>, BufferRange)> {
    match location_of(item) {
        Some(location) => match uri_path(root, location.uri) {
            Some(path) => Some((path, range_from_document(location.range))),
            None => None,
        },
        None => None,
    }
}

/// The text of the list of references for the first `count` locations.
pub open spec fn references_text(
    root: Seq<char>,
    buffers: &BufferCollection,
    paths: Seq<Seq<char>>,
    texts: Seq<Option<Seq<char>>>,
    items: Seq<Json>,
    count: int,
    context_len: usize,
) -> Seq<char>
    decreases count,
{
    if count <= 0 || count > items.len() {
        Seq::empty()
    } else {
        references_text(root, buffers, paths, texts, items, count - 1, context_len) + (
        match located(root, items[count - 1]) {
            Some((path, range)) => reference_entry(
                lines_of_file(buffers, paths, texts, path),
                path,
                range,
                context_len,
            ),
            None => Seq::empty(),
        })
    }
}

/// The paths of the files that the first `count` locations name, one for
/// each location that names a file, in order.
pub open spec fn referenced_paths(root: Seq<char>, items: Seq<Json>, count: int) -> Seq<Seq<char>>
    decreases count,
{
    if count <= 0 || count > items.len() {
        Seq::empty()
    } else {
        match located(root, items[count - 1]) {
            Some((path, range)) => referenced_paths(root, items, count - 1).push(path),
            None => referenced_paths(root, items, count - 1),
        }
    }
}

/// The name of a file without the directories that lead to it.
pub open spec fn file_name(path: Seq<char>) -> Seq<char> {
    path.skip(crate::text::last_index_of(path, '/') + 1)
}

/// The name of the buffer that lists the references: the name of the file
/// of the first location, or `lsp` where no location names a file, followed
/// by `.refs`.
pub open spec fn references_name(root: Seq<char>, items: Seq<Json>) -> Seq<char> {
    let paths = referenced_paths(root, items, items.len() as int);
    (if paths.len() == 0 {
        "lsp"@
    } else {
        file_name(paths[0])
    }) + ".refs"@
}

/// The line of the list of symbols for a symbol: its place, its name, and
/// in brackets the name of what holds it, if anything does.
pub open spec fn symbol_line(path: Seq<char>, symbol: crate::lsp::protocol::DocumentSymbolInformationView) -> Seq<char> {
    (place_line(path, position_from_document(symbol.range.start)) + ":"@ + symbol_label(
        symbol.name,
        symbol.container_name,
    )).push('\n')
}

/// The text of the list of symbols for the first `count` values.
pub open spec fn symbols_text(root: Seq<char>, items: Seq<Json>, count: int) -> Seq<char>
    decreases count,
{
    if count <= 0 || count > items.len() {
        Seq::empty()
    } else {
        symbols_text(root, items, count - 1) + (match symbol_of(items[count - 1]) {
            Some(symbol) => match uri_path(root, symbol.uri) {
                Some(path) => symbol_line(path, symbol),
                None => Seq::empty(),
            },
            None => Seq::empty(),
        })
    }
}

fn push_place_line(out: &mut String, path: &str, position: BufferPosition)
    ensures
        final(out)@ == old(out)@ + place_line(path@, position),
{
    out.append(path);
    out.append(":");
    push_decimal(out, position.line_index as u128 + 1);
    out.append(",");
    push_decimal(out, position.column_index as u128 + 1);
    assert(out@ =~= old(out)@ + place_line(path@, position));
}

#[verifier::loop_isolation(false)]
fn push_context_lines(out: &mut String, content: &crate::buffer_content::BufferContent, from: usize, to: usize)
    requires
        content.well_formed(),
    ensures
        final(out)@ == old(out)@ + context_lines(content@, from as int, to as int, true),
{
    let ghost goal = context_lines(content@, from as int, to as int, true);
    let mut i = from;
    let mut leading = true;
    let count = content.line_count();
    assert(out@ + goal =~= old(out)@ + goal);
    while i <= to && i < count
        invariant
            from <= i,
            out@ + context_lines(content@, i as int, to as int, leading) == old(out)@ + goal,
        decreases count - i,
    {
        let line = content.line(i);
        let ghost before = out@;
        if leading && line.unicode_len() == 0 {
        } else {
            out.append(line);
            out.push('\n');
            leading = false;
            assert(out@ + context_lines(content@, i + 1, to as int, false) =~= before + (
            content@[i as int].push('\n') + context_lines(content@, i + 1, to as int, false)));
        }
        i = i + 1;
    }
    assert(out@ + Seq::<char>::empty() =~= out@);
}

fn locate(root: &str, item: &JsonValue) -> (r: Option<(String, BufferRange)>)
    ensures
        match located(root@, item@) {
            Some((path, range)) => r is Some && r.unwrap().0@ == path && r.unwrap().1 == range,
            None => r is None,
        },
{
    let location = match DocumentLocation::from_json(item) {
        Ok(location) => location,
        Err(_) => {
            return None;
        },
    };
    match parse_uri(root, location.uri.as_str()) {
        Some(path) => Some((path, location.range.into_buffer_range())),
        None => None,
    }
}

fn find_file_text<'a>(paths: &Vec<String>, texts: &'a Vec<Option<String>>, path: &str) -> (r: Option<
    &'a str,
>)
    ensures
        match file_text(views(paths@), option_views(texts@), path@, 0) {
            Some(text) => r is Some && r.unwrap()@ == text,
            None => r is None,
        },
{
    let mut i: usize = 0;
    while i < paths.len() && i < texts.len()
        invariant
            0 <= i,
            file_text(views(paths@), option_views(texts@), path@, 0) == file_text(
                views(paths@),
                option_views(texts@),
                path@,
                i as int,
            ),
        decreases paths.len() - i,
    {
        if same_text(paths[i].as_str(), path) {
            return match &texts[i] {
                Some(text) => Some(text.as_str()),
                None => None,
            };
        }
        i = i + 1;
    }
    None
}

/// The texts of the files, as sequences.
pub open spec fn option_views(texts: Seq<Option<String>>) -> Seq<Option<Seq<char>>> {
    Seq::new(
        texts.len(),
        |i: int|
            match texts[i] {
                Some(text) => Some(text@),
                None => None,
            },
    )
}

fn push_reference_entry(
    out: &mut String,
    lines: Option<&crate::buffer_content::BufferContent>,
    path: &str,
    range: BufferRange,
    context_len: usize,
)
    requires
        match lines {
            Some(content) => content.well_formed(),
            None => true,
        },
    ensures
        final(out)@ == old(out)@ + reference_entry(
            match lines {
                Some(content) => Some(content@),
                None => None,
            },
            path@,
            range,
            context_len,
        ),
{
    let ghost before = out@;
    let mut entry = String::new();
    push_place_line(&mut entry, path, range.from);
    entry.push('\n');
    if context_len > 0 {
        let around = context_len - 1;
        let from = if range.from.line_index >= around {
            range.from.line_index - around
        } else {
            0
        };
        let to = range.to.line_index.saturating_add(around);
        match lines {
            Some(content) => {
                let count: usize = content.line_count();
                proof {
                    lemma_context_saturates(
                        content@,
                        from as int,
                        range.to.line_index + around,
                        true,
                    );
                }
                push_context_lines(&mut entry, content, from, to);
            },
            None => {
                assert(entry@ + Seq::<char>::empty() =~= entry@);
            },
        }
        entry.push('\n');
    }
    assert(entry@ =~= reference_entry(
        match lines {
            Some(content) => Some(content@),
            None => None,
        },
        path@,
        range,
        context_len,
    ));
    out.append(entry.as_str());
}

fn build_references_text(
    root: &str,
    editor: &Editor,
    paths: &Vec<String>,
    texts: &Vec<Option<String>>,
    items: &Vec<JsonValue>,
    context_len: usize,
) -> (r: String)
    requires
        editor.well_formed(),
    ensures
        r@ == references_text(
            root@,
            &editor.buffers,
            views(paths@),
            option_views(texts@),
            json_views(items@),
            items@.len() as int,
            context_len,
        ),
{
    let mut text = String::new();
    let mut i: usize = 0;
    while i < items.len()
        invariant
            0 <= i <= items.len(),
            editor.well_formed(),
            text@ == references_text(
                root@,
                &editor.buffers,
                views(paths@),
                option_views(texts@),
                json_views(items@),
                i as int,
                context_len,
            ),
        decreases items.len() - i,
    {
        let ghost before = text@;
        match locate(root, &items[i]) {
            Some((path, range)) => {
                let held = match editor.buffers.find_with_path(path.as_str()) {
                    Some(handle) => editor.buffers.get(handle),
                    None => None,
                };
                match held {
                    Some(buffer) => {
                        push_reference_entry(
                            &mut text,
                            Some(&buffer.content),
                            path.as_str(),
                            range,
                            context_len,
                        );
                    },
                    None => match find_file_text(paths, texts, path.as_str()) {
                        Some(read) => {
                            let content = crate::buffer_content::BufferContent::from_str(read);
                            push_reference_entry(
                                &mut text,
                                Some(&content),
                                path.as_str(),
                                range,
                                context_len,
                            );
                        },
                        None => {
                            push_reference_entry(&mut text, None, path.as_str(), range, context_len);
                        },
                    },
                }
            },
            None => {
                assert(before + Seq::<char>::empty() =~= before);
            },
        }
        i = i + 1;
    }
    text
}

fn collect_referenced_paths(root: &str, items: &Vec<JsonValue>) -> (r: Vec<String>)
    ensures
        views(r@) == referenced_paths(root@, json_views(items@), items@.len() as int),
{
    let mut paths: Vec<String> = Vec::new();
    let mut i: usize = 0;
    assert(views(paths@) =~= Seq::<Seq<char>>::empty());
    while i < items.len()
        invariant
            0 <= i <= items.len(),
            views(paths@) == referenced_paths(root@, json_views(items@), i as int),
        decreases items.len() - i,
    {
        let ghost before = views(paths@);
        match locate(root, &items[i]) {
            Some((path, range)) => {
                paths.push(path);
                assert(views(paths@) =~= before.push(path@));
            },
            None => {},
        }
        i = i + 1;
    }
    paths
}

fn file_name_of(path: &str) -> (r: String)
    ensures
        r@ == file_name(path@),
{
    let chars = chars_of(path);
    let from = match find_last(&chars, '/') {
        Some(slash) => slash + 1,
        None => 0,
    };
    let name = substring(path, from, chars.len());
    assert(name@ =~= path@.skip(from as int));
    name
}

/// Lines beyond what a machine can count are beyond every content.
proof fn lemma_context_saturates(c: Seq<Seq<char>>, from: int, to: int, leading: bool)
    requires
        c.len() <= usize::MAX,
        0 <= from,
    ensures
        context_lines(c, from, to, leading) == context_lines(
            c,
            from,
            if to > usize::MAX {
                usize::MAX as int
            } else {
                to
            },
            leading,
        ),
    decreases c.len() - from,
{
    if from < c.len() && from <= to {
        lemma_context_saturates(c, from + 1, to, true);
        lemma_context_saturates(c, from + 1, to, false);
    }
}

fn build_references_name(root: &str, items: &Vec<JsonValue>) -> (r: String)
    ensures
        r@ == references_name(root@, json_views(items@)),
{
    let paths = collect_referenced_paths(root, items);
    let mut name = if paths.len() == 0 {
        String::from_str("lsp")
    } else {
        assert(views(paths@)[0] == paths@[0]@);
        file_name_of(paths[0].as_str())
    };
    name.append(".refs");
    name
}

/// Appends what the picker says of a symbol to `out`.
fn push_symbol_label(out: &mut String, name: &str, container: &Option<String>)
    ensures
        final(out)@ == old(out)@ + symbol_label(
            name@,
            match container {
                Some(text) => Some(text@),
                None => None,
            },
        ),
{
    let ghost before = out@;
    out.append(name);
    match container {
        Some(text) => {
            out.append(" (");
            out.append(text.as_str());
            out.append(")");
            assert(out@ =~= before + (name@ + " ("@ + text@ + ")"@));
        },
        None => {},
    }
}

/// Appends the line of the list of symbols for a symbol to `out`.
fn push_symbol_line(out: &mut String, path: &str, symbol: &DocumentSymbolInformation)
    ensures
        final(out)@ == old(out)@ + symbol_line(path@, symbol@),
{
    let ghost before = out@;
    let mut line = String::new();
    push_place_line(&mut line, path, symbol.range.start.into_buffer_position());
    line.append(":");
    push_symbol_label(&mut line, symbol.name.as_str(), &symbol.container_name);
    line.push('\n');
    assert(line@ =~= symbol_line(path@, symbol@));
    out.append(line.as_str());
}

fn build_symbols_text(root: &str, items: &Vec<JsonValue>) -> (r: String)
    ensures
        r@ == symbols_text(root@, json_views(items@), items@.len() as int),
{
    let mut text = String::new();
    let mut i: usize = 0;
    while i < items.len()
        invariant
            0 <= i <= items.len(),
            text@ == symbols_text(root@, json_views(items@), i as int),
        decreases items.len() - i,
    {
        let ghost before = text@;
        let mut added = false;
        if let Ok(symbol) = DocumentSymbolInformation::from_json(&items[i]) {
            if let Some(path) = parse_uri(root, symbol.uri.as_str()) {
                push_symbol_line(&mut text, path.as_str(), &symbol);
                added = true;
            }
        }
        if !added {
            assert(before + Seq::<char>::empty() =~= before);
        }
        i = i + 1;
    }
    text
}

/// The buffer that the client `client` is shown.
pub open spec fn shown_buffer(editor: &Editor, clients: &ClientCollection, client: TargetClient) -> BufferHandle {
    editor.buffer_views.view_of(
        clients.client(client).unwrap().buffer_view_handle.unwrap(),
    ).buffer_handle
}

/// The client `client` is shown a buffer called `name` that holds `text`
/// and has the capabilities given, with one cursor at its start.
pub open spec fn list_shown(
    e0: &Editor,
    e1: &Editor,
    c0: &ClientCollection,
    c1: &ClientCollection,
    client: TargetClient,
    name: Seq<char>,
    text: Seq<char>,
    capabilities: BufferCapabilities,
) -> bool {
    exists|mid: Editor|
        {
            &&& mid.well_formed()
            &&& shown_at(e0, &mid, c0, c1, client, name, Cursor::at_zero())
            &&& text_replaced(&mid, e1, shown_buffer(&mid, c1, client), text, capabilities)
        }
}

impl Client {
    /// Keeps the answer to a request for references until the files that
    /// it names were read: the client waits to finish the references. Nothing
    /// happens where the client waited for something else; where the
    /// response holds no list the client stops waiting.
    pub fn on_references_response(&mut self, result: &JsonValue)
        ensures
            final(self)@ == references_kept(old(self)@, result@),
    {
        let (client, context_len, auto_close_buffer) = match self.request_state {
            RequestState::References { client, context_len, auto_close_buffer } => (
                client,
                context_len,
                auto_close_buffer,
            ),
            _ => {
                return ;
            },
        };
        match result {
            JsonValue::Array(_) => {
                self.request_state = RequestState::FinishReferences {
                    client,
                    context_len,
                    auto_close_buffer,
                };
                self.request_raw_json = clone_json(result);
            },
            _ => {
                self.request_state = RequestState::Idle;
            },
        }
    }

    /// The paths of the files that the references name which the client
    /// waits to finish, one for each location, in order; none where it does
    /// not wait for that.
    pub fn reference_paths(&self) -> (r: Vec<String>)
        ensures
            views(r@) == match self@.request_state {
                RequestState::FinishReferences { client, context_len, auto_close_buffer } => {
                    let items = elements(self@.request_raw_json);
                    referenced_paths(self@.root, items, items.len() as int)
                },
                _ => Seq::<Seq<char>>::empty(),
            },
    {
        match self.request_state {
            RequestState::FinishReferences { client, context_len, auto_close_buffer } => {},
            _ => {
                let none: Vec<String> = Vec::new();
                assert(views(none@) =~= Seq::<Seq<char>>::empty());
                return none;
            },
        }
        let empty: Vec<JsonValue> = Vec::new();
        let items = match self.request_raw_json.items() {
            Some(items) => items,
            None => {
                assert(json_views(empty@) =~= elements(self.request_raw_json@));
                &empty
            },
        };
        collect_referenced_paths(self.root.as_str(), items)
    }

    /// Shows the client that asked for references a buffer that lists them,
    /// with `texts` as what the files `paths` hold, one for one, as far as
    /// they could be read. The client is idle afterwards. Nothing happens
    /// where the client did not wait to finish references; where the list
    /// cannot be shown nothing else happens.
    pub fn finish_references(
        &mut self,
        editor: &mut Editor,
        clients: &mut ClientCollection,
        paths: &Vec<String>,
        texts: &Vec<Option<String>>,
    )
        requires
            old(editor).well_formed(),
        ensures
            final(editor).well_formed(),
            final(editor).lsp == old(editor).lsp,
            references_finished(
                old(self)@,
                final(self)@,
                old(editor),
                final(editor),
                old(clients),
                final(clients),
                views(paths@),
                option_views(texts@),
            ),
    {
        let (client, context_len, auto_close_buffer) = match self.request_state {
            RequestState::FinishReferences { client, context_len, auto_close_buffer } => (
                client,
                context_len,
                auto_close_buffer,
            ),
            _ => {
                return ;
            },
        };
        self.request_state = RequestState::Idle;
        let empty: Vec<JsonValue> = Vec::new();
        let items = match self.request_raw_json.items() {
            Some(items) => items,
            None => {
                assert(json_views(empty@) =~= elements(self.request_raw_json@));
                &empty
            },
        };
        let name = build_references_name(self.root.as_str(), items);
        let text = build_references_text(
            self.root.as_str(),
            editor,
            paths,
            texts,
            items,
            context_len,
        );
        if !editor.show_path(clients, client, name.as_str(), Cursor::zero()) {
            return ;
        }
        let ghost mid = *editor;
        let buffer = match clients.get(client) {
            Some(data) => match data.buffer_view_handle {
                Some(view) => match editor.buffer_views.get(view) {
                    Some(view) => view.buffer_handle,
                    None => {
                        return ;
                    },
                },
                None => {
                    return ;
                },
            },
            None => {
                return ;
            },
        };
        editor.replace_buffer_text(
            buffer,
            text.as_str(),
            BufferCapabilities { can_save: false, auto_close: auto_close_buffer, is_log: true },
        );
    }

    /// Shows the client that asked for the symbols of the workspace a
    /// buffer that lists them, and their number on the status bar. Nothing
    /// happens where the client waited for something else; where the
    /// response holds no list, or the list cannot be shown, the client stops
    /// waiting and nothing else happens.
    pub fn on_workspace_symbol_response(
        &mut self,
        editor: &mut Editor,
        clients: &mut ClientCollection,
        result: &JsonValue,
    )
        requires
            old(editor).well_formed(),
        ensures
            final(self)@.read_buf == old(self)@.read_buf,
            final(editor).well_formed(),
            match old(self)@.request_state {
                RequestState::WorkspaceSymbols { client, auto_close_buffer } => {
                    &&& final(self)@ == (ClientModel {
                        request_state: RequestState::Idle,
                        ..old(self)@
                    })
                    &&& match result@ {
                        Json::Array(items) => if old(clients).client(client) is Some
                            && !tables_full(old(editor), "workspace-symbols.refs"@) {
                            exists|listed: Editor|
                                {
                                    &&& listed.well_formed()
                                    &&& list_shown(
                                        old(editor),
                                        &listed,
                                        old(clients),
                                        final(clients),
                                        client,
                                        "workspace-symbols.refs"@,
                                        symbols_text(old(self)@.root, items, items.len() as int),
                                        BufferCapabilities {
                                            can_save: false,
                                            auto_close: auto_close_buffer,
                                            is_log: true,
                                        },
                                    )
                                    &&& status_shown(
                                        &listed,
                                        final(editor),
                                        StatusMessageKind::Info,
                                        "symbol count: "@ + decimal(items.len()),
                                    )
                                }
                        } else {
                            *final(editor) == *old(editor) && *final(clients) == *old(clients)
                        },
                        _ => *final(editor) == *old(editor) && *final(clients) == *old(clients),
                    }
                },
                _ => final(self)@ == old(self)@ && *final(editor) == *old(editor) && *final(clients) == *old(clients),
            },
    {
        let (client, auto_close_buffer) = match self.request_state {
            RequestState::WorkspaceSymbols { client, auto_close_buffer } => (
                client,
                auto_close_buffer,
            ),
            _ => {
                return ;
            },
        };
        self.request_state = RequestState::Idle;
        let items = match result {
            JsonValue::Array(items) => items,
            _ => {
                return ;
            },
        };
        proof {
            crate::json::lemma_array_view(*items);
        }
        let text = build_symbols_text(self.root.as_str(), items);
        if !editor.show_path(clients, client, "workspace-symbols.refs", Cursor::zero()) {
            return ;
        }
        let ghost mid = *editor;
        let buffer = match clients.get(client) {
            Some(data) => match data.buffer_view_handle {
                Some(view) => match editor.buffer_views.get(view) {
                    Some(view) => view.buffer_handle,
                    None => {
                        return ;
                    },
                },
                None => {
                    return ;
                },
            },
            None => {
                return ;
            },
        };
        editor.replace_buffer_text(
            buffer,
            text.as_str(),
            BufferCapabilities { can_save: false, auto_close: auto_close_buffer, is_log: true },
        );
        let ghost listed = *editor;
        let mut message = String::from_str("symbol count: ");
        push_decimal(&mut message, items.len() as u128);
        editor.status_message.write_str(StatusMessageKind::Info, message.as_str());
        assert(list_shown(
            old(editor),
            &listed,
            old(clients),
            clients,
            client,
            "workspace-symbols.refs"@,
            symbols_text(old(self)@.root, json_views(items@), items@.len() as int),
            BufferCapabilities { can_save: false, auto_close: auto_close_buffer, is_log: true },
        ));
    }
}

/// What the answer to `textDocument/definition` does.
pub open spec fn definition_effect(
    c0: ClientModel,
    c1: ClientModel,
    e0: &Editor,
    e1: &Editor,
    k0: &ClientCollection,
    k1: &ClientCollection,
    result: Json,
) -> bool {
        match c0.request_state {
            RequestState::Definition { client } => {
                &&& c1 == (ClientModel {
                    request_state: RequestState::Idle,
                    ..c0
                })
                &&& match definition_target(c0.root, result) {
                    Some((path, position)) => if k0.client(client) is Some
                        && !tables_full(e0, path) {
                        shown_at(
                            e0,
                            e1,
                            k0,
                            k1,
                            client,
                            path,
                            Cursor { anchor: position, position },
                        )
                    } else {
                        *e1 == *e0 && *k1 == *k0
                    },
                    None => *e1 == *e0 && *k1 == *k0,
                }
            },
            _ => c1 == c0 && *e1 == *e0 && *k1 == *k0,
        }
}

/// What the answer to `textDocument/rename` does.
pub open spec fn rename_effect(
    c0: ClientModel,
    c1: ClientModel,
    e0: &Editor,
    e1: &Editor,
    k0: &ClientCollection,
    k1: &ClientCollection,
    result: Json,
) -> bool {
    &&& *k1 == *k0
    &&& c1 == c0
    &&& match workspace_edit_of(result) {
            Some(entries) => workspace_edit_applied(
                e0,
                e1,
                c0.root,
                entries,
                entries.len() as int,
            ),
            None => *e1 == *e0,
        }
}

/// What the answer to `textDocument/prepareRename` does.
pub open spec fn prepare_rename_effect(
    c0: ClientModel,
    c1: ClientModel,
    e0: &Editor,
    e1: &Editor,
    k0: &ClientCollection,
    k1: &ClientCollection,
    result: Json,
) -> bool {
    &&& *k1 == *k0
    &&& match c0.request_state {
            RequestState::Rename { client, buffer_handle, buffer_position } => {
                let idle = ClientModel { request_state: RequestState::Idle, ..c0 };
                match result {
                    Json::Null => c1 == idle && status_shown(
                        e0,
                        e1,
                        StatusMessageKind::Error,
                        "could not rename item under cursor"@,
                    ),
                    Json::Object(_, _) => if e0.buffers.contains(buffer_handle) {
                        match rename_start(
                            result,
                            e0.buffers.buffer(buffer_handle).content@,
                            buffer_position,
                        ) {
                            Some(input) => c1 == (ClientModel {
                                request_state: RequestState::FinishRename {
                                    buffer_handle,
                                    buffer_position,
                                },
                                ..c0
                            }) && reading_new_name(
                                e0,
                                e1,
                                c0.handle,
                                input,
                            ),
                            None => c1 == idle && *e1 == *e0,
                        }
                    } else {
                        c1 == idle && *e1 == *e0
                    },
                    _ => c1 == idle && *e1 == *e0,
                }
            },
            _ => c1 == c0 && *e1 == *e0,
        }
}

/// What the answer to `textDocument/codeAction` does.
pub open spec fn code_action_effect(
    c0: ClientModel,
    c1: ClientModel,
    e0: &Editor,
    e1: &Editor,
    k0: &ClientCollection,
    k1: &ClientCollection,
    result: Json,
) -> bool {
    &&& *k1 == *k0
    &&& match c0.request_state {
            RequestState::CodeAction { client } => match result {
                Json::Array(items) => exists|filled: Editor|
                    {
                        &&& filled.well_formed()
                        &&& picker_filled(
                            e0,
                            &filled,
                            action_titles(items, items.len() as int),
                        )
                        &&& picking(
                            &filled,
                            e1,
                            "code action:"@,
                            PickerPurpose::LspCodeAction(c0.handle),
                        )
                        &&& c1 == (ClientModel {
                            request_state: if has_matches(&filled) {
                                RequestState::FinishCodeAction
                            } else {
                                RequestState::Idle
                            },
                            request_raw_json: result,
                            ..c0
                        })
                    },
                _ => c1 == (ClientModel {
                    request_state: RequestState::Idle,
                    ..c0
                }) && *e1 == *e0,
            },
            _ => c1 == c0 && *e1 == *e0,
        }
}

/// What the answer to `textDocument/documentSymbol` does.
pub open spec fn document_symbol_effect(
    c0: ClientModel,
    c1: ClientModel,
    e0: &Editor,
    e1: &Editor,
    k0: &ClientCollection,
    k1: &ClientCollection,
    result: Json,
) -> bool {
    &&& *k1 == *k0
    &&& match c0.request_state {
            RequestState::DocumentSymbols { client, buffer_view_handle } => match result {
                Json::Array(items) => exists|filled: Editor|
                    {
                        &&& filled.well_formed()
                        &&& picker_filled(
                            e0,
                            &filled,
                            symbol_labels(items, items.len() as int),
                        )
                        &&& picking(
                            &filled,
                            e1,
                            "document symbol:"@,
                            PickerPurpose::LspDocumentSymbol(c0.handle),
                        )
                        &&& c1 == (ClientModel {
                            request_state: if has_matches(&filled) {
                                RequestState::FinishDocumentSymbols { buffer_view_handle }
                            } else {
                                RequestState::Idle
                            },
                            request_raw_json: result,
                            ..c0
                        })
                    },
                _ => c1 == (ClientModel {
                    request_state: RequestState::Idle,
                    ..c0
                }) && *e1 == *e0,
            },
            _ => c1 == c0 && *e1 == *e0,
        }
}

/// The client once the answer to a request for references came: it keeps
/// the answer and waits to finish the references; where the answer holds no
/// list it is idle. A client that waited for something else is as it was.
pub open spec fn references_kept(c0: ClientModel, result: Json) -> ClientModel {
    match c0.request_state {
        RequestState::References { client, context_len, auto_close_buffer } => match result {
            Json::Array(items) => ClientModel {
                request_state: RequestState::FinishReferences {
                    client,
                    context_len,
                    auto_close_buffer,
                },
                request_raw_json: result,
                ..c0
            },
            _ => ClientModel { request_state: RequestState::Idle, ..c0 },
        },
        _ => c0,
    }
}

/// What the answer to `textDocument/references` does.
pub open spec fn references_effect(
    c0: ClientModel,
    c1: ClientModel,
    e0: &Editor,
    e1: &Editor,
    k0: &ClientCollection,
    k1: &ClientCollection,
    result: Json,
) -> bool {
    c1 == references_kept(c0, result) && *e1 == *e0 && *k1 == *k0
}

/// The references that a client kept were listed, with `texts` as what the
/// files `paths` hold: the client that asked is shown a buffer, named after
/// the file of the first location, that lists them, and the client of the
/// language server is idle. Nothing happens where the client did not wait
/// to finish references; where the list cannot be shown nothing else
/// happens.
pub open spec fn references_finished(
    c0: ClientModel,
    c1: ClientModel,
    e0: &Editor,
    e1: &Editor,
    k0: &ClientCollection,
    k1: &ClientCollection,
    paths: Seq<Seq<char>>,
    texts: Seq<Option<Seq<char>>>,
) -> bool {
    match c0.request_state {
        RequestState::FinishReferences { client, context_len, auto_close_buffer } => {
            let items = elements(c0.request_raw_json);
            let name = references_name(c0.root, items);
            &&& c1 == (ClientModel { request_state: RequestState::Idle, ..c0 })
            &&& if k0.client(client) is Some && !tables_full(e0, name) {
                list_shown(
                    e0,
                    e1,
                    k0,
                    k1,
                    client,
                    name,
                    references_text(
                        c0.root,
                        &e0.buffers,
                        paths,
                        texts,
                        items,
                        items.len() as int,
                        context_len,
                    ),
                    BufferCapabilities {
                        can_save: false,
                        auto_close: auto_close_buffer,
                        is_log: true,
                    },
                )
            } else {
                *e1 == *e0 && *k1 == *k0
            }
        },
        _ => c1 == c0 && *e1 == *e0 && *k1 == *k0,
    }
}


/// What the answer to `workspace/symbol` does.
pub open spec fn workspace_symbol_effect(
    c0: ClientModel,
    c1: ClientModel,
    e0: &Editor,
    e1: &Editor,
    k0: &ClientCollection,
    k1: &ClientCollection,
    result: Json,
) -> bool {
        match c0.request_state {
            RequestState::WorkspaceSymbols { client, auto_close_buffer } => {
                &&& c1 == (ClientModel {
                    request_state: RequestState::Idle,
                    ..c0
                })
                &&& match result {
                    Json::Array(items) => if k0.client(client) is Some
                        && !tables_full(e0, "workspace-symbols.refs"@) {
                        exists|listed: Editor|
                            {
                                &&& listed.well_formed()
                                &&& list_shown(
                                    e0,
                                    &listed,
                                    k0,
                                    k1,
                                    client,
                                    "workspace-symbols.refs"@,
                                    symbols_text(c0.root, items, items.len() as int),
                                    BufferCapabilities {
                                        can_save: false,
                                        auto_close: auto_close_buffer,
                                        is_log: true,
                                    },
                                )
                                &&& status_shown(
                                    &listed,
                                    e1,
                                    StatusMessageKind::Info,
                                    "symbol count: "@ + decimal(items.len()),
                                )
                            }
                    } else {
                        *e1 == *e0 && *k1 == *k0
                    },
                    _ => *e1 == *e0 && *k1 == *k0,
                }
            },
            _ => c1 == c0 && *e1 == *e0 && *k1 == *k0,
        }
}

/// What the answer to `textDocument/formatting` does.
pub open spec fn formatting_effect(
    c0: ClientModel,
    c1: ClientModel,
    e0: &Editor,
    e1: &Editor,
    k0: &ClientCollection,
    k1: &ClientCollection,
    result: Json,
) -> bool {
    &&& *k1 == *k0
    &&& match c0.request_state {
            RequestState::Formatting { buffer_handle } => {
                &&& c1 == (ClientModel {
                    request_state: RequestState::Idle,
                    ..c0
                })
                &&& match text_edits_of(elements(result), elements(result).len() as int) {
                    Some(edits) => if result is Array && e0.buffers.contains(
                        buffer_handle,
                    ) {
                        &&& e1.buffers.contains(buffer_handle)
                        &&& e1.buffers.buffer(buffer_handle).content@
                            == content_after_edits(
                            e0.buffers.buffer(buffer_handle).content@,
                            bottom_up(edits, edits.len() as int),
                        )
                        &&& e1.buffers.buffer(buffer_handle).path == e0.buffers.buffer(buffer_handle).path
                        &&& forall|h: BufferHandle|
                            h != buffer_handle ==> e1.buffers.contains(h) == e0.buffers.contains(h) && (e0.buffers.contains(h)
                                ==> e1.buffers.buffer(h) == e0.buffers.buffer(h))
                        &&& crate::editor::same_but_buffers(e1, e0)
                        &&& e1.buffer_views == e0.buffer_views
                    } else {
                        *e1 == *e0
                    },
                    None => *e1 == *e0,
                }
            },
            _ => c1 == c0 && *e1 == *e0,
        }
}

/// What the answer to a request does, by the method of the request.
pub open spec fn response_effect(
    method: Seq<char>,
    c0: ClientModel,
    c1: ClientModel,
    e0: &Editor,
    e1: &Editor,
    k0: &ClientCollection,
    k1: &ClientCollection,
    w0: Seq<PlatformRequestView>,
    w1: Seq<PlatformRequestView>,
    result: Json,
) -> bool {
    if method == "initialize"@ {
        &&& *e1 == *e0
        &&& *k1 == *k0
        &&& (c1, w1) == match capabilities_of(member(result, "capabilities"@)) {
            Some(capabilities) => initialized(c0, w0, &e0.buffers, capabilities),
            None => (c0, w0),
        }
    } else if method == "textDocument/hover"@ {
        &&& c1 == c0
        &&& w1 == w0
        &&& *k1 == *k0
        &&& status_shown(e0, e1, StatusMessageKind::Info, markup_text(member(result, "contents"@)))
    } else if method == "textDocument/signatureHelp"@ {
        &&& c1 == c0
        &&& w1 == w0
        &&& *k1 == *k0
        &&& match active_signature(result) {
            Some(signature) => match signature_text(signature) {
                Some(text) => status_shown(e0, e1, StatusMessageKind::Info, text),
                None => *e1 == *e0,
            },
            None => *e1 == *e0,
        }
    } else if method == "textDocument/definition"@ {
        w1 == w0 && definition_effect(c0, c1, e0, e1, k0, k1, result)
    } else if method == "textDocument/references"@ {
        w1 == w0 && references_effect(c0, c1, e0, e1, k0, k1, result)
    } else if method == "textDocument/prepareRename"@ {
        w1 == w0 && prepare_rename_effect(c0, c1, e0, e1, k0, k1, result)
    } else if method == "textDocument/rename"@ {
        w1 == w0 && rename_effect(c0, c1, e0, e1, k0, k1, result)
    } else if method == "textDocument/codeAction"@ {
        w1 == w0 && code_action_effect(c0, c1, e0, e1, k0, k1, result)
    } else if method == "textDocument/documentSymbol"@ {
        w1 == w0 && document_symbol_effect(c0, c1, e0, e1, k0, k1, result)
    } else if method == "workspace/symbol"@ {
        w1 == w0 && workspace_symbol_effect(c0, c1, e0, e1, k0, k1, result)
    } else if method == "textDocument/formatting"@ {
        w1 == w0 && formatting_effect(c0, c1, e0, e1, k0, k1, result)
    } else {
        c1 == c0 && w1 == w0 && *e1 == *e0 && *k1 == *k0
    }
}

/// The result of a response as a value.
pub open spec fn result_view(result: Result<JsonValue, ResponseError>) -> Result<
    Json,
    ResponseErrorView,
> {
    match result {
        Ok(value) => Ok(value@),
        Err(error) => Err(error@),
    }
}

impl Client {
    /// Handles a response of the server. A response to a request that the
    /// client does not wait for is dropped. Else the request is no longer
    /// waited for, the response is logged, and then: a failure is shown on
    /// the status bar; a result is handled as the method of the request asks.
    #[verifier::rlimit(60)]
    pub fn on_response(
        &mut self,
        editor: &mut Editor,
        platform: &mut Platform,
        clients: &mut ClientCollection,
        response: ServerResponse,
    )
        requires
            old(editor).well_formed(),
        ensures
            final(self)@.read_buf == old(self)@.read_buf,
            final(editor).well_formed(),
            final(editor).lsp == old(editor).lsp,
            ({
                let pending = old(self)@.pending_requests;
                let i = pending_index(pending, response.id, 0);
                if i >= pending.len() {
                    final(self)@ == old(self)@ && *final(editor) == *old(editor) && final(platform)@
                        == old(platform)@ && *final(clients) == *old(clients)
                } else {
                    let method = pending[i].1;
                    let waiting = logged(
                        ClientModel { pending_requests: pending.remove(i), ..old(self)@ },
                        response_received_log(response.id.0, method, result_view(response.result)),
                    );
                    match response.result {
                        Err(error) => final(self)@ == waiting && status_shown(
                            old(editor),
                            final(editor),
                            StatusMessageKind::Error,
                            error@.message,
                        ) && final(platform)@ == old(platform)@ && *final(clients) == *old(clients),
                        Ok(value) => response_effect(
                            method,
                            waiting,
                            final(self)@,
                            old(editor),
                            final(editor),
                            old(clients),
                            final(clients),
                            old(platform)@,
                            final(platform)@,
                            value@,
                        ),
                    }
                }
            }),
    {
        let id = response.id;
        let method = match self.pending_requests.take(id) {
            Some(method) => method,
            None => {
                return ;
            },
        };
        if self.log_buffer_handle.is_some() {
            let mut entry = String::from_str("receive response\nid: ");
            push_decimal(&mut entry, id.0 as u128);
            entry.append("\nmethod: '");
            entry.append(method.as_str());
            match &response.result {
                Ok(value) => {
                    entry.append("'\nresult:\n");
                    value.write(&mut entry);
                },
                Err(error) => {
                    entry.append("'\nerror:\n");
                    let ghost view = error@;
                    let mut object = ObjectBuilder::new();
                    object.set("code", JsonValue::Integer(error.code));
                    object.set("message", JsonValue::String(error.message.clone()));
                    object.set("data", clone_json(&error.data));
                    let object = object.build();
                    assert(object@->Object_0 =~= seq!["code"@, "message"@, "data"@]);
                    assert(object@->Object_1 =~= seq![
                        Json::Integer(view.code),
                        Json::String(view.message),
                        view.data,
                    ]);
                    object.write(&mut entry);
                },
            }
            assert(entry@ =~= response_received_log(
                id.0,
                method@,
                result_view(response.result),
            ));
            self.write_to_log_buffer(entry.as_str());
        }
        let result = match response.result {
            Ok(result) => result,
            Err(error) => {
                crate::lsp::client::write_response_error(&mut editor.status_message, &error);
                return ;
            },
        };
        let method = method.as_str();
        if crate::text::same_text(method, "initialize") {
            self.on_initialize_response(editor, platform, &result);
        } else if crate::text::same_text(method, "textDocument/hover") {
            self.on_hover_response(editor, &result);
        } else if crate::text::same_text(method, "textDocument/signatureHelp") {
            self.on_signature_help_response(editor, &result);
        } else if crate::text::same_text(method, "textDocument/definition") {
            self.on_definition_response(editor, clients, &result);
        } else if crate::text::same_text(method, "textDocument/references") {
            self.on_references_response(&result);
        } else if crate::text::same_text(method, "textDocument/prepareRename") {
            self.on_prepare_rename_response(editor, &result);
        } else if crate::text::same_text(method, "textDocument/rename") {
            self.on_rename_response(editor, &result);
        } else if crate::text::same_text(method, "textDocument/codeAction") {
            self.on_code_action_response(editor, &result);
        } else if crate::text::same_text(method, "textDocument/documentSymbol") {
            self.on_document_symbol_response(editor, &result);
        } else if crate::text::same_text(method, "workspace/symbol") {
            self.on_workspace_symbol_response(editor, clients, &result);
        } else if crate::text::same_text(method, "textDocument/formatting") {
            self.on_formatting_response(editor, &result);
        }
    }
}

/// The answer to a request for a definition takes the client that asked to
/// the place that it names: where the client is attached and the tables
/// have room, the client looks at a buffer of the file that the answer
/// names, through a view with a single cursor whose two ends stand at the
/// start of the range that the answer names; and the client of the language
/// server is idle.
pub proof fn law_definition_navigates(
    c0: ClientModel,
    c1: ClientModel,
    e0: &Editor,
    e1: &Editor,
    k0: &ClientCollection,
    k1: &ClientCollection,
    result: Json,
    client: TargetClient,
    path: Seq<char>,
    position: BufferPosition,
)
    requires
        definition_effect(c0, c1, e0, e1, k0, k1, result),
        c0.request_state == (RequestState::Definition { client }),
        definition_target(c0.root, result) == Some((path, position)),
        k0.client(client) is Some,
        !tables_full(e0, path),
    ensures
        c1.request_state == RequestState::Idle,
        k1.client(client) is Some,
        k1.client(client).unwrap().buffer_view_handle is Some,
        ({
            let view = k1.client(client).unwrap().buffer_view_handle.unwrap();
            let shown = e1.buffer_views.view_of(view);
            &&& e1.buffer_views.contains(view)
            &&& shown.client == client
            &&& shown.cursors@ == seq![Cursor { anchor: position, position }]
            &&& e1.buffers.contains(shown.buffer_handle)
            &&& e1.buffers.buffer(shown.buffer_handle).path@ == path
        }),
{
}

} // verus!
