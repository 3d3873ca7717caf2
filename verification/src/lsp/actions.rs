//! What a client asks of its server on behalf of the user, and what it does
//! once the user has chosen.

use crate::buffer::{text_inserted, BufferCollection};
use crate::buffer_content::end_of;
use crate::buffer_position::{BufferPosition, BufferRange};
use crate::buffer_view::BufferViewHandle;
use crate::connection::TargetClient;
use crate::cursor::Cursor;
use crate::editor::{buffer_edited, Editor};
use crate::events::BufferHandle;
use crate::json::{elements, json_array, json_string, json_views, Json, JsonValue, ObjectBuilder};
use crate::lsp::client::{
    diagnostic_views,
    entry_of_buffer,
    lemma_pending_changes_keep,
    document_id_json,
    pending_changes_sent,
    place_requested,
    position_params,
    requested,
    send_pending_did_change,
    text_document_with_id,
    BufferDiagnosticsView,
    Client,
    ClientModel,
    Diagnostic,
    DiagnosticView,
    RequestState,
};
use crate::lsp::edits::workspace_edit_applied;
use crate::lsp::protocol::{
    code_action_of,
    diagnostic_json,
    position_from_document,
    position_json,
    position_to_document,
    range_json,
    range_to_document,
    symbol_of,
    DocumentCodeAction,
    DocumentCodeActionView,
    DocumentDiagnosticView,
    DocumentPosition,
    DocumentRange,
    DocumentSymbolInformation,
    DocumentSymbolInformationView,
    path_uri,
};
use crate::lsp::responses::{enter_rename_mode, reading_new_name};
use crate::platform::{Platform, PlatformRequestView};
use crate::buffer_position::{position_le, position_lt};
use vstd::prelude::*;

verus! {

/// What the client tells a server of itself: that it reads the new name of
/// a rename from what the server prepares, and that it shows documents.
pub open spec fn client_capabilities_json() -> Json {
    Json::Object(
        seq!["textDocument"@, "window"@],
        seq![
            Json::Object(
                seq!["rename"@],
                seq![Json::Object(seq!["prepareSupport"@], seq![Json::Boolean(true)])],
            ),
            Json::Object(
                seq!["showDocument"@],
                seq![Json::Object(seq!["support"@], seq![Json::Boolean(true)])],
            ),
        ],
    )
}

/// The parameters of the request that opens the conversation with a server.
pub open spec fn initialize_params(root: Seq<char>, process_id: u32) -> Json {
    Json::Object(
        seq!["processId"@, "clientInfo"@, "rootUri"@, "capabilities"@],
        seq![
            Json::Integer(process_id as int),
            Json::Object(seq!["name"@], seq![Json::String("pepper"@)]),
            Json::String(path_uri(root)),
            client_capabilities_json(),
        ],
    )
}

fn client_capabilities() -> (r: JsonValue)
    ensures
        r@ == client_capabilities_json(),
{
    let mut prepare = ObjectBuilder::new();
    prepare.set("prepareSupport", JsonValue::Boolean(true));
    let prepare = prepare.build();
    assert(prepare@->Object_0 =~= seq!["prepareSupport"@]);
    assert(prepare@->Object_1 =~= seq![Json::Boolean(true)]);
    let mut rename = ObjectBuilder::new();
    rename.set("rename", prepare);
    let rename = rename.build();
    assert(rename@->Object_0 =~= seq!["rename"@]);
    assert(rename@->Object_1 =~= seq![prepare@]);
    let mut support = ObjectBuilder::new();
    support.set("support", JsonValue::Boolean(true));
    let support = support.build();
    assert(support@->Object_0 =~= seq!["support"@]);
    assert(support@->Object_1 =~= seq![Json::Boolean(true)]);
    let mut show = ObjectBuilder::new();
    show.set("showDocument", support);
    let show = show.build();
    assert(show@->Object_0 =~= seq!["showDocument"@]);
    assert(show@->Object_1 =~= seq![support@]);
    let mut all = ObjectBuilder::new();
    all.set("textDocument", rename);
    all.set("window", show);
    let all = all.build();
    assert(all@->Object_0 =~= seq!["textDocument"@, "window"@]);
    assert(all@->Object_1 =~= seq![rename@, show@]);
    all
}

/// The JSON of the diagnostics among the first `count` that touch the
/// range: those in which the start or the end of the range lies.
pub open spec fn diagnostics_in_range(
    diagnostics: Seq<DiagnosticView>,
    range: BufferRange,
    count: int,
) -> Seq<Json>
    decreases count,
{
    if count <= 0 || count > diagnostics.len() {
        Seq::empty()
    } else {
        let d = diagnostics[count - 1];
        let before = diagnostics_in_range(diagnostics, range, count - 1);
        if (position_le(d.range.from, range.from) && position_lt(range.from, d.range.to)) || (
        position_le(d.range.from, range.to) && position_lt(range.to, d.range.to)) {
            before.push(
                diagnostic_json(
                    DocumentDiagnosticView {
                        message: d.message,
                        range: range_to_document(d.range),
                        data: d.data,
                    },
                ),
            )
        } else {
            before
        }
    }
}

/// The diagnostics that the client holds for a buffer.
pub open spec fn diagnostics_of_buffer(
    entries: Seq<BufferDiagnosticsView>,
    handle: BufferHandle,
) -> Seq<DiagnosticView> {
    let i = entry_of_buffer(entries, handle, 0);
    if i < entries.len() {
        entries[i].diagnostics
    } else {
        Seq::empty()
    }
}

/// The parameters of a request for the code actions of a range.
pub open spec fn code_action_params(
    root: Seq<char>,
    path: Seq<char>,
    range: BufferRange,
    diagnostics: Seq<DiagnosticView>,
) -> Json {
    Json::Object(
        seq!["textDocument"@, "range"@, "context"@],
        seq![
            document_id_json(root, path),
            range_json(range_to_document(range)),
            Json::Object(
                seq!["diagnostics"@],
                seq![Json::Array(diagnostics_in_range(diagnostics, range, diagnostics.len() as int))],
            ),
        ],
    )
}

/// The parameters of a request to rename what stands at a place.
pub open spec fn rename_params(
    root: Seq<char>,
    path: Seq<char>,
    position: BufferPosition,
    new_name: Seq<char>,
) -> Json {
    Json::Object(
        seq!["textDocument"@, "position"@, "newName"@],
        seq![
            document_id_json(root, path),
            position_json(position_to_document(position)),
            Json::String(new_name),
        ],
    )
}

/// The code actions among the first `count` values that are well formed
/// and not disabled.
pub open spec fn enabled_actions(items: Seq<Json>, count: int) -> Seq<DocumentCodeActionView>
    decreases count,
{
    if count <= 0 || count > items.len() {
        Seq::empty()
    } else {
        match code_action_of(items[count - 1]) {
            Some(action) => if action.disabled {
                enabled_actions(items, count - 1)
            } else {
                enabled_actions(items, count - 1).push(action)
            },
            None => enabled_actions(items, count - 1),
        }
    }
}

/// The symbols among the first `count` values that are well formed.
pub open spec fn listed_symbols(items: Seq<Json>, count: int) -> Seq<DocumentSymbolInformationView>
    decreases count,
{
    if count <= 0 || count > items.len() {
        Seq::empty()
    } else {
        match symbol_of(items[count - 1]) {
            Some(symbol) => listed_symbols(items, count - 1).push(symbol),
            None => listed_symbols(items, count - 1),
        }
    }
}

/// The view `view` has the single cursor `cursor`; everything else is the
/// same in the two editors.
pub open spec fn cursor_placed(
    before: &Editor,
    after: &Editor,
    view: BufferViewHandle,
    cursor: Cursor,
) -> bool {
    &&& *after == (Editor { buffer_views: after.buffer_views, ..*before })
    &&& after.buffer_views.same_but(&before.buffer_views, view)
    &&& after.buffer_views.contains(view)
    &&& after.buffer_views.view_of(view).cursors@ == seq![cursor]
    &&& after.buffer_views.view_of(view).client == before.buffer_views.view_of(view).client
    &&& after.buffer_views.view_of(view).buffer_handle == before.buffer_views.view_of(
        view,
    ).buffer_handle
}

fn read_enabled_actions(items: &Vec<JsonValue>) -> (r: Vec<DocumentCodeAction>)
    ensures
        r@.len() == enabled_actions(json_views(items@), items@.len() as int).len(),
        forall|k: int|
            0 <= k < r@.len() ==> (#[trigger] r@[k])@ == enabled_actions(
                json_views(items@),
                items@.len() as int,
            )[k],
{
    let mut actions: Vec<DocumentCodeAction> = Vec::new();
    let mut i: usize = 0;
    while i < items.len()
        invariant
            0 <= i <= items.len(),
            actions@.len() == enabled_actions(json_views(items@), i as int).len(),
            forall|k: int|
                0 <= k < actions@.len() ==> (#[trigger] actions@[k])@ == enabled_actions(
                    json_views(items@),
                    i as int,
                )[k],
        decreases items.len() - i,
    {
        match DocumentCodeAction::from_json(&items[i]) {
            Ok(action) => {
                if !action.disabled {
                    actions.push(action);
                }
            },
            Err(_) => {},
        }
        i = i + 1;
    }
    actions
}

fn read_listed_symbols(items: &Vec<JsonValue>) -> (r: Vec<DocumentSymbolInformation>)
    ensures
        r@.len() == listed_symbols(json_views(items@), items@.len() as int).len(),
        forall|k: int|
            0 <= k < r@.len() ==> (#[trigger] r@[k])@ == listed_symbols(
                json_views(items@),
                items@.len() as int,
            )[k],
{
    let mut symbols: Vec<DocumentSymbolInformation> = Vec::new();
    let mut i: usize = 0;
    while i < items.len()
        invariant
            0 <= i <= items.len(),
            symbols@.len() == listed_symbols(json_views(items@), i as int).len(),
            forall|k: int|
                0 <= k < symbols@.len() ==> (#[trigger] symbols@[k])@ == listed_symbols(
                    json_views(items@),
                    i as int,
                )[k],
        decreases items.len() - i,
    {
        match DocumentSymbolInformation::from_json(&items[i]) {
            Ok(symbol) => {
                symbols.push(symbol);
            },
            Err(_) => {},
        }
        i = i + 1;
    }
    symbols
}

fn diagnostics_json(diagnostics: &[Diagnostic], range: BufferRange) -> (r: Vec<JsonValue>)
    ensures
        json_views(r@) == diagnostics_in_range(
            diagnostic_views(diagnostics@),
            range,
            diagnostics@.len() as int,
        ),
{
    let mut out: Vec<JsonValue> = Vec::new();
    let mut i: usize = 0;
    assert(json_views(out@) =~= Seq::<Json>::empty());
    while i < diagnostics.len()
        invariant
            0 <= i <= diagnostics.len(),
            json_views(out@) == diagnostics_in_range(diagnostic_views(diagnostics@), range, i as int),
        decreases diagnostics.len() - i,
    {
        let d = &diagnostics[i];
        assert(diagnostic_views(diagnostics@)[i as int] == d@);
        if (d.range.from.le(range.from) && range.from.lt(d.range.to)) || (d.range.from.le(range.to)
            && range.to.lt(d.range.to)) {
            let ghost before = json_views(out@);
            let json = d.as_document_diagnostic().to_json_value();
            out.push(json);
            assert(json_views(out@) =~= before.push(json@));
        }
        i = i + 1;
    }
    out
}

impl Client {
    /// Opens the conversation with the server: asks it to initialize, with
    /// the process of the editor, the root of the project and what the
    /// client can do. The request is sent though the client is not
    /// initialized yet.
    pub fn initialize(&mut self, platform: &mut Platform, process_id: u32)
        ensures
            ({
                let (asked, requests) = requested(
                    ClientModel { initialized: true, ..old(self)@ },
                    old(platform)@,
                    "initialize"@,
                    initialize_params(old(self)@.root, process_id),
                );
                final(self)@ == (ClientModel { initialized: false, ..asked }) && final(platform)@
                    == requests
            }),
    {
        let mut info = ObjectBuilder::new();
        info.set("name", json_string("pepper"));
        let info = info.build();
        assert(info@->Object_0 =~= seq!["name"@]);
        assert(info@->Object_1 =~= seq![Json::String("pepper"@)]);
        let root = crate::text::joined("file://", self.root.as_str());
        let capabilities = client_capabilities();
        let mut params = ObjectBuilder::new();
        params.set("processId", JsonValue::Integer(process_id as i64));
        params.set("clientInfo", info);
        params.set("rootUri", json_string(root.as_str()));
        params.set("capabilities", capabilities);
        let params = params.build();
        assert(params@->Object_0 =~= seq!["processId"@, "clientInfo"@, "rootUri"@, "capabilities"@]);
        assert(params@->Object_1 =~= seq![
            Json::Integer(process_id as int),
            info@,
            Json::String(path_uri(self.root@)),
            capabilities@,
        ]);
        self.initialized = true;
        self.request(platform, "initialize", params);
        self.initialized = false;
    }

    /// Starts a rename of what stands at a place. Where the server prepares
    /// renames it is asked to, after the pending changes were told; else the
    /// editor reads the new name at once. Nothing happens where the server
    /// cannot rename, the client waits for something, or the buffer does
    /// not exist.
    pub fn rename(
        &mut self,
        editor: &mut Editor,
        platform: &mut Platform,
        client: TargetClient,
        buffer_handle: BufferHandle,
        buffer_position: BufferPosition,
    )
        requires
            old(editor).well_formed(),
        ensures
            final(editor).well_formed(),
            if !old(self)@.capabilities.rename_provider.on || old(self)@.request_state
                != RequestState::Idle || !old(editor).buffers.contains(buffer_handle) {
                final(self)@ == old(self)@ && final(platform)@ == old(platform)@ && *final(editor)
                    == *old(editor)
            } else if old(self)@.capabilities.rename_provider.prepare_provider {
                *final(editor) == *old(editor) && (final(self)@, final(platform)@)
                    == place_requested(
                    old(self)@,
                    old(platform)@,
                    &old(editor).buffers,
                    Some(RequestState::Rename { client, buffer_handle, buffer_position }),
                    "textDocument/prepareRename"@,
                    position_params(
                        old(self)@.root,
                        old(editor).buffers.buffer(buffer_handle).path@,
                        buffer_position,
                    ),
                )
            } else {
                let (told, requests) = pending_changes_sent(
                    old(self)@,
                    old(platform)@,
                    &old(editor).buffers,
                );
                &&& final(platform)@ == requests
                &&& final(self)@ == (ClientModel {
                    request_state: RequestState::FinishRename { buffer_handle, buffer_position },
                    ..told
                })
                &&& reading_new_name(old(editor), final(editor), old(self)@.handle, Seq::empty())
            },
    {
        if !self.server_capabilities.rename_provider.on || !self.request_state.is_idle() {
            return ;
        }
        let buffer_path = match editor.buffers.get(buffer_handle) {
            Some(buffer) => buffer.path.as_str(),
            None => {
                return ;
            },
        };
        proof {
            lemma_pending_changes_keep(self@, platform@, &editor.buffers);
        }
        send_pending_did_change(self, editor, platform);
        if self.server_capabilities.rename_provider.prepare_provider {
            let mut params = ObjectBuilder::new();
            params.set("textDocument", text_document_with_id(self.root.as_str(), buffer_path));
            params.set(
                "position",
                DocumentPosition::from_buffer_position(buffer_position).to_json_value(),
            );
            let params = params.build();
            assert(params@->Object_0 =~= seq!["textDocument"@, "position"@]);
            assert(params@->Object_1 =~= seq![
                document_id_json(self.root@, buffer_path@),
                position_json(position_to_document(buffer_position)),
            ]);
            self.request_state = RequestState::Rename { client, buffer_handle, buffer_position };
            self.request(platform, "textDocument/prepareRename", params);
        } else {
            self.request_state = RequestState::FinishRename { buffer_handle, buffer_position };
            proof {
                reveal_strlit("");
                assert(""@ =~= Seq::<char>::empty());
            }
            enter_rename_mode(editor, self.handle, "");
        }
    }

    /// Asks the server to rename what the client was renaming to the name
    /// that the editor has read, after the pending changes were told; the
    /// client goes on waiting for the rename. Nothing happens where the
    /// server cannot rename or the client was not about to; the client is
    /// idle where the buffer is gone.
    pub fn finish_rename(&mut self, editor: &Editor, platform: &mut Platform)
        ensures
            rename_finished(
                old(self)@,
                final(self)@,
                old(platform)@,
                final(platform)@,
                &editor.buffers,
                editor.read_line.input_text(),
            ),
            match old(self)@.request_state {
                RequestState::FinishRename { buffer_handle, buffer_position } => if !old(
                    self,
                )@.capabilities.rename_provider.on {
                    final(self)@ == old(self)@ && final(platform)@ == old(platform)@
                } else if !editor.buffers.contains(buffer_handle) {
                    final(self)@ == (ClientModel { request_state: RequestState::Idle, ..old(self)@ })
                        && final(platform)@ == old(platform)@
                } else {
                    (final(self)@, final(platform)@) == place_requested(
                        old(self)@,
                        old(platform)@,
                        &editor.buffers,
                        None,
                        "textDocument/rename"@,
                        rename_params(
                            old(self)@.root,
                            editor.buffers.buffer(buffer_handle).path@,
                            buffer_position,
                            editor.read_line.input_text(),
                        ),
                    )
                },
                _ => final(self)@ == old(self)@ && final(platform)@ == old(platform)@,
            },
    {
        if !self.server_capabilities.rename_provider.on {
            return ;
        }
        let (buffer_handle, buffer_position) = match self.request_state {
            RequestState::FinishRename { buffer_handle, buffer_position } => (
                buffer_handle,
                buffer_position,
            ),
            _ => {
                return ;
            },
        };
        let buffer_path = match editor.buffers.get(buffer_handle) {
            Some(buffer) => buffer.path.as_str(),
            None => {
                self.request_state = RequestState::Idle;
                return ;
            },
        };
        proof {
            lemma_pending_changes_keep(self@, platform@, &editor.buffers);
        }
        send_pending_did_change(self, editor, platform);
        let mut params = ObjectBuilder::new();
        params.set("textDocument", text_document_with_id(self.root.as_str(), buffer_path));
        params.set(
            "position",
            DocumentPosition::from_buffer_position(buffer_position).to_json_value(),
        );
        params.set("newName", json_string(editor.read_line.input()));
        let params = params.build();
        assert(params@->Object_0 =~= seq!["textDocument"@, "position"@, "newName"@]);
        assert(params@->Object_1 =~= seq![
            document_id_json(self.root@, buffer_path@),
            position_json(position_to_document(buffer_position)),
            Json::String(editor.read_line.input_text()),
        ]);
        self.request(platform, "textDocument/rename", params);
    }

    /// Asks the server what it can do to a range of a buffer, and tells it
    /// the diagnostics that touch the range, after the pending changes were
    /// told. Nothing happens where the server has no code actions, the
    /// client waits for something, or the buffer does not exist.
    pub fn code_action(
        &mut self,
        editor: &Editor,
        platform: &mut Platform,
        client: TargetClient,
        buffer_handle: BufferHandle,
        range: BufferRange,
    )
        ensures
            if !old(self)@.capabilities.code_action_provider || old(self)@.request_state
                != RequestState::Idle || !editor.buffers.contains(buffer_handle) {
                final(self)@ == old(self)@ && final(platform)@ == old(platform)@
            } else {
                (final(self)@, final(platform)@) == place_requested(
                    old(self)@,
                    old(platform)@,
                    &editor.buffers,
                    Some(RequestState::CodeAction { client }),
                    "textDocument/codeAction"@,
                    code_action_params(
                        old(self)@.root,
                        editor.buffers.buffer(buffer_handle).path@,
                        range,
                        diagnostics_of_buffer(old(self)@.diagnostics, buffer_handle),
                    ),
                )
            },
    {
        if !self.server_capabilities.code_action_provider || !self.request_state.is_idle() {
            return ;
        }
        let buffer_path = match editor.buffers.get(buffer_handle) {
            Some(buffer) => buffer.path.as_str(),
            None => {
                return ;
            },
        };
        proof {
            lemma_pending_changes_keep(self@, platform@, &editor.buffers);
        }
        send_pending_did_change(self, editor, platform);
        let found = diagnostics_json(self.diagnostics.buffer_diagnostics(buffer_handle), range);
        let found = json_array(found);
        let mut context = ObjectBuilder::new();
        context.set("diagnostics", found);
        let context = context.build();
        assert(context@->Object_0 =~= seq!["diagnostics"@]);
        assert(context@->Object_1 =~= seq![found@]);
        let mut params = ObjectBuilder::new();
        params.set("textDocument", text_document_with_id(self.root.as_str(), buffer_path));
        params.set("range", DocumentRange::from_buffer_range(range).to_json_value());
        params.set("context", context);
        let params = params.build();
        assert(params@->Object_0 =~= seq!["textDocument"@, "range"@, "context"@]);
        assert(params@->Object_1 =~= seq![
            document_id_json(self.root@, buffer_path@),
            range_json(range_to_document(range)),
            context@,
        ]);
        self.request_state = RequestState::CodeAction { client };
        self.request(platform, "textDocument/codeAction", params);
    }

    /// Applies the code action that the user chose: the one at `index`
    /// among those that the server offered and did not disable. The client
    /// is idle afterwards. Nothing happens where the server has no code
    /// actions or the client was not waiting for a choice.
    pub fn finish_code_action(&mut self, editor: &mut Editor, index: usize)
        requires
            old(editor).well_formed(),
        ensures
            final(editor).lsp == old(editor).lsp,
            code_action_chosen(old(self)@, final(self)@, old(editor), final(editor), index),
            final(editor).well_formed(),
            if old(self)@.capabilities.code_action_provider && old(self)@.request_state
                == RequestState::FinishCodeAction {
                let items = elements(old(self)@.request_raw_json);
                let actions = enabled_actions(items, items.len() as int);
                &&& final(self)@ == (ClientModel { request_state: RequestState::Idle, ..old(self)@ })
                &&& if index < actions.len() {
                    workspace_edit_applied(
                        old(editor),
                        final(editor),
                        old(self)@.root,
                        actions[index as int].edit,
                        actions[index as int].edit.len() as int,
                    )
                } else {
                    *final(editor) == *old(editor)
                }
            } else {
                final(self)@ == old(self)@ && *final(editor) == *old(editor)
            },
    {
        if !self.server_capabilities.code_action_provider {
            return ;
        }
        match self.request_state {
            RequestState::FinishCodeAction => {},
            _ => {
                return ;
            },
        }
        self.request_state = RequestState::Idle;
        let empty: Vec<JsonValue> = Vec::new();
        let items = match self.request_raw_json.items() {
            Some(items) => items,
            None => {
                assert(json_views(empty@) =~= elements(self.request_raw_json@));
                &empty
            },
        };
        let actions = read_enabled_actions(items);
        if index < actions.len() {
            actions[index].edit.apply(editor, self.root.as_str());
        }
    }

    /// Takes the cursor to the symbol that the user chose: the one at
    /// `index` among those that the server listed. The client is idle
    /// afterwards. Nothing happens where the server lists no symbols or the
    /// client was not waiting for a choice.
    pub fn finish_document_symbols(&mut self, editor: &mut Editor, index: usize)
        requires
            old(editor).well_formed(),
        ensures
            final(editor).lsp == old(editor).lsp,
            symbol_chosen(old(self)@, final(self)@, old(editor), final(editor), index),
            final(editor).well_formed(),
            match old(self)@.request_state {
                RequestState::FinishDocumentSymbols { buffer_view_handle } => if old(
                    self,
                )@.capabilities.document_symbol_provider {
                    let items = elements(old(self)@.request_raw_json);
                    let symbols = listed_symbols(items, items.len() as int);
                    &&& final(self)@ == (ClientModel {
                        request_state: RequestState::Idle,
                        ..old(self)@
                    })
                    &&& if index < symbols.len() && old(editor).buffer_views.contains(
                        buffer_view_handle,
                    ) {
                        let position = position_from_document(symbols[index as int].range.start);
                        cursor_placed(
                            old(editor),
                            final(editor),
                            buffer_view_handle,
                            Cursor { anchor: position, position },
                        )
                    } else {
                        *final(editor) == *old(editor)
                    }
                } else {
                    final(self)@ == old(self)@ && *final(editor) == *old(editor)
                },
                _ => final(self)@ == old(self)@ && *final(editor) == *old(editor),
            },
    {
        if !self.server_capabilities.document_symbol_provider {
            return ;
        }
        let buffer_view_handle = match self.request_state {
            RequestState::FinishDocumentSymbols { buffer_view_handle } => buffer_view_handle,
            _ => {
                return ;
            },
        };
        self.request_state = RequestState::Idle;
        if editor.buffer_views.get(buffer_view_handle).is_none() {
            return ;
        }
        let empty: Vec<JsonValue> = Vec::new();
        let items = match self.request_raw_json.items() {
            Some(items) => items,
            None => {
                assert(json_views(empty@) =~= elements(self.request_raw_json@));
                &empty
            },
        };
        let symbols = read_listed_symbols(items);
        if index < symbols.len() {
            let position = symbols[index].range.start.into_buffer_position();
            editor.buffer_views.set_cursor(buffer_view_handle, Cursor { anchor: position, position });
        }
    }

    /// Writes what the client has logged to the end of its log buffer and
    /// forgets it. Nothing happens where the client keeps no log or the
    /// buffer is gone.
    pub fn flush_log_buffer(&mut self, editor: &mut Editor)
        requires
            old(editor).well_formed(),
        ensures
            final(self)@.read_buf == old(self)@.read_buf,
            final(editor).well_formed(),
            final(editor).lsp == old(editor).lsp,
            match old(self)@.log_buffer_handle {
                Some(handle) => if old(editor).buffers.contains(handle) {
                    &&& final(self)@ == (ClientModel { log: Seq::empty(), ..old(self)@ })
                    &&& buffer_edited(old(editor), final(editor), handle)
                    &&& exists|range: BufferRange|
                        text_inserted(
                            &old(editor).buffers.buffer(handle),
                            &final(editor).buffers.buffer(handle),
                            &old(editor).editor_events,
                            &final(editor).editor_events,
                            end_of(old(editor).buffers.buffer(handle).content@),
                            old(self)@.log,
                            0,
                            range,
                        )
                } else {
                    final(self)@ == old(self)@ && *final(editor) == *old(editor)
                },
                None => final(self)@ == old(self)@ && *final(editor) == *old(editor),
            },
    {
        let handle = match self.log_buffer_handle {
            Some(handle) => handle,
            None => {
                return ;
            },
        };
        let position = match editor.buffers.get(handle) {
            Some(buffer) => buffer.content.end(),
            None => {
                return ;
            },
        };
        let inserted = editor.insert_text(handle, position, self.log_write_buf.as_str(), 0);
        self.log_write_buf = String::from_str("");
        proof {
            reveal_strlit("");
            assert(self.log_write_buf@ =~= Seq::<char>::empty());
            assert(text_inserted(
                &old(editor).buffers.buffer(handle),
                &editor.buffers.buffer(handle),
                &old(editor).editor_events,
                &editor.editor_events,
                end_of(old(editor).buffers.buffer(handle).content@),
                old(self)@.log,
                0,
                inserted.unwrap(),
            ));
        }
    }
}

/// What finishing a rename makes of the client and of the requests to the
/// platform, with `new_name` as the name that was read.
pub open spec fn rename_finished(
    c0: ClientModel,
    c1: ClientModel,
    w0: Seq<PlatformRequestView>,
    w1: Seq<PlatformRequestView>,
    buffers: &BufferCollection,
    new_name: Seq<char>,
) -> bool {
    match c0.request_state {
        RequestState::FinishRename { buffer_handle, buffer_position } => if !c0.capabilities.rename_provider.on {
            c1 == c0 && w1 == w0
        } else if !buffers.contains(buffer_handle) {
            c1 == (ClientModel { request_state: RequestState::Idle, ..c0 }) && w1 == w0
        } else {
            (c1, w1) == place_requested(
                c0,
                w0,
                buffers,
                None,
                "textDocument/rename"@,
                rename_params(
                    c0.root,
                    buffers.buffer(buffer_handle).path@,
                    buffer_position,
                    new_name,
                ),
            )
        },
        _ => c1 == c0 && w1 == w0,
    }
}

/// What choosing the code action at `index` makes of the client and of the
/// editor.
pub open spec fn code_action_chosen(
    c0: ClientModel,
    c1: ClientModel,
    e0: &Editor,
    e1: &Editor,
    index: usize,
) -> bool {
    if c0.capabilities.code_action_provider && c0.request_state == RequestState::FinishCodeAction {
        let items = elements(c0.request_raw_json);
        let actions = enabled_actions(items, items.len() as int);
        &&& c1 == (ClientModel { request_state: RequestState::Idle, ..c0 })
        &&& if index < actions.len() {
            workspace_edit_applied(
                e0,
                e1,
                c0.root,
                actions[index as int].edit,
                actions[index as int].edit.len() as int,
            )
        } else {
            *e1 == *e0
        }
    } else {
        c1 == c0 && *e1 == *e0
    }
}

/// What choosing the symbol at `index` makes of the client and of the
/// editor.
pub open spec fn symbol_chosen(
    c0: ClientModel,
    c1: ClientModel,
    e0: &Editor,
    e1: &Editor,
    index: usize,
) -> bool {
    match c0.request_state {
        RequestState::FinishDocumentSymbols { buffer_view_handle } => if c0.capabilities.document_symbol_provider {
            let items = elements(c0.request_raw_json);
            let symbols = listed_symbols(items, items.len() as int);
            &&& c1 == (ClientModel { request_state: RequestState::Idle, ..c0 })
            &&& if index < symbols.len() && e0.buffer_views.contains(buffer_view_handle) {
                let position = position_from_document(symbols[index as int].range.start);
                cursor_placed(e0, e1, buffer_view_handle, Cursor { anchor: position, position })
            } else {
                *e1 == *e0
            }
        } else {
            c1 == c0 && *e1 == *e0
        },
        _ => c1 == c0 && *e1 == *e0,
    }
}

} // verus!
