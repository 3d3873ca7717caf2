//! What a client does with the requests and the notifications of its server.

use crate::buffer_position::BufferRange;
use crate::client_collection::ClientCollection;
use crate::connection::TargetClient;
use crate::cursor::Cursor;
use crate::buffer::BufferCapabilities;
use crate::buffer_view::BufferViewHandle;
use crate::client_collection::ClientData;
use crate::editor::{same_but_buffers, tables_full, Editor, StatusMessageKind};
use crate::events::{BufferHandle, EditorEventView};
use crate::glob::{compiled, Glob};
use crate::json::{elements, has_member, json_text, json_views, member, Json, JsonValue, ObjectBuilder};
use crate::lsp::client::{
    diagnostic_views, entry_of_path, filled_entries, logged, responded, sorted_diagnostics,
    BufferDiagnosticCollection, BufferDiagnosticsView, Client, ClientModel, Diagnostic, DiagnosticView, buffer_of_file,
};
use crate::lsp::protocol::{
    diagnostic_of,
    member_text,
    range_from_document,
    range_of,
    uri_path,
    DocumentDiagnostic,
    DocumentRange,
    ResponseError,
    ResponseErrorView,
    ServerNotification,
    ServerRequest,
    parse_uri,
    get_text,
};
use crate::lsp::responses::status_shown;
use crate::platform::{Platform, PlatformRequestView};
use crate::text::same_text;
use vstd::prelude::*;
use vstd::utf8::encode_utf8;

verus! {

/// What the log says of a request that came in.
pub open spec fn request_received_log(id: Json, method: Seq<char>, params: Json) -> Seq<char> {
    "receive request\nid: "@ + json_text(id) + "\nmethod: '"@ + method + "'\nparams:\n"@
        + json_text(params)
}

/// What the log says of a notification that came in.
pub open spec fn notification_received_log(method: Seq<char>, params: Json) -> Seq<char> {
    "receive notification\nmethod: '"@ + method + "'\nparams:\n"@ + json_text(params)
}

/// The patterns that the first `count` filters of a document selector
/// name, behind `patterns`: a filter is an object, and names a pattern where
/// it has a member `pattern`, which is a text. `None` where a filter is
/// malformed.
pub open spec fn selector_patterns(filters: Seq<Json>, count: int) -> Option<Seq<Seq<char>>>
    decreases count,
{
    if count <= 0 || count > filters.len() {
        Some(Seq::empty())
    } else {
        match selector_patterns(filters, count - 1) {
            Some(before) => match filters[count - 1] {
                Json::Object(_, _) => if has_member(filters[count - 1], "pattern"@) {
                    match member(filters[count - 1], "pattern"@) {
                        Json::String(pattern) => Some(before.push(pattern)),
                        _ => None,
                    }
                } else {
                    Some(before)
                },
                _ => None,
            },
            None => None,
        }
    }
}

/// The patterns that the first `count` registrations ask the client to
/// care for: those of the last registration for `textDocument/didSave`
/// among them, or `patterns` where there is none. `None` where a
/// registration is malformed.
pub open spec fn registered_patterns(
    registrations: Seq<Json>,
    count: int,
    patterns: Option<Seq<Seq<char>>>,
) -> Option<Option<Seq<Seq<char>>>>
    decreases count,
{
    if count <= 0 || count > registrations.len() {
        Some(patterns)
    } else {
        match registered_patterns(registrations, count - 1, patterns) {
            Some(before) => {
                let registration = registrations[count - 1];
                match (registration, member_text(registration, "method"@)) {
                    (Json::Object(_, _), Some(method)) => if method == "textDocument/didSave"@ {
                        let filters = elements(
                            member(member(registration, "registerOptions"@), "documentSelector"@),
                        );
                        match selector_patterns(filters, filters.len() as int) {
                            Some(patterns) => Some(Some(patterns)),
                            None => None,
                        }
                    } else {
                        Some(before)
                    },
                    _ => None,
                }
            },
            None => None,
        }
    }
}

/// Whether each of the first `count` patterns is a glob.
pub open spec fn all_compile(patterns: Seq<Seq<char>>, count: int) -> bool
    decreases count,
{
    count <= 0 || (count <= patterns.len() && compiled(encode_utf8(patterns[count - 1])).is_some()
        && all_compile(patterns, count - 1))
}

/// The globs are the patterns, compiled, one for one.
pub open spec fn globs_of(globs: Seq<Glob>, patterns: Seq<Seq<char>>) -> bool {
    globs.len() == patterns.len() && forall|i: int|
        0 <= i < globs.len() ==> compiled(encode_utf8(patterns[i])) == Some(
            ((#[trigger] globs[i]).ops(), globs[i].pool()),
        )
}

fn read_selector_patterns(filters: &Vec<JsonValue>) -> (r: Option<Vec<String>>)
    ensures
        match selector_patterns(json_views(filters@), filters@.len() as int) {
            Some(patterns) => r is Some && crate::text::views(r.unwrap()@) == patterns,
            None => r is None,
        },
{
    let mut patterns: Vec<String> = Vec::new();
    let mut i: usize = 0;
    assert(crate::text::views(patterns@) =~= Seq::<Seq<char>>::empty());
    while i < filters.len()
        invariant
            0 <= i <= filters.len(),
            selector_patterns(json_views(filters@), i as int) == Some(
                crate::text::views(patterns@),
            ),
        decreases filters.len() - i,
    {
        let ghost before = crate::text::views(patterns@);
        let filter = &filters[i];
        let ok = match filter {
            JsonValue::Object(_, _) => match filter.get("pattern") {
                Some(JsonValue::String(pattern)) => {
                    patterns.push(pattern.clone());
                    assert(crate::text::views(patterns@) =~= before.push(pattern@));
                    true
                },
                Some(_) => false,
                None => true,
            },
            _ => false,
        };
        if !ok {
            proof {
                lemma_selector_fail(json_views(filters@), i + 1, filters@.len() as int);
            }
            return None;
        }
        i = i + 1;
    }
    Some(patterns)
}

proof fn lemma_selector_fail(filters: Seq<Json>, bad: int, count: int)
    requires
        0 < bad <= count <= filters.len(),
        selector_patterns(filters, bad) is None,
    ensures
        selector_patterns(filters, count) is None,
    decreases count - bad,
{
    if bad < count {
        lemma_selector_fail(filters, bad, count - 1);
    }
}

proof fn lemma_registered_fail(
    registrations: Seq<Json>,
    bad: int,
    count: int,
    patterns: Option<Seq<Seq<char>>>,
)
    requires
        0 < bad <= count <= registrations.len(),
        registered_patterns(registrations, bad, patterns) is None,
    ensures
        registered_patterns(registrations, count, patterns) is None,
    decreases count - bad,
{
    if bad < count {
        lemma_registered_fail(registrations, bad, count - 1, patterns);
    }
}

#[verifier::loop_isolation(false)]
fn read_registered_patterns(registrations: &Vec<JsonValue>) -> (r: Option<Option<Vec<String>>>)
    ensures
        match registered_patterns(json_views(registrations@), registrations@.len() as int, None) {
            Some(Some(patterns)) => r is Some && r.unwrap() is Some && crate::text::views(
                r.unwrap().unwrap()@,
            ) == patterns,
            Some(None) => r is Some && r.unwrap() is None,
            None => r is None,
        },
{
    let ghost all = json_views(registrations@);
    let mut patterns: Option<Vec<String>> = None;
    let mut i: usize = 0;
    while i < registrations.len()
        invariant
            0 <= i <= registrations.len(),
            match registered_patterns(all, i as int, None) {
                Some(Some(p)) => patterns is Some && crate::text::views(patterns.unwrap()@) == p,
                Some(None) => patterns is None,
                None => false,
            },
        decreases registrations.len() - i,
    {
        let registration = &registrations[i];
        let method = match registration {
            JsonValue::Object(_, _) => get_text(registration, "method"),
            _ => None,
        };
        let method = match method {
            Some(method) => method,
            None => {
                proof {
                    lemma_registered_fail(all, i + 1, registrations@.len() as int, None);
                }
                return None;
            },
        };
        if same_text(method, "textDocument/didSave") {
            let null = JsonValue::Null;
            let options = match registration.get("registerOptions") {
                Some(options) => options,
                None => &null,
            };
            let selector = match options.get("documentSelector") {
                Some(selector) => selector,
                None => &null,
            };
            let empty: Vec<JsonValue> = Vec::new();
            let filters = match selector.items() {
                Some(filters) => filters,
                None => {
                    assert(json_views(empty@) =~= elements(selector@));
                    &empty
                },
            };
            match read_selector_patterns(filters) {
                Some(read) => {
                    patterns = Some(read);
                },
                None => {
                    proof {
                        lemma_registered_fail(all, i + 1, registrations@.len() as int, None);
                    }
                    return None;
                },
            }
        }
        i = i + 1;
    }
    Some(patterns)
}

#[verifier::loop_isolation(false)]
fn compile_patterns(patterns: &Vec<String>) -> (r: Option<Vec<Glob>>)
    ensures
        match r {
            Some(globs) => all_compile(crate::text::views(patterns@), patterns@.len() as int)
                && globs_of(globs@, crate::text::views(patterns@)),
            None => !all_compile(crate::text::views(patterns@), patterns@.len() as int),
        },
{
    let ghost all = crate::text::views(patterns@);
    let mut globs: Vec<Glob> = Vec::new();
    let mut i: usize = 0;
    while i < patterns.len()
        invariant
            0 <= i <= patterns.len(),
            all_compile(all, i as int),
            globs_of(globs@, all.take(i as int)),
        decreases patterns.len() - i,
    {
        let mut glob = Glob::new();
        match glob.compile(patterns[i].as_str().as_bytes()) {
            Ok(()) => {
                let ghost before = globs@;
                globs.push(glob);
                assert forall|k: int| 0 <= k < globs@.len() implies compiled(
                    encode_utf8(all.take(i + 1)[k]),
                ) == Some(((#[trigger] globs@[k]).ops(), globs@[k].pool())) by {
                    if k < i {
                        assert(globs@[k] == before[k]);
                        assert(all.take(i as int)[k] == all.take(i + 1)[k]);
                    }
                }
            },
            Err(_) => {
                proof {
                    lemma_compile_fail(all, i + 1, patterns@.len() as int);
                }
                return None;
            },
        }
        i = i + 1;
    }
    assert(all.take(patterns@.len() as int) =~= all);
    Some(globs)
}

proof fn lemma_compile_fail(patterns: Seq<Seq<char>>, bad: int, count: int)
    requires
        0 < bad <= count <= patterns.len(),
        !all_compile(patterns, bad),
    ensures
        !all_compile(patterns, count),
    decreases count - bad,
{
    if bad < count {
        lemma_compile_fail(patterns, bad, count - 1);
    }
}

/// The kind and the text of the message that a request to show a message
/// holds: its member `type` is 1 for an error and 2 to 4 for an
/// information, an information where it is missing; its member `message` is
/// the text, empty where it is missing.
pub open spec fn shown_message(params: Json) -> Option<(StatusMessageKind, Seq<char>)> {
    match params {
        Json::Object(_, _) => {
            let kind = if has_member(params, "type"@) {
                match member(params, "type"@) {
                    Json::Integer(i) => if i == 1 {
                        Some(StatusMessageKind::Error)
                    } else if 2 <= i <= 4 {
                        Some(StatusMessageKind::Info)
                    } else {
                        None
                    },
                    _ => None,
                }
            } else {
                Some(StatusMessageKind::Info)
            };
            let message = if has_member(params, "message"@) {
                match member(params, "message"@) {
                    Json::String(text) => Some(text),
                    _ => None,
                }
            } else {
                Some(Seq::empty())
            };
            match (kind, message) {
                (Some(kind), Some(message)) => Some((kind, message)),
                _ => None,
            }
        },
        _ => None,
    }
}

fn read_shown_message(params: &JsonValue) -> (r: Option<(StatusMessageKind, String)>)
    ensures
        match shown_message(params@) {
            Some((kind, message)) => r is Some && r.unwrap().0 == kind && r.unwrap().1@ == message,
            None => r is None,
        },
{
    match params {
        JsonValue::Object(_, _) => {},
        _ => {
            return None;
        },
    }
    let kind = match params.get("type") {
        Some(JsonValue::Integer(i)) => {
            if *i == 1 {
                StatusMessageKind::Error
            } else if 2 <= *i && *i <= 4 {
                StatusMessageKind::Info
            } else {
                return None;
            }
        },
        Some(_) => {
            return None;
        },
        None => StatusMessageKind::Info,
    };
    proof {
        reveal_strlit("");
    }
    match params.get("message") {
        Some(JsonValue::String(text)) => Some((kind, String::from_str(text.as_str()))),
        Some(_) => None,
        None => Some((kind, String::from_str(""))),
    }
}

/// The kind and the text of the message that a notification to show a
/// message holds: its member `type` is 1 for an error, 2 for a warning, 3 for
/// an information and 4 for a line of a log; its member `value` is the text,
/// empty where it is missing. A warning and an information are shown as
/// informations that say which they are. `None` where there is nothing to
/// show.
pub open spec fn notified_message(params: Json) -> Option<(StatusMessageKind, Seq<char>)> {
    let kind: Option<int> = if has_member(params, "type"@) {
        match member(params, "type"@) {
            Json::Integer(i) => Some(i as int),
            _ => None,
        }
    } else {
        Some(0int)
    };
    let message = if has_member(params, "value"@) {
        match member(params, "value"@) {
            Json::String(text) => Some(text),
            _ => None,
        }
    } else {
        Some(Seq::empty())
    };
    match (kind, message) {
        (Some(kind), Some(message)) => if kind == 1 {
            Some((StatusMessageKind::Error, message))
        } else if kind == 2 {
            Some((StatusMessageKind::Info, "warning: "@ + message))
        } else if kind == 3 {
            Some((StatusMessageKind::Info, "info: "@ + message))
        } else if kind == 4 {
            Some((StatusMessageKind::Info, message))
        } else {
            None
        },
        _ => None,
    }
}

fn read_notified_message(params: &JsonValue) -> (r: Option<(StatusMessageKind, String)>)
    ensures
        match notified_message(params@) {
            Some((kind, message)) => r is Some && r.unwrap().0 == kind && r.unwrap().1@ == message,
            None => r is None,
        },
{
    let kind: i64 = match params.get("type") {
        Some(JsonValue::Integer(i)) => *i,
        Some(_) => {
            return None;
        },
        None => 0,
    };
    let message = match params.get("value") {
        Some(JsonValue::String(text)) => text.as_str(),
        Some(_) => {
            return None;
        },
        None => "",
    };
    proof {
        reveal_strlit("");
    }
    if kind == 1 {
        Some((StatusMessageKind::Error, String::from_str(message)))
    } else if kind == 2 {
        let mut text = String::from_str("warning: ");
        text.append(message);
        Some((StatusMessageKind::Info, text))
    } else if kind == 3 {
        let mut text = String::from_str("info: ");
        text.append(message);
        Some((StatusMessageKind::Info, text))
    } else if kind == 4 {
        Some((StatusMessageKind::Info, String::from_str(message)))
    } else {
        None
    }
}

/// The focused client is shown the buffer of the path `path`, as far as
/// asked: a view of the client for a buffer with that path is there, with
/// the cursor of the selection where one was given; where the document
/// takes the focus the client shows that view, keeps the view that it
/// showed as its previous view, and the change is queued as an event. The
/// other views and the other clients are as they were, and so are the
/// buffers, but for a new buffer where none had the path.
pub open spec fn document_shown(
    e0: &Editor,
    e1: &Editor,
    k0: &ClientCollection,
    k1: &ClientCollection,
    path: Seq<char>,
    selection: Option<BufferRange>,
    take_focus: bool,
) -> bool {
    let client = k0.focused_client;
    let focus_events = if take_focus {
        seq![EditorEventView::ClientChangeBufferView { client }]
    } else {
        Seq::empty()
    };
    &&& same_but_buffers(e1, e0)
    &&& e1.editor_events.reading() == e0.editor_events.reading()
    &&& k1.focused_client == k0.focused_client
    &&& k1.client_map == k0.client_map
    &&& forall|t: TargetClient| t != client ==> k1.client(t) == k0.client(t)
    &&& !take_focus ==> *k1 == *k0
    &&& exists|view: BufferViewHandle|
        {
            let buffer = e1.buffer_views.view_of(view).buffer_handle;
            &&& #[trigger] e1.buffer_views.contains(view)
            &&& e1.buffer_views.view_of(view).client == client
            &&& match selection {
                Some(range) => e1.buffer_views.view_of(view).cursors@ == seq![
                    Cursor { anchor: range.from, position: range.to },
                ],
                None => if e0.buffer_views.contains(view) {
                    e1.buffer_views.view_of(view) == e0.buffer_views.view_of(view)
                } else {
                    e1.buffer_views.view_of(view).cursors@ == seq![Cursor::at_zero()]
                },
            }
            &&& e1.buffer_views.same_but(&e0.buffer_views, view)
            &&& e1.buffers.contains(buffer)
            &&& e1.buffers.buffer(buffer).path@ == path
            &&& take_focus ==> k1.client(client) == Some(
                ClientData {
                    buffer_view_handle: Some(view),
                    previous_buffer_view_handle: k0.client(client).unwrap().buffer_view_handle,
                    ..k0.client(client).unwrap()
                },
            )
            &&& match e0.buffers.path_handle(path) {
                Some(found) => buffer == found && e1.buffers == e0.buffers
                    && e1.editor_events.pending() == e0.editor_events.pending() + focus_events,
                None => {
                    &&& !e0.buffers.contains(buffer)
                    &&& e1.buffers.buffer(buffer).content@ == seq![Seq::<char>::empty()]
                    &&& e1.buffers.buffer(buffer).capabilities == (BufferCapabilities {
                        can_save: true,
                        auto_close: false,
                        is_log: false,
                    })
                    &&& forall|h: BufferHandle|
                        h != buffer ==> e1.buffers.contains(h) == e0.buffers.contains(h) && (
                        e0.buffers.contains(h) ==> e1.buffers.buffer(h) == e0.buffers.buffer(h))
                    &&& e1.editor_events.pending() == e0.editor_events.pending().push(
                        EditorEventView::BufferLoad { handle: buffer },
                    ) + focus_events
                },
            }
        }
}

/// Shows a document to the focused client. Returns whether it did:
/// nothing changes where no client has the focus or no room is left in the
/// tables.
fn show_document(
    editor: &mut Editor,
    clients: &mut ClientCollection,
    path: &str,
    selection: Option<BufferRange>,
    take_focus: bool,
) -> (r: bool)
    requires
        old(editor).well_formed(),
    ensures
        final(editor).well_formed(),
        r == (old(clients).client(old(clients).focused_client) is Some && !tables_full(
            old(editor),
            path@,
        )),
        r ==> document_shown(
            old(editor),
            final(editor),
            old(clients),
            final(clients),
            path@,
            selection,
            take_focus,
        ),
        !r ==> *final(editor) == *old(editor) && *final(clients) == *old(clients),
{
    let client = clients.focused_client;
    if clients.get(client).is_none() {
        return false;
    }
    let view = match editor.buffer_view_handle_from_path(client, path) {
        Some(view) => view,
        None => {
            return false;
        },
    };
    let ghost opened = editor.editor_events.pending();
    match selection {
        Some(range) => {
            editor.buffer_views.set_cursor(view, Cursor { anchor: range.from, position: range.to });
        },
        None => {},
    }
    if take_focus {
        clients.set_buffer_view_handle(client, Some(view), &mut editor.editor_events);
        assert(editor.editor_events.pending() =~= opened + seq![
            EditorEventView::ClientChangeBufferView { client },
        ]);
    } else {
        assert(editor.editor_events.pending() =~= opened + Seq::<EditorEventView>::empty());
    }
    assert(editor.buffer_views.contains(view));
    true
}

/// What a `window/showDocument` asks for: the path of the document, whether
/// it is to be shown outside the editor, whether it takes the focus, and the
/// selection to make in it.
pub open spec fn show_document_params(root: Seq<char>, params: Json) -> Option<
    (Seq<char>, bool, bool, Option<BufferRange>),
> {
    match params {
        Json::Object(_, _) => {
            let selection = if has_member(params, "selection"@) {
                match range_of(member(params, "selection"@)) {
                    Some(range) => Some(Some(range_from_document(range))),
                    None => None,
                }
            } else {
                Some(None)
            };
            match (member_text(params, "uri"@), selection) {
                (Some(uri), Some(selection)) => match uri_path(root, uri) {
                    Some(path) => Some(
                        (
                            path,
                            member(params, "external"@) == Json::Boolean(true),
                            member(params, "takeFocus"@) == Json::Boolean(true),
                            selection,
                        ),
                    ),
                    None => None,
                },
                _ => None,
            }
        },
        _ => None,
    }
}

fn read_show_document(root: &str, params: &JsonValue) -> (r: Option<
    (String, bool, bool, Option<BufferRange>),
>)
    ensures
        match show_document_params(root@, params@) {
            Some((path, external, take_focus, selection)) => r is Some && r.unwrap().0@ == path
                && r.unwrap().1 == external && r.unwrap().2 == take_focus && r.unwrap().3
                == selection,
            None => r is None,
        },
{
    match params {
        JsonValue::Object(_, _) => {},
        _ => {
            return None;
        },
    }
    let selection = match params.get("selection") {
        Some(selection) => match DocumentRange::from_json(selection) {
            Ok(range) => Some(range.into_buffer_range()),
            Err(_) => {
                return None;
            },
        },
        None => None,
    };
    let uri = match get_text(params, "uri") {
        Some(uri) => uri,
        None => {
            return None;
        },
    };
    let path = match parse_uri(root, uri) {
        Some(path) => path,
        None => {
            return None;
        },
    };
    let external = match params.get("external") {
        Some(JsonValue::Boolean(b)) => *b,
        _ => false,
    };
    let take_focus = match params.get("takeFocus") {
        Some(JsonValue::Boolean(b)) => *b,
        _ => false,
    };
    Some((path, external, take_focus, selection))
}

/// The JSON that tells whether a document was shown.
pub open spec fn success_json(success: bool) -> Json {
    Json::Object(seq!["success"@], seq![Json::Boolean(success)])
}

/// The parse error of the protocol, as a value.
pub open spec fn parse_error_view() -> ResponseErrorView {
    ResponseErrorView { code: -32700, message: "ParseError"@, data: Json::Null }
}

/// What a request of the server does, by its method.
pub open spec fn request_effect(
    method: Seq<char>,
    id: Json,
    params: Json,
    c0: ClientModel,
    c1: ClientModel,
    e0: &Editor,
    e1: &Editor,
    k0: &ClientCollection,
    k1: &ClientCollection,
    w0: Seq<PlatformRequestView>,
    w1: Seq<PlatformRequestView>,
) -> bool {
    if method == "client/registerCapability"@ {
        let registrations = elements(member(params, "registrations"@));
        &&& *e1 == *e0
        &&& *k1 == *k0
        &&& match registered_patterns(registrations, registrations.len() as int, None) {
            Some(Some(patterns)) => if all_compile(patterns, patterns.len() as int) {
                exists|selectors: Seq<Glob>|
                    globs_of(selectors, patterns) && (c1, w1) == responded(
                        ClientModel { document_selectors: selectors, ..c0 },
                        w0,
                        id,
                        Ok(Json::Null),
                    )
            } else {
                (c1, w1) == responded(c0, w0, id, Err(parse_error_view()))
            },
            Some(None) => (c1, w1) == responded(c0, w0, id, Ok(Json::Null)),
            None => (c1, w1) == responded(c0, w0, id, Err(parse_error_view())),
        }
    } else if method == "window/showMessage"@ {
        &&& *k1 == *k0
        &&& match shown_message(params) {
            Some((kind, message)) => status_shown(e0, e1, kind, message) && (c1, w1) == responded(
                c0,
                w0,
                id,
                Ok(Json::Null),
            ),
            None => *e1 == *e0 && (c1, w1) == responded(c0, w0, id, Err(parse_error_view())),
        }
    } else if method == "window/showDocument"@ {
        match show_document_params(c0.root, params) {
            Some((path, external, take_focus, selection)) => {
                let shows = !external && k0.client(k0.focused_client) is Some && !tables_full(
                    e0,
                    path,
                );
                &&& (c1, w1) == responded(c0, w0, id, Ok(success_json(shows)))
                &&& if shows {
                    document_shown(e0, e1, k0, k1, path, selection, take_focus)
                } else {
                    *e1 == *e0 && *k1 == *k0
                }
            },
            None => *e1 == *e0 && *k1 == *k0 && (c1, w1) == responded(
                c0,
                w0,
                id,
                Err(parse_error_view()),
            ),
        }
    } else {
        &&& *e1 == *e0
        &&& *k1 == *k0
        &&& (c1, w1) == responded(
            c0,
            w0,
            id,
            Err(
                ResponseErrorView { code: -32601, message: "MethodNotFound"@, data: Json::Null },
            ),
        )
    }
}

impl Client {
    /// Handles a request of the server: the request is logged and answered.
    /// A registration of capabilities replaces the document selectors by
    /// those that the registrations for saves name; a message is shown on
    /// the status bar; a document is shown to the focused client. A request that is malformed, or names a pattern that
    /// is no glob, is answered with a parse error and changes nothing; a
    /// request for an unknown method is answered with that.
    pub fn on_request(
        &mut self,
        editor: &mut Editor,
        platform: &mut Platform,
        clients: &mut ClientCollection,
        request: ServerRequest,
    )
        requires
            old(editor).well_formed(),
        ensures
            final(self)@.read_buf == old(self)@.read_buf,
            final(editor).well_formed(),
            final(editor).lsp == old(editor).lsp,
            request_effect(
                request.method@,
                request.id@,
                request.params@,
                logged(
                    old(self)@,
                    request_received_log(request.id@, request.method@, request.params@),
                ),
                final(self)@,
                old(editor),
                final(editor),
                old(clients),
                final(clients),
                old(platform)@,
                final(platform)@,
            ),
    {
        if self.log_buffer_handle.is_some() {
            let mut entry = String::from_str("receive request\nid: ");
            request.id.write(&mut entry);
            entry.append("\nmethod: '");
            entry.append(request.method.as_str());
            entry.append("'\nparams:\n");
            request.params.write(&mut entry);
            self.write_to_log_buffer(entry.as_str());
        }
        let method = request.method.as_str();
        let null = JsonValue::Null;
        if same_text(method, "client/registerCapability") {
            let empty: Vec<JsonValue> = Vec::new();
            let registrations = match request.params.get("registrations") {
                Some(registrations) => match registrations.items() {
                    Some(items) => items,
                    None => {
                        assert(json_views(empty@) =~= elements(registrations@));
                        &empty
                    },
                },
                None => {
                    assert(json_views(empty@) =~= elements(Json::Null));
                    &empty
                },
            };
            match read_registered_patterns(registrations) {
                Some(Some(patterns)) => match compile_patterns(&patterns) {
                    Some(globs) => {
                        self.document_selectors = globs;
                        self.respond(platform, request.id, Ok(JsonValue::Null));
                    },
                    None => {
                        self.respond(platform, request.id, Err(ResponseError::parse_error()));
                    },
                },
                Some(None) => {
                    self.respond(platform, request.id, Ok(JsonValue::Null));
                },
                None => {
                    self.respond(platform, request.id, Err(ResponseError::parse_error()));
                },
            }
        } else if same_text(method, "window/showMessage") {
            match read_shown_message(&request.params) {
                Some((kind, message)) => {
                    editor.status_message.write_str(kind, message.as_str());
                    self.respond(platform, request.id, Ok(JsonValue::Null));
                },
                None => {
                    self.respond(platform, request.id, Err(ResponseError::parse_error()));
                },
            }
        } else if same_text(method, "window/showDocument") {
            match read_show_document(self.root.as_str(), &request.params) {
                Some((path, external, take_focus, selection)) => {
                    let success = if external {
                        false
                    } else {
                        show_document(editor, clients, path.as_str(), selection, take_focus)
                    };
                    let mut result = ObjectBuilder::new();
                    result.set("success", JsonValue::Boolean(success));
                    let result = result.build();
                    assert(result@->Object_0 =~= seq!["success"@]);
                    assert(result@->Object_1 =~= seq![Json::Boolean(success)]);
                    self.respond(platform, request.id, Ok(result));
                },
                None => {
                    self.respond(platform, request.id, Err(ResponseError::parse_error()));
                },
            }
        } else {
            self.respond(platform, request.id, Err(ResponseError::method_not_found()));
        }
    }
}

/// The diagnostics that the first `count` values hold, in the editor's
/// terms; `None` where one of them holds none.
pub open spec fn published_diagnostics(items: Seq<Json>, count: int) -> Option<Seq<DiagnosticView>>
    decreases count,
{
    if count <= 0 || count > items.len() {
        Some(Seq::empty())
    } else {
        match (published_diagnostics(items, count - 1), diagnostic_of(items[count - 1])) {
            (Some(before), Some(d)) => Some(
                before.push(
                    DiagnosticView {
                        message: d.message,
                        range: range_from_document(d.range),
                        data: d.data,
                    },
                ),
            ),
            _ => None,
        }
    }
}

/// What a notification of diagnostics holds: the path of the document and
/// its diagnostics.
pub open spec fn publication(root: Seq<char>, params: Json) -> Option<
    (Seq<char>, Seq<DiagnosticView>),
> {
    let items = elements(member(params, "diagnostics"@));
    match (params, member_text(params, "uri"@)) {
        (Json::Object(_, _), Some(uri)) => match (
            uri_path(root, uri),
            published_diagnostics(items, items.len() as int),
        ) {
            (Some(path), Some(diagnostics)) => Some((path, diagnostics)),
            _ => None,
        },
        _ => None,
    }
}

/// The entries once `diagnostics` were published for the path `path`: the
/// first entry for the path holds them, in the order of where they start,
/// and is bound to the buffer of that file where it was bound to none; where
/// no entry was for the path, a new one is. Entries without diagnostics are
/// gone.
pub open spec fn entries_after_publication(
    entries: Seq<BufferDiagnosticsView>,
    editor: &Editor,
    root: Seq<char>,
    path: Seq<char>,
    diagnostics: Seq<DiagnosticView>,
) -> Seq<BufferDiagnosticsView> {
    let i = entry_of_path(entries, path, 0);
    let found = buffer_of_file(editor.buffers.buffers@, editor.current_directory@, root, path, 0);
    let entry = BufferDiagnosticsView {
        path,
        buffer_handle: if i < entries.len() && entries[i].buffer_handle is Some {
            entries[i].buffer_handle
        } else {
            found
        },
        diagnostics: sorted_diagnostics(diagnostics, diagnostics.len() as int),
    };
    let all = if i < entries.len() {
        entries.update(i, entry)
    } else {
        entries.push(entry)
    };
    filled_entries(all, all.len() as int)
}

proof fn lemma_entry_within(entries: Seq<BufferDiagnosticsView>, path: Seq<char>, from: int)
    requires
        0 <= from <= entries.len(),
    ensures
        from <= entry_of_path(entries, path, from) <= entries.len(),
    decreases entries.len() - from,
{
    if from < entries.len() && entries[from].path != path {
        lemma_entry_within(entries, path, from + 1);
    }
}

proof fn lemma_published_fail(items: Seq<Json>, bad: int, count: int)
    requires
        0 < bad <= count <= items.len(),
        published_diagnostics(items, bad) is None,
    ensures
        published_diagnostics(items, count) is None,
    decreases count - bad,
{
    if bad < count {
        lemma_published_fail(items, bad, count - 1);
    }
}

fn read_published_diagnostics(items: &Vec<JsonValue>) -> (r: Option<Vec<Diagnostic>>)
    ensures
        match published_diagnostics(json_views(items@), items@.len() as int) {
            Some(diagnostics) => r is Some && diagnostic_views(r.unwrap()@) == diagnostics,
            None => r is None,
        },
{
    let mut diagnostics: Vec<Diagnostic> = Vec::new();
    let mut i: usize = 0;
    assert(diagnostic_views(diagnostics@) =~= Seq::<DiagnosticView>::empty());
    while i < items.len()
        invariant
            0 <= i <= items.len(),
            published_diagnostics(json_views(items@), i as int) == Some(
                diagnostic_views(diagnostics@),
            ),
        decreases items.len() - i,
    {
        let ghost before = diagnostic_views(diagnostics@);
        match DocumentDiagnostic::from_json(&items[i]) {
            Ok(d) => {
                let diagnostic = Diagnostic {
                    message: d.message,
                    range: d.range.into_buffer_range(),
                    data: d.data,
                };
                diagnostics.push(diagnostic);
                assert(diagnostic_views(diagnostics@) =~= before.push(diagnostic@));
            },
            Err(_) => {
                proof {
                    lemma_published_fail(json_views(items@), i + 1, items@.len() as int);
                }
                return None;
            },
        }
        i = i + 1;
    }
    Some(diagnostics)
}

fn read_publication(root: &str, params: &JsonValue) -> (r: Option<(String, Vec<Diagnostic>)>)
    ensures
        match publication(root@, params@) {
            Some((path, diagnostics)) => r is Some && r.unwrap().0@ == path && diagnostic_views(
                r.unwrap().1@,
            ) == diagnostics,
            None => r is None,
        },
{
    match params {
        JsonValue::Object(_, _) => {},
        _ => {
            return None;
        },
    }
    let uri = match get_text(params, "uri") {
        Some(uri) => uri,
        None => {
            return None;
        },
    };
    let path = match parse_uri(root, uri) {
        Some(path) => path,
        None => {
            return None;
        },
    };
    let null = JsonValue::Null;
    let list = match params.get("diagnostics") {
        Some(list) => list,
        None => &null,
    };
    let empty: Vec<JsonValue> = Vec::new();
    let items = match list.items() {
        Some(items) => items,
        None => {
            assert(json_views(empty@) =~= elements(list@));
            &empty
        },
    };
    match read_published_diagnostics(items) {
        Some(diagnostics) => Some((path, diagnostics)),
        None => None,
    }
}

/// What a notification of the server does, by its method.
pub open spec fn notification_effect(
    method: Seq<char>,
    params: Json,
    c0: ClientModel,
    c1: ClientModel,
    e0: &Editor,
    e1: &Editor,
) -> bool {
    if method == "window/showMessage"@ {
        &&& c1 == c0
        &&& match notified_message(params) {
            Some((kind, message)) => status_shown(e0, e1, kind, message),
            None => *e1 == *e0,
        }
    } else if method == "textDocument/publishDiagnostics"@ {
        &&& *e1 == *e0
        &&& match publication(c0.root, params) {
            Some((path, diagnostics)) => c1 == (ClientModel {
                diagnostics: entries_after_publication(
                    c0.diagnostics,
                    e0,
                    c0.root,
                    path,
                    diagnostics,
                ),
                ..c0
            }),
            None => c1 == c0,
        }
    } else {
        *e1 == *e0 && c1 == c0
    }
}

impl Client {
    /// Handles a notification of the server: the notification is logged; a
    /// message is shown on the status bar; diagnostics replace those that
    /// the client held for their document. A notification that is malformed
    /// or of another method changes nothing else.
    pub fn on_notification(&mut self, editor: &mut Editor, notification: ServerNotification)
        requires
            old(editor).well_formed(),
        ensures
            final(self)@.read_buf == old(self)@.read_buf,
            final(editor).well_formed(),
            final(editor).lsp == old(editor).lsp,
            notification_effect(
                notification.method@,
                notification.params@,
                logged(
                    old(self)@,
                    notification_received_log(notification.method@, notification.params@),
                ),
                final(self)@,
                old(editor),
                final(editor),
            ),
    {
        if self.log_buffer_handle.is_some() {
            let mut entry = String::from_str("receive notification\nmethod: '");
            entry.append(notification.method.as_str());
            entry.append("'\nparams:\n");
            notification.params.write(&mut entry);
            self.write_to_log_buffer(entry.as_str());
        }
        let method = notification.method.as_str();
        if same_text(method, "window/showMessage") {
            match read_notified_message(&notification.params) {
                Some((kind, message)) => {
                    editor.status_message.write_str(kind, message.as_str());
                },
                None => {},
            }
        } else if same_text(method, "textDocument/publishDiagnostics") {
            match read_publication(self.root.as_str(), &notification.params) {
                Some((path, diagnostics)) => {
                    let ghost before = self.diagnostics@;
                    let index = self.diagnostics.diagnostics_at_path(
                        editor,
                        self.root.as_str(),
                        path.as_str(),
                    );
                    let ghost opened = self.diagnostics@;
                    assert(opened.len() == self.diagnostics.buffer_diagnostics@.len());
                    assert(index < opened.len()) by {
                        lemma_entry_within(before, path@, 0);
                    }
                    assert(opened[index as int] == self.diagnostics.buffer_diagnostics@[index as int]@);
                    let mut entry = BufferDiagnosticCollection {
                        path: String::from_str(path.as_str()),
                        buffer_handle: self.diagnostics.buffer_diagnostics[index].buffer_handle,
                        diagnostics,
                    };
                    entry.sort();
                    self.diagnostics.buffer_diagnostics.set(index, entry);
                    assert(self.diagnostics@ =~= opened.update(index as int, entry@));
                    proof {
                        let i = entry_of_path(before, path@, 0);
                        if i < before.len() {
                            assert(opened.update(index as int, entry@) =~= before.update(
                                i,
                                entry@,
                            ));
                        } else {
                            assert(opened.update(index as int, entry@) =~= before.push(entry@));
                        }
                    }
                    self.diagnostics.clear_empty();
                },
                None => {},
            }
        }
    }
}

} // verus!
