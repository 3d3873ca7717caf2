use pepper::buffer_position::{BufferPosition, BufferRange};
use pepper::client_collection::ClientCollection;
use pepper::connection::TargetClient;
use pepper::editor::{Editor, StatusMessageKind};
use pepper::events::{BufferHandle, EditorEvent};
use pepper::json::JsonValue;
use pepper::json_parser::parse;
use pepper::lsp::capabilities::{ServerCapabilities, TextDocumentSyncKind};
use pepper::lsp::client::{
    is_editor_path_equals_to_lsp_path, Client, ClientHandle, ClientManager, RequestState,
};
use pepper::lsp::protocol::{
    Protocol, RequestId, ServerEvent, ServerNotification, ServerRequest, ServerResponse,
    WorkspaceEdit,
};
use pepper::mode::ModeKind;
use pepper::platform::{Key, Platform, PlatformRequest, ProcessHandle, ProcessTag};
use pepper::serialization::ClientEvent;

fn setup() -> (Editor, Platform, ClientCollection, Client) {
    let editor = Editor::new(String::from("/p"));
    let clients = ClientCollection::new();
    let platform = Platform::new();
    let mut client = Client::new(ClientHandle(0), String::from("/p"), None);
    client.protocol.set_process_handle(ProcessHandle(3));
    client.initialized = true;
    (editor, platform, clients, client)
}

fn open(editor: &mut Editor, clients: &mut ClientCollection, path: &str, text: &str) -> BufferHandle {
    editor.open_buffer(clients, TargetClient::Local, path);
    let handle = editor.focus(clients, TargetClient::Local).unwrap().buffer;
    editor.insert_text(handle, BufferPosition::line_col(0, 0), text, 0);
    editor.commit_edits(handle);
    handle
}

/// The bodies of the messages that were sent to the server, parsed.
fn sent(platform: &mut Platform) -> Vec<JsonValue> {
    let mut bodies = Vec::new();
    for request in platform.flush_requests() {
        match request {
            PlatformRequest::WriteToProcess { handle, buf } => {
                assert_eq!(ProcessHandle(3), handle);
                let text = String::from_utf8(buf).unwrap();
                let (header, body) = text.split_once("\r\n\r\n").unwrap();
                assert_eq!(format!("Content-Length: {}", body.len()), header);
                bodies.push(parse(body).unwrap());
            }
            _ => panic!("something else than a message was asked of the platform"),
        }
    }
    bodies
}

fn method_of(message: &JsonValue) -> &str {
    message.get("method").and_then(|m| m.as_str()).unwrap()
}

fn respond(
    client: &mut Client,
    editor: &mut Editor,
    platform: &mut Platform,
    clients: &mut ClientCollection,
    id: usize,
    result: &str,
) {
    client.on_response(
        editor,
        platform,
        clients,
        ServerResponse { id: RequestId(id), result: Ok(parse(result).unwrap()) },
    );
}

fn frame(body: &str) -> Vec<u8> {
    format!("Content-Length: {}\r\n\r\n{}", body.len(), body).into_bytes()
}

#[test]
fn requests_are_numbered_and_framed() {
    let mut protocol = Protocol::new();
    let mut platform = Platform::new();
    protocol.request(&mut platform, "first", JsonValue::Null);
    assert_eq!(0, platform.flush_requests().len());
    protocol.set_process_handle(ProcessHandle(3));
    let a = protocol.request(&mut platform, "second", JsonValue::Null);
    let b = protocol.request(&mut platform, "third", JsonValue::Boolean(true));
    assert_eq!(a.0 + 1, b.0);
    let requests = platform.flush_requests();
    assert_eq!(2, requests.len());
    match &requests[1] {
        PlatformRequest::WriteToProcess { buf, .. } => {
            let body = format!("{{\"jsonrpc\":\"2.0\",\"id\":{},\"method\":\"third\",\"params\":true}}", b.0);
            assert_eq!(frame(&body), *buf);
        }
        _ => panic!("no message"),
    }
}

#[test]
fn messages_are_taken_off_the_bytes_one_by_one() {
    let mut protocol = Protocol::new();
    assert!(protocol.next_event().is_none());
    let mut bytes = frame("{\"jsonrpc\":\"2.0\",\"method\":\"a/b\",\"params\":[1]}");
    bytes.extend(frame("{\"jsonrpc\":\"2.0\",\"id\":7,\"result\":null}"));
    bytes.extend(frame("{\"jsonrpc\":\"2.0\",\"id\":\"x\",\"method\":\"ask\",\"params\":{}}"));
    bytes.extend(frame("{\"jsonrpc\":\"2.0\",\"id\":8,\"error\":{\"code\":-5,\"message\":\"no\"}}"));
    bytes.extend(frame("not json"));
    bytes.extend(b"Content-Type: x\r\n\r\n");
    let tail = frame("{\"jsonrpc\":\"2.0\",\"id\":9,\"result\":1}");
    let (head, rest) = tail.split_at(tail.len() - 3);
    bytes.extend(head);
    protocol.receive(&bytes[..10]);
    assert!(protocol.next_event().is_none());
    protocol.receive(&bytes[10..]);

    match protocol.next_event() {
        Some(ServerEvent::Notification(n)) => {
            assert_eq!("a/b", n.method);
            assert_eq!("[1]", n.params.to_text());
        }
        _ => panic!("no notification"),
    }
    match protocol.next_event() {
        Some(ServerEvent::Response(r)) => {
            assert_eq!(RequestId(7), r.id);
            assert!(matches!(r.result, Ok(JsonValue::Null)));
        }
        _ => panic!("no response"),
    }
    match protocol.next_event() {
        Some(ServerEvent::Request(r)) => {
            assert_eq!("ask", r.method);
            assert_eq!("\"x\"", r.id.to_text());
        }
        _ => panic!("no request"),
    }
    match protocol.next_event() {
        Some(ServerEvent::Response(r)) => {
            assert_eq!(RequestId(8), r.id);
            match r.result {
                Err(error) => {
                    assert_eq!(-5, error.code);
                    assert_eq!("no", error.message);
                }
                Ok(_) => panic!("no error"),
            }
        }
        _ => panic!("no response"),
    }
    assert!(matches!(protocol.next_event(), Some(ServerEvent::ParseError)));
    assert!(matches!(protocol.next_event(), Some(ServerEvent::ParseError)));
    assert!(protocol.next_event().is_none());
    protocol.receive(rest);
    match protocol.next_event() {
        Some(ServerEvent::Response(r)) => assert_eq!(RequestId(9), r.id),
        _ => panic!("no response"),
    }
    assert!(protocol.next_event().is_none());
}

#[test]
fn paths_of_the_editor_and_of_the_server_are_compared_by_file() {
    assert!(is_editor_path_equals_to_lsp_path("/p", "src/a.rs", "/p", "src/a.rs"));
    assert!(is_editor_path_equals_to_lsp_path("/p", "src/a.rs", "/", "p/src/a.rs"));
    assert!(is_editor_path_equals_to_lsp_path("/p", "/p/src/a.rs", "/p/src", "a.rs"));
    assert!(is_editor_path_equals_to_lsp_path("/p", "./src//a.rs", "/p", "src/a.rs"));
    assert!(!is_editor_path_equals_to_lsp_path("/p", "src/a.rs", "/q", "src/a.rs"));
    assert!(!is_editor_path_equals_to_lsp_path("/p", "src/a.rs", "/p", "src/b.rs"));
}

#[test]
fn definition_navigation() {
    let (mut editor, mut platform, mut clients, mut client) = setup();
    client.server_capabilities.definition_provider = true;
    let main = open(&mut editor, &mut clients, "main.rs", "fn main() {}\n");
    client.definition(
        &editor,
        &mut platform,
        main,
        BufferPosition::line_col(0, 3),
        TargetClient::Local,
    );
    let messages = sent(&mut platform);
    assert_eq!(1, messages.len());
    assert_eq!(
        "{\"jsonrpc\":\"2.0\",\"id\":1,\"method\":\"textDocument/definition\",\"params\":{\"textDocument\":{\"uri\":\"file:///p/main.rs\"},\"position\":{\"line\":0,\"character\":3}}}",
        messages[0].to_text()
    );
    assert!(client.request_state == RequestState::Definition { client: TargetClient::Local });

    respond(
        &mut client,
        &mut editor,
        &mut platform,
        &mut clients,
        1,
        "{\"uri\":\"file:///p/x.rs\",\"range\":{\"start\":{\"line\":3,\"character\":2},\"end\":{\"line\":3,\"character\":5}}}",
    );
    assert!(client.request_state == RequestState::Idle);
    let view = clients.get(clients.focused_client).unwrap().buffer_view_handle.unwrap();
    let view = editor.buffer_views.get(view).unwrap();
    assert_eq!("x.rs", editor.buffers.get(view.buffer_handle).unwrap().path());
    let cursors = view.cursors.as_slice();
    assert_eq!(1, cursors.len());
    assert_eq!(BufferPosition::line_col(3, 2), cursors[0].anchor);
    assert_eq!(BufferPosition::line_col(3, 2), cursors[0].position);
}

#[test]
fn a_definition_is_not_asked_for_where_the_server_has_none() {
    let (mut editor, mut platform, mut clients, mut client) = setup();
    let main = open(&mut editor, &mut clients, "main.rs", "");
    client.definition(&editor, &mut platform, main, BufferPosition::zero(), TargetClient::Local);
    assert_eq!(0, sent(&mut platform).len());
    client.server_capabilities.definition_provider = true;
    client.definition(&editor, &mut platform, BufferHandle(9), BufferPosition::zero(), TargetClient::Local);
    assert_eq!(0, sent(&mut platform).len());
    client.initialized = false;
    client.definition(&editor, &mut platform, main, BufferPosition::zero(), TargetClient::Local);
    assert_eq!(0, sent(&mut platform).len());
}

#[test]
fn references_with_context() {
    let (mut editor, mut platform, mut clients, mut client) = setup();
    client.server_capabilities.references_provider = true;
    let main = open(&mut editor, &mut clients, "main.rs", "call(value);\n");
    client.references(
        &editor,
        &mut platform,
        main,
        BufferPosition::line_col(0, 5),
        1,
        true,
        TargetClient::Local,
    );
    assert_eq!("textDocument/references", method_of(&sent(&mut platform)[0]));
    respond(
        &mut client,
        &mut editor,
        &mut platform,
        &mut clients,
        1,
        "[{\"uri\":\"file:///p/src/a.rs\",\"range\":{\"start\":{\"line\":0,\"character\":4},\"end\":{\"line\":0,\"character\":9}}},{\"uri\":\"file:///p/b.rs\",\"range\":{\"start\":{\"line\":2,\"character\":6},\"end\":{\"line\":2,\"character\":11}}}]",
    );
    assert!(matches!(client.request_state, RequestState::FinishReferences { .. }));
    assert_eq!("main.rs", editor.buffers.get(editor.focus(&clients, TargetClient::Local).unwrap().buffer).unwrap().path());
    let paths = client.reference_paths();
    assert_eq!(vec!["src/a.rs", "b.rs"], paths);
    let texts = vec![
        Some(String::from("let value = 1;\nuse(value);\n")),
        Some(String::from("\n\nprint(value)\nend\n")),
    ];
    client.finish_references(&mut editor, &mut clients, &paths, &texts);
    let focus = editor.focus(&clients, TargetClient::Local).unwrap();
    let listing = editor.buffers.get(focus.buffer).unwrap();
    assert_eq!("a.rs.refs", listing.path());
    assert_eq!(
        "src/a.rs:1,5\nlet value = 1;\n\nb.rs:3,7\nprint(value)\n\n",
        listing.content.to_text()
    );
    assert!(listing.capabilities.is_log && listing.capabilities.auto_close);
    assert!(!listing.capabilities.can_save);
    assert_eq!(BufferPosition::zero(), focus.cursor.position);
    assert!(client.request_state == RequestState::Idle);
    assert!(client.reference_paths().is_empty());
}

#[test]
fn references_take_their_context_from_buffers_first() {
    let (mut editor, mut platform, mut clients, mut client) = setup();
    client.server_capabilities.references_provider = true;
    let a = open(&mut editor, &mut clients, "a.rs", "in the buffer\nsecond\nthird\n");
    client.references(&editor, &mut platform, a, BufferPosition::zero(), 2, false, TargetClient::Local);
    respond(
        &mut client,
        &mut editor,
        &mut platform,
        &mut clients,
        1,
        "[{\"uri\":\"file:///p/a.rs\",\"range\":{\"start\":{\"line\":1,\"character\":0},\"end\":{\"line\":1,\"character\":1}}},{\"uri\":\"file:///p/gone.rs\",\"range\":{\"start\":{\"line\":0,\"character\":0},\"end\":{\"line\":0,\"character\":1}}}]",
    );
    let paths = client.reference_paths();
    let texts = vec![Some(String::from("on disk\n")), None];
    client.finish_references(&mut editor, &mut clients, &paths, &texts);
    let focus = editor.focus(&clients, TargetClient::Local).unwrap();
    let listing = editor.buffers.get(focus.buffer).unwrap();
    assert_eq!("a.rs.refs", listing.path());
    assert_eq!(
        "a.rs:2,1\nin the buffer\nsecond\nthird\n\ngone.rs:1,1\n\n",
        listing.content.to_text()
    );
    assert!(!listing.capabilities.auto_close);
}

#[test]
fn references_without_context_are_listed_by_place_alone() {
    let (mut editor, mut platform, mut clients, mut client) = setup();
    client.server_capabilities.references_provider = true;
    let a = open(&mut editor, &mut clients, "a.rs", "x");
    client.references(&editor, &mut platform, a, BufferPosition::zero(), 0, false, TargetClient::Local);
    respond(
        &mut client,
        &mut editor,
        &mut platform,
        &mut clients,
        1,
        "[{\"uri\":\"file:///p/deep/down/z.rs\",\"range\":{\"start\":{\"line\":9,\"character\":0},\"end\":{\"line\":9,\"character\":1}}}]",
    );
    client.finish_references(&mut editor, &mut clients, &Vec::new(), &Vec::new());
    let focus = editor.focus(&clients, TargetClient::Local).unwrap();
    let listing = editor.buffers.get(focus.buffer).unwrap();
    assert_eq!("z.rs.refs", listing.path());
    assert_eq!("deep/down/z.rs:10,1\n", listing.content.to_text());

    client.references(&editor, &mut platform, a, BufferPosition::zero(), 0, false, TargetClient::Local);
    respond(&mut client, &mut editor, &mut platform, &mut clients, 2, "[{\"uri\":\"http://x\"}]");
    client.finish_references(&mut editor, &mut clients, &Vec::new(), &Vec::new());
    let focus = editor.focus(&clients, TargetClient::Local).unwrap();
    assert_eq!("lsp.refs", editor.buffers.get(focus.buffer).unwrap().path());

    client.references(&editor, &mut platform, a, BufferPosition::zero(), 0, false, TargetClient::Local);
    respond(&mut client, &mut editor, &mut platform, &mut clients, 3, "null");
    assert!(client.request_state == RequestState::Idle);
}

#[test]
fn a_buffer_that_is_closed_has_its_changes_told_first() {
    let (mut editor, mut platform, mut clients, mut client) = setup();
    sync_capabilities(&mut client);
    let a = open(&mut editor, &mut clients, "a.rs", "");
    see_events(&mut client, &mut editor, &mut platform);
    sent(&mut platform);
    editor.insert_text(a, BufferPosition::zero(), "late", 0);
    editor.editor_events.enqueue(EditorEvent::BufferClose { handle: a });
    see_events(&mut client, &mut editor, &mut platform);
    let messages = sent(&mut platform);
    assert_eq!(2, messages.len());
    assert_eq!("textDocument/didChange", method_of(&messages[0]));
    assert_eq!(
        "[{\"range\":{\"start\":{\"line\":0,\"character\":0},\"end\":{\"line\":0,\"character\":0}},\"text\":\"late\"}]",
        messages[0].get("params").unwrap().get("contentChanges").unwrap().to_text()
    );
    assert_eq!("textDocument/didClose", method_of(&messages[1]));
    assert_eq!(
        "{\"textDocument\":{\"uri\":\"file:///p/a.rs\"}}",
        messages[1].get("params").unwrap().to_text()
    );
    assert_eq!(1, client.versioned_buffers.buffers[0].version);
    assert!(client.versioned_buffers.buffers[0].pending_edits.is_empty());
}

#[test]
fn a_buffer_that_was_never_seen_starts_at_version_zero() {
    let (_, _, _, mut client) = setup();
    client.versioned_buffers.add_edit(
        BufferHandle(2),
        BufferRange::between(BufferPosition::zero(), BufferPosition::zero()),
        "x",
    );
    let versions: Vec<usize> = client.versioned_buffers.buffers.iter().map(|b| b.version).collect();
    assert_eq!(vec![0, 0, 0], versions);
    assert_eq!(1, client.versioned_buffers.buffers[2].pending_edits.len());
    client.versioned_buffers.dispose(BufferHandle(2));
    client.versioned_buffers.dispose(BufferHandle(9));
    assert_eq!(1, client.versioned_buffers.buffers[2].version);
    assert!(client.versioned_buffers.buffers[2].pending_edits.is_empty());
    assert_eq!(3, client.versioned_buffers.buffers.len());
}

fn sync_capabilities(client: &mut Client) {
    client.server_capabilities.text_document_sync.open_close = true;
    client.server_capabilities.text_document_sync.change = TextDocumentSyncKind::Incremental;
    client.server_capabilities.text_document_sync.save = TextDocumentSyncKind::Full;
}

fn see_events(client: &mut Client, editor: &mut Editor, platform: &mut Platform) {
    editor.editor_events.flip();
    client.on_editor_events(editor, platform);
}

#[test]
fn pending_changes_are_flushed_on_save() {
    let (mut editor, mut platform, mut clients, mut client) = setup();
    sync_capabilities(&mut client);
    let a = open(&mut editor, &mut clients, "a.rs", "");
    see_events(&mut client, &mut editor, &mut platform);
    let messages = sent(&mut platform);
    assert_eq!(1, messages.len());
    assert_eq!("textDocument/didOpen", method_of(&messages[0]));

    editor.insert_text(a, BufferPosition::line_col(0, 0), "ab", 0);
    editor.insert_text(a, BufferPosition::line_col(0, 2), "\ncd", 0);
    editor.editor_events.enqueue(EditorEvent::BufferSave { handle: a, new_path: false });
    see_events(&mut client, &mut editor, &mut platform);
    let messages = sent(&mut platform);
    assert_eq!(2, messages.len());
    assert_eq!("textDocument/didChange", method_of(&messages[0]));
    let changes = messages[0].get("params").unwrap().get("contentChanges").unwrap();
    assert_eq!(
        "[{\"range\":{\"start\":{\"line\":0,\"character\":0},\"end\":{\"line\":0,\"character\":0}},\"text\":\"ab\"},{\"range\":{\"start\":{\"line\":0,\"character\":2},\"end\":{\"line\":0,\"character\":2}},\"text\":\"\\ncd\"}]",
        changes.to_text()
    );
    assert_eq!("textDocument/didSave", method_of(&messages[1]));
    assert_eq!(
        "{\"textDocument\":{\"uri\":\"file:///p/a.rs\"},\"text\":\"ab\\ncd\"}",
        messages[1].get("params").unwrap().to_text()
    );

    editor.editor_events.enqueue(EditorEvent::BufferSave { handle: a, new_path: false });
    see_events(&mut client, &mut editor, &mut platform);
    let messages = sent(&mut platform);
    assert_eq!(1, messages.len());
    assert_eq!("textDocument/didSave", method_of(&messages[0]));
}

fn version_of(message: &JsonValue) -> i64 {
    match message.get("params").unwrap().get("textDocument").unwrap().get("version") {
        Some(JsonValue::Integer(version)) => *version,
        _ => panic!("no version"),
    }
}

#[test]
fn versions_of_changes_grow() {
    let (mut editor, mut platform, mut clients, mut client) = setup();
    sync_capabilities(&mut client);
    let a = open(&mut editor, &mut clients, "a.rs", "");
    let b = open(&mut editor, &mut clients, "b.rs", "");
    see_events(&mut client, &mut editor, &mut platform);
    sent(&mut platform);

    let mut last_a = -1;
    let mut last_b = -1;
    for round in 0..5 {
        editor.insert_text(a, BufferPosition::zero(), "x", 0);
        if round % 2 == 0 {
            editor.delete_range(
                b,
                BufferRange::between(BufferPosition::zero(), BufferPosition::line_col(0, 1)),
                0,
            );
            editor.insert_text(b, BufferPosition::zero(), "yy", 0);
        }
        editor.editor_events.enqueue(EditorEvent::Idle);
        see_events(&mut client, &mut editor, &mut platform);
        for message in sent(&mut platform) {
            assert_eq!("textDocument/didChange", method_of(&message));
            let uri = message
                .get("params")
                .unwrap()
                .get("textDocument")
                .unwrap()
                .get("uri")
                .unwrap()
                .as_str()
                .unwrap()
                .to_string();
            let version = version_of(&message);
            if uri.ends_with("a.rs") {
                assert!(version > last_a);
                last_a = version;
            } else {
                assert!(version > last_b);
                last_b = version;
            }
        }
    }
    assert!(last_a > last_b && last_b > 0);
    assert_eq!(4, last_a);

    editor.editor_events.enqueue(EditorEvent::Idle);
    see_events(&mut client, &mut editor, &mut platform);
    assert_eq!(0, sent(&mut platform).len());
}

#[test]
fn whole_texts_are_sent_where_the_server_takes_no_changes() {
    let (mut editor, mut platform, mut clients, mut client) = setup();
    sync_capabilities(&mut client);
    client.server_capabilities.text_document_sync.change = TextDocumentSyncKind::Full;
    let a = open(&mut editor, &mut clients, "a.rs", "one\n");
    see_events(&mut client, &mut editor, &mut platform);
    sent(&mut platform);
    editor.insert_text(a, BufferPosition::line_col(1, 0), "two", 0);
    editor.editor_events.enqueue(EditorEvent::Idle);
    see_events(&mut client, &mut editor, &mut platform);
    let messages = sent(&mut platform);
    assert_eq!(1, messages.len());
    assert_eq!(
        "[{\"text\":\"one\\ntwo\"}]",
        messages[0].get("params").unwrap().get("contentChanges").unwrap().to_text()
    );

    client.server_capabilities.text_document_sync.change = TextDocumentSyncKind::Off;
    editor.insert_text(a, BufferPosition::zero(), "zero", 0);
    editor.editor_events.enqueue(EditorEvent::Idle);
    editor.editor_events.enqueue(EditorEvent::BufferClose { handle: a });
    see_events(&mut client, &mut editor, &mut platform);
    let messages = sent(&mut platform);
    assert_eq!(1, messages.len());
    assert_eq!("textDocument/didClose", method_of(&messages[0]));
}

fn replacement(uri: &str, from: (usize, usize), to: (usize, usize), text: &str) -> WorkspaceEdit {
    let source = format!(
        "{{\"changes\":{{\"{}\":[{{\"range\":{{\"start\":{{\"line\":{},\"character\":{}}},\"end\":{{\"line\":{},\"character\":{}}}}},\"newText\":\"{}\"}}]}}}}",
        uri, from.0, from.1, to.0, to.1, text
    );
    WorkspaceEdit::from_json(&parse(&source).unwrap()).unwrap()
}

#[test]
fn a_pure_replacement_applies_once_as_twice() {
    let (mut editor, _, mut clients, _) = setup();
    let a = open(&mut editor, &mut clients, "a.rs", "let old = 1;\nold\n");
    let edit = replacement("file:///p/a.rs", (0, 4), (0, 7), "new");
    edit.apply(&mut editor, "/p");
    let once = editor.buffers.get(a).unwrap().content.to_text();
    assert_eq!("let new = 1;\nold\n", once);
    edit.apply(&mut editor, "/p");
    assert_eq!(once, editor.buffers.get(a).unwrap().content.to_text());

    let whole = replacement("file:///p/a.rs", (0, 0), (0, 12), "let new = 1;");
    whole.apply(&mut editor, "/p");
    whole.apply(&mut editor, "/p");
    assert_eq!(once, editor.buffers.get(a).unwrap().content.to_text());
}

#[test]
fn replacements_that_overlap_apply_once_as_twice() {
    let (mut editor, _, mut clients, _) = setup();
    let a = open(&mut editor, &mut clients, "a.rs", "abcd\nefgh\n");
    let source = "{\"documentChanges\":[{\"textDocument\":{\"uri\":\"file:///p/a.rs\"},\"edits\":[\
        {\"range\":{\"start\":{\"line\":0,\"character\":0},\"end\":{\"line\":0,\"character\":2}},\"newText\":\"xy\"},\
        {\"range\":{\"start\":{\"line\":0,\"character\":1},\"end\":{\"line\":0,\"character\":3}},\"newText\":\"pq\"},\
        {\"range\":{\"start\":{\"line\":1,\"character\":3},\"end\":{\"line\":1,\"character\":4}},\"newText\":\"H\"}]}]}";
    let edit = WorkspaceEdit::from_json(&parse(source).unwrap()).unwrap();
    edit.apply(&mut editor, "/p");
    let once = editor.buffers.get(a).unwrap().content.to_text();
    assert_eq!("xyqd\nefgH\n", once);
    edit.apply(&mut editor, "/p");
    assert_eq!(once, editor.buffers.get(a).unwrap().content.to_text());
}

#[test]
fn edits_of_a_document_are_applied_bottom_up() {
    let (mut editor, _, mut clients, _) = setup();
    let a = open(&mut editor, &mut clients, "a.rs", "abc\ndef\n");
    let source = "{\"documentChanges\":[{\"textDocument\":{\"uri\":\"file:///p/a.rs\"},\"edits\":[\
        {\"range\":{\"start\":{\"line\":0,\"character\":0},\"end\":{\"line\":0,\"character\":1}},\"newText\":\"AAA\"},\
        {\"range\":{\"start\":{\"line\":1,\"character\":1},\"end\":{\"line\":1,\"character\":2}},\"newText\":\"\"},\
        {\"range\":{\"start\":{\"line\":0,\"character\":2},\"end\":{\"line\":0,\"character\":3}},\"newText\":\"C\\nX\"}]},\
        {\"textDocument\":{\"uri\":\"file:///p/missing.rs\"},\"edits\":[\
        {\"range\":{\"start\":{\"line\":0,\"character\":0},\"end\":{\"line\":0,\"character\":0}},\"newText\":\"q\"}]}]}";
    let edit = WorkspaceEdit::from_json(&parse(source).unwrap()).unwrap();
    edit.apply(&mut editor, "/p");
    assert_eq!("AAAbC\nX\ndf\n", editor.buffers.get(a).unwrap().content.to_text());
    assert_eq!(1, editor.buffers.buffers.iter().filter(|b| b.is_some()).count());
    assert!(WorkspaceEdit::from_json(&parse("{\"changes\":{\"u\":[{\"newText\":1}]}}").unwrap()).is_err());
}

#[test]
fn the_answer_to_initialize_starts_the_session() {
    let (mut editor, mut platform, mut clients, _) = setup();
    let mut client = Client::new(ClientHandle(2), String::from("/p"), None);
    client.protocol.set_process_handle(ProcessHandle(3));
    open(&mut editor, &mut clients, "a.rs", "text");
    client.initialize(&mut platform, 77);
    assert!(!client.initialized);
    let messages = sent(&mut platform);
    assert_eq!(1, messages.len());
    assert_eq!("initialize", method_of(&messages[0]));
    let params = messages[0].get("params").unwrap();
    assert!(matches!(params.get("processId"), Some(JsonValue::Integer(77))));
    assert_eq!(Some("file:///p"), params.get("rootUri").and_then(|v| v.as_str()));

    respond(
        &mut client,
        &mut editor,
        &mut platform,
        &mut clients,
        1,
        "{\"capabilities\":{\"textDocumentSync\":{\"openClose\":true,\"change\":2,\"save\":{\"includeText\":true}},\"hoverProvider\":true,\"renameProvider\":{\"prepareProvider\":true},\"completionProvider\":{\"triggerCharacters\":[\".\",\":\"]},\"definitionProvider\":false}}",
    );
    assert!(client.initialized);
    assert!(client.server_capabilities.hover_provider);
    assert!(!client.server_capabilities.definition_provider);
    assert!(client.server_capabilities.rename_provider.on);
    assert!(client.server_capabilities.rename_provider.prepare_provider);
    assert_eq!(".:", client.completion_triggers());
    assert_eq!(TextDocumentSyncKind::Incremental, client.server_capabilities.text_document_sync.change);
    let messages = sent(&mut platform);
    assert_eq!(2, messages.len());
    assert_eq!("initialized", method_of(&messages[0]));
    assert_eq!("textDocument/didOpen", method_of(&messages[1]));
    assert_eq!(
        "{\"textDocument\":{\"uri\":\"file:///p/a.rs\",\"languageId\":\"rust\",\"version\":0,\"text\":\"text\"}}",
        messages[1].get("params").unwrap().to_text()
    );
}

#[test]
fn a_response_that_is_not_waited_for_is_dropped() {
    let (mut editor, mut platform, mut clients, mut client) = setup();
    client.server_capabilities.hover_provider = true;
    let a = open(&mut editor, &mut clients, "a.rs", "x");
    client.hover(&editor, &mut platform, a, BufferPosition::zero());
    sent(&mut platform);
    respond(&mut client, &mut editor, &mut platform, &mut clients, 5, "{\"contents\":\"nothing\"}");
    assert_eq!("", editor.status_message.message().1);
    respond(&mut client, &mut editor, &mut platform, &mut clients, 1, "{\"contents\":{\"kind\":\"markdown\",\"value\":\"a doc\"}}");
    assert_eq!((StatusMessageKind::Info, "a doc"), editor.status_message.message());
    respond(&mut client, &mut editor, &mut platform, &mut clients, 1, "{\"contents\":\"again\"}");
    assert_eq!("a doc", editor.status_message.message().1);
}

#[test]
fn a_failure_of_the_server_is_shown() {
    let (mut editor, mut platform, mut clients, mut client) = setup();
    client.server_capabilities.hover_provider = true;
    let a = open(&mut editor, &mut clients, "a.rs", "x");
    client.hover(&editor, &mut platform, a, BufferPosition::zero());
    let error = match parse("{\"jsonrpc\":\"2.0\",\"id\":1,\"error\":{\"code\":-32000,\"message\":\"server down\"}}") {
        Ok(message) => match ServerEvent::from_json(&message) {
            ServerEvent::Response(response) => response,
            _ => panic!("no response"),
        },
        Err(_) => panic!("no json"),
    };
    client.on_response(&mut editor, &mut platform, &mut clients, error);
    assert_eq!(StatusMessageKind::Error, editor.status_message.message().0);
    assert!(editor.status_message.message().1.contains("server down"));
}

fn request(method: &str, params: &str) -> ServerRequest {
    ServerRequest { id: JsonValue::Integer(4), method: String::from(method), params: parse(params).unwrap() }
}

#[test]
fn requests_of_the_server_are_answered() {
    let (mut editor, mut platform, mut clients, mut client) = setup();
    client.on_request(&mut editor, &mut platform, &mut clients, request("window/showMessage", "{\"type\":1,\"message\":\"bad\"}"));
    assert_eq!((StatusMessageKind::Error, "bad"), editor.status_message.message());
    assert_eq!("{\"jsonrpc\":\"2.0\",\"id\":4,\"result\":null}", sent(&mut platform)[0].to_text());

    client.on_request(&mut editor, &mut platform, &mut clients, request("window/showMessage", "{\"type\":3,\"message\":\"fine\"}"));
    assert_eq!((StatusMessageKind::Info, "fine"), editor.status_message.message());
    sent(&mut platform);

    client.on_request(&mut editor, &mut platform, &mut clients, request("window/showMessage", "{\"type\":9,\"message\":\"x\"}"));
    assert_eq!(
        "{\"jsonrpc\":\"2.0\",\"id\":4,\"error\":{\"code\":-32700,\"message\":\"ParseError\",\"data\":null}}",
        sent(&mut platform)[0].to_text()
    );
    assert_eq!("fine", editor.status_message.message().1);

    client.on_request(&mut editor, &mut platform, &mut clients, request("no/such", "null"));
    assert_eq!(
        "{\"jsonrpc\":\"2.0\",\"id\":4,\"error\":{\"code\":-32601,\"message\":\"MethodNotFound\",\"data\":null}}",
        sent(&mut platform)[0].to_text()
    );

    client.on_request(
        &mut editor,
        &mut platform,
        &mut clients,
        request(
            "client/registerCapability",
            "{\"registrations\":[{\"id\":\"1\",\"method\":\"textDocument/didSave\",\"registerOptions\":{\"documentSelector\":[{\"pattern\":\"**/*.rs\"},{\"language\":\"c\"},{\"pattern\":\"*.toml\"}]}},{\"id\":\"2\",\"method\":\"other\"}]}",
        ),
    );
    assert_eq!("{\"jsonrpc\":\"2.0\",\"id\":4,\"result\":null}", sent(&mut platform)[0].to_text());
    assert_eq!(2, client.document_selectors.len());
    assert!(client.document_selectors[0].matches(b"a/b.rs"));
    assert!(client.document_selectors[1].matches(b"Cargo.toml"));
    assert!(client.handles_path(b"Cargo.toml"));
    assert!(!client.handles_path(b"a.c"));

    client.on_request(
        &mut editor,
        &mut platform,
        &mut clients,
        request(
            "client/registerCapability",
            "{\"registrations\":[{\"method\":\"textDocument/didSave\",\"registerOptions\":{\"documentSelector\":[{\"pattern\":\"a{b\"}]}}]}",
        ),
    );
    assert!(sent(&mut platform)[0].get("error").is_some());
    assert_eq!(2, client.document_selectors.len());
}

#[test]
fn a_document_is_shown_on_request() {
    let (mut editor, mut platform, mut clients, mut client) = setup();
    client.on_request(
        &mut editor,
        &mut platform,
        &mut clients,
        request(
            "window/showDocument",
            "{\"uri\":\"file:///p/shown.rs\",\"takeFocus\":true,\"selection\":{\"start\":{\"line\":1,\"character\":2},\"end\":{\"line\":1,\"character\":4}}}",
        ),
    );
    assert_eq!("{\"success\":true}", sent(&mut platform)[0].get("result").unwrap().to_text());
    let focus = editor.focus(&clients, TargetClient::Local).unwrap();
    assert_eq!("shown.rs", editor.buffers.get(focus.buffer).unwrap().path());
    assert_eq!(BufferPosition::line_col(1, 2), focus.cursor.anchor);
    assert_eq!(BufferPosition::line_col(1, 4), focus.cursor.position);

    client.on_request(&mut editor, &mut platform, &mut clients, request("window/showDocument", "{\"uri\":\"file:///p/quiet.rs\"}"));
    assert_eq!("{\"success\":true}", sent(&mut platform)[0].get("result").unwrap().to_text());
    let focus = editor.focus(&clients, TargetClient::Local).unwrap();
    assert_eq!("shown.rs", editor.buffers.get(focus.buffer).unwrap().path());
    assert!(editor.buffers.find_with_path("quiet.rs").is_some());

    client.on_request(&mut editor, &mut platform, &mut clients, request("window/showDocument", "{\"uri\":\"file:///p/out.rs\",\"external\":true}"));
    assert_eq!("{\"success\":false}", sent(&mut platform)[0].get("result").unwrap().to_text());
    assert!(editor.buffers.find_with_path("out.rs").is_none());

    client.on_request(&mut editor, &mut platform, &mut clients, request("window/showDocument", "{\"uri\":\"http://x\"}"));
    assert!(sent(&mut platform)[0].get("error").is_some());
}

fn publish(client: &mut Client, editor: &mut Editor, uri: &str, diagnostics: &str) {
    let params = format!("{{\"uri\":\"{}\",\"diagnostics\":{}}}", uri, diagnostics);
    client.on_notification(
        editor,
        ServerNotification {
            method: String::from("textDocument/publishDiagnostics"),
            params: parse(&params).unwrap(),
        },
    );
}

fn diagnostic(line: usize, column: usize, message: &str) -> String {
    format!(
        "{{\"message\":\"{}\",\"range\":{{\"start\":{{\"line\":{},\"character\":{}}},\"end\":{{\"line\":{},\"character\":{}}}}}}}",
        message,
        line,
        column,
        line,
        column + 3
    )
}

#[test]
fn diagnostics_are_kept_by_document_and_in_order() {
    let (mut editor, mut platform, mut clients, mut client) = setup();
    let a = open(&mut editor, &mut clients, "a.rs", "0123456789\n0123456789\n");
    publish(
        &mut client,
        &mut editor,
        "file:///p/a.rs",
        &format!("[{},{},{}]", diagnostic(1, 2, "late"), diagnostic(0, 5, "early"), diagnostic(1, 2, "twin")),
    );
    publish(&mut client, &mut editor, "file:///p/unopened.rs", &format!("[{}]", diagnostic(0, 0, "far")));
    let found: Vec<&str> = client.diagnostics().buffer_diagnostics(a).iter().map(|d| d.message.as_str()).collect();
    assert_eq!(vec!["early", "late", "twin"], found);
    let entries = client.diagnostics().iter();
    assert_eq!(2, entries.len());
    assert_eq!(("a.rs", Some(a)), (entries[0].0, entries[0].1));
    assert_eq!(("unopened.rs", None), (entries[1].0, entries[1].1));

    client.server_capabilities.code_action_provider = true;
    client.code_action(
        &editor,
        &mut platform,
        TargetClient::Local,
        a,
        BufferRange::between(BufferPosition::line_col(1, 3), BufferPosition::line_col(1, 4)),
    );
    let messages = sent(&mut platform);
    assert_eq!("textDocument/codeAction", method_of(&messages[0]));
    let context = messages[0].get("params").unwrap().get("context").unwrap().get("diagnostics").unwrap();
    let told: Vec<&str> = context
        .items()
        .unwrap()
        .iter()
        .map(|d| d.get("message").unwrap().as_str().unwrap())
        .collect();
    assert_eq!(vec!["late", "twin"], told);

    publish(&mut client, &mut editor, "file:///p/a.rs", "[]");
    assert_eq!(0, client.diagnostics().buffer_diagnostics(a).len());
    assert_eq!(1, client.diagnostics().iter().len());

    let before = client.diagnostics().iter().len();
    publish(&mut client, &mut editor, "file:///p/b.rs", "[{\"message\":1}]");
    assert_eq!(before, client.diagnostics().iter().len());

    client.on_notification(
        &mut editor,
        ServerNotification {
            method: String::from("window/showMessage"),
            params: parse("{\"type\":2,\"value\":\"careful\"}").unwrap(),
        },
    );
    assert_eq!((StatusMessageKind::Info, "warning: careful"), editor.status_message.message());
}

#[test]
fn a_code_action_is_picked_and_applied() {
    let (mut editor, mut platform, mut clients, mut client) = setup();
    client.server_capabilities.code_action_provider = true;
    let a = open(&mut editor, &mut clients, "a.rs", "let x = 1;\n");
    client.code_action(&editor, &mut platform, TargetClient::Local, a, BufferRange::between(BufferPosition::zero(), BufferPosition::zero()));
    sent(&mut platform);
    let edit = |text: &str| {
        format!(
            "{{\"changes\":{{\"file:///p/a.rs\":[{{\"range\":{{\"start\":{{\"line\":0,\"character\":4}},\"end\":{{\"line\":0,\"character\":5}}}},\"newText\":\"{}\"}}]}}}}",
            text
        )
    };
    let actions = format!(
        "[{{\"title\":\"off\",\"edit\":{},\"disabled\":{{\"reason\":\"no\"}}}},{{\"title\":\"first\",\"edit\":{}}},{{\"title\":\"second\",\"edit\":{}}}]",
        edit("off"),
        edit("first"),
        edit("second")
    );
    respond(&mut client, &mut editor, &mut platform, &mut clients, 1, &actions);
    assert!(editor.mode.kind == ModeKind::Picker);
    assert!(client.request_state == RequestState::FinishCodeAction);
    assert_eq!(2, editor.picker.len());
    assert_eq!("first", editor.picker.current_entry().unwrap().1);

    client.finish_code_action(&mut editor, 1);
    assert!(client.request_state == RequestState::Idle);
    assert_eq!("let second = 1;\n", editor.buffers.get(a).unwrap().content.to_text());
    client.finish_code_action(&mut editor, 0);
    assert_eq!("let second = 1;\n", editor.buffers.get(a).unwrap().content.to_text());
}

#[test]
fn a_rename_reads_the_new_name_and_applies_the_answer() {
    let (mut editor, mut platform, mut clients, mut client) = setup();
    client.server_capabilities.rename_provider.on = true;
    let a = open(&mut editor, &mut clients, "a.rs", "let old = old;\n");
    client.rename(&mut editor, &mut platform, TargetClient::Local, a, BufferPosition::line_col(0, 5));
    assert_eq!(0, sent(&mut platform).len());
    assert!(editor.mode.kind == ModeKind::ReadLine);
    assert_eq!("rename:", editor.read_line.prompt());
    editor.read_line.set_input("new");
    client.finish_rename(&editor, &mut platform);
    let messages = sent(&mut platform);
    assert_eq!("textDocument/rename", method_of(&messages[0]));
    assert_eq!(
        "{\"textDocument\":{\"uri\":\"file:///p/a.rs\"},\"position\":{\"line\":0,\"character\":5},\"newName\":\"new\"}",
        messages[0].get("params").unwrap().to_text()
    );
    respond(
        &mut client,
        &mut editor,
        &mut platform,
        &mut clients,
        1,
        "{\"changes\":{\"file:///p/a.rs\":[{\"range\":{\"start\":{\"line\":0,\"character\":4},\"end\":{\"line\":0,\"character\":7}},\"newText\":\"new\"},{\"range\":{\"start\":{\"line\":0,\"character\":10},\"end\":{\"line\":0,\"character\":13}},\"newText\":\"new\"}]}}",
    );
    assert_eq!("let new = new;\n", editor.buffers.get(a).unwrap().content.to_text());
}

#[test]
fn servers_are_started_by_recipe_and_fed_their_output() {
    let mut editor = Editor::new(String::from("/p"));
    let mut clients = ClientCollection::new();
    let mut platform = Platform::new();
    assert!(editor.lsp.add_recipe(b"**/*.rs", "rust-analyzer", "RUST_LOG=x", None, Some("ra-log")).is_ok());
    assert!(editor.lsp.add_recipe(b"a{b", "broken", "", None, None).is_err());
    assert!(editor.lsp.add_recipe(b"*.c", "clangd", "", Some("/c"), None).is_ok());
    assert!(editor.lsp.add_recipe(b"*.rs", "rust-analyzer", "", None, None).is_ok());
    assert_eq!(2, editor.lsp.recipes.len());
    assert_eq!("", editor.lsp.recipes[0].log_buffer_name);
    assert!(editor.lsp.add_recipe(b"**/*.rs", "rust-analyzer", "", None, Some("ra-log")).is_ok());

    editor.on_event(&mut platform, &mut clients, TargetClient::Local, ClientEvent::OpenBuffer(TargetClient::Local, String::from("src/main.rs")));
    let requests = platform.flush_requests();
    assert_eq!(1, requests.len());
    match &requests[0] {
        PlatformRequest::SpawnProcess { tag, command, .. } => {
            assert!(*tag == ProcessTag::Lsp(ClientHandle(0)));
            assert_eq!("rust-analyzer", command);
        }
        _ => panic!("no process was asked for"),
    }
    assert!(editor.lsp.recipes[0].running_client == Some(ClientHandle(0)));
    let client = editor.lsp.get(ClientHandle(0)).unwrap();
    assert_eq!("/p", client.root);
    let log = client.log_buffer_handle.unwrap();
    assert_eq!("ra-log", editor.buffers.get(log).unwrap().path());
    assert!(editor.lsp.get(ClientHandle(1)).is_none());
    assert_eq!(1, editor.lsp.clients().len());

    editor.on_event(&mut platform, &mut clients, TargetClient::Local, ClientEvent::OpenBuffer(TargetClient::Local, String::from("src/lib.rs")));
    assert_eq!(0, platform.flush_requests().len());

    ClientManager::on_process_spawned(&mut editor, &mut platform, ClientHandle(0), ProcessHandle(3), 41);
    let messages = sent(&mut platform);
    assert_eq!("initialize", method_of(&messages[0]));

    let answer = frame("{\"jsonrpc\":\"2.0\",\"id\":1,\"result\":{\"capabilities\":{\"textDocumentSync\":1}}}");
    let note = frame("{\"jsonrpc\":\"2.0\",\"method\":\"window/showMessage\",\"params\":{\"type\":1,\"value\":\"hello\"}}");
    let mut bytes = answer.clone();
    bytes.extend(&note[..20]);
    ClientManager::on_process_output(&mut editor, &mut platform, &mut clients, ClientHandle(0), &bytes);
    assert!(editor.lsp.get(ClientHandle(0)).unwrap().initialized);
    assert_eq!("", editor.status_message.message().1);
    let methods: Vec<String> = sent(&mut platform).iter().map(|m| method_of(m).to_string()).collect();
    assert_eq!(vec!["initialized", "textDocument/didOpen", "textDocument/didOpen"], methods);
    assert!(editor.buffers.get(log).unwrap().content.to_text().contains("receive response"));

    ClientManager::on_process_output(&mut editor, &mut platform, &mut clients, ClientHandle(0), &note[20..]);
    assert_eq!("hello", editor.status_message.message().1);

    editor.lsp.stop(&mut platform, ClientHandle(0));
    assert_eq!("exit", method_of(&sent(&mut platform)[0]));
    assert!(editor.lsp.get(ClientHandle(0)).is_none());
    assert!(editor.lsp.recipes[0].running_client.is_none());
    editor.lsp.stop_all(&mut platform);
    assert_eq!(0, platform.flush_requests().len());

    let started = editor.lsp.start(&mut platform, String::from("x"), String::new(), String::from("/r"), None);
    assert!(started == Some(ClientHandle(0)));
    ClientManager::on_process_exit(&mut editor, ClientHandle(0));
    assert!(editor.lsp.get(ClientHandle(0)).is_none());
}

#[test]
fn renaming_through_read_line_mode() {
    let mut editor = Editor::new(String::from("/p"));
    let mut clients = ClientCollection::new();
    let mut platform = Platform::new();
    let a = open(&mut editor, &mut clients, "a.rs", "name\n");
    editor.lsp.start(&mut platform, String::from("x"), String::new(), String::from("/p"), None);
    platform.flush_requests();
    let mut client = ClientManager::access(&mut editor, ClientHandle(0)).unwrap();
    assert!(ClientManager::access(&mut editor, ClientHandle(0)).is_none());
    client.protocol.set_process_handle(ProcessHandle(3));
    client.initialized = true;
    client.server_capabilities = ServerCapabilities::new();
    client.server_capabilities.rename_provider.on = true;
    client.rename(&mut editor, &mut platform, TargetClient::Local, a, BufferPosition::zero());
    assert!(ClientManager::release(&mut editor, ClientHandle(0), client));

    for key in [Key::Char('n'), Key::Char('2'), Key::Enter] {
        editor.on_event(&mut platform, &mut clients, TargetClient::Local, ClientEvent::Key(TargetClient::Local, key));
    }
    assert!(editor.mode.kind == ModeKind::Normal);
    let messages = sent(&mut platform);
    assert_eq!(1, messages.len());
    assert_eq!("textDocument/rename", method_of(&messages[0]));
    assert_eq!(Some("n2"), messages[0].get("params").unwrap().get("newName").and_then(|v| v.as_str()));
}
