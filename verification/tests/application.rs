use pepper::application::{ApplicationEvent, ApplicationEventSender, ServerApplication};
use pepper::args::{Args, ArgsError};
use pepper::buffer_position::{BufferPosition, BufferRange};
use pepper::client::{Client, EditorOperation};
use pepper::client_collection::ClientCollection;
use pepper::connection::{
    RemoteConnectionWithClient, RemoteConnectionWithClientCollection,
    RemoteConnectionWithClientHandle, TargetClient,
};
use pepper::cursor::Cursor;
use pepper::editor::Editor;
use pepper::mode::ModeKind;
use pepper::platform::{Key, Platform, PlatformRequest};
use pepper::client_application::{terminal_key, ClientApplication};
use pepper::serialization::{ClientEvent, ServerEvent};

fn args(list: &[&str]) -> Result<Args, ArgsError> {
    Args::parse(&list.iter().map(|s| s.to_string()).collect())
}

#[test]
fn arguments_are_read() {
    let parsed = args(&[
        "-s", "work1", "--print-session", "-c", "a.cfg", "--config!", "b.cfg", "one.rs",
        "--server", "--quit", "--as-focused-client", "two.rs:3", "--", "-dash", "--help",
    ])
    .ok()
    .unwrap();
    assert_eq!(Some(String::from("work1")), parsed.session);
    assert!(parsed.print_session && parsed.server && parsed.quit && parsed.as_focused_client);
    assert!(!parsed.version);
    assert_eq!(2, parsed.configs.len());
    assert_eq!(("a.cfg", false), (parsed.configs[0].path.as_str(), parsed.configs[0].suppress_file_not_found));
    assert_eq!(("b.cfg", true), (parsed.configs[1].path.as_str(), parsed.configs[1].suppress_file_not_found));
    assert_eq!(vec!["one.rs", "two.rs:3", "-dash", "--help"], parsed.files);

    let nothing = args(&[]).ok().unwrap();
    assert!(nothing.session.is_none() && nothing.files.is_empty() && nothing.configs.is_empty());
    assert!(!nothing.server);
}

#[test]
fn arguments_that_cannot_be_read_say_why() {
    assert!(matches!(args(&["a", "-h"]), Err(ArgsError::Help)));
    assert!(matches!(args(&["--version", "-x"]), Err(ArgsError::Version)));
    assert!(matches!(args(&["-s"]), Err(ArgsError::ExpectedSession)));
    assert!(matches!(args(&["--config"]), Err(ArgsError::ExpectedConfigPath)));
    match args(&["--session", "my-session"]) {
        Err(ArgsError::InvalidSession(name)) => assert_eq!("my-session", name),
        _ => panic!("the session was taken"),
    }
    match args(&["file", "-x"]) {
        Err(ArgsError::InvalidOption(option)) => assert_eq!("-x", option),
        _ => panic!("the option was taken"),
    }
}

#[test]
fn the_client_follows_the_editor() {
    let mut client = Client::new();
    assert!(client.has_focus);
    client.on_editor_operation(EditorOperation::Content(String::from("one two\nthree two\n")));
    client.on_editor_operation(EditorOperation::Path(Some(String::from("a.txt"))));
    client.on_editor_operation(EditorOperation::Mode(ModeKind::Insert));
    assert_eq!(Some(String::from("a.txt")), client.path);
    assert!(client.mode == ModeKind::Insert);
    client.on_editor_operation(EditorOperation::Insert(BufferPosition::line_col(0, 3), String::from("!!")));
    assert_eq!("one!! two\nthree two\n", client.buffer.to_text());
    client.on_editor_operation(EditorOperation::Delete(BufferRange::between(
        BufferPosition::line_col(0, 0),
        BufferPosition::line_col(0, 3),
    )));
    assert_eq!("!! two\nthree two\n", client.buffer.to_text());
    client.on_editor_operation(EditorOperation::Cursor(Cursor::zero()));
    client.on_editor_operation(EditorOperation::Cursor(Cursor::zero()));
    assert_eq!(2, client.cursors.len());
    client.on_editor_operation(EditorOperation::ClearCursors);
    assert_eq!(0, client.cursors.len());
    client.on_editor_operation(EditorOperation::Search(String::from("two")));
    assert_eq!(
        vec![
            BufferRange::between(BufferPosition::line_col(0, 3), BufferPosition::line_col(0, 6)),
            BufferRange::between(BufferPosition::line_col(1, 6), BufferPosition::line_col(1, 9)),
        ],
        client.search_ranges
    );
    client.on_editor_operation(EditorOperation::Search(String::from("!")));
    assert_eq!(2, client.search_ranges.len());
    client.on_editor_operation(EditorOperation::Content(String::from("aaaa")));
    client.on_editor_operation(EditorOperation::Search(String::from("aa")));
    assert_eq!(2, client.search_ranges.len());
    client.on_editor_operation(EditorOperation::Search(String::new()));
    assert_eq!(0, client.search_ranges.len());
    client.on_editor_operation(EditorOperation::Path(None));
    assert!(client.path.is_none());
}

#[test]
fn events_wait_until_the_receiving_end_is_closed() {
    let mut sender = ApplicationEventSender::new();
    assert!(sender.send(ApplicationEvent::Idle).is_ok());
    assert!(sender.send(ApplicationEvent::Redraw).is_ok());
    assert_eq!(2, sender.events.len());
    sender.closed = true;
    assert!(sender.send(ApplicationEvent::Idle).is_err());
    assert_eq!(2, sender.events.len());
}

#[test]
fn the_server_keeps_its_limits() {
    assert_eq!(512, ServerApplication::connection_buffer_len());
    assert_eq!(1, ServerApplication::idle_duration());
    let mut queue = ServerApplication::platform_request_channel();
    assert_eq!(0, queue.flush_requests().len());
}

#[test]
fn clients_join_send_events_and_leave() {
    let mut editor = Editor::new(String::from("/work"));
    let mut clients = ClientCollection::new();
    clients.local = None;
    let mut platform = Platform::new();
    let mut server = ServerApplication::new(9);
    let first = RemoteConnectionWithClientHandle::from_index(0);
    let second = RemoteConnectionWithClientHandle::from_index(1);

    assert!(server.on_application_event(&mut editor, &mut platform, &mut clients, ApplicationEvent::ConnectionOpen { handle: first }));
    assert!(server.on_application_event(&mut editor, &mut platform, &mut clients, ApplicationEvent::ConnectionOpen { handle: second }));
    let requests = platform.flush_requests();
    assert_eq!(2, requests.len());
    match (&requests[0], &requests[1]) {
        (
            PlatformRequest::WriteToClient { client: a, buf: hello },
            PlatformRequest::WriteToClient { client: b, buf: again },
        ) => {
            assert!(*a == TargetClient::Remote(first) && *b == TargetClient::Remote(second));
            assert_eq!(vec![1, 0], *hello);
            assert_eq!(vec![0, 1], *again);
        }
        _ => panic!("the clients were not welcomed"),
    }

    let mut bytes = Vec::new();
    ClientEvent::OpenBuffer(TargetClient::Remote(first), String::from("a.txt")).serialize(&mut bytes);
    for key in [Key::Char('i'), Key::Char('h'), Key::Char('i')] {
        ClientEvent::Key(TargetClient::Remote(first), key).serialize(&mut bytes);
    }
    let (head, tail) = bytes.split_at(bytes.len() - 2);
    assert!(server.on_application_event(&mut editor, &mut platform, &mut clients, ApplicationEvent::ConnectionOutput { handle: first, buf: head.to_vec() }));
    let focus = editor.focus(&clients, TargetClient::Remote(first)).unwrap();
    assert_eq!("h", editor.buffers.get(focus.buffer).unwrap().content.to_text());
    assert!(server.on_application_event(&mut editor, &mut platform, &mut clients, ApplicationEvent::ConnectionOutput { handle: first, buf: tail.to_vec() }));
    assert_eq!("hi", editor.buffers.get(focus.buffer).unwrap().content.to_text());
    assert!(clients.focused_client == TargetClient::Remote(first));

    assert!(server.on_application_event(&mut editor, &mut platform, &mut clients, ApplicationEvent::ConnectionOutput { handle: second, buf: vec![9, 9, 9] }));
    let requests = platform.flush_requests();
    assert!(matches!(requests.last(), Some(PlatformRequest::CloseClient { client }) if *client == TargetClient::Remote(second)));

    let mut quit = Vec::new();
    ClientEvent::Key(TargetClient::Remote(first), Key::Esc).serialize(&mut quit);
    ClientEvent::Command(TargetClient::Remote(first), String::from("quit!")).serialize(&mut quit);
    ClientEvent::Key(TargetClient::Remote(first), Key::Char('x')).serialize(&mut quit);
    assert!(server.on_application_event(&mut editor, &mut platform, &mut clients, ApplicationEvent::ConnectionOutput { handle: first, buf: quit }));
    let requests = platform.flush_requests();
    assert!(matches!(requests.last(), Some(PlatformRequest::CloseClient { client }) if *client == TargetClient::Remote(first)));
    assert_eq!("hi", editor.buffers.get(focus.buffer).unwrap().content.to_text());

    assert!(server.on_application_event(&mut editor, &mut platform, &mut clients, ApplicationEvent::ConnectionClose { handle: second }));
    assert!(!server.on_application_event(&mut editor, &mut platform, &mut clients, ApplicationEvent::ConnectionClose { handle: first }));

    let mut all = Vec::new();
    ClientEvent::Command(TargetClient::Remote(first), String::from("quit-all!")).serialize(&mut all);
    server.on_application_event(&mut editor, &mut platform, &mut clients, ApplicationEvent::ConnectionOpen { handle: first });
    assert!(!server.run_application(
        &mut editor,
        &mut platform,
        &mut clients,
        vec![
            ApplicationEvent::Idle,
            ApplicationEvent::ConnectionOutput { handle: first, buf: all },
            ApplicationEvent::ConnectionOpen { handle: second },
        ],
    ));
    assert!(clients.get(TargetClient::Remote(second)).is_none());
    assert!(server.run_application(&mut editor, &mut platform, &mut clients, Vec::new()));
}

#[test]
fn a_client_that_joins_sees_what_the_focused_client_sees() {
    let mut editor = Editor::new(String::from("/work"));
    let mut clients = ClientCollection::new();
    editor.open_buffer(&mut clients, TargetClient::Local, "shared.txt:5");
    let joined = RemoteConnectionWithClientHandle::from_index(3);
    editor.on_client_joined(&mut clients, joined);
    let local = editor.focus(&clients, TargetClient::Local).unwrap();
    let remote = editor.focus(&clients, TargetClient::Remote(joined)).unwrap();
    assert_eq!(local.buffer, remote.buffer);
    assert!(local.view != remote.view);
    assert_eq!(BufferPosition::line_col(4, 0), remote.cursor.position);
    assert!(clients.any_remote_client());
    editor.on_client_left(&mut clients, joined);
    assert!(clients.get(TargetClient::Remote(joined)).is_none());
    assert!(!clients.any_remote_client());
}

#[test]
fn a_client_that_joins_gets_all_cursors_of_the_view() {
    let mut editor = Editor::new(String::from("/work"));
    let mut clients = ClientCollection::new();
    editor.open_buffer(&mut clients, TargetClient::Local, "shared.txt");
    let local = editor.focus(&clients, TargetClient::Local).unwrap();
    let cursor = |line| Cursor {
        anchor: BufferPosition::line_col(line, 0),
        position: BufferPosition::line_col(line, 2),
    };
    let mut view = Some(pepper::buffer_view::BufferView::new(TargetClient::Local, local.buffer));
    view.as_mut().unwrap().cursors.set(&vec![cursor(0), cursor(3), cursor(5)]);
    editor.buffer_views.views[local.view.0 as usize] = view;
    let joined = RemoteConnectionWithClientHandle::from_index(0);
    editor.on_client_joined(&mut clients, joined);
    let remote = editor.focus(&clients, TargetClient::Remote(joined)).unwrap();
    let copied = editor.buffer_views.get(remote.view).unwrap();
    assert_eq!(&[cursor(0), cursor(3), cursor(5)], copied.cursors.as_slice());
    assert_eq!(local.buffer, copied.buffer_handle);
}

#[test]
fn the_slot_freed_last_is_taken_first() {
    let mut connections = RemoteConnectionWithClientCollection::new();
    let handles: Vec<_> = (0..4).map(|_| connections.add(RemoteConnectionWithClient {})).collect();
    connections.remove(handles[1]);
    connections.remove(handles[3]);
    connections.remove(handles[0]);
    assert_eq!(0, connections.add(RemoteConnectionWithClient {}).into_index());
    assert_eq!(3, connections.add(RemoteConnectionWithClient {}).into_index());
    assert_eq!(1, connections.add(RemoteConnectionWithClient {}).into_index());
    assert_eq!(4, connections.add(RemoteConnectionWithClient {}).into_index());
    connections.remove(handles[2]);
    assert_eq!(2, connections.add(RemoteConnectionWithClient {}).into_index());
}

#[test]
fn connections_take_the_first_free_slot() {
    let mut connections = RemoteConnectionWithClientCollection::new();
    let a = connections.add(RemoteConnectionWithClient {});
    let b = connections.add(RemoteConnectionWithClient {});
    assert_eq!((0, 1), (a.into_index(), b.into_index()));
    assert!(connections.get(a).is_some());
    connections.remove(a);
    assert!(connections.get(a).is_none());
    assert!(connections.get(b).is_some());
    let c = connections.add(RemoteConnectionWithClient {});
    assert_eq!(0, c.into_index());
    let d = connections.add(RemoteConnectionWithClient {});
    assert_eq!(2, d.into_index());
}

fn client_bytes(events: &[ClientEvent]) -> Vec<u8> {
    let mut out = Vec::new();
    for event in events {
        assert!(event.serialize(&mut out));
    }
    out
}

#[test]
fn a_client_says_first_what_its_arguments_ask_for() {
    let target = TargetClient::Remote(RemoteConnectionWithClientHandle::from_index(2));
    let client = ClientApplication::new(target, false);
    let asked = args(&["-c", "a.cfg", "-c!", "b c.cfg", "one.rs", "two.rs:4", "--quit"]).ok().unwrap();
    assert_eq!(
        client_bytes(&[
            ClientEvent::Key(target, Key::NoKey),
            ClientEvent::Command(target, String::from("source 'a.cfg'")),
            ClientEvent::Command(target, String::from("try-source 'b c.cfg'")),
            ClientEvent::OpenBuffer(target, String::from("one.rs")),
            ClientEvent::OpenBuffer(target, String::from("two.rs:4")),
            ClientEvent::Command(target, String::from("quit")),
        ]),
        client.init(&asked, true)
    );
    assert_eq!(
        client_bytes(&[
            ClientEvent::Key(target, Key::NoKey),
            ClientEvent::OpenBuffer(target, String::from("one.rs")),
            ClientEvent::OpenBuffer(target, String::from("two.rs:4")),
            ClientEvent::Command(target, String::from("quit")),
        ]),
        client.init(&asked, false)
    );
    let piped = ClientApplication::new(target, true);
    assert!(piped.init(&args(&[]).ok().unwrap(), true).is_empty());
    let focused = args(&["--as-focused-client"]).ok().unwrap();
    assert!(client.init(&focused, false).is_empty());
    assert_eq!(4096, ClientApplication::stdin_buffer_len());
    assert_eq!(48 * 1024, ClientApplication::connection_buffer_len());
}

#[test]
fn a_client_turns_what_comes_in_into_events_and_output() {
    let target = TargetClient::Remote(RemoteConnectionWithClientHandle::from_index(0));
    let mut client = ClientApplication::new(target, true);

    let output = client.update(Some((120, 40)), &[Key::Char('i'), Key::Esc], b"open a.txt\0quit", &[]);
    assert_eq!(
        client_bytes(&[
            ClientEvent::Resize(target, 120, 40),
            ClientEvent::Key(target, Key::Char('i')),
            ClientEvent::Key(target, Key::Esc),
            ClientEvent::Command(target, String::from("open a.txt")),
        ]),
        output.to_server
    );
    assert!(!output.suspend && !output.invalid && output.to_stdout.is_empty());
    assert_eq!(b"quit".to_vec(), client.stdin_read_buf);
    let output = client.update(None, &[], b"!\0\xff\xfe\0\0", &[]);
    assert_eq!(
        client_bytes(&[
            ClientEvent::Command(target, String::from("quit!")),
            ClientEvent::Command(target, String::new()),
        ]),
        output.to_server
    );
    assert!(client.stdin_read_buf.is_empty());

    let mut sent = Vec::new();
    ServerEvent::Display(b"frame".to_vec()).serialize(&mut sent);
    ServerEvent::Request(1).serialize(&mut sent);
    ServerEvent::CommandOutput(String::from("done")).serialize(&mut sent);
    ServerEvent::Suspend.serialize(&mut sent);
    ServerEvent::Display(b"later".to_vec()).serialize(&mut sent);
    let (head, tail) = sent.split_at(sent.len() - 3);
    let output = client.update(None, &[], &[], head);
    assert_eq!(b"framedone\0".to_vec(), output.to_stdout);
    assert!(output.suspend && !output.invalid && output.to_server.is_empty());
    assert_eq!(head.len() - (sent.len() - 10), client.server_read_buf.len());
    let output = client.update(None, &[], &[], tail);
    assert_eq!(b"later".to_vec(), output.to_stdout);
    assert!(!output.suspend);
    assert!(client.server_read_buf.is_empty());

    let output = client.update(None, &[], &[], &[1, 9, 1]);
    assert!(output.suspend && output.invalid);
    assert_eq!(vec![9, 1], client.server_read_buf);

    assert_eq!(Key::Esc, terminal_key(0x1b));
    assert_eq!(Key::Enter, terminal_key(b'\r'));
    assert_eq!(Key::Tab, terminal_key(b'\t'));
    assert_eq!(Key::Backspace, terminal_key(0x7f));
    assert_eq!(Key::Ctrl('c'), terminal_key(3));
    assert_eq!(Key::Ctrl('z'), terminal_key(26));
    assert_eq!(Key::Char('a'), terminal_key(b'a'));
    assert_eq!(Key::Char('\0'), terminal_key(0));
    assert_eq!(Key::Char('é'), terminal_key(0xe9));
}
