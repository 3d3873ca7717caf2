use pepper::connection::{RemoteConnectionWithClientHandle, TargetClient};
use pepper::platform::Key;
use pepper::serialization::{ClientEvent, DeserializeError, ServerEvent};

fn client_bytes(event: &ClientEvent) -> Vec<u8> {
    let mut out = Vec::new();
    assert!(event.serialize(&mut out));
    out
}

fn server_bytes(event: &ServerEvent) -> Vec<u8> {
    let mut out = Vec::new();
    assert!(event.serialize(&mut out));
    out
}

fn same_client_event(a: &ClientEvent, b: &ClientEvent) -> bool {
    match (a, b) {
        (ClientEvent::Key(t, k), ClientEvent::Key(u, l)) => t == u && k == l,
        (ClientEvent::Resize(t, w, h), ClientEvent::Resize(u, x, y)) => t == u && w == x && h == y,
        (ClientEvent::Command(t, c), ClientEvent::Command(u, d)) => t == u && c == d,
        (ClientEvent::OpenBuffer(t, p), ClientEvent::OpenBuffer(u, q)) => t == u && p == q,
        _ => false,
    }
}

fn client_events() -> Vec<ClientEvent> {
    let remote = TargetClient::Remote(RemoteConnectionWithClientHandle::from_index(0x0102_0304));
    vec![
        ClientEvent::Key(TargetClient::Local, Key::NoKey),
        ClientEvent::Key(TargetClient::All, Key::Esc),
        ClientEvent::Key(remote, Key::Char('é')),
        ClientEvent::Key(remote, Key::Ctrl('w')),
        ClientEvent::Key(TargetClient::Local, Key::Alt('\u{10ffff}')),
        ClientEvent::Key(TargetClient::Local, Key::F(12)),
        ClientEvent::Key(TargetClient::Local, Key::PageDown),
        ClientEvent::Resize(remote, 80, 4660),
        ClientEvent::Command(TargetClient::Local, String::from("open 'a b'")),
        ClientEvent::Command(TargetClient::Local, String::new()),
        ClientEvent::OpenBuffer(remote, String::from("src/ünïcode.rs:12")),
    ]
}

#[test]
fn client_events_are_written_as_their_records() {
    assert_eq!(
        vec![0, 1, 14, 0x61, 0, 0, 0],
        client_bytes(&ClientEvent::Key(TargetClient::Local, Key::Char('a')))
    );
    assert_eq!(vec![0, 0, 17], client_bytes(&ClientEvent::Key(TargetClient::All, Key::Esc)));
    assert_eq!(
        vec![0, 1, 13, 5],
        client_bytes(&ClientEvent::Key(TargetClient::Local, Key::F(5)))
    );
    let remote = TargetClient::Remote(RemoteConnectionWithClientHandle::from_index(258));
    assert_eq!(
        vec![1, 2, 2, 1, 0, 0, 0, 0, 0, 0, 80, 0, 0x34, 0x12],
        client_bytes(&ClientEvent::Resize(remote, 80, 0x1234))
    );
    assert_eq!(
        vec![2, 1, 2, 0, 0, 0, b'q', b'!'],
        client_bytes(&ClientEvent::Command(TargetClient::Local, String::from("q!")))
    );
    assert_eq!(
        vec![3, 1, 2, 0, 0, 0, 0xc3, 0xa9],
        client_bytes(&ClientEvent::OpenBuffer(TargetClient::Local, String::from("é")))
    );
}

#[test]
fn client_events_survive_the_wire() {
    for event in client_events() {
        let bytes = client_bytes(&event);
        match ClientEvent::deserialize(&bytes) {
            Ok((read, length)) => {
                assert_eq!(bytes.len(), length);
                assert!(same_client_event(&event, &read));
            }
            Err(_) => panic!("could not read an event back"),
        }
    }
}

#[test]
fn a_part_of_a_client_event_asks_for_more() {
    for event in client_events() {
        let bytes = client_bytes(&event);
        for length in 0..bytes.len() {
            match ClientEvent::deserialize(&bytes[..length]) {
                Err(error) => assert_eq!(DeserializeError::InsufficientData, error),
                Ok(_) => panic!("read an event from a part of its record"),
            }
        }
    }
}

#[test]
fn events_are_read_from_the_start_of_the_bytes() {
    let mut bytes = client_bytes(&ClientEvent::Key(TargetClient::Local, Key::Enter));
    let first = bytes.len();
    ClientEvent::Command(TargetClient::Local, String::from("x")).serialize(&mut bytes);
    match ClientEvent::deserialize(&bytes) {
        Ok((ClientEvent::Key(TargetClient::Local, Key::Enter), length)) => {
            assert_eq!(first, length)
        }
        _ => panic!("the first event was not read"),
    }
    match ClientEvent::deserialize(&bytes[first..]) {
        Ok((ClientEvent::Command(TargetClient::Local, text), length)) => {
            assert_eq!("x", text);
            assert_eq!(bytes.len() - first, length);
        }
        _ => panic!("the second event was not read"),
    }
}

#[test]
fn what_is_no_record_is_invalid() {
    assert_eq!(Err(DeserializeError::InvalidData), ClientEvent::deserialize(&[4, 1, 0]).map(|_| ()));
    assert_eq!(Err(DeserializeError::InvalidData), ClientEvent::deserialize(&[0, 3, 0]).map(|_| ()));
    assert_eq!(Err(DeserializeError::InvalidData), ClientEvent::deserialize(&[0, 1, 18]).map(|_| ()));
    // a surrogate is no character
    assert_eq!(
        Err(DeserializeError::InvalidData),
        ClientEvent::deserialize(&[0, 1, 14, 0x00, 0xd8, 0, 0]).map(|_| ())
    );
    // bytes that are no UTF-8
    assert_eq!(
        Err(DeserializeError::InvalidData),
        ClientEvent::deserialize(&[2, 1, 2, 0, 0, 0, 0xff, 0xfe]).map(|_| ())
    );
    assert_eq!(Err(DeserializeError::InvalidData), ServerEvent::deserialize(&[4]).map(|_| ()));
    assert_eq!(
        Err(DeserializeError::InvalidData),
        ServerEvent::deserialize(&[2, 1, 0, 0, 0, 0x80]).map(|_| ())
    );
    assert_eq!(Err(DeserializeError::InsufficientData), ServerEvent::deserialize(&[]).map(|_| ()));
}

#[test]
fn server_events_survive_the_wire() {
    assert_eq!(vec![1], server_bytes(&ServerEvent::Suspend));
    assert_eq!(vec![3, 9], server_bytes(&ServerEvent::Request(9)));
    assert_eq!(
        vec![0, 3, 0, 0, 0, 7, 8, 9],
        server_bytes(&ServerEvent::Display(vec![7, 8, 9]))
    );
    assert_eq!(
        vec![2, 2, 0, 0, 0, b'o', b'k'],
        server_bytes(&ServerEvent::CommandOutput(String::from("ok")))
    );

    let bytes = server_bytes(&ServerEvent::Display(vec![1, 2, 3, 4]));
    match ServerEvent::deserialize(&bytes) {
        Ok((ServerEvent::Display(display), length)) => {
            assert_eq!(vec![1, 2, 3, 4], display);
            assert_eq!(bytes.len(), length);
        }
        _ => panic!("could not read the display back"),
    }
    for length in 0..bytes.len() {
        assert_eq!(
            Err(DeserializeError::InsufficientData),
            ServerEvent::deserialize(&bytes[..length]).map(|_| ())
        );
    }
    let bytes = server_bytes(&ServerEvent::CommandOutput(String::from("día")));
    match ServerEvent::deserialize(&bytes) {
        Ok((ServerEvent::CommandOutput(text), _)) => assert_eq!("día", text),
        _ => panic!("could not read the output back"),
    }
    match ServerEvent::deserialize(&[1, 5]) {
        Ok((ServerEvent::Suspend, 1)) => {}
        _ => panic!("could not read the suspension"),
    }
    match ServerEvent::deserialize(&[3, 200]) {
        Ok((ServerEvent::Request(200), 2)) => {}
        _ => panic!("could not read the request"),
    }
}
