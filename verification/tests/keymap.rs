use pepper::editor::{BufferedKeys, KeysIterator, ReadLine, ReadLinePoll, StatusMessage, StatusMessageKind};
use pepper::keymap::{parse_keys, write_key_text, KeyMapCollection, MatchResult};
use pepper::mode::ModeKind;
use pepper::platform::Key;
use pepper::register::{key_queue_register, RegisterCollection, RegisterKey};

fn text_of(keys: &[Key]) -> String {
    let mut out = String::new();
    for key in keys {
        write_key_text(*key, &mut out);
    }
    out
}

#[test]
fn keys_are_written_and_read_back() {
    let keys = vec![
        Key::Char('a'),
        Key::Char('Z'),
        Key::Enter,
        Key::Esc,
        Key::Backspace,
        Key::Tab,
        Key::Delete,
        Key::Left,
        Key::Right,
        Key::Up,
        Key::Down,
        Key::Home,
        Key::End,
        Key::PageUp,
        Key::PageDown,
        Key::F(1),
        Key::F(12),
        Key::Ctrl('x'),
        Key::Alt('y'),
        Key::Char('é'),
    ];
    let text = text_of(&keys);
    assert_eq!(Some(keys), parse_keys(&text));
    assert_eq!("ia<esc>", text_of(&[Key::Char('i'), Key::Char('a'), Key::Esc]));
    assert_eq!(Some(vec![Key::Char('i'), Key::Char('a'), Key::Esc]), parse_keys("ia<esc>"));
    assert_eq!(Some(Vec::new()), parse_keys(""));
    assert_eq!(None, parse_keys("<esc"));
    assert_eq!(None, parse_keys("<unknown>"));
    assert_eq!(None, parse_keys("a<"));
}

#[test]
fn the_less_than_sign_can_be_written() {
    let text = text_of(&[Key::Char('<'), Key::Char('>')]);
    assert_eq!(Some(vec![Key::Char('<'), Key::Char('>')]), parse_keys(&text));
}

#[test]
fn key_maps_match_whole_and_by_prefix() {
    let mut maps = KeyMapCollection::new();
    maps.add(ModeKind::Normal, vec![Key::Char('g'), Key::Char('g')], vec![Key::Home]);
    maps.add(ModeKind::Normal, vec![Key::Char('g'), Key::Char('e')], vec![Key::End, Key::Esc]);
    maps.add(ModeKind::Insert, vec![Key::Char('j')], vec![Key::Esc]);

    assert!(matches!(maps.matches(ModeKind::Normal, &[Key::Char('g')]), MatchResult::Prefix));
    match maps.matches(ModeKind::Normal, &[Key::Char('g'), Key::Char('e')]) {
        MatchResult::ReplaceWith(keys) => assert_eq!(vec![Key::End, Key::Esc], keys),
        _ => panic!("the map was not found"),
    }
    assert!(matches!(maps.matches(ModeKind::Normal, &[Key::Char('j')]), MatchResult::NoMatch));
    assert!(matches!(
        maps.matches(ModeKind::Normal, &[Key::Char('g'), Key::Char('x')]),
        MatchResult::NoMatch
    ));
    assert!(matches!(maps.matches(ModeKind::Insert, &[Key::Char('g')]), MatchResult::NoMatch));
    match maps.matches(ModeKind::Insert, &[Key::Char('j')]) {
        MatchResult::ReplaceWith(keys) => assert_eq!(vec![Key::Esc], keys),
        _ => panic!("the map was not found"),
    }
    assert!(matches!(maps.matches(ModeKind::Normal, &[]), MatchResult::Prefix));
}

#[test]
fn registers_hold_text_by_letter() {
    assert!(RegisterKey::from_char('a').is_some());
    assert!(RegisterKey::from_char('z').is_some());
    assert!(RegisterKey::from_char('A').is_none());
    assert!(RegisterKey::from_char('1').is_none());
    assert_eq!(0, RegisterKey::from_char('a').unwrap().as_index());
    assert_eq!(25, RegisterKey::from_char('z').unwrap().as_index());
    assert_eq!(Some(key_queue_register()), RegisterKey::from_char('k'));

    let mut registers = RegisterCollection::new();
    let a = RegisterKey::from_char('a').unwrap();
    let b = RegisterKey::from_char('b').unwrap();
    assert_eq!("", registers.get(a));
    registers.set(a, "one");
    registers.append(a, " two");
    registers.append(b, "x");
    assert_eq!("one two", registers.get(a));
    assert_eq!("x", registers.get(b));
    registers.set(a, "");
    assert_eq!("", registers.get(a));
}

#[test]
fn buffered_keys_are_walked_through() {
    let keys = BufferedKeys(vec![Key::Char('a'), Key::Enter]);
    let mut iterator = KeysIterator::new();
    assert_eq!(0, iterator.index());
    assert_eq!(Key::Char('a'), iterator.next(&keys));
    assert_eq!(Key::Enter, iterator.next(&keys));
    assert_eq!(2, iterator.index());
    assert_eq!(Key::NoKey, iterator.next(&keys));
    assert_eq!(2, iterator.index());
    iterator.put_back();
    assert_eq!(Key::Enter, iterator.next(&keys));
    iterator.put_back();
    iterator.put_back();
    iterator.put_back();
    assert_eq!(0, iterator.index());
}

#[test]
fn a_line_is_read_key_by_key() {
    let mut line = ReadLine::new();
    line.set_prompt("name:");
    assert_eq!("name:", line.prompt());
    for c in "the quick  fox".chars() {
        assert!(line.apply_key(Key::Char(c), None) == ReadLinePoll::Pending);
    }
    assert_eq!("the quick  fox", line.input());
    line.apply_key(Key::Backspace, None);
    assert_eq!("the quick  fo", line.input());
    line.apply_key(Key::Ctrl('h'), None);
    assert_eq!("the quick  f", line.input());
    line.apply_key(Key::Ctrl('w'), None);
    assert_eq!("the quick", line.input());
    line.apply_key(Key::Ctrl('w'), None);
    assert_eq!("the", line.input());
    line.apply_key(Key::Ctrl('y'), Some(" pasted"));
    assert_eq!("the pasted", line.input());
    line.apply_key(Key::Ctrl('y'), None);
    assert_eq!("the pasted", line.input());
    line.apply_key(Key::Left, None);
    assert_eq!("the pasted", line.input());
    assert!(line.apply_key(Key::Enter, None) == ReadLinePoll::Submitted);
    assert!(line.apply_key(Key::Esc, None) == ReadLinePoll::Canceled);
    assert_eq!("the pasted", line.input());
    line.apply_key(Key::Ctrl('u'), None);
    assert_eq!("", line.input());
    line.apply_key(Key::Backspace, None);
    line.apply_key(Key::Ctrl('w'), None);
    assert_eq!("", line.input());
    line.set_input("again");
    line.apply_key(Key::Home, None);
    assert_eq!("", line.input());
    assert_eq!("name:", line.prompt());

    let keys = BufferedKeys(vec![Key::Char('x'), Key::Enter]);
    let mut iterator = KeysIterator::new();
    assert!(line.poll(&keys, &mut iterator) == ReadLinePoll::Pending);
    assert!(line.poll(&keys, &mut iterator) == ReadLinePoll::Submitted);
    assert!(line.poll(&keys, &mut iterator) == ReadLinePoll::Pending);
    assert_eq!("x", line.input());
}

#[test]
fn the_status_bar_keeps_the_last_message() {
    let mut status = StatusMessage::new();
    assert_eq!("", status.message().1);
    status.write_str(StatusMessageKind::Error, "broken");
    assert_eq!((StatusMessageKind::Error, "broken"), status.message());
    status.write_fmt(
        StatusMessageKind::Info,
        &vec![String::from("count: "), String::from("3")],
    );
    assert_eq!((StatusMessageKind::Info, "count: 3"), status.message());
    status.write_error(&vec![String::from("outer"), String::from("inner")]);
    assert_eq!(StatusMessageKind::Error, status.message().0);
    assert!(status.message().1.contains("outer") && status.message().1.contains("inner"));
    status.clear();
    assert_eq!("", status.message().1);
}
