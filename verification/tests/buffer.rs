use pepper::buffer::{Buffer, BufferCapabilities, BufferCollection};
use pepper::buffer_content::{split_text, BufferContent};
use pepper::buffer_position::{BufferPosition, BufferRange};
use pepper::buffer_view::{BufferView, BufferViewCollection};
use pepper::connection::TargetClient;
use pepper::cursor::{Cursor, CursorCollection};
use pepper::events::{BufferHandle, EditorEvent, EditorEventQueue};
use pepper::history::EditKind;
use pepper::lsp::protocol::{format_document_uri, parse_uri, path_to_language_id};
use pepper::text::{concat_strings, find_last, join_strings, push_decimal, starts_with, substring};

fn at(line: usize, column: usize) -> BufferPosition {
    BufferPosition::line_col(line, column)
}

fn range(from: (usize, usize), to: (usize, usize)) -> BufferRange {
    BufferRange::between(at(from.0, from.1), at(to.0, to.1))
}

#[test]
fn a_text_is_split_into_its_lines() {
    assert_eq!(vec![""], split_text(""));
    assert_eq!(vec!["a"], split_text("a"));
    assert_eq!(vec!["a", ""], split_text("a\n"));
    assert_eq!(vec!["", "", "b"], split_text("\n\nb"));
    for text in ["", "one", "one\ntwo", "\n", "a\n\nb\n", "héllo\nwörld"] {
        assert_eq!(text, BufferContent::from_str(text).to_text());
    }
    let content = BufferContent::from_str("ab\ncde\n");
    assert_eq!(3, content.line_count());
    assert_eq!("cde", content.line(1));
    assert_eq!(at(2, 0), content.end());
    assert_eq!(at(0, 0), BufferContent::new().end());
}

#[test]
fn places_are_brought_into_the_content() {
    let content = BufferContent::from_str("ab\ncde");
    assert_eq!(at(0, 1), content.clamp_position(at(0, 1)));
    assert_eq!(at(0, 2), content.clamp_position(at(0, 9)));
    assert_eq!(at(1, 3), content.clamp_position(at(7, 7)));
    assert_eq!(at(1, 0), content.clamp_position(at(9, 0)));
}

#[test]
fn text_is_inserted_and_deleted() {
    let mut content = BufferContent::from_str("hello world");
    assert_eq!(range((0, 5), (0, 6)), content.insert_text(at(0, 5), ","));
    assert_eq!("hello, world", content.to_text());
    assert_eq!(range((0, 6), (2, 1)), content.insert_text(at(0, 6), "\nbig\n "));
    assert_eq!("hello,\nbig\n  world", content.to_text());
    assert_eq!(range((2, 7), (2, 8)), content.insert_text(at(9, 9), "!"));
    assert_eq!("hello,\nbig\n  world!", content.to_text());
    assert_eq!(range((0, 0), (0, 0)), content.insert_text(at(0, 0), ""));

    let (deleted, text) = content.delete_range(range((0, 5), (2, 1)));
    assert_eq!(range((0, 5), (2, 1)), deleted);
    assert_eq!(",\nbig\n ", text);
    assert_eq!("hello world!", content.to_text());
    let (deleted, text) = content.delete_range(BufferRange { from: at(0, 12), to: at(0, 11) });
    assert_eq!(range((0, 11), (0, 12)), deleted);
    assert_eq!("!", text);
    let (deleted, text) = content.delete_range(range((0, 3), (0, 3)));
    assert_eq!((range((0, 3), (0, 3)), ""), (deleted, text.as_str()));
    let (_, text) = content.delete_range(range((0, 0), (5, 99)));
    assert_eq!("hello world", text);
    assert_eq!("", content.to_text());
    assert_eq!(1, content.line_count());
}

#[test]
fn deleting_what_was_inserted_gives_the_text_back() {
    for (text, place, inserted) in [
        ("", (0, 0), "x"),
        ("abc", (0, 1), "1\n2\n3"),
        ("a\nb\nc", (1, 1), "\n"),
        ("a\nb\nc", (2, 0), "tail\n"),
        ("ünï", (0, 2), "çø\n"),
    ] {
        let mut content = BufferContent::from_str(text);
        let filled = content.insert_text(at(place.0, place.1), inserted);
        assert_eq!(inserted, content.text_range(filled));
        let (_, removed) = content.delete_range(filled);
        assert_eq!(inserted, removed);
        assert_eq!(text, content.to_text());
    }
}

#[test]
fn words_are_found_around_a_place() {
    let content = BufferContent::from_str("let some_name1 = (x);\n\nend");
    assert_eq!(range((0, 4), (0, 14)), content.word_range_at(at(0, 7)));
    assert_eq!(range((0, 4), (0, 14)), content.word_range_at(at(0, 4)));
    assert_eq!(range((0, 4), (0, 14)), content.word_range_at(at(0, 14)));
    assert_eq!(range((0, 16), (0, 16)), content.word_range_at(at(0, 16)));
    assert_eq!(range((0, 18), (0, 19)), content.word_range_at(at(0, 18)));
    assert_eq!(range((1, 0), (1, 0)), content.word_range_at(at(1, 5)));
    assert_eq!(range((2, 0), (2, 3)), content.word_range_at(at(9, 9)));
    assert_eq!("some_name1", content.text_in(range((0, 4), (0, 14))));
    assert_eq!("(x);\n\nend", content.text_in(range((0, 17), (8, 8))));
}

#[test]
fn a_buffer_records_what_is_done_to_it() {
    let mut events = EditorEventQueue::new();
    let mut buffer = Buffer::new(BufferHandle(4));
    assert_eq!(BufferHandle(4), buffer.handle());
    assert!(!buffer.needs_save());
    buffer.set_path("notes.txt");
    assert_eq!("notes.txt", buffer.path());

    let filled = buffer.insert_text(at(0, 0), "one\ntwo", 0, &mut events);
    assert_eq!(range((0, 0), (1, 3)), filled);
    assert!(buffer.needs_save());
    buffer.commit_edits();
    let emptied = buffer.delete_range(range((0, 1), (1, 1)), 0, &mut events);
    assert_eq!(range((0, 1), (1, 1)), emptied);
    assert_eq!("owo", buffer.content().to_text());
    assert_eq!(range((0, 2), (0, 2)), buffer.insert_text(at(0, 2), "", 0, &mut events));
    buffer.delete_range(range((0, 2), (0, 2)), 0, &mut events);

    events.flip();
    let seen = events.events();
    assert_eq!(2, seen.len());
    match &seen[0] {
        EditorEvent::BufferInsertText { handle, range: r, text } => {
            assert_eq!((BufferHandle(4), filled, "one\ntwo"), (*handle, *r, text.as_str()));
        }
        _ => panic!("the insertion was not told"),
    }
    match &seen[1] {
        EditorEvent::BufferDeleteText { handle, range: r } => {
            assert_eq!((BufferHandle(4), emptied), (*handle, *r));
        }
        _ => panic!("the deletion was not told"),
    }

    let undone = buffer.undo(&mut events);
    assert_eq!(vec![(EditKind::Insert, range((0, 1), (1, 1)))], undone);
    assert_eq!("one\ntwo", buffer.content().to_text());
    let undone = buffer.undo(&mut events);
    assert_eq!(vec![(EditKind::Delete, range((0, 0), (1, 3)))], undone);
    assert_eq!("", buffer.content().to_text());
    assert!(buffer.undo(&mut events).is_empty());
    buffer.redo(&mut events);
    buffer.redo(&mut events);
    assert!(buffer.redo(&mut events).is_empty());
    assert_eq!("owo", buffer.content().to_text());
    events.flip();
    assert_eq!(4, events.events().len());
}

#[test]
fn undo_then_redo_returns_the_content() {
    let mut events = EditorEventQueue::new();
    let mut buffer = Buffer::new(BufferHandle(0));
    buffer.insert_text(at(0, 0), "alpha\nbeta\ngamma", 0, &mut events);
    buffer.commit_edits();
    buffer.insert_text(at(1, 0), ">> ", 0, &mut events);
    buffer.delete_range(range((2, 0), (2, 2)), 1, &mut events);
    buffer.insert_text(at(0, 5), "!", 2, &mut events);
    buffer.commit_edits();
    let committed = buffer.content().to_text();
    assert_eq!("alpha!\n>> beta\nmma", committed);
    buffer.undo(&mut events);
    assert_eq!("alpha\nbeta\ngamma", buffer.content().to_text());
    buffer.redo(&mut events);
    assert_eq!(committed, buffer.content().to_text());
    buffer.undo(&mut events);
    buffer.undo(&mut events);
    assert_eq!("", buffer.content().to_text());
    buffer.redo(&mut events);
    buffer.redo(&mut events);
    assert_eq!(committed, buffer.content().to_text());
}

#[test]
fn buffers_take_the_first_free_slot() {
    let mut buffers = BufferCollection::new();
    let a = buffers.add_new().unwrap();
    let b = buffers.add_new().unwrap();
    let c = buffers.add_new().unwrap();
    assert_eq!((BufferHandle(0), BufferHandle(1), BufferHandle(2)), (a, b, c));
    buffers.set_path(a, "a.txt");
    buffers.set_path(b, "same.txt");
    buffers.set_path(c, "same.txt");
    assert_eq!(Some(b), buffers.find_with_path("same.txt"));
    assert_eq!(None, buffers.find_with_path("other.txt"));
    assert_eq!("same.txt", buffers.remove(b).unwrap().path());
    assert!(buffers.remove(b).is_none());
    assert!(buffers.get(b).is_none());
    assert_eq!(Some(c), buffers.find_with_path("same.txt"));
    assert_eq!(Some(b), buffers.add_new());
    assert_eq!("", buffers.get(b).unwrap().path());
    assert!(buffers.get(BufferHandle(7)).is_none());
    assert!(buffers.remove(BufferHandle(7)).is_none());
    let text = BufferCapabilities::text();
    let log = BufferCapabilities::log();
    assert!(text.can_save && !text.is_log && !text.auto_close);
    assert!(!log.can_save && log.is_log && !log.auto_close);
}

#[test]
fn cursors_are_kept_in_order_and_apart() {
    let cursor = |from: (usize, usize), to: (usize, usize)| Cursor { anchor: at(from.0, from.1), position: at(to.0, to.1) };
    let mut cursors = CursorCollection::new();
    assert_eq!(&[Cursor::zero()], cursors.as_slice());
    cursors.set(&vec![cursor((2, 0), (2, 3)), cursor((0, 4), (0, 1)), cursor((2, 2), (2, 8)), cursor((5, 5), (5, 5))]);
    let kept = cursors.as_slice();
    assert_eq!(3, kept.len());
    assert_eq!(range((0, 1), (0, 4)), kept[0].to_range());
    assert_eq!(range((2, 0), (2, 8)), kept[1].to_range());
    assert_eq!(range((5, 5), (5, 5)), kept[2].to_range());
    assert_eq!(kept[0], cursors.main_cursor());
    cursors.set(&Vec::new());
    assert_eq!(&[Cursor::zero()], cursors.as_slice());
    cursors.set_single(cursor((1, 1), (1, 2)));
    assert_eq!(&[cursor((1, 1), (1, 2))], cursors.as_slice());
}

#[test]
fn views_are_found_by_client_and_buffer() {
    let mut views = BufferViewCollection::new();
    let a = views.add(BufferView::new(TargetClient::Local, BufferHandle(0))).unwrap();
    let b = views.add(BufferView::new(TargetClient::Local, BufferHandle(1))).unwrap();
    assert_eq!(Some(b), views.find(TargetClient::Local, BufferHandle(1)));
    assert_eq!(None, views.find(TargetClient::All, BufferHandle(1)));
    assert_eq!(
        Some(a),
        views.buffer_view_handle_from_buffer_handle(TargetClient::Local, BufferHandle(0))
    );
    let c = views.buffer_view_handle_from_buffer_handle(TargetClient::Local, BufferHandle(2)).unwrap();
    assert!(c != a && c != b);
    views.remove(a);
    assert!(views.get(a).is_none());
    assert!(!views.set_cursor(a, Cursor::zero()));
    let moved = Cursor { anchor: at(1, 1), position: at(1, 1) };
    assert!(views.set_cursor(b, moved));
    assert_eq!(&[moved], views.get(b).unwrap().cursors.as_slice());
    assert_eq!(Some(a), views.add(BufferView::new(TargetClient::All, BufferHandle(5))));
}

#[test]
fn paths_and_uris_name_each_other() {
    assert_eq!("file:///p/src/a.rs", format_document_uri("/p", "src/a.rs"));
    assert_eq!("file:///abs/a.rs", format_document_uri("/p", "/abs/a.rs"));
    assert_eq!(Some(String::from("src/a.rs")), parse_uri("/p", "file:///p/src/a.rs"));
    assert_eq!(Some(String::from("/q/a.rs")), parse_uri("/p", "file:///q/a.rs"));
    assert_eq!(Some(String::from("/pq/a.rs")), parse_uri("/p", "file:///pq/a.rs"));
    assert_eq!(None, parse_uri("/p", "http://p/a.rs"));
    assert_eq!("rust", path_to_language_id("src/main.rs"));
    assert_eq!("c", path_to_language_id("x.h"));
    assert_eq!("", path_to_language_id("Makefile"));
    assert_eq!("", path_to_language_id("a.unknown"));
}

#[test]
fn texts_are_cut_and_joined() {
    assert_eq!("llo", substring("héllo", 2, 5));
    assert_eq!("", substring("abc", 1, 1));
    assert!(starts_with("hello", "he") && starts_with("hello", "") && !starts_with("he", "hello"));
    let pieces = vec![String::from("a"), String::new(), String::from("c")];
    assert_eq!("a//c", join_strings(&pieces, '/'));
    assert_eq!("ac", concat_strings(&pieces));
    assert_eq!("", join_strings(&Vec::new(), '/'));
    assert_eq!(Some(3), find_last(&vec!['a', ':', 'b', ':'], ':'));
    assert_eq!(None, find_last(&vec!['a'], ':'));
    let mut out = String::from("n=");
    push_decimal(&mut out, 0);
    push_decimal(&mut out, 1205);
    push_decimal(&mut out, u128::MAX);
    assert_eq!(format!("n=01205{}", u128::MAX), out);
}
