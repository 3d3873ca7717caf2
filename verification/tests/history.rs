use pepper::buffer_position::{BufferPosition, BufferRange};
use pepper::history::{Edit, EditKind, History};

fn buffer_range(
    from_line: usize,
    from_column: usize,
    to_line: usize,
    to_column: usize,
) -> BufferRange {
    BufferRange::between(
        BufferPosition::line_col(from_line, from_column),
        BufferPosition::line_col(to_line, to_column),
    )
}

#[test]
fn commit_edits_on_emtpy_history() {
    let mut history = History::new();
    assert_eq!(0, history.undo_edits().into_iter().count());
    assert_eq!(0, history.redo_edits().into_iter().count());
    history.commit_edits();
    assert_eq!(0, history.redo_edits().into_iter().count());
    assert_eq!(0, history.undo_edits().into_iter().count());
    history.commit_edits();
    history.commit_edits();
    assert_eq!(0, history.undo_edits().into_iter().count());
    assert_eq!(0, history.redo_edits().into_iter().count());
}

#[test]
fn edit_grouping() {
    let mut history = History::new();

    history.add_edit(Edit {
        kind: EditKind::Insert,
        range: BufferRange::default(),
        text: "a",
        cursor_index: 0,
    });
    history.add_edit(Edit {
        kind: EditKind::Delete,
        range: BufferRange::default(),
        text: "b",
        cursor_index: 0,
    });

    assert_eq!(0, history.redo_edits().into_iter().count());

    let mut edit_iter = history.undo_edits().into_iter();
    let edit = edit_iter.next().unwrap();
    assert_eq!(EditKind::Insert, edit.kind);
    assert_eq!("b", edit.text);
    let edit = edit_iter.next().unwrap();
    assert_eq!(EditKind::Delete, edit.kind);
    assert_eq!("a", edit.text);
    assert!(edit_iter.next().is_none());
    drop(edit_iter);

    let mut edit_iter = history.redo_edits().into_iter();
    let edit = edit_iter.next().unwrap();
    assert_eq!(EditKind::Insert, edit.kind);
    assert_eq!("a", edit.text);
    let edit = edit_iter.next().unwrap();
    assert_eq!(EditKind::Delete, edit.kind);
    assert_eq!("b", edit.text);
    assert!(edit_iter.next().is_none());
    drop(edit_iter);

    assert_eq!(0, history.redo_edits().into_iter().count());

    let mut edit_iter = history.undo_edits().into_iter();
    let edit = edit_iter.next().unwrap();
    assert_eq!(EditKind::Insert, edit.kind);
    assert_eq!("b", edit.text);
    let edit = edit_iter.next().unwrap();
    assert_eq!(EditKind::Delete, edit.kind);
    assert_eq!("a", edit.text);
    assert!(edit_iter.next().is_none());
    drop(edit_iter);

    history.add_edit(Edit {
        kind: EditKind::Insert,
        range: BufferRange::default(),
        text: "c",
        cursor_index: 0,
    });

    assert_eq!(0, history.redo_edits().into_iter().count());

    let mut edit_iter = history.undo_edits().into_iter();
    let edit = edit_iter.next().unwrap();
    assert_eq!(EditKind::Delete, edit.kind);
    assert_eq!("c", edit.text);
    assert!(edit_iter.next().is_none());
    drop(edit_iter);

    assert_eq!(0, history.undo_edits().into_iter().count());
}

#[test]
fn compress_insert_insert_edits() {
    let mut history = History::new();
    history.add_edit(Edit {
        kind: EditKind::Insert,
        range: buffer_range(0, 0, 0, 3),
        text: "abc",
        cursor_index: 0,
    });
    history.add_edit(Edit {
        kind: EditKind::Insert,
        range: buffer_range(0, 3, 0, 6),
        text: "def",
        cursor_index: 0,
    });

    let mut edit_iter = history.undo_edits().into_iter();
    let edit = edit_iter.next().unwrap();
    assert_eq!(EditKind::Delete, edit.kind);
    assert_eq!("abcdef", edit.text);
    assert_eq!(buffer_range(0, 0, 0, 6), edit.range);
    assert!(edit_iter.next().is_none());

    let mut history = History::new();
    history.add_edit(Edit {
        kind: EditKind::Insert,
        range: buffer_range(0, 0, 0, 3),
        text: "abc",
        cursor_index: 0,
    });
    history.add_edit(Edit {
        kind: EditKind::Insert,
        range: buffer_range(0, 0, 0, 3),
        text: "def",
        cursor_index: 0,
    });

    let mut edit_iter = history.undo_edits().into_iter();
    let edit = edit_iter.next().unwrap();
    assert_eq!(EditKind::Delete, edit.kind);
    assert_eq!("defabc", edit.text);
    assert_eq!(buffer_range(0, 0, 0, 6), edit.range);
    assert!(edit_iter.next().is_none());
}

#[test]
fn compress_delete_delete_edits() {
    let mut history = History::new();
    history.add_edit(Edit {
        kind: EditKind::Delete,
        range: buffer_range(0, 0, 0, 3),
        text: "abc",
        cursor_index: 0,
    });
    history.add_edit(Edit {
        kind: EditKind::Delete,
        range: buffer_range(0, 0, 0, 3),
        text: "def",
        cursor_index: 0,
    });

    let mut edit_iter = history.undo_edits().into_iter();
    let edit = edit_iter.next().unwrap();
    assert_eq!(EditKind::Insert, edit.kind);
    assert_eq!("abcdef", edit.text);
    assert_eq!(buffer_range(0, 0, 0, 6), edit.range);
    assert!(edit_iter.next().is_none());

    let mut history = History::new();
    history.add_edit(Edit {
        kind: EditKind::Delete,
        range: buffer_range(0, 3, 0, 6),
        text: "abc",
        cursor_index: 0,
    });
    history.add_edit(Edit {
        kind: EditKind::Delete,
        range: buffer_range(0, 0, 0, 3),
        text: "def",
        cursor_index: 0,
    });

    let mut edit_iter = history.undo_edits().into_iter();
    let edit = edit_iter.next().unwrap();
    assert_eq!(EditKind::Insert, edit.kind);
    assert_eq!("defabc", edit.text);
    assert_eq!(buffer_range(0, 0, 0, 6), edit.range);
    assert!(edit_iter.next().is_none());
}

#[test]
fn compress_insert_delete_edits() {
    // -- insert ------
    // -- delete --
    let mut history = History::new();
    history.add_edit(Edit {
        kind: EditKind::Insert,
        range: buffer_range(0, 0, 0, 6),
        text: "abcdef",
        cursor_index: 0,
    });
    history.add_edit(Edit {
        kind: EditKind::Delete,
        range: buffer_range(0, 0, 0, 3),
        text: "abc",
        cursor_index: 0,
    });

    let mut edit_iter = history.undo_edits().into_iter();
    let edit = edit_iter.next().unwrap();
    assert_eq!(EditKind::Delete, edit.kind);
    assert_eq!("def", edit.text);
    assert_eq!(buffer_range(0, 0, 0, 3), edit.range);
    assert!(edit_iter.next().is_none());

    // ------ insert --
    //     -- delete --
    let mut history = History::new();
    history.add_edit(Edit {
        kind: EditKind::Insert,
        range: buffer_range(0, 0, 0, 6),
        text: "abcdef",
        cursor_index: 0,
    });
    history.add_edit(Edit {
        kind: EditKind::Delete,
        range: buffer_range(0, 3, 0, 6),
        text: "def",
        cursor_index: 0,
    });

    let mut edit_iter = history.undo_edits().into_iter();
    let edit = edit_iter.next().unwrap();
    assert_eq!(EditKind::Delete, edit.kind);
    assert_eq!("abc", edit.text);
    assert_eq!(buffer_range(0, 0, 0, 3), edit.range);
    assert!(edit_iter.next().is_none());

    // -- insert --
    // -- delete ------
    let mut history = History::new();
    history.add_edit(Edit {
        kind: EditKind::Insert,
        range: buffer_range(0, 0, 0, 3),
        text: "abc",
        cursor_index: 0,
    });
    history.add_edit(Edit {
        kind: EditKind::Delete,
        range: buffer_range(0, 0, 0, 6),
        text: "abcdef",
        cursor_index: 0,
    });

    let mut edit_iter = history.undo_edits().into_iter();
    let edit = edit_iter.next().unwrap();
    assert_eq!(EditKind::Insert, edit.kind);
    assert_eq!("def", edit.text);
    assert_eq!(buffer_range(0, 0, 0, 3), edit.range);
    assert!(edit_iter.next().is_none());

    //     -- insert --
    // ------ delete --
    let mut history = History::new();
    history.add_edit(Edit {
        kind: EditKind::Insert,
        range: buffer_range(0, 3, 0, 6),
        text: "def",
        cursor_index: 0,
    });
    history.add_edit(Edit {
        kind: EditKind::Delete,
        range: buffer_range(0, 0, 0, 6),
        text: "abcdef",
        cursor_index: 0,
    });

    let mut edit_iter = history.undo_edits().into_iter();
    let edit = edit_iter.next().unwrap();
    assert_eq!(EditKind::Insert, edit.kind);
    assert_eq!("abc", edit.text);
    assert_eq!(buffer_range(0, 0, 0, 3), edit.range);
    assert!(edit_iter.next().is_none());
}

#[test]
fn compress_multiple_edits() {
    let mut history = History::new();
    history.add_edit(Edit {
        kind: EditKind::Insert,
        range: buffer_range(1, 0, 1, 1),
        text: "a",
        cursor_index: 1,
    });
    history.add_edit(Edit {
        kind: EditKind::Insert,
        range: buffer_range(0, 0, 0, 1),
        text: "a",
        cursor_index: 0,
    });

    let mut edit_iter = history.undo_edits().into_iter();
    let edit = edit_iter.next().unwrap();
    assert_eq!(EditKind::Delete, edit.kind);
    assert_eq!(buffer_range(0, 0, 0, 1), edit.range);
    assert_eq!(0, edit.cursor_index);

    let edit = edit_iter.next().unwrap();
    assert_eq!(buffer_range(1, 0, 1, 1), edit.range);
    assert_eq!(EditKind::Delete, edit.kind);
    assert_eq!(1, edit.cursor_index);

    assert!(edit_iter.next().is_none());
}

#[test]
fn two_cursors_on_two_lines_are_merged_each_on_its_line() {
    let mut history = History::new();
    history.add_edit(Edit {
        kind: EditKind::Insert,
        range: buffer_range(0, 0, 0, 1),
        text: "a",
        cursor_index: 0,
    });
    history.add_edit(Edit {
        kind: EditKind::Insert,
        range: buffer_range(1, 0, 1, 1),
        text: "x",
        cursor_index: 1,
    });
    history.add_edit(Edit {
        kind: EditKind::Insert,
        range: buffer_range(0, 1, 0, 2),
        text: "b",
        cursor_index: 0,
    });
    history.add_edit(Edit {
        kind: EditKind::Insert,
        range: buffer_range(1, 1, 1, 2),
        text: "y",
        cursor_index: 1,
    });

    let mut edit_iter = history.undo_edits().into_iter();
    let edit = edit_iter.next().unwrap();
    assert_eq!(EditKind::Delete, edit.kind);
    assert_eq!("xy", edit.text);
    assert_eq!(buffer_range(1, 0, 1, 2), edit.range);
    assert_eq!(1, edit.cursor_index);

    let edit = edit_iter.next().unwrap();
    assert_eq!(EditKind::Delete, edit.kind);
    assert_eq!("ab", edit.text);
    assert_eq!(buffer_range(0, 0, 0, 2), edit.range);
    assert_eq!(0, edit.cursor_index);

    assert!(edit_iter.next().is_none());
}

#[test]
fn insert_then_undo_coalescing() {
    let mut history = History::new();
    history.add_edit(Edit {
        kind: EditKind::Insert,
        range: buffer_range(0, 0, 0, 1),
        text: "a",
        cursor_index: 0,
    });
    history.add_edit(Edit {
        kind: EditKind::Insert,
        range: buffer_range(0, 1, 0, 2),
        text: "b",
        cursor_index: 0,
    });
    history.commit_edits();

    let edits = history.undo_edits();
    assert_eq!(1, edits.len());
    assert_eq!(EditKind::Delete, edits[0].kind);
    assert_eq!(buffer_range(0, 0, 0, 2), edits[0].range);
    assert_eq!("ab", edits[0].text);
}

#[test]
fn undo_then_redo_mirror_each_other() {
    let mut history = History::new();
    history.add_edit(Edit {
        kind: EditKind::Insert,
        range: buffer_range(0, 0, 0, 2),
        text: "xy",
        cursor_index: 0,
    });
    history.add_edit(Edit {
        kind: EditKind::Delete,
        range: buffer_range(2, 0, 2, 1),
        text: "q",
        cursor_index: 1,
    });
    history.commit_edits();

    let undone: Vec<(EditKind, BufferRange, String, u8)> = history
        .undo_edits()
        .into_iter()
        .map(|e| (e.kind, e.range, e.text.to_string(), e.cursor_index))
        .collect();
    let redone: Vec<(EditKind, BufferRange, String, u8)> = history
        .redo_edits()
        .into_iter()
        .map(|e| (e.kind, e.range, e.text.to_string(), e.cursor_index))
        .collect();
    assert_eq!(2, undone.len());
    assert_eq!(2, redone.len());
    assert_eq!((EditKind::Insert, buffer_range(0, 0, 0, 2), "xy".to_string(), 0), redone[0]);
    assert_eq!((EditKind::Delete, buffer_range(2, 0, 2, 1), "q".to_string(), 1), redone[1]);
    assert_eq!((EditKind::Insert, buffer_range(2, 0, 2, 1), "q".to_string(), 1), undone[0]);
    assert_eq!((EditKind::Delete, buffer_range(0, 0, 0, 2), "xy".to_string(), 0), undone[1]);
    assert_eq!(0, history.redo_edits().len());
    assert_eq!(2, history.undo_edits().len());
}

#[test]
fn edits_that_do_not_fit_are_not_merged() {
    let mut history = History::new();
    history.add_edit(Edit {
        kind: EditKind::Insert,
        range: buffer_range(0, 0, 0, 3),
        text: "abc",
        cursor_index: 0,
    });
    history.add_edit(Edit {
        kind: EditKind::Delete,
        range: buffer_range(0, 0, 0, 2),
        text: "xx",
        cursor_index: 0,
    });
    history.add_edit(Edit {
        kind: EditKind::Insert,
        range: buffer_range(5, 0, 5, 1),
        text: "z",
        cursor_index: 0,
    });
    assert_eq!(3, history.undo_edits().len());
}

#[test]
fn later_edits_of_other_cursors_move_with_a_merge() {
    let mut history = History::new();
    history.add_edit(Edit {
        kind: EditKind::Insert,
        range: buffer_range(0, 0, 0, 2),
        text: "ab",
        cursor_index: 0,
    });
    history.add_edit(Edit {
        kind: EditKind::Insert,
        range: buffer_range(0, 5, 0, 7),
        text: "cd",
        cursor_index: 1,
    });
    history.add_edit(Edit {
        kind: EditKind::Insert,
        range: buffer_range(0, 2, 0, 3),
        text: "e",
        cursor_index: 0,
    });
    let edits = history.redo_edits();
    assert_eq!(0, edits.len());
    let edits = history.undo_edits();
    assert_eq!(2, edits.len());
    assert_eq!("cd", edits[0].text);
    assert_eq!(buffer_range(0, 6, 0, 8), edits[0].range);
    assert_eq!("abe", edits[1].text);
    assert_eq!(buffer_range(0, 0, 0, 3), edits[1].range);
}

#[test]
fn positions_move_with_insertions_and_deletions() {
    let p = BufferPosition::line_col(2, 4);
    assert_eq!(p, p.insert(buffer_range(3, 0, 4, 0)));
    assert_eq!(BufferPosition::line_col(3, 4), p.insert(buffer_range(1, 0, 2, 0)));
    assert_eq!(BufferPosition::line_col(2, 7), p.insert(buffer_range(2, 1, 2, 4)));
    assert_eq!(BufferPosition::line_col(3, 2), p.insert(buffer_range(2, 3, 3, 1)));
    assert_eq!(p, p.insert(buffer_range(2, 5, 2, 9)));
    assert_eq!(p, p.delete(buffer_range(3, 0, 4, 0)));
    assert_eq!(BufferPosition::line_col(1, 4), p.delete(buffer_range(0, 0, 1, 0)));
    assert_eq!(BufferPosition::line_col(2, 2), p.delete(buffer_range(2, 1, 2, 3)));
    assert_eq!(BufferPosition::line_col(2, 1), p.delete(buffer_range(2, 1, 2, 6)));
    assert_eq!(BufferPosition::line_col(1, 5), p.delete(buffer_range(1, 3, 2, 2)));
    assert_eq!(
        BufferPosition::line_col(usize::MAX, 0),
        BufferPosition::line_col(usize::MAX, 0).insert(buffer_range(0, 0, 5, 0))
    );
}
