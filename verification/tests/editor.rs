use pepper::buffer_position::BufferPosition;
use pepper::client_collection::ClientCollection;
use pepper::command::{tokenize, CommandManager, CommandOperation};
use pepper::connection::TargetClient;
use pepper::dispatch::{config_commands, split_path_and_line, split_path_and_position};
use pepper::editor::{Editor, EditorLoop, StatusMessageKind};
use pepper::events::BufferHandle;
use pepper::mode::ModeKind;
use pepper::platform::{Key, Platform};
use pepper::register::RegisterKey;
use pepper::serialization::ClientEvent;

fn setup() -> (Editor, Platform, ClientCollection) {
    let mut editor = Editor::new(String::from("/work"));
    let mut clients = ClientCollection::new();
    let platform = Platform::new();
    editor.open_buffer(&mut clients, TargetClient::Local, "a.txt");
    (editor, platform, clients)
}

fn press(
    editor: &mut Editor,
    platform: &mut Platform,
    clients: &mut ClientCollection,
    key: Key,
) -> EditorLoop {
    editor.on_event(
        platform,
        clients,
        TargetClient::Local,
        ClientEvent::Key(TargetClient::Local, key),
    )
}

fn press_all(
    editor: &mut Editor,
    platform: &mut Platform,
    clients: &mut ClientCollection,
    keys: &[Key],
) {
    for key in keys {
        assert!(press(editor, platform, clients, *key) == EditorLoop::Continue);
    }
}

fn text_of(editor: &Editor, handle: u32) -> String {
    editor.buffers.get(BufferHandle(handle)).unwrap().content.to_text()
}

#[test]
fn opening_a_path_shows_a_new_buffer_to_the_client() {
    let (editor, _, clients) = setup();
    let focus = editor.focus(&clients, TargetClient::Local).unwrap();
    assert_eq!(BufferHandle(0), focus.buffer);
    assert_eq!("a.txt", editor.buffers.get(focus.buffer).unwrap().path());
    assert_eq!(BufferPosition::line_col(0, 0), focus.cursor.position);
    assert_eq!("", text_of(&editor, 0));
}

#[test]
fn a_path_may_name_a_line() {
    assert_eq!((String::from("src/a.rs"), Some(11)), split_path_and_line("src/a.rs:12"));
    assert_eq!((String::from("src/a.rs"), Some(0)), split_path_and_line("src/a.rs:0"));
    assert_eq!((String::from("src/a.rs"), None), split_path_and_line("src/a.rs"));
    assert_eq!((String::from("src/a.rs:x"), None), split_path_and_line("src/a.rs:x"));
    assert_eq!((String::from("a:"), None), split_path_and_line("a:"));

    let mut editor = Editor::new(String::from("/work"));
    let mut clients = ClientCollection::new();
    editor.open_buffer(&mut clients, TargetClient::Local, "b.txt:3");
    let focus = editor.focus(&clients, TargetClient::Local).unwrap();
    assert_eq!("b.txt", editor.buffers.get(focus.buffer).unwrap().path());
    assert_eq!(BufferPosition::line_col(2, 0), focus.cursor.position);
}

#[test]
fn insert_mode_types_and_erases() {
    let (mut editor, mut platform, mut clients) = setup();
    press_all(
        &mut editor,
        &mut platform,
        &mut clients,
        &[Key::Char('i'), Key::Char('h'), Key::Char('i'), Key::Enter, Key::Char('x')],
    );
    assert!(editor.mode.kind == ModeKind::Insert);
    assert_eq!("hi\nx", text_of(&editor, 0));
    let focus = editor.focus(&clients, TargetClient::Local).unwrap();
    assert_eq!(BufferPosition::line_col(1, 1), focus.cursor.position);

    press_all(&mut editor, &mut platform, &mut clients, &[Key::Backspace, Key::Backspace]);
    assert_eq!("hi", text_of(&editor, 0));
    let focus = editor.focus(&clients, TargetClient::Local).unwrap();
    assert_eq!(BufferPosition::line_col(0, 2), focus.cursor.position);

    press_all(&mut editor, &mut platform, &mut clients, &[Key::Tab, Key::Esc]);
    assert_eq!("hi    ", text_of(&editor, 0));
    assert!(editor.mode.kind == ModeKind::Normal);
    assert!(editor.buffers.get(BufferHandle(0)).unwrap().needs_save());
}

#[test]
fn undo_and_redo_step_through_what_was_typed() {
    let (mut editor, mut platform, mut clients) = setup();
    press_all(
        &mut editor,
        &mut platform,
        &mut clients,
        &[Key::Char('i'), Key::Char('a'), Key::Char('b'), Key::Esc],
    );
    press_all(
        &mut editor,
        &mut platform,
        &mut clients,
        &[Key::Char('i'), Key::Char('c'), Key::Esc],
    );
    assert_eq!("abc", text_of(&editor, 0));
    press_all(&mut editor, &mut platform, &mut clients, &[Key::Char('u')]);
    assert_eq!("ab", text_of(&editor, 0));
    press_all(&mut editor, &mut platform, &mut clients, &[Key::Char('u')]);
    assert_eq!("", text_of(&editor, 0));
    press_all(&mut editor, &mut platform, &mut clients, &[Key::Char('u')]);
    assert_eq!("", text_of(&editor, 0));
    press_all(&mut editor, &mut platform, &mut clients, &[Key::Char('U'), Key::Char('U')]);
    assert_eq!("abc", text_of(&editor, 0));
}

#[test]
fn macro_replay() {
    let (mut editor, mut platform, mut clients) = setup();
    press_all(
        &mut editor,
        &mut platform,
        &mut clients,
        &[
            Key::Char('q'),
            Key::Char('q'),
            Key::Char('i'),
            Key::Char('a'),
            Key::Esc,
            Key::Char('q'),
        ],
    );
    assert!(editor.recording_macro.is_none());
    assert_eq!("ia<esc>", editor.registers.get(RegisterKey::from_char('q').unwrap()));
    assert_eq!("a", text_of(&editor, 0));

    press_all(
        &mut editor,
        &mut platform,
        &mut clients,
        &[Key::Char('@'), Key::Char('q'), Key::Char('@'), Key::Char('q')],
    );
    assert_eq!("aaa", text_of(&editor, 0));
    assert!(editor.mode.kind == ModeKind::Normal);
    assert_eq!(0, editor.buffered_keys.as_slice().len());

    press_all(&mut editor, &mut platform, &mut clients, &[Key::Char('u')]);
    assert_eq!("aa", text_of(&editor, 0));
    press_all(&mut editor, &mut platform, &mut clients, &[Key::Char('u')]);
    assert_eq!("a", text_of(&editor, 0));
    press_all(&mut editor, &mut platform, &mut clients, &[Key::Char('u')]);
    assert_eq!("", text_of(&editor, 0));
}

#[test]
fn a_macro_that_runs_itself_is_given_up() {
    let (mut editor, mut platform, mut clients) = setup();
    editor.registers.set(RegisterKey::from_char('m').unwrap(), "@m");
    press_all(&mut editor, &mut platform, &mut clients, &[Key::Char('@'), Key::Char('m')]);
    let (kind, text) = editor.status_message.message();
    assert_eq!(StatusMessageKind::Error, kind);
    assert_eq!("too many macros ran each other", text);
    assert_eq!(0, editor.buffered_keys.as_slice().len());
}

#[test]
fn keys_that_no_register_spells_are_reported() {
    let (mut editor, mut platform, mut clients) = setup();
    editor.registers.set(RegisterKey::from_char('b').unwrap(), "<nokey");
    press_all(&mut editor, &mut platform, &mut clients, &[Key::Char('@'), Key::Char('b')]);
    let (kind, text) = editor.status_message.message();
    assert_eq!(StatusMessageKind::Error, kind);
    assert_eq!("error parsing keys '<nokey'", text);
}

#[test]
fn key_maps_replace_keys_and_wait_on_prefixes() {
    let (mut editor, mut platform, mut clients) = setup();
    editor.keymaps.add(
        ModeKind::Normal,
        vec![Key::Char('j'), Key::Char('k')],
        vec![Key::Char('i'), Key::Char('z'), Key::Esc],
    );
    press_all(&mut editor, &mut platform, &mut clients, &[Key::Char('j')]);
    assert_eq!(1, editor.buffered_keys.as_slice().len());
    assert_eq!("", text_of(&editor, 0));
    press_all(&mut editor, &mut platform, &mut clients, &[Key::Char('k')]);
    assert_eq!("z", text_of(&editor, 0));
    assert_eq!(0, editor.buffered_keys.as_slice().len());
}

#[test]
fn command_lines_split_into_words() {
    assert_eq!(vec!["open", "a b.txt", "c"], tokenize("open 'a b.txt'\tc"));
    assert_eq!(vec!["quit!"], tokenize("  quit!  "));
    assert_eq!(vec!["a", "unclosed rest"], tokenize("a 'unclosed rest"));
    assert_eq!(vec![""], tokenize("''"));
    assert_eq!(Vec::<String>::new(), tokenize(" \t "));
    assert_eq!(Vec::<String>::new(), tokenize(""));
}

#[test]
fn quitting_with_unsaved_changes_has_to_be_forced() {
    let (mut editor, mut platform, mut clients) = setup();
    assert!(
        CommandManager::eval(&mut editor, &mut clients, TargetClient::Local, "quit")
            == Some(CommandOperation::Quit)
    );
    press_all(
        &mut editor,
        &mut platform,
        &mut clients,
        &[Key::Char('i'), Key::Char('a'), Key::Esc],
    );
    assert!(CommandManager::eval(&mut editor, &mut clients, TargetClient::Local, "q").is_none());
    let (kind, text) = editor.status_message.message();
    assert_eq!(StatusMessageKind::Error, kind);
    assert_eq!(
        "there are unsaved changes in buffers. try appending a '!' to command name to force quit",
        text
    );
    assert!(
        CommandManager::eval(&mut editor, &mut clients, TargetClient::Local, "q!")
            == Some(CommandOperation::Quit)
    );
    assert!(
        CommandManager::eval(&mut editor, &mut clients, TargetClient::Local, "quit-all!")
            == Some(CommandOperation::QuitAll)
    );
    assert!(CommandManager::eval(&mut editor, &mut clients, TargetClient::Local, "qa").is_none());
}

#[test]
fn commands_report_what_goes_wrong() {
    let (mut editor, _, mut clients) = setup();
    assert!(CommandManager::eval(&mut editor, &mut clients, TargetClient::Local, "nope x").is_none());
    assert_eq!("no such command 'nope'", editor.status_message.message().1);
    CommandManager::eval(&mut editor, &mut clients, TargetClient::Local, "open");
    assert_eq!("missing argument", editor.status_message.message().1);
    CommandManager::eval(&mut editor, &mut clients, TargetClient::Local, "lsp a{b x");
    assert_eq!("invalid glob", editor.status_message.message().1);
    CommandManager::eval(&mut editor, &mut clients, TargetClient::Local, "map nowhere a b");
    assert_eq!("no such mode", editor.status_message.message().1);
    CommandManager::eval(&mut editor, &mut clients, TargetClient::Local, "map normal <x a");
    assert_eq!("invalid keys", editor.status_message.message().1);
    let attached = TargetClient::Remote(pepper::connection::RemoteConnectionWithClientHandle::from_index(7));
    CommandManager::eval(&mut editor, &mut clients, attached, "open b.txt");
    assert_eq!("could not open buffer", editor.status_message.message().1);
}

#[test]
fn commands_change_the_editor() {
    let (mut editor, mut platform, mut clients) = setup();
    CommandManager::eval(&mut editor, &mut clients, TargetClient::Local, "open 'my file.txt'");
    let focus = editor.focus(&clients, TargetClient::Local).unwrap();
    assert_eq!("my file.txt", editor.buffers.get(focus.buffer).unwrap().path());

    CommandManager::eval(&mut editor, &mut clients, TargetClient::Local, "source a.cfg");
    CommandManager::eval(&mut editor, &mut clients, TargetClient::Local, "try-source b.cfg");
    assert_eq!(2, editor.source_requests.len());
    assert_eq!("a.cfg", editor.source_requests[0].path);
    assert!(editor.source_requests[0].required);
    assert_eq!("b.cfg", editor.source_requests[1].path);
    assert!(!editor.source_requests[1].required);

    CommandManager::eval(&mut editor, &mut clients, TargetClient::Local, "lsp **/*.rs rust-analyzer");
    assert_eq!(1, editor.lsp.recipes.len());
    assert_eq!("rust-analyzer", editor.lsp.recipes[0].command);
    assert!(editor.lsp.recipes[0].glob.matches(b"src/main.rs"));
    assert!(!editor.lsp.recipes[0].glob.matches(b"src/main.c"));

    CommandManager::eval(&mut editor, &mut clients, TargetClient::Local, "map normal zz ix<esc>");
    press_all(&mut editor, &mut platform, &mut clients, &[Key::Char('z'), Key::Char('z')]);
    assert_eq!("x", editor.buffers.get(focus.buffer).unwrap().content.to_text());
}

#[test]
fn command_mode_runs_the_line_that_was_typed() {
    let (mut editor, mut platform, mut clients) = setup();
    press_all(
        &mut editor,
        &mut platform,
        &mut clients,
        &[Key::Char(':'), Key::Char('o'), Key::Char(' '), Key::Char('b'), Key::Enter],
    );
    assert!(editor.mode.kind == ModeKind::Normal);
    let focus = editor.focus(&clients, TargetClient::Local).unwrap();
    assert_eq!("b", editor.buffers.get(focus.buffer).unwrap().path());
    assert_eq!(1, editor.commands.history_len());
    assert_eq!("o b", editor.commands.history_entry(0));
    assert_eq!("", editor.commands.history_entry(1));

    press_all(&mut editor, &mut platform, &mut clients, &[Key::Char(':'), Key::Ctrl('p')]);
    assert_eq!("o b", editor.read_line.input());
    press_all(&mut editor, &mut platform, &mut clients, &[Key::Esc]);
    assert!(editor.mode.kind == ModeKind::Normal);
    assert_eq!("", editor.read_line.input());

    let quit = [Key::Char(':'), Key::Char('q'), Key::Char('!')];
    press_all(&mut editor, &mut platform, &mut clients, &quit);
    assert!(press(&mut editor, &mut platform, &mut clients, Key::Enter) == EditorLoop::Quit);
    assert!(editor.mode.kind == ModeKind::Normal);
}

#[test]
fn command_mode_completes_command_names() {
    let (mut editor, mut platform, mut clients) = setup();
    press_all(&mut editor, &mut platform, &mut clients, &[Key::Char(':'), Key::Char('t')]);
    assert!(editor.picker.len() >= 1);
    assert_eq!("try-source", editor.picker.current_entry().unwrap().1);
    press_all(&mut editor, &mut platform, &mut clients, &[Key::Ctrl('n')]);
    assert!(editor.read_line.input().len() > 1);
    press_all(&mut editor, &mut platform, &mut clients, &[Key::Esc]);
    assert_eq!(0, editor.picker.len());
}

#[test]
fn files_of_commands_are_read_line_by_line() {
    assert_eq!(
        vec!["open a.txt ", "", "map normal x y"],
        config_commands("open a.txt # first\n# nothing\nmap normal x y\n")
    );
    assert_eq!(vec!["q"], config_commands("q"));
    assert_eq!(Vec::<String>::new(), config_commands(""));

    let mut editor = Editor::new(String::from("/work"));
    let mut clients = ClientCollection::new();
    editor.load_config(
        &mut clients,
        "# settings\nopen notes.txt\nmap insert jj <esc>\nlsp *.rs ra # server\nquit\n",
    );
    assert!(editor.mode.kind == ModeKind::Normal);
    assert_eq!(1, editor.keymaps.maps.len());
    assert_eq!(1, editor.lsp.recipes.len());
    assert_eq!("notes.txt", editor.buffers.get(BufferHandle(0)).unwrap().path());
}

#[test]
fn a_new_size_is_noted_for_the_client() {
    let (mut editor, mut platform, mut clients) = setup();
    let r = editor.on_event(
        &mut platform,
        &mut clients,
        TargetClient::Local,
        ClientEvent::Resize(TargetClient::Local, 80, 24),
    );
    assert!(r == EditorLoop::Continue);
    let data = clients.get(TargetClient::Local).unwrap();
    assert_eq!((80, 24), (data.viewport_width, data.viewport_height));
}

#[test]
fn a_picked_place_may_name_a_line_and_a_column() {
    let at = |line, column| Some(BufferPosition::line_col(line, column));
    assert_eq!((String::from("src/a.rs"), at(11, 3)), split_path_and_position("src/a.rs:12,4"));
    assert_eq!((String::from("src/a.rs"), at(11, 0)), split_path_and_position("src/a.rs:12"));
    assert_eq!((String::from("src/a.rs"), at(0, 0)), split_path_and_position("src/a.rs:0,0"));
    assert_eq!((String::from("src/a.rs"), None), split_path_and_position("src/a.rs"));
    assert_eq!((String::from("src/a.rs:12,"), None), split_path_and_position("src/a.rs:12,"));
    assert_eq!((String::from("src/a.rs:,4"), None), split_path_and_position("src/a.rs:,4"));
    assert_eq!((String::from("src/a.rs:1,x"), None), split_path_and_position("src/a.rs:1,x"));
    assert_eq!((String::from("a:"), None), split_path_and_position("a:"));

    let (mut editor, mut platform, mut clients) = setup();
    editor.picker.clear();
    editor.picker.add_custom_entry("lib.rs:7,3", "");
    pepper::mode::picker::enter_definition_mode(&mut editor);
    assert!(editor.mode.kind == ModeKind::Picker);
    press_all(&mut editor, &mut platform, &mut clients, &[Key::Enter]);
    assert!(editor.mode.kind == ModeKind::Normal);
    let focus = editor.focus(&clients, TargetClient::Local).unwrap();
    assert_eq!("lib.rs", editor.buffers.get(focus.buffer).unwrap().path());
    assert_eq!(BufferPosition::line_col(6, 2), focus.cursor.position);
    assert_eq!(BufferPosition::line_col(6, 2), focus.cursor.anchor);
}

#[test]
fn the_picker_goes_to_either_end() {
    let (mut editor, mut platform, mut clients) = setup();
    editor.picker.clear();
    for name in ["a", "b", "c", "d"] {
        editor.picker.add_custom_entry(name, "");
    }
    pepper::mode::picker::enter_definition_mode(&mut editor);
    press_all(&mut editor, &mut platform, &mut clients, &[Key::End]);
    assert_eq!(3, editor.picker.cursor());
    press_all(&mut editor, &mut platform, &mut clients, &[Key::Up, Key::Ctrl('p')]);
    assert_eq!(1, editor.picker.cursor());
    press_all(&mut editor, &mut platform, &mut clients, &[Key::Home]);
    assert_eq!(0, editor.picker.cursor());
    press_all(&mut editor, &mut platform, &mut clients, &[Key::Ctrl('e'), Key::Down]);
    assert_eq!(3, editor.picker.cursor());
    press_all(&mut editor, &mut platform, &mut clients, &[Key::Ctrl('b'), Key::Up]);
    assert_eq!(0, editor.picker.cursor());
}

#[test]
fn select_mode_moves_and_removes_the_selection() {
    let (mut editor, mut platform, mut clients) = setup();
    let focus = editor.focus(&clients, TargetClient::Local).unwrap();
    editor.load_buffer(focus.buffer, "hello\nworld");
    editor.buffer_views.set_cursor(focus.view, pepper::cursor::Cursor::zero());
    press_all(
        &mut editor,
        &mut platform,
        &mut clients,
        &[Key::Char('v'), Key::Char('l'), Key::Char('l'), Key::Char('l')],
    );
    assert!(editor.mode.kind == ModeKind::Select);
    let cursor = editor.focus(&clients, TargetClient::Local).unwrap().cursor;
    assert_eq!(BufferPosition::line_col(0, 0), cursor.anchor);
    assert_eq!(BufferPosition::line_col(0, 3), cursor.position);

    press_all(&mut editor, &mut platform, &mut clients, &[Key::Char('j'), Key::Char('l'), Key::Char('l'), Key::Char('l')]);
    let cursor = editor.focus(&clients, TargetClient::Local).unwrap().cursor;
    assert_eq!(BufferPosition::line_col(1, 5), cursor.position);
    press_all(&mut editor, &mut platform, &mut clients, &[Key::Char('k'), Key::Char('h'), Key::Char('o')]);
    let cursor = editor.focus(&clients, TargetClient::Local).unwrap().cursor;
    assert_eq!(BufferPosition::line_col(0, 4), cursor.anchor);
    assert_eq!(BufferPosition::line_col(0, 0), cursor.position);

    press_all(&mut editor, &mut platform, &mut clients, &[Key::Char('d')]);
    assert!(editor.mode.kind == ModeKind::Normal);
    assert_eq!("o\nworld", text_of(&editor, 0));
    let cursor = editor.focus(&clients, TargetClient::Local).unwrap().cursor;
    assert_eq!(BufferPosition::line_col(0, 0), cursor.anchor);
    assert_eq!(BufferPosition::line_col(0, 0), cursor.position);
    press_all(&mut editor, &mut platform, &mut clients, &[Key::Char('u')]);
    assert_eq!("hello\nworld", text_of(&editor, 0));
}

#[test]
fn select_mode_pastes_over_the_selection() {
    use_select(|editor, clients| {
        let r = pepper::mode::select::on_key(editor, clients, TargetClient::Local, Key::Char('p'), Some("HEY"));
        assert!(r == pepper::mode::ModeOperation::EnterMode(ModeKind::Normal));
        assert_eq!("HEYlo", text_of(editor, 0));
        let cursor = editor.focus(clients, TargetClient::Local).unwrap().cursor;
        assert_eq!(BufferPosition::line_col(0, 3), cursor.position);
    });
    use_select(|editor, clients| {
        let r = pepper::mode::select::on_key(editor, clients, TargetClient::Local, Key::Char('p'), None);
        assert!(r == pepper::mode::ModeOperation::EnterMode(ModeKind::Normal));
        assert_eq!("lo", text_of(editor, 0));
    });
    use_select(|editor, clients| {
        let r = pepper::mode::select::on_key(editor, clients, TargetClient::Local, Key::Esc, None);
        assert!(r == pepper::mode::ModeOperation::EnterMode(ModeKind::Normal));
        assert_eq!("hello", text_of(editor, 0));
        let cursor = editor.focus(clients, TargetClient::Local).unwrap().cursor;
        assert_eq!(cursor.anchor, cursor.position);
        assert_eq!(BufferPosition::line_col(0, 3), cursor.position);
    });
    use_select(|editor, clients| {
        let r = pepper::mode::select::on_key(editor, clients, TargetClient::Local, Key::Char(':'), None);
        assert!(r == pepper::mode::ModeOperation::EnterMode(ModeKind::Command));
        let r = pepper::mode::select::on_key(editor, clients, TargetClient::Local, Key::Char('x'), None);
        assert!(r == pepper::mode::ModeOperation::Handled);
        assert_eq!("hello", text_of(editor, 0));
    });
    let mut editor = Editor::new(String::from("/work"));
    let mut clients = ClientCollection::new();
    let r = pepper::mode::select::on_key(&mut editor, &mut clients, TargetClient::Local, Key::Char('l'), None);
    assert!(r == pepper::mode::ModeOperation::EnterMode(ModeKind::Normal));
}

fn use_select(test: impl Fn(&mut Editor, &mut ClientCollection)) {
    let (mut editor, _, mut clients) = setup();
    let focus = editor.focus(&clients, TargetClient::Local).unwrap();
    editor.load_buffer(focus.buffer, "hello");
    editor.buffer_views.set_cursor(
        focus.view,
        pepper::cursor::Cursor {
            anchor: BufferPosition::line_col(0, 0),
            position: BufferPosition::line_col(0, 3),
        },
    );
    test(&mut editor, &mut clients);
}

#[test]
fn a_buffer_takes_the_text_of_its_file() {
    let (mut editor, _, clients) = setup();
    let focus = editor.focus(&clients, TargetClient::Local).unwrap();
    assert!(editor.load_buffer(focus.buffer, "from\nthe file\n"));
    let buffer = editor.buffers.get(focus.buffer).unwrap();
    assert_eq!("from\nthe file\n", buffer.content.to_text());
    assert!(!buffer.needs_save());
    assert!(!editor.load_buffer(BufferHandle(9), "x"));
    assert!(editor.undo(focus.buffer));
    assert_eq!("from\nthe file\n", text_of(&editor, 0));
}

#[test]
fn paths_are_completed_from_the_directory_that_is_listed() {
    let (mut editor, mut platform, mut clients) = setup();
    let typed: Vec<Key> = ":open src/ma".chars().map(Key::Char).collect();
    press_all(&mut editor, &mut platform, &mut clients, &typed);
    assert_eq!(vec!["", "src/"], editor.completion_requests);
    assert_eq!(0, editor.picker.len());
    let names = vec![String::from("lib.rs"), String::from("main.rs"), String::from("map.rs")];
    editor.completion_requests.clear();
    pepper::mode::command::set_path_completions(&mut editor, &names);
    assert_eq!(2, editor.picker.len());
    press_all(&mut editor, &mut platform, &mut clients, &[Key::Char('i')]);
    assert!(editor.completion_requests.is_empty());
    assert_eq!(1, editor.picker.len());
    assert_eq!("main.rs", editor.picker.current_entry().unwrap().1);
    press_all(&mut editor, &mut platform, &mut clients, &[Key::Ctrl('n')]);
    assert_eq!("open src/main.rs", editor.read_line.input());
    press_all(&mut editor, &mut platform, &mut clients, &[Key::Esc]);
    pepper::mode::command::set_path_completions(&mut editor, &names);
    assert_eq!(0, editor.picker.len());
    assert_eq!(pepper::text::hash_bytes(b""), 0xcbf2_9ce4_8422_2325);
    assert_eq!(pepper::text::hash_bytes(b"a"), 0xaf63_dc4c_8601_ec8c);
}
