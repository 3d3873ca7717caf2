//! Command mode: a command line is read, with completions, and run.

use crate::client_collection::ClientCollection;
use crate::command::{
    command_name, command_named, completion_of, eval_answer, eval_effect, is_blank, strip_force,
    tokens_of, CommandManager, CommandOperation,
};
use crate::connection::TargetClient;
use crate::editor::{
    line_typed, pasted_for, pasted_view, poll_of, Editor, KeysIterator, ReadLinePoll,
};
use crate::mode::{Mode, ModeKind, ModeOperation};
use crate::picker::is_ranking;
use crate::platform::Key;
use crate::text::{chars_of, hash_of, views};
use vstd::utf8::encode_utf8;
use vstd::prelude::*;

verus! {

/// Whether the command line walks through earlier commands or is being typed.
#[derive(Clone, Copy, PartialEq, Eq, Structural)]
pub enum ReadCommandState {
    NavigatingHistory(usize),
    TypingCommand,
}

/// Where the completions of the argument under the cursor come from.
#[derive(Clone, Copy, PartialEq, Eq, Structural)]
pub enum CompletionSource {
    Commands,
    Buffers,
    Files,
    /// The words that the command at this place of the command table offers
    /// for its argument at this place.
    Custom(usize, usize),
    /// Nothing to complete.
    Nothing,
}

/// What command mode keeps between keys.
pub struct State {
    pub read_state: ReadCommandState,
    pub completion_index: usize,
    pub completion_source: CompletionSource,
    pub completion_path_hash: Option<u64>,
}

impl State {
    pub fn new() -> (r: Self)
        ensures
            r.read_state == ReadCommandState::TypingCommand,
            r.completion_index == 0,
            r.completion_source == CompletionSource::Nothing,
            r.completion_path_hash is None,
    {
        State {
            read_state: ReadCommandState::TypingCommand,
            completion_index: 0,
            completion_source: CompletionSource::Nothing,
            completion_path_hash: None,
        }
    }
}

impl Default for State {
    fn default() -> (r: Self)
        ensures
            r.read_state == ReadCommandState::TypingCommand,
            r.completion_index == 0,
            r.completion_source == CompletionSource::Nothing,
            r.completion_path_hash is None,
    {
        State::new()
    }
}

/// The place in a command line where its last word begins: behind its last
/// blank.
pub open spec fn last_word_start(input: Seq<char>) -> int
    decreases input.len(),
{
    if input.len() == 0 || is_blank(input.last()) {
        input.len() as int
    } else {
        last_word_start(input.drop_last())
    }
}

/// The place of the argument that is being typed at the end of a command
/// line, counted from zero; `-1` while the name of the command is typed.
pub open spec fn typed_argument(input: Seq<char>) -> int {
    let words = tokens_of(input).len();
    if input.len() > 0 && is_blank(input.last()) {
        words - 1
    } else {
        words - 2
    }
}

/// Where the completions for the end of a command line come from: the
/// names of the commands while the name is typed, and then what the command
/// says of the argument that is typed.
pub open spec fn source_of(input: Seq<char>) -> CompletionSource {
    if tokens_of(input).len() == 0 {
        CompletionSource::Nothing
    } else if typed_argument(input) < 0 {
        CompletionSource::Commands
    } else {
        match command_named(command_name(tokens_of(input)[0])) {
            Some(kind) => completion_of(kind, typed_argument(input)),
            None => CompletionSource::Nothing,
        }
    }
}

/// The place in a command line from which a completion replaces the line:
/// where the last word begins, or, where paths are completed, behind the
/// last slash of that word.
pub open spec fn completion_start(input: Seq<char>) -> int {
    let start = last_word_start(input);
    if source_of(input) == CompletionSource::Files {
        let slash = crate::text::last_index_of(input.skip(start), '/');
        start + slash + 1
    } else {
        start
    }
}

/// The paths of the first `count` buffers.
pub open spec fn buffer_paths(buffers: Seq<Option<crate::buffer::Buffer>>, count: int) -> Seq<
    Seq<char>,
>
    decreases count,
{
    if count <= 0 || count > buffers.len() {
        Seq::empty()
    } else {
        match buffers[count - 1] {
            Some(buffer) => buffer_paths(buffers, count - 1).push(buffer.path@),
            None => buffer_paths(buffers, count - 1),
        }
    }
}

/// The words that a source of completions offers. The files of a directory
/// are not known to the editor: whoever runs it adds them to the picker.
pub open spec fn source_names(editor: &Editor, source: CompletionSource) -> Seq<Seq<char>> {
    match source {
        CompletionSource::Commands => crate::command::command_names(),
        CompletionSource::Buffers => buffer_paths(
            editor.buffers.buffers@,
            editor.buffers.buffers@.len() as int,
        ),
        CompletionSource::Custom(command, argument) => if command == 6 && argument == 0 {
            crate::command::mode_names()
        } else {
            Seq::empty()
        },
        _ => Seq::empty(),
    }
}

/// The directory whose files complete the end of a command line: what
/// stands between the start of the last word and the place from which a
/// completion replaces the line.
pub open spec fn completion_parent(input: Seq<char>) -> Seq<char> {
    input.subrange(last_word_start(input), completion_start(input))
}

/// The hash of the directory whose files the picker holds, once the source
/// of the completions is known: none where the source has changed.
pub open spec fn held_path_hash(editor: &Editor, source: CompletionSource) -> Option<u64> {
    if editor.mode.command_state.completion_source != source {
        None
    } else {
        editor.mode.command_state.completion_path_hash
    }
}

/// Whether the files of a directory are to be listed anew: paths are
/// completed, and the picker does not hold the files of that directory.
pub open spec fn lists_anew(editor: &Editor) -> bool {
    let input = editor.read_line.input_text();
    let source = source_of(input);
    tokens_of(input).len() > 0 && source == CompletionSource::Files && held_path_hash(
        editor,
        source,
    ) != Some(hash_of(encode_utf8(completion_parent(input))))
}

/// The completions were brought up to date with the command line: the
/// mode knows where they come from and what they replace; where they come
/// from elsewhere than before, the picker holds the words of the new
/// source; and the picker ranks its words against the end of the line.
/// Where paths are completed in another directory than before, the picker
/// is emptied and the directory is queued to be listed. A line without
/// words walks the history again.
pub open spec fn completions_updated(e0: &Editor, e1: &Editor) -> bool {
    let input = e0.read_line.input_text();
    let source = source_of(input);
    let start = completion_start(input);
    &&& *e1 == (Editor {
        mode: e1.mode,
        picker: e1.picker,
        completion_requests: e1.completion_requests,
        ..*e0
    })
    &&& e1.mode == (Mode { command_state: e1.mode.command_state, ..e0.mode })
    &&& e1.mode.command_state.completion_source == source
    &&& e1.mode.command_state.completion_index == start
    &&& e1.mode.command_state.read_state == if tokens_of(input).len() == 0 {
        ReadCommandState::NavigatingHistory(e0.commands.history@.len() as usize)
    } else {
        ReadCommandState::TypingCommand
    }
    &&& views(e1.completion_requests@) == if lists_anew(e0) {
        views(e0.completion_requests@).push(completion_parent(input))
    } else {
        views(e0.completion_requests@)
    }
    &&& if tokens_of(input).len() == 0 {
        &&& e1.picker.names().len() == 0
        &&& e1.picker.filtered().len() == 0
        &&& e1.mode.command_state.completion_path_hash
            == e0.mode.command_state.completion_path_hash
    } else {
        &&& e1.mode.command_state.completion_path_hash == if source == CompletionSource::Files {
            Some(hash_of(encode_utf8(completion_parent(input))))
        } else {
            held_path_hash(e0, source)
        }
        &&& e1.picker.names() == if lists_anew(e0) {
            Seq::<Seq<char>>::empty()
        } else if e0.mode.command_state.completion_source != source {
            source_names(e0, source)
        } else {
            e0.picker.names()
        }
        &&& is_ranking(
            e1.picker.names(),
            e1.picker.names().len() as int,
            input.skip(start),
            e1.picker.filtered(),
            true,
        )
    }
}

/// The picker holds the files of the directory that was listed, ranked
/// against the end of the command line. Nothing happens where the editor
/// does not complete paths.
pub open spec fn path_completions_set(e0: &Editor, e1: &Editor, names: Seq<Seq<char>>) -> bool {
    if e0.mode.kind == ModeKind::Command && e0.mode.command_state.completion_source
        == CompletionSource::Files {
        let input = e0.read_line.input_text();
        let from = if e0.mode.command_state.completion_index < input.len() {
            e0.mode.command_state.completion_index as int
        } else {
            input.len() as int
        };
        &&& *e1 == (Editor { picker: e1.picker, ..*e0 })
        &&& e1.picker.names() == names
        &&& is_ranking(e1.picker.names(), names.len() as int, input.skip(from), e1.picker.filtered(), true)
    } else {
        *e1 == *e0
    }
}

/// The cursor of the picker was moved by `movement`, and the entry under it
/// now replaces the end of the command line, from where completions go.
pub open spec fn completion_applied(e0: &Editor, e1: &Editor, movement: int) -> bool {
    let count = e0.picker.filtered().len();
    let kept = if e0.mode.command_state.completion_index < e0.read_line.input_text().len() {
        e0.mode.command_state.completion_index as int
    } else {
        e0.read_line.input_text().len() as int
    };
    &&& *e1 == (Editor { read_line: e1.read_line, picker: e1.picker, ..*e0 })
    &&& e1.read_line.prompt_text() == e0.read_line.prompt_text()
    &&& e1.picker.names() == e0.picker.names()
    &&& e1.picker.descriptions() == e0.picker.descriptions()
    &&& e1.picker.filtered() == e0.picker.filtered()
    &&& e1.picker.scroll_index() == e0.picker.scroll_index()
    &&& if count > 0 {
        &&& e1.picker.cursor_index() == crate::picker::moved_cursor(
            e0.picker.cursor_index(),
            movement,
            count as int,
        )
        &&& e1.read_line.input_text() == e0.read_line.input_text().take(kept) + e0.picker.names()[e0.picker.filtered()[e1.picker.cursor_index()].entry_index as int]
    } else {
        e1.picker.cursor_index() == 0 && e1.read_line.input_text() == e0.read_line.input_text()
    }
}

/// The command line shows the command at the place `index` of those that
/// were run.
pub open spec fn history_shown(e0: &Editor, e1: &Editor, index: usize) -> bool {
    &&& *e1 == (Editor { mode: e1.mode, read_line: e1.read_line, ..*e0 })
    &&& e1.mode == (Mode {
        command_state: State {
            read_state: ReadCommandState::NavigatingHistory(index),
            ..e0.mode.command_state
        },
        ..e0.mode
    })
    &&& e1.read_line.prompt_text() == e0.read_line.prompt_text()
    &&& e1.read_line.input_text() == if index < e0.commands.history@.len() {
        e0.commands.history@[index as int]@
    } else {
        Seq::<char>::empty()
    }
}

/// Which way a key walks through the history or the completions: forward
/// for control-n and control-j, back for control-p and control-k.
pub open spec fn walk_of(key: Key) -> Option<int> {
    match key {
        Key::Ctrl(c) => if c == 'n' || c == 'j' {
            Some(1)
        } else if c == 'p' || c == 'k' {
            Some(-1)
        } else {
            None
        },
        _ => None,
    }
}

/// The place in the history that a step from `index` leads to.
pub open spec fn history_step(index: usize, step: int, count: nat) -> usize {
    if step > 0 {
        if count == 0 {
            0
        } else if index + 1 < count {
            (index + 1) as usize
        } else {
            (count - 1) as usize
        }
    } else if index > 0 {
        (index - 1) as usize
    } else {
        0
    }
}

/// What a key that neither submits nor cancels does in command mode: it is
/// applied to the command line; then a key that walks does so, through the
/// history while no command was typed and through the completions
/// otherwise, and any other key brings the completions up to date.
pub open spec fn command_typed(e0: &Editor, e1: &Editor, key: Key, pasted: Option<Seq<char>>) -> bool {
    exists|typed: Editor|
        #![trigger line_typed(e0, &typed, key, pasted)]
        line_typed(e0, &typed, key, pasted) && typed.well_formed() && match walk_of(key) {
            Some(step) => match e0.mode.command_state.read_state {
                ReadCommandState::NavigatingHistory(index) => history_shown(
                    &typed,
                    e1,
                    history_step(index, step, e0.commands.history@.len()),
                ),
                ReadCommandState::TypingCommand => completion_applied(&typed, e1, step),
            },
            None => completions_updated(&typed, e1),
        }
}

/// What the enter key does in command mode: the command line is noted in
/// the history and run.
pub open spec fn command_submitted(
    e0: &Editor,
    e1: &Editor,
    k0: &ClientCollection,
    k1: &ClientCollection,
    client: TargetClient,
) -> bool {
    let line = e0.read_line.input_text();
    exists|noted: Editor|
        #![trigger eval_effect(&noted, e1, k0, k1, client, tokens_of(line))]
        {
            &&& noted.well_formed()
            &&& noted == (Editor { commands: noted.commands, ..*e0 })
            &&& views(noted.commands.history@) == if line.len() == 0 || (e0.commands.history@.len()
                > 0 && e0.commands.history@.last()@ == line) {
                views(e0.commands.history@)
            } else {
                views(e0.commands.history@).push(line)
            }
            &&& eval_effect(&noted, e1, k0, k1, client, tokens_of(line))
        }
}

/// What command mode answers to a key: the enter key answers what the
/// command line asks for, or leads back to normal mode; the escape key
/// leads back to normal mode.
pub open spec fn command_answer(editor: &Editor, key: Key) -> ModeOperation {
    match poll_of(key) {
        ReadLinePoll::Pending => ModeOperation::Handled,
        ReadLinePoll::Canceled => ModeOperation::EnterMode(ModeKind::Normal),
        ReadLinePoll::Submitted => match eval_answer(editor, tokens_of(editor.read_line.input_text())) {
            Some(CommandOperation::Quit) => ModeOperation::Quit,
            Some(CommandOperation::QuitAll) => ModeOperation::QuitAll,
            None => ModeOperation::EnterMode(ModeKind::Normal),
        },
    }
}

/// What a key does in command mode.
pub open spec fn command_effect(
    e0: &Editor,
    e1: &Editor,
    k0: &ClientCollection,
    k1: &ClientCollection,
    client: TargetClient,
    key: Key,
    pasted: Option<Seq<char>>,
) -> bool {
    match poll_of(key) {
        ReadLinePoll::Pending => command_typed(e0, e1, key, pasted) && *k1 == *k0,
        ReadLinePoll::Submitted => command_submitted(e0, e1, k0, k1, client),
        ReadLinePoll::Canceled => *e1 == *e0 && *k1 == *k0,
    }
}

fn find_last_word_start(input: &Vec<char>) -> (r: usize)
    ensures
        r == last_word_start(input@),
        r <= input@.len(),
{
    let mut i = input.len();
    assert(input@.take(i as int) =~= input@);
    while i > 0 && !(input[i - 1] == ' ' || input[i - 1] == '\t')
        invariant
            0 <= i <= input.len(),
            last_word_start(input@) == last_word_start(input@.take(i as int)),
        decreases i,
    {
        assert(input@.take(i as int).drop_last() =~= input@.take(i - 1));
        i = i - 1;
    }
    i
}

fn fill_picker(editor: &mut Editor, source: CompletionSource)
    requires
        old(editor).well_formed(),
    ensures
        final(editor).well_formed(),
        *final(editor) == (Editor { picker: final(editor).picker, ..*old(editor) }),
        final(editor).picker.names() == source_names(old(editor), source),
{
    editor.picker.clear();
    assert(editor.picker.names() =~= Seq::<Seq<char>>::empty());
    match source {
        CompletionSource::Commands => {
            let names = crate::command::builtin_commands();
            add_entries(editor, &names);
        },
        CompletionSource::Buffers => {
            let mut i: usize = 0;
            while i < editor.buffers.buffers.len()
                invariant
                    0 <= i <= editor.buffers.buffers.len(),
                    editor.well_formed(),
                    *editor == (Editor { picker: editor.picker, ..*old(editor) }),
                    editor.picker.names() == buffer_paths(old(editor).buffers.buffers@, i as int),
                decreases editor.buffers.buffers.len() - i,
            {
                let path = match &editor.buffers.buffers[i] {
                    Some(buffer) => Some(buffer.path.clone()),
                    None => None,
                };
                match path {
                    Some(path) => {
                        proof {
                            reveal_strlit("");
                        }
                        editor.picker.add_custom_entry(path.as_str(), "");
                    },
                    None => {},
                }
                i = i + 1;
            }
        },
        CompletionSource::Custom(command, argument) => {
            let names = crate::command::custom_completions(command, argument);
            add_entries(editor, &names);
        },
        _ => {},
    }
}

fn add_entries(editor: &mut Editor, names: &Vec<String>)
    requires
        old(editor).well_formed(),
    ensures
        final(editor).well_formed(),
        *final(editor) == (Editor { picker: final(editor).picker, ..*old(editor) }),
        final(editor).picker.names() == old(editor).picker.names() + views(names@),
{
    let mut i: usize = 0;
    assert(editor.picker.names() =~= old(editor).picker.names() + views(names@).take(0));
    while i < names.len()
        invariant
            0 <= i <= names.len(),
            editor.well_formed(),
            *editor == (Editor { picker: editor.picker, ..*old(editor) }),
            editor.picker.names() == old(editor).picker.names() + views(names@).take(i as int),
        decreases names.len() - i,
    {
        proof {
            reveal_strlit("");
        }
        let ghost before = editor.picker.names();
        editor.picker.add_custom_entry(names[i].as_str(), "");
        i = i + 1;
        assert(editor.picker.names() =~= old(editor).picker.names() + views(names@).take(i as int));
    }
    assert(views(names@).take(names@.len() as int) =~= views(names@));
}

/// Brings the completions up to date with the command line.
pub fn update_autocomplete_entries(editor: &mut Editor)
    requires
        old(editor).well_formed(),
    ensures
        final(editor).well_formed(),
        completions_updated(old(editor), final(editor)),
{
    let input = chars_of(editor.read_line.input());
    let tokens = crate::command::tokenize(editor.read_line.input());
    if tokens.len() == 0 {
        editor.picker.clear();
        let start = find_last_word_start(&input);
        editor.mode.command_state.completion_index = start;
        editor.mode.command_state.completion_source = CompletionSource::Nothing;
        editor.mode.command_state.read_state = ReadCommandState::NavigatingHistory(
            editor.commands.history_len(),
        );
        return ;
    }
    assert(views(tokens@)[0] == tokens@[0]@);
    let ends_blank = input.len() > 0 && (input[input.len() - 1] == ' ' || input[input.len() - 1]
        == '\t');
    let naming = !ends_blank && tokens.len() == 1;
    let source = if naming {
        CompletionSource::Commands
    } else {
        let argument = if ends_blank {
            tokens.len() - 1
        } else {
            tokens.len() - 2
        };
        let (name, _) = strip_force(tokens[0].as_str());
        match crate::command::find_command(name.as_str()) {
            Some(kind) => crate::command::completion_source(kind, argument),
            None => CompletionSource::Nothing,
        }
    };
    let word_start = find_last_word_start(&input);
    let mut start = word_start;
    match source {
        CompletionSource::Files => {
            let word = slice_chars(&input, start);
            match crate::text::find_last(&word, '/') {
                Some(slash) => {
                    start = start + slash + 1;
                },
                None => {},
            }
        },
        _ => {},
    }
    if editor.mode.command_state.completion_source != source {
        editor.mode.command_state.completion_path_hash = None;
        fill_picker(editor, source);
    }
    match source {
        CompletionSource::Files => {
            let parent = crate::text::string_of(
                vstd::slice::slice_subrange(input.as_slice(), word_start, start),
            );
            assert(parent@ =~= completion_parent(editor.read_line.input_text()));
            let hash = crate::text::hash_bytes(parent.as_str().as_bytes());
            if editor.mode.command_state.completion_path_hash != Some(hash) {
                editor.picker.clear();
                assert(editor.picker.names() =~= Seq::<Seq<char>>::empty());
                editor.mode.command_state.completion_path_hash = Some(hash);
                let ghost queued = views(editor.completion_requests@);
                editor.completion_requests.push(parent);
                assert(views(editor.completion_requests@) =~= queued.push(parent@));
            }
        },
        _ => {},
    }
    editor.mode.command_state.read_state = ReadCommandState::TypingCommand;
    editor.mode.command_state.completion_source = source;
    editor.mode.command_state.completion_index = start;
    let pattern = crate::text::string_of(slice_chars(&input, start).as_slice());
    editor.picker.filter(pattern.as_str());
}

fn slice_chars(input: &Vec<char>, from: usize) -> (r: Vec<char>)
    requires
        from <= input.len(),
    ensures
        r@ == input@.skip(from as int),
{
    let mut out: Vec<char> = Vec::new();
    let mut i = from;
    while i < input.len()
        invariant
            from <= i <= input.len(),
            out@ == input@.subrange(from as int, i as int),
        decreases input.len() - i,
    {
        out.push(input[i]);
        i = i + 1;
        assert(out@ =~= input@.subrange(from as int, i as int));
    }
    assert(out@ =~= input@.skip(from as int));
    out
}

/// Moves the cursor of the picker and puts the entry under it at the end
/// of the command line.
pub fn apply_completion(editor: &mut Editor, cursor_movement: isize)
    requires
        old(editor).well_formed(),
    ensures
        final(editor).well_formed(),
        completion_applied(old(editor), final(editor), cursor_movement as int),
{
    editor.picker.move_cursor(cursor_movement);
    proof {
        editor.picker.lemma_cursor_within();
    }
    let completed = match editor.picker.current_entry() {
        Some((_, name, _)) => {
            let input = editor.read_line.input();
            let length = input.unicode_len();
            let kept = if editor.mode.command_state.completion_index < length {
                editor.mode.command_state.completion_index
            } else {
                length
            };
            let mut line = crate::text::substring(input, 0, kept);
            line.append(name);
            assert(line@ =~= input@.take(kept as int) + name@);
            Some(line)
        },
        None => None,
    };
    match completed {
        Some(line) => {
            editor.read_line.set_input(line.as_str());
        },
        None => {},
    }
}

/// Handles a key in command mode, with `pasted` as what the clipboard
/// holds.
pub fn on_key(
    editor: &mut Editor,
    clients: &mut ClientCollection,
    client: TargetClient,
    key: Key,
    pasted: Option<&str>,
) -> (r: ModeOperation)
    requires
        old(editor).well_formed(),
    ensures
        final(editor).well_formed(),
        final(editor).buffered_keys == old(editor).buffered_keys,
        r == command_answer(old(editor), key),
        command_effect(
            old(editor),
            final(editor),
            old(clients),
            final(clients),
            client,
            key,
            pasted_view(pasted),
        ),
{
    match editor.read_line.apply_key(key, pasted) {
        ReadLinePoll::Pending => {
            let ghost typed = *editor;
            assert(line_typed(old(editor), &typed, key, pasted_view(pasted)));
            let walk: Option<isize> = match key {
                Key::Ctrl(c) => {
                    if c == 'n' || c == 'j' {
                        Some(1)
                    } else if c == 'p' || c == 'k' {
                        Some(-1)
                    } else {
                        None
                    }
                },
                _ => None,
            };
            match walk {
                Some(step) => match editor.mode.command_state.read_state {
                    ReadCommandState::NavigatingHistory(index) => {
                        let count = editor.commands.history_len();
                        let next = if step > 0 {
                            if count == 0 {
                                0
                            } else if index < count - 1 {
                                index + 1
                            } else {
                                count - 1
                            }
                        } else if index > 0 {
                            index - 1
                        } else {
                            0
                        };
                        editor.mode.command_state.read_state = ReadCommandState::NavigatingHistory(
                            next,
                        );
                        let entry = String::from_str(editor.commands.history_entry(next));
                        editor.read_line.set_input(entry.as_str());
                    },
                    ReadCommandState::TypingCommand => {
                        apply_completion(editor, step);
                    },
                },
                None => {
                    update_autocomplete_entries(editor);
                },
            }
            ModeOperation::Handled
        },
        ReadLinePoll::Canceled => ModeOperation::EnterMode(ModeKind::Normal),
        ReadLinePoll::Submitted => {
            let line = String::from_str(editor.read_line.input());
            editor.commands.add_to_history(line.as_str());
            let ghost noted = *editor;
            let operation = CommandManager::eval(editor, clients, client, line.as_str());
            assert(eval_effect(&noted, editor, old(clients), clients, client, tokens_of(line@)));
            match operation {
                Some(CommandOperation::Quit) => ModeOperation::Quit,
                Some(CommandOperation::QuitAll) => ModeOperation::QuitAll,
                None => ModeOperation::EnterMode(ModeKind::Normal),
            }
        },
    }
}

/// Command mode has handled the key at the place `at0`, is at the place
/// `at1` now, and answers `r`: the editor is as `on_key` leaves it for some
/// outcome of reading the clipboard, which is read for the key that pastes
/// only. Nothing happens behind the last key.
pub open spec fn keys_handled(
    e0: &Editor,
    e1: &Editor,
    k0: &ClientCollection,
    k1: &ClientCollection,
    client: TargetClient,
    at0: int,
    at1: int,
    r: ModeOperation,
) -> bool {
    if at0 >= e0.buffered_keys.0@.len() {
        r == ModeOperation::Handled && *e1 == *e0 && *k1 == *k0 && at1 == at0
    } else {
        let key = e0.buffered_keys.0@[at0];
        &&& at1 == at0 + 1
        &&& r == command_answer(e0, key)
        &&& exists|pasted: Option<Seq<char>>|
            #![trigger command_effect(e0, e1, k0, k1, client, key, pasted)]
            (key != Key::Ctrl('y') ==> pasted is None) && command_effect(
                e0,
                e1,
                k0,
                k1,
                client,
                key,
                pasted,
            )
    }
}

/// Handles the next key in command mode. The clipboard is read for the key
/// that pastes, so the editor ends up as `on_key` leaves it for some
/// outcome of the reading.
pub fn on_client_keys(
    editor: &mut Editor,
    clients: &mut ClientCollection,
    client: TargetClient,
    keys: &mut KeysIterator,
) -> (r: ModeOperation)
    requires
        old(editor).well_formed(),
    ensures
        final(editor).well_formed(),
        final(editor).buffered_keys == old(editor).buffered_keys,
        keys_handled(
            old(editor),
            final(editor),
            old(clients),
            final(clients),
            client,
            old(keys).position(),
            final(keys).position(),
            r,
        ),
{
    proof {
        keys.lemma_position();
    }
    if keys.index() >= editor.buffered_keys.0.len() {
        return ModeOperation::Handled;
    }
    let key = keys.next(&editor.buffered_keys);
    let pasted = pasted_for(key);
    match &pasted {
        Some(text) => {
            let r = on_key(editor, clients, client, key, Some(text.as_str()));
            assert(command_effect(old(editor), editor, old(clients), clients, client, key, Some(text@)));
            r
        },
        None => {
            let r = on_key(editor, clients, client, key, None);
            assert(command_effect(old(editor), editor, old(clients), clients, client, key, None));
            r
        },
    }
}

/// Puts the files of the directory that was listed into the picker, and
/// ranks them against the end of the command line.
pub fn set_path_completions(editor: &mut Editor, names: &Vec<String>)
    requires
        old(editor).well_formed(),
    ensures
        final(editor).well_formed(),
        path_completions_set(old(editor), final(editor), views(names@)),
{
    match (editor.mode.kind, editor.mode.command_state.completion_source) {
        (ModeKind::Command, CompletionSource::Files) => {},
        _ => {
            return ;
        },
    }
    editor.picker.clear();
    assert(editor.picker.names() =~= Seq::<Seq<char>>::empty());
    add_entries(editor, names);
    assert(editor.picker.names() =~= views(names@));
    let input = chars_of(editor.read_line.input());
    let from = if editor.mode.command_state.completion_index < input.len() {
        editor.mode.command_state.completion_index
    } else {
        input.len()
    };
    let pattern = crate::text::string_of(slice_chars(&input, from).as_slice());
    editor.picker.filter(pattern.as_str());
}

} // verus!
