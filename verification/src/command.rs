//! Command lines: how they are split into words, which commands there are,
//! and what each of them does.

use crate::buffer::Buffer;
use crate::client_collection::ClientCollection;
use crate::connection::TargetClient;
use crate::cursor::Cursor;
use crate::editor::{shown_at, tables_full, Editor, StatusMessageKind};
use crate::glob::compiled;
use crate::keymap::{parse_keys, parsed_keys};
use crate::lsp::manager::{recipe_holds, recipe_of_command};
use crate::lsp::responses::status_shown;
use crate::mode::command::CompletionSource;
use crate::mode::ModeKind;
use crate::platform::Key;
use crate::text::{chars_of, same_text, views};
use vstd::prelude::*;
use vstd::utf8::encode_utf8;

verus! {

/// What a command asks of the loop that runs the editor.
#[derive(Clone, Copy, PartialEq, Eq, Structural)]
pub enum CommandOperation {
    /// The client is to leave.
    Quit,
    /// All clients are to leave.
    QuitAll,
}

/// A file of commands that is to be read and run.
pub struct SourceRequest {
    pub path: String,
    /// Whether it is an error that the file is missing.
    pub required: bool,
}

pub struct SourceRequestView {
    pub path: Seq<char>,
    pub required: bool,
}

impl View for SourceRequest {
    type V = SourceRequestView;

    open spec fn view(&self) -> SourceRequestView {
        SourceRequestView { path: self.path@, required: self.required }
    }
}

/// The views of a list of requests.
pub open spec fn source_views(requests: Seq<SourceRequest>) -> Seq<SourceRequestView> {
    Seq::new(requests.len(), |i: int| requests[i]@)
}

/// The commands of the editor.
#[derive(Clone, Copy, PartialEq, Eq, Structural)]
pub enum CommandKind {
    Quit,
    QuitAll,
    Open,
    Source,
    TrySource,
    Lsp,
    MapKeys,
}

/// The command lines that were run, oldest first.
pub struct CommandManager {
    pub history: Vec<String>,
}

/// Whether a character separates the words of a command line.
pub open spec fn is_blank(c: char) -> bool {
    c == ' ' || c == '\t'
}

/// The place of the first blank at or behind `from`, or the length of the
/// text.
pub open spec fn word_end(text: Seq<char>, from: int) -> int
    decreases text.len() - from,
{
    if from < 0 || from >= text.len() || is_blank(text[from]) {
        from
    } else {
        word_end(text, from + 1)
    }
}

/// The place of the first single quote at or behind `from`, or the length
/// of the text.
pub open spec fn quote_end(text: Seq<char>, from: int) -> int
    decreases text.len() - from,
{
    if from < 0 || from >= text.len() || text[from] == '\'' {
        from
    } else {
        quote_end(text, from + 1)
    }
}

/// The words of the text from `from` on, behind `out`. Words are set apart
/// by blanks; a word that begins with a single quote runs to the next single
/// quote, blanks included, and is taken without the quotes.
pub open spec fn tokens_from(text: Seq<char>, from: int, out: Seq<Seq<char>>) -> Seq<Seq<char>>
    decreases text.len() - from,
{
    if from < 0 || from >= text.len() {
        out
    } else if is_blank(text[from]) {
        tokens_from(text, from + 1, out)
    } else if text[from] == '\'' {
        let end = quote_end(text, from + 1);
        if end <= from || end > text.len() {
            out
        } else if end == text.len() {
            out.push(text.subrange(from + 1, end))
        } else {
            tokens_from(text, end + 1, out.push(text.subrange(from + 1, end)))
        }
    } else {
        let end = word_end(text, from + 1);
        if end <= from || end > text.len() {
            out
        } else {
            tokens_from(text, end, out.push(text.subrange(from, end)))
        }
    }
}

/// The words of a command line.
pub open spec fn tokens_of(text: Seq<char>) -> Seq<Seq<char>> {
    tokens_from(text, 0, Seq::empty())
}

/// Whether the first word of a command line ends in `!`, which forces the
/// command.
pub open spec fn is_forced(word: Seq<char>) -> bool {
    word.len() > 0 && word.last() == '!'
}

/// The name of the command in the first word of a command line.
pub open spec fn command_name(word: Seq<char>) -> Seq<char> {
    if is_forced(word) {
        word.drop_last()
    } else {
        word
    }
}

/// The command that a name or its short form names.
pub open spec fn command_named(name: Seq<char>) -> Option<CommandKind> {
    if name == "quit"@ || name == "q"@ {
        Some(CommandKind::Quit)
    } else if name == "quit-all"@ || name == "qa"@ {
        Some(CommandKind::QuitAll)
    } else if name == "open"@ || name == "o"@ {
        Some(CommandKind::Open)
    } else if name == "source"@ {
        Some(CommandKind::Source)
    } else if name == "try-source"@ {
        Some(CommandKind::TrySource)
    } else if name == "lsp"@ {
        Some(CommandKind::Lsp)
    } else if name == "map"@ {
        Some(CommandKind::MapKeys)
    } else {
        None
    }
}

/// The mode that a name names.
pub open spec fn mode_named(name: Seq<char>) -> Option<ModeKind> {
    if name == "normal"@ {
        Some(ModeKind::Normal)
    } else if name == "insert"@ {
        Some(ModeKind::Insert)
    } else if name == "read-line"@ {
        Some(ModeKind::ReadLine)
    } else if name == "picker"@ {
        Some(ModeKind::Picker)
    } else if name == "command"@ {
        Some(ModeKind::Command)
    } else if name == "select"@ {
        Some(ModeKind::Select)
    } else {
        None
    }
}

/// Where the completions of the argument at the place `argument` of a
/// command come from.
pub open spec fn completion_of(kind: CommandKind, argument: int) -> CompletionSource {
    match kind {
        CommandKind::Open | CommandKind::Source | CommandKind::TrySource => if argument == 0 {
            CompletionSource::Files
        } else {
            CompletionSource::Nothing
        },
        CommandKind::MapKeys => if argument == 0 {
            CompletionSource::Custom(6, 0)
        } else {
            CompletionSource::Nothing
        },
        _ => CompletionSource::Nothing,
    }
}

/// Whether one of the first `count` buffers can be saved and has changes
/// that were not.
pub open spec fn has_unsaved(buffers: Seq<Option<Buffer>>, count: int) -> bool
    decreases count,
{
    if count <= 0 || count > buffers.len() {
        false
    } else {
        (buffers[count - 1] is Some && buffers[count - 1].unwrap().needs_save
            && buffers[count - 1].unwrap().capabilities.can_save) || has_unsaved(buffers, count - 1)
    }
}

/// What a command line asks of the loop that runs the editor: the commands
/// that quit ask for that, unless there are unsaved changes and the command
/// is not forced.
pub open spec fn eval_answer(editor: &Editor, tokens: Seq<Seq<char>>) -> Option<CommandOperation> {
    if tokens.len() == 0 {
        None
    } else {
        let may_quit = is_forced(tokens[0]) || !has_unsaved(
            editor.buffers.buffers@,
            editor.buffers.buffers@.len() as int,
        );
        match command_named(command_name(tokens[0])) {
            Some(CommandKind::Quit) => if may_quit {
                Some(CommandOperation::Quit)
            } else {
                None
            },
            Some(CommandKind::QuitAll) => if may_quit {
                Some(CommandOperation::QuitAll)
            } else {
                None
            },
            _ => None,
        }
    }
}

/// What is said when a command that quits finds unsaved changes.
pub open spec fn unsaved_message() -> Seq<char> {
    "there are unsaved changes in buffers. try appending a '!' to command name to force quit"@
}

/// What is said of a command line that names no command.
pub open spec fn unknown_message(name: Seq<char>) -> Seq<char> {
    "no such command '"@ + name + "'"@
}

/// The editor has one more file of commands to read.
pub open spec fn source_requested(e0: &Editor, e1: &Editor, path: Seq<char>, required: bool) -> bool {
    &&& *e1 == (Editor { source_requests: e1.source_requests, ..*e0 })
    &&& source_views(e1.source_requests@) == source_views(e0.source_requests@).push(
        SourceRequestView { path, required },
    )
}

/// The editor has a recipe that starts `command` for the files that the
/// pattern matches, in place of the first recipe for that command where
/// there was one.
pub open spec fn recipe_added(e0: &Editor, e1: &Editor, pattern: Seq<u8>, command: Seq<char>) -> bool {
    let i = recipe_of_command(e0.lsp.recipes@, command, 0);
    &&& *e1 == (Editor { lsp: e1.lsp, ..*e0 })
    &&& e1.lsp.entries == e0.lsp.entries
    &&& e1.lsp.recipes@.len() == if i < e0.lsp.recipes@.len() {
        e0.lsp.recipes@.len()
    } else {
        e0.lsp.recipes@.len() + 1
    }
    &&& forall|j: int|
        0 <= j < e0.lsp.recipes@.len() && j != i ==> e1.lsp.recipes@[j] == e0.lsp.recipes@[j]
    &&& recipe_holds(
        e1.lsp.recipes@[i],
        pattern,
        command,
        Seq::empty(),
        Seq::empty(),
        Seq::empty(),
    )
}

/// The editor has one more key map, behind the others.
pub open spec fn key_map_added(
    e0: &Editor,
    e1: &Editor,
    mode: ModeKind,
    from: Seq<Key>,
    to: Seq<Key>,
) -> bool {
    &&& *e1 == (Editor { keymaps: e1.keymaps, ..*e0 })
    &&& e1.keymaps.maps@.len() == e0.keymaps.maps@.len() + 1
    &&& e1.keymaps.maps@.drop_last() == e0.keymaps.maps@
    &&& e1.keymaps.maps@.last().mode == mode
    &&& e1.keymaps.maps@.last().from@ == from
    &&& e1.keymaps.maps@.last().to@ == to
}

/// What a command line does. `quit` and `quit-all` complain of unsaved
/// changes unless they are forced. `open` shows the buffer of a path to the
/// client. `source` and `try-source` ask for a file of commands to be read.
/// `lsp` adds a recipe that starts a language server for the files that a
/// glob matches. `map` adds a key map for a mode. What goes wrong is said on
/// the status bar.
pub open spec fn eval_effect(
    e0: &Editor,
    e1: &Editor,
    k0: &ClientCollection,
    k1: &ClientCollection,
    client: TargetClient,
    tokens: Seq<Seq<char>>,
) -> bool {
    if tokens.len() == 0 {
        *e1 == *e0 && *k1 == *k0
    } else {
        let name = command_name(tokens[0]);
        let failed = |message: Seq<char>|
            status_shown(e0, e1, StatusMessageKind::Error, message) && *k1 == *k0;
        match command_named(name) {
            None => failed(unknown_message(name)),
            Some(CommandKind::Quit) | Some(CommandKind::QuitAll) => if eval_answer(e0, tokens)
                is Some {
                *e1 == *e0 && *k1 == *k0
            } else {
                failed(unsaved_message())
            },
            Some(CommandKind::Open) => if tokens.len() < 2 {
                failed("missing argument"@)
            } else if k0.client(client) is Some && !tables_full(e0, tokens[1]) {
                shown_at(e0, e1, k0, k1, client, tokens[1], Cursor::at_zero())
            } else {
                failed("could not open buffer"@)
            },
            Some(CommandKind::Source) => if tokens.len() < 2 {
                failed("missing argument"@)
            } else {
                source_requested(e0, e1, tokens[1], true) && *k1 == *k0
            },
            Some(CommandKind::TrySource) => if tokens.len() < 2 {
                failed("missing argument"@)
            } else {
                source_requested(e0, e1, tokens[1], false) && *k1 == *k0
            },
            Some(CommandKind::Lsp) => if tokens.len() < 3 {
                failed("missing argument"@)
            } else if compiled(encode_utf8(tokens[1])) is None {
                failed("invalid glob"@)
            } else {
                recipe_added(e0, e1, encode_utf8(tokens[1]), tokens[2]) && *k1 == *k0
            },
            Some(CommandKind::MapKeys) => if tokens.len() < 4 {
                failed("missing argument"@)
            } else {
                match (
                    mode_named(tokens[1]),
                    parsed_keys(tokens[2], 0, Seq::empty()),
                    parsed_keys(tokens[3], 0, Seq::empty()),
                ) {
                    (None, _, _) => failed("no such mode"@),
                    (Some(mode), Some(from), Some(to)) => key_map_added(e0, e1, mode, from, to)
                        && *k1 == *k0,
                    _ => failed("invalid keys"@),
                }
            },
        }
    }
}

proof fn lemma_word_end_within(text: Seq<char>, from: int)
    requires
        0 <= from <= text.len(),
    ensures
        from <= word_end(text, from) <= text.len(),
    decreases text.len() - from,
{
    if from < text.len() && !is_blank(text[from]) {
        lemma_word_end_within(text, from + 1);
    }
}

proof fn lemma_quote_end_within(text: Seq<char>, from: int)
    requires
        0 <= from <= text.len(),
    ensures
        from <= quote_end(text, from) <= text.len(),
    decreases text.len() - from,
{
    if from < text.len() && text[from] != '\'' {
        lemma_quote_end_within(text, from + 1);
    }
}

fn find_word_end(text: &Vec<char>, from: usize) -> (r: usize)
    requires
        from <= text.len(),
    ensures
        r == word_end(text@, from as int),
        from <= r <= text.len(),
{
    let mut i = from;
    while i < text.len() && !(text[i] == ' ' || text[i] == '\t')
        invariant
            from <= i <= text.len(),
            word_end(text@, from as int) == word_end(text@, i as int),
        decreases text.len() - i,
    {
        i = i + 1;
    }
    i
}

fn find_quote_end(text: &Vec<char>, from: usize) -> (r: usize)
    requires
        from <= text.len(),
    ensures
        r == quote_end(text@, from as int),
        from <= r <= text.len(),
{
    let mut i = from;
    while i < text.len() && text[i] != '\''
        invariant
            from <= i <= text.len(),
            quote_end(text@, from as int) == quote_end(text@, i as int),
        decreases text.len() - i,
    {
        i = i + 1;
    }
    i
}

fn slice_text(text: &Vec<char>, from: usize, to: usize) -> (r: String)
    requires
        from <= to <= text.len(),
    ensures
        r@ == text@.subrange(from as int, to as int),
{
    let mut out = String::new();
    let mut i = from;
    while i < to
        invariant
            from <= i <= to <= text.len(),
            out@ == text@.subrange(from as int, i as int),
        decreases to - i,
    {
        out.push(text[i]);
        i = i + 1;
        assert(out@ =~= text@.subrange(from as int, i as int));
    }
    assert(out@ =~= text@.subrange(from as int, to as int));
    out
}

/// Splits a command line into its words.
pub fn tokenize(line: &str) -> (r: Vec<String>)
    ensures
        views(r@) == tokens_of(line@),
{
    let text = chars_of(line);
    let mut out: Vec<String> = Vec::new();
    let mut i: usize = 0;
    assert(views(out@) =~= Seq::<Seq<char>>::empty());
    while i < text.len()
        invariant
            0 <= i,
            text@ == line@,
            tokens_of(line@) == tokens_from(text@, i as int, views(out@)),
        decreases text.len() - i,
    {
        let c = text[i];
        let ghost before = views(out@);
        if c == ' ' || c == '\t' {
            i = i + 1;
        } else if c == '\'' {
            let end = find_quote_end(&text, i + 1);
            let word = slice_text(&text, i + 1, end);
            out.push(word);
            assert(views(out@) =~= before.push(text@.subrange(i + 1, end as int)));
            if end < text.len() {
                i = end + 1;
            } else {
                i = end;
            }
        } else {
            let end = find_word_end(&text, i + 1);
            let word = slice_text(&text, i, end);
            out.push(word);
            assert(views(out@) =~= before.push(text@.subrange(i as int, end as int)));
            i = end;
        }
    }
    out
}

/// The command that a name or its short form names.
pub fn find_command(name: &str) -> (r: Option<CommandKind>)
    ensures
        r == command_named(name@),
{
    if same_text(name, "quit") || same_text(name, "q") {
        Some(CommandKind::Quit)
    } else if same_text(name, "quit-all") || same_text(name, "qa") {
        Some(CommandKind::QuitAll)
    } else if same_text(name, "open") || same_text(name, "o") {
        Some(CommandKind::Open)
    } else if same_text(name, "source") {
        Some(CommandKind::Source)
    } else if same_text(name, "try-source") {
        Some(CommandKind::TrySource)
    } else if same_text(name, "lsp") {
        Some(CommandKind::Lsp)
    } else if same_text(name, "map") {
        Some(CommandKind::MapKeys)
    } else {
        None
    }
}

/// The mode that a name names.
pub fn find_mode(name: &str) -> (r: Option<ModeKind>)
    ensures
        r == mode_named(name@),
{
    if same_text(name, "normal") {
        Some(ModeKind::Normal)
    } else if same_text(name, "insert") {
        Some(ModeKind::Insert)
    } else if same_text(name, "read-line") {
        Some(ModeKind::ReadLine)
    } else if same_text(name, "picker") {
        Some(ModeKind::Picker)
    } else if same_text(name, "command") {
        Some(ModeKind::Command)
    } else if same_text(name, "select") {
        Some(ModeKind::Select)
    } else {
        None
    }
}

/// Where the completions of an argument of a command come from.
pub fn completion_source(kind: CommandKind, argument: usize) -> (r: CompletionSource)
    ensures
        r == completion_of(kind, argument as int),
{
    match kind {
        CommandKind::Open | CommandKind::Source | CommandKind::TrySource => {
            if argument == 0 {
                CompletionSource::Files
            } else {
                CompletionSource::Nothing
            }
        },
        CommandKind::MapKeys => {
            if argument == 0 {
                CompletionSource::Custom(6, 0)
            } else {
                CompletionSource::Nothing
            }
        },
        _ => CompletionSource::Nothing,
    }
}

/// The names of the commands, in the order of the table of commands.
pub open spec fn command_names() -> Seq<Seq<char>> {
    seq!["quit"@, "quit-all"@, "open"@, "source"@, "try-source"@, "lsp"@, "map"@]
}

/// The names of the modes.
pub open spec fn mode_names() -> Seq<Seq<char>> {
    seq!["normal"@, "insert"@, "read-line"@, "picker"@, "command"@, "select"@]
}

/// The names of the commands.
pub fn builtin_commands() -> (r: Vec<String>)
    ensures
        views(r@) == command_names(),
{
    let mut names: Vec<String> = Vec::new();
    names.push(String::from_str("quit"));
    names.push(String::from_str("quit-all"));
    names.push(String::from_str("open"));
    names.push(String::from_str("source"));
    names.push(String::from_str("try-source"));
    names.push(String::from_str("lsp"));
    names.push(String::from_str("map"));
    assert(views(names@) =~= command_names());
    names
}

/// The words that a command offers for one of its arguments: `map` offers
/// the names of the modes for its first.
pub fn custom_completions(command: usize, argument: usize) -> (r: Vec<String>)
    ensures
        views(r@) == if command == 6 && argument == 0 {
            mode_names()
        } else {
            Seq::<Seq<char>>::empty()
        },
{
    let mut names: Vec<String> = Vec::new();
    if command == 6 && argument == 0 {
        names.push(String::from_str("normal"));
        names.push(String::from_str("insert"));
        names.push(String::from_str("read-line"));
        names.push(String::from_str("picker"));
        names.push(String::from_str("command"));
        names.push(String::from_str("select"));
        assert(views(names@) =~= mode_names());
    } else {
        assert(views(names@) =~= Seq::<Seq<char>>::empty());
    }
    names
}

fn any_unsaved(editor: &Editor) -> (r: bool)
    ensures
        r == has_unsaved(editor.buffers.buffers@, editor.buffers.buffers@.len() as int),
{
    let mut i: usize = 0;
    let mut found = false;
    while i < editor.buffers.buffers.len()
        invariant
            0 <= i <= editor.buffers.buffers.len(),
            found == has_unsaved(editor.buffers.buffers@, i as int),
        decreases editor.buffers.buffers.len() - i,
    {
        match &editor.buffers.buffers[i] {
            Some(buffer) => {
                if buffer.needs_save && buffer.capabilities.can_save {
                    found = true;
                }
            },
            None => {},
        }
        i = i + 1;
    }
    found
}

/// The name of the command in the first word of a command line, and
/// whether the command is forced.
pub fn strip_force(word: &str) -> (r: (String, bool))
    ensures
        r.0@ == command_name(word@),
        r.1 == is_forced(word@),
{
    let length = word.unicode_len();
    if length > 0 && word.get_char(length - 1) == '!' {
        let name = crate::text::substring(word, 0, length - 1);
        assert(name@ =~= word@.drop_last());
        (name, true)
    } else {
        (String::from_str(word), false)
    }
}

impl CommandManager {
    pub fn new() -> (r: Self)
        ensures
            r.history@.len() == 0,
    {
        CommandManager { history: Vec::new() }
    }

    /// How many command lines were run.
    pub fn history_len(&self) -> (r: usize)
        ensures
            r == self.history@.len(),
    {
        self.history.len()
    }

    /// The command line at the place `index` of those that were run, or the
    /// empty line where there is none.
    pub fn history_entry(&self, index: usize) -> (r: &str)
        ensures
            r@ == if index < self.history@.len() {
                self.history@[index as int]@
            } else {
                Seq::<char>::empty()
            },
    {
        if index < self.history.len() {
            self.history[index].as_str()
        } else {
            proof {
                reveal_strlit("");
                assert(""@ =~= Seq::<char>::empty());
            }
            ""
        }
    }

    /// Notes a command line behind those that were run, unless it is empty
    /// or the line that was run last.
    pub fn add_to_history(&mut self, line: &str)
        ensures
            views(final(self).history@) == if line@.len() == 0 || (old(self).history@.len() > 0
                && old(self).history@.last()@ == line@) {
                views(old(self).history@)
            } else {
                views(old(self).history@).push(line@)
            },
    {
        if line.unicode_len() == 0 {
            return ;
        }
        let count = self.history.len();
        if count > 0 && same_text(self.history[count - 1].as_str(), line) {
            return ;
        }
        self.history.push(String::from_str(line));
        assert(views(self.history@) =~= views(old(self).history@).push(line@));
    }

    /// Runs a command line for a client.
    pub fn eval(
        editor: &mut Editor,
        clients: &mut ClientCollection,
        client: TargetClient,
        line: &str,
    ) -> (r: Option<CommandOperation>)
        requires
            old(editor).well_formed(),
        ensures
            final(editor).well_formed(),
            r == eval_answer(old(editor), tokens_of(line@)),
            eval_effect(
                old(editor),
                final(editor),
                old(clients),
                final(clients),
                client,
                tokens_of(line@),
            ),
    {
        let tokens = tokenize(line);
        if tokens.len() == 0 {
            return None;
        }
        assert(forall|i: int| 0 <= i < tokens@.len() ==> views(tokens@)[i] == tokens@[i]@);
        let (name, forced) = strip_force(tokens[0].as_str());
        let kind = match find_command(name.as_str()) {
            Some(kind) => kind,
            None => {
                let mut message = String::from_str("no such command '");
                message.append(name.as_str());
                message.append("'");
                editor.status_message.write_str(StatusMessageKind::Error, message.as_str());
                return None;
            },
        };
        match kind {
            CommandKind::Quit | CommandKind::QuitAll => {
                if forced || !any_unsaved(editor) {
                    match kind {
                        CommandKind::Quit => Some(CommandOperation::Quit),
                        _ => Some(CommandOperation::QuitAll),
                    }
                } else {
                    editor.status_message.write_str(
                        StatusMessageKind::Error,
                        "there are unsaved changes in buffers. try appending a '!' to command name to force quit",
                    );
                    None
                }
            },
            CommandKind::Open => {
                if tokens.len() < 2 {
                    editor.status_message.write_str(StatusMessageKind::Error, "missing argument");
                } else if !editor.show_path(clients, client, tokens[1].as_str(), Cursor::zero()) {
                    editor.status_message.write_str(
                        StatusMessageKind::Error,
                        "could not open buffer",
                    );
                }
                None
            },
            CommandKind::Source | CommandKind::TrySource => {
                if tokens.len() < 2 {
                    editor.status_message.write_str(StatusMessageKind::Error, "missing argument");
                } else {
                    let required = match kind {
                        CommandKind::Source => true,
                        _ => false,
                    };
                    let request = SourceRequest { path: tokens[1].clone(), required };
                    let ghost before = source_views(editor.source_requests@);
                    editor.source_requests.push(request);
                    assert(source_views(editor.source_requests@) =~= before.push(request@));
                }
                None
            },
            CommandKind::Lsp => {
                if tokens.len() < 3 {
                    editor.status_message.write_str(StatusMessageKind::Error, "missing argument");
                } else {
                    proof {
                        reveal_strlit("");
                        assert(""@ =~= Seq::<char>::empty());
                    }
                    match editor.lsp.add_recipe(
                        tokens[1].as_str().as_bytes(),
                        tokens[2].as_str(),
                        "",
                        None,
                        None,
                    ) {
                        Ok(()) => {},
                        Err(_) => {
                            editor.status_message.write_str(
                                StatusMessageKind::Error,
                                "invalid glob",
                            );
                        },
                    }
                }
                None
            },
            CommandKind::MapKeys => {
                if tokens.len() < 4 {
                    editor.status_message.write_str(StatusMessageKind::Error, "missing argument");
                    return None;
                }
                let mode = match find_mode(tokens[1].as_str()) {
                    Some(mode) => mode,
                    None => {
                        editor.status_message.write_str(StatusMessageKind::Error, "no such mode");
                        return None;
                    },
                };
                match (parse_keys(tokens[2].as_str()), parse_keys(tokens[3].as_str())) {
                    (Some(from), Some(to)) => {
                        editor.keymaps.add(mode, from, to);
                        assert(editor.keymaps.maps@.drop_last() =~= old(editor).keymaps.maps@);
                    },
                    _ => {
                        editor.status_message.write_str(StatusMessageKind::Error, "invalid keys");
                    },
                }
                None
            },
        }
    }
}

} // verus!
