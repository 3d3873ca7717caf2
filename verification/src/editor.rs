//! State that the editor keeps between key presses: the queue of keys being
//! handled, the line being read from the user, and the status message.

use crate::buffer::{Buffer, BufferCapabilities, BufferCollection};
use crate::buffer_position::{BufferPosition, BufferRange};
use crate::buffer_view::{BufferViewCollection, BufferViewHandle};
use crate::client_collection::ClientCollection;
use crate::command::{CommandManager, SourceRequest};
use crate::connection::TargetClient;
use crate::cursor::Cursor;
use crate::events::{BufferHandle, EditorEvent, EditorEventQueue, EditorEventView};
use crate::keymap::KeyMapCollection;
use crate::lsp::client::ClientManager;
use crate::mode::command::{CompletionSource, ReadCommandState};
use crate::mode::{Mode, ModeKind};
use crate::picker::Picker;
use crate::platform::Key;
use crate::register::{RegisterCollection, RegisterKey};
use crate::text::{join_strings, join_with, concat_all, concat_strings, substring, views};
use copypasta::{ClipboardContext, ClipboardProvider};
use vstd::prelude::*;

verus! {

/// What the server does after an event was handled.
#[derive(Clone, Copy, PartialEq, Eq, Structural)]
pub enum EditorLoop {
    Quit,
    QuitAll,
    Continue,
}

impl EditorLoop {
    pub fn is_quit(self) -> (r: bool)
        ensures
            r == (self == EditorLoop::Quit || self == EditorLoop::QuitAll),
    {
        match self {
            EditorLoop::Quit => true,
            EditorLoop::QuitAll => true,
            EditorLoop::Continue => false,
        }
    }
}

/// The keys that were received and are not handled yet.
pub struct BufferedKeys(pub Vec<Key>);

impl BufferedKeys {
    pub fn new() -> (r: Self)
        ensures
            r.0@.len() == 0,
    {
        BufferedKeys(Vec::new())
    }

    pub fn as_slice(&self) -> (r: &[Key])
        ensures
            r@ == self.0@,
    {
        self.0.as_slice()
    }
}

impl Default for BufferedKeys {
    fn default() -> (r: Self)
        ensures
            r.0@.len() == 0,
    {
        BufferedKeys::new()
    }
}

/// A place in the buffered keys.
pub struct KeysIterator {
    index: usize,
}

impl KeysIterator {
    pub closed spec fn position(&self) -> int {
        self.index as int
    }

    /// A place is never before the first key.
    pub proof fn lemma_position(&self)
        ensures
            self.position() >= 0,
    {
    }

    pub fn new() -> (r: Self)
        ensures
            r.position() == 0,
    {
        KeysIterator { index: 0 }
    }

    pub fn index(&self) -> (r: usize)
        ensures
            r == self.position(),
    {
        self.index
    }

    /// The key at this place, moving one key on; `Key::NoKey`, staying put,
    /// where the keys are used up.
    pub fn next(&mut self, keys: &BufferedKeys) -> (key: Key)
        ensures
            old(self).position() < keys.0@.len() ==> key == keys.0@[old(self).position()]
                && final(self).position() == old(self).position() + 1,
            old(self).position() >= keys.0@.len() ==> key == Key::NoKey && final(self).position()
                == old(self).position(),
    {
        if self.index < keys.0.len() {
            let next = keys.0[self.index];
            self.index = self.index + 1;
            next
        } else {
            Key::NoKey
        }
    }

    /// Moves one key back, unless at the start.
    pub fn put_back(&mut self)
        ensures
            final(self).position() == if old(self).position() > 0 {
                old(self).position() - 1
            } else {
                0
            },
    {
        self.index = self.index.saturating_sub(1);
    }
}

#[derive(Clone, Copy, PartialEq, Eq, Structural)]
pub enum ReadLinePoll {
    Pending,
    Submitted,
    Canceled,
}

/// A single line of input, under a prompt.
pub struct ReadLine {
    prompt: String,
    input: String,
}

/// Where the run of characters that ends before `end` begins: a run of
/// spaces with `spaces`, of other characters without.
pub open spec fn run_start(text: Seq<char>, end: int, spaces: bool) -> int
    decreases end,
{
    if 0 < end <= text.len() && (text[end - 1] == ' ') == spaces {
        run_start(text, end - 1, spaces)
    } else {
        end
    }
}

/// What is kept when the previous word is deleted: the text without its last
/// word and without the spaces before that word.
pub open spec fn without_last_word(text: Seq<char>) -> Seq<char> {
    text.take(run_start(text, run_start(text, text.len() as int, false), true))
}

/// What a key makes of the poll: `Esc` cancels, `Enter` submits, every other
/// key leaves the line pending.
pub open spec fn poll_of(key: Key) -> ReadLinePoll {
    match key {
        Key::Esc => ReadLinePoll::Canceled,
        Key::Enter => ReadLinePoll::Submitted,
        _ => ReadLinePoll::Pending,
    }
}

/// The input after `key`: `Home` and `Ctrl-u` clear it, `Ctrl-w` deletes the
/// previous word, `Backspace` and `Ctrl-h` delete the last character,
/// `Ctrl-y` appends what was pasted, a character is appended, and every other
/// key leaves it alone.
pub open spec fn input_after(input: Seq<char>, key: Key, pasted: Option<Seq<char>>) -> Seq<char> {
    match key {
        Key::Home => Seq::empty(),
        Key::Backspace => if input.len() > 0 {
            input.drop_last()
        } else {
            input
        },
        Key::Char(c) => input.push(c),
        Key::Ctrl(c) => if c == 'u' {
            Seq::empty()
        } else if c == 'w' {
            without_last_word(input)
        } else if c == 'h' {
            if input.len() > 0 {
                input.drop_last()
            } else {
                input
            }
        } else if c == 'y' {
            match pasted {
                Some(text) => input + text,
                None => input,
            }
        } else {
            input
        },
        _ => input,
    }
}

/// Reads the text on the clipboard of the machine, through
/// `copypasta::ClipboardContext::new` and `ClipboardProvider::get_contents`.
/// What comes back depends on the machine: nothing is claimed of it.
#[verifier::external_body]
fn clipboard_contents() -> Option<String> {
    match ClipboardContext::new() {
        Ok(mut context) => context.get_contents().ok(),
        Err(_) => None,
    }
}

/// Puts text on the clipboard of the machine, through
/// `copypasta::ClipboardContext::new` and `ClipboardProvider::set_contents`.
/// Whether the text arrives depends on the machine: nothing is claimed.
#[verifier::external_body]
pub(crate) fn clipboard_store(text: &str) {
    match ClipboardContext::new() {
        Ok(mut context) => {
            let _ = context.set_contents(String::from(text));
        },
        Err(_) => {},
    }
}

/// What the clipboard holds, where it is wanted and could be read; nothing
/// where it is not wanted.
pub fn clipboard_text(wanted: bool) -> (r: Option<String>)
    ensures
        !wanted ==> r is None,
{
    if wanted {
        clipboard_contents()
    } else {
        None
    }
}

/// What the clipboard holds, where `key` is the key that pastes and the
/// clipboard could be read; nothing for any other key.
pub fn pasted_for(key: Key) -> (r: Option<String>)
    ensures
        key != Key::Ctrl('y') ==> r is None,
{
    match key {
        Key::Ctrl(c) => if c == 'y' {
            clipboard_contents()
        } else {
            None
        },
        _ => None,
    }
}

fn run_start_of(text: &str, end: usize, spaces: bool) -> (r: usize)
    requires
        end <= text@.len(),
    ensures
        r == run_start(text@, end as int, spaces),
        r <= end,
{
    let mut i = end;
    while i > 0 && (text.get_char(i - 1) == ' ') == spaces
        invariant
            0 <= i <= end <= text@.len(),
            run_start(text@, i as int, spaces) == run_start(text@, end as int, spaces),
        decreases i,
    {
        i = i - 1;
    }
    i
}

impl ReadLine {
    pub closed spec fn prompt_text(&self) -> Seq<char> {
        self.prompt@
    }

    pub closed spec fn input_text(&self) -> Seq<char> {
        self.input@
    }

    pub fn new() -> (r: Self)
        ensures
            r.prompt_text() == Seq::<char>::empty(),
            r.input_text() == Seq::<char>::empty(),
    {
        ReadLine { prompt: String::new(), input: String::new() }
    }

    pub fn prompt(&self) -> (r: &str)
        ensures
            r@ == self.prompt_text(),
    {
        self.prompt.as_str()
    }

    pub fn input(&self) -> (r: &str)
        ensures
            r@ == self.input_text(),
    {
        self.input.as_str()
    }

    pub fn set_prompt(&mut self, prompt: &str)
        ensures
            final(self).prompt_text() == prompt@,
            final(self).input_text() == old(self).input_text(),
    {
        self.prompt = String::from_str(prompt);
    }

    pub fn set_input(&mut self, input: &str)
        ensures
            final(self).input_text() == input@,
            final(self).prompt_text() == old(self).prompt_text(),
    {
        self.input = String::from_str(input);
    }

    /// Applies one key to the line, with `pasted` as the text on the
    /// clipboard, if it could be read.
    pub fn apply_key(&mut self, key: Key, pasted: Option<&str>) -> (r: ReadLinePoll)
        ensures
            r == poll_of(key),
            poll_of(key) != ReadLinePoll::Pending ==> *final(self) == *old(self),
            final(self).prompt_text() == old(self).prompt_text(),
            final(self).input_text() == input_after(
                old(self).input_text(),
                key,
                match pasted {
                    Some(text) => Some(text@),
                    None => None,
                },
            ),
    {
        match key {
            Key::Esc => ReadLinePoll::Canceled,
            Key::Enter => ReadLinePoll::Submitted,
            Key::Home => {
                self.input = String::new();
                ReadLinePoll::Pending
            },
            Key::Backspace => {
                self.delete_last_char();
                ReadLinePoll::Pending
            },
            Key::Char(c) => {
                self.input.push(c);
                ReadLinePoll::Pending
            },
            Key::Ctrl(c) => {
                if c == 'u' {
                    self.input = String::new();
                } else if c == 'w' {
                    let len = self.input.as_str().unicode_len();
                    let word = run_start_of(self.input.as_str(), len, false);
                    let end = run_start_of(self.input.as_str(), word, true);
                    self.input = substring(self.input.as_str(), 0, end);
                } else if c == 'h' {
                    self.delete_last_char();
                } else if c == 'y' {
                    if let Some(text) = pasted {
                        self.input.append(text);
                    }
                }
                ReadLinePoll::Pending
            },
            _ => ReadLinePoll::Pending,
        }
    }

    fn delete_last_char(&mut self)
        ensures
            final(self).prompt == old(self).prompt,
            final(self).input@ == if old(self).input@.len() > 0 {
                old(self).input@.drop_last()
            } else {
                old(self).input@
            },
    {
        let len = self.input.as_str().unicode_len();
        if len > 0 {
            self.input = substring(self.input.as_str(), 0, len - 1);
        }
    }

    /// Takes the next buffered key and applies it to the line. The clipboard
    /// is read only for `Ctrl-y`; what it holds is not known beforehand, so
    /// for that key the input ends up as `apply_key` leaves it for some
    /// outcome of the reading.
    pub fn poll(&mut self, buffered_keys: &BufferedKeys, keys_iter: &mut KeysIterator) -> (r:
        ReadLinePoll)
        ensures
            final(self).prompt_text() == old(self).prompt_text(),
            r != ReadLinePoll::Pending ==> *final(self) == *old(self),
            old(keys_iter).position() < buffered_keys.0@.len() ==> final(keys_iter).position()
                == old(keys_iter).position() + 1 && r == poll_of(
                buffered_keys.0@[old(keys_iter).position()],
            ) && exists|pasted: Option<Seq<char>>|
                final(self).input_text() == input_after(
                    old(self).input_text(),
                    buffered_keys.0@[old(keys_iter).position()],
                    pasted,
                ),
            old(keys_iter).position() < buffered_keys.0@.len() && buffered_keys.0@[old(keys_iter).position()] != Key::Ctrl('y') ==> final(self).input_text() == input_after(
                old(self).input_text(),
                buffered_keys.0@[old(keys_iter).position()],
                None,
            ),
            old(keys_iter).position() >= buffered_keys.0@.len() ==> final(keys_iter).position()
                == old(keys_iter).position() && r == ReadLinePoll::Pending && final(self).input_text() == old(self).input_text(),
    {
        let key = keys_iter.next(buffered_keys);
        let pasted = match key {
            Key::Ctrl(c) => if c == 'y' {
                clipboard_contents()
            } else {
                None
            },
            _ => None,
        };
        let ghost seen: Option<Seq<char>> = match &pasted {
            Some(text) => Some(text@),
            None => None,
        };
        let r = match &pasted {
            Some(text) => self.apply_key(key, Some(text.as_str())),
            None => self.apply_key(key, None),
        };
        assert(self.input_text() == input_after(old(self).input_text(), key, seen));
        r
    }
}

impl Default for ReadLine {
    fn default() -> (r: Self)
        ensures
            r.prompt_text() == Seq::<char>::empty(),
            r.input_text() == Seq::<char>::empty(),
    {
        ReadLine::new()
    }
}

#[derive(Debug, Clone, Copy, PartialEq, Eq, Structural)]
pub enum StatusMessageKind {
    Info,
    Error,
}

/// The message shown on the status bar, and whether it reports an error.
pub struct StatusMessage {
    kind: StatusMessageKind,
    message: String,
}

impl StatusMessage {
    pub closed spec fn kind(&self) -> StatusMessageKind {
        self.kind
    }

    pub closed spec fn text(&self) -> Seq<char> {
        self.message@
    }

    pub fn new() -> (r: Self)
        ensures
            r.kind() == StatusMessageKind::Info,
            r.text() == Seq::<char>::empty(),
    {
        StatusMessage { kind: StatusMessageKind::Info, message: String::new() }
    }

    pub fn message(&self) -> (r: (StatusMessageKind, &str))
        ensures
            r.0 == self.kind(),
            r.1@ == self.text(),
    {
        (self.kind, self.message.as_str())
    }

    /// Empties the message; its kind stays.
    pub fn clear(&mut self)
        ensures
            final(self).kind() == old(self).kind(),
            final(self).text() == Seq::<char>::empty(),
    {
        self.message = String::new();
    }

    pub fn write_str(&mut self, kind: StatusMessageKind, message: &str)
        ensures
            final(self).kind() == kind,
            final(self).text() == message@,
    {
        self.kind = kind;
        self.message = String::from_str(message);
    }

    /// Replaces the message by the pieces of a formatted text, one after
    /// another.
    pub fn write_fmt(&mut self, kind: StatusMessageKind, pieces: &Vec<String>)
        ensures
            final(self).kind() == kind,
            final(self).text() == concat_all(views(pieces@)),
    {
        self.kind = kind;
        self.message = concat_strings(pieces);
    }

    /// Replaces the message by an error: its own message first, then the
    /// message of each cause in turn, one per line.
    pub fn write_error(&mut self, messages: &Vec<String>)
        ensures
            final(self).kind() == StatusMessageKind::Error,
            final(self).text() == join_with(views(messages@), '\n'),
    {
        self.kind = StatusMessageKind::Error;
        self.message = join_strings(messages, '\n');
    }
}

impl Default for StatusMessage {
    fn default() -> (r: Self)
        ensures
            r.kind() == StatusMessageKind::Info,
            r.text() == Seq::<char>::empty(),
    {
        StatusMessage::new()
    }
}

/// The settings of the editor.
#[derive(Clone, Copy, PartialEq, Eq, Structural)]
pub struct Config {
    pub tab_size: u8,
    pub indent_with_tabs: bool,
    pub picker_max_height: u8,
}

impl Config {
    pub fn new() -> (r: Self)
        ensures
            r == (Config { tab_size: 4, indent_with_tabs: false, picker_max_height: 8 }),
    {
        Config { tab_size: 4, indent_with_tabs: false, picker_max_height: 8 }
    }
}

impl Default for Config {
    fn default() -> (r: Self)
        ensures
            r == (Config { tab_size: 4, indent_with_tabs: false, picker_max_height: 8 }),
    {
        Config::new()
    }
}

/// The state of the editor: everything but the clients and the platform.
pub struct Editor {
    pub current_directory: String,
    pub config: Config,
    pub mode: Mode,
    pub buffers: BufferCollection,
    pub buffer_views: BufferViewCollection,
    pub buffered_keys: BufferedKeys,
    pub recording_macro: Option<RegisterKey>,
    pub registers: RegisterCollection,
    pub read_line: ReadLine,
    pub picker: Picker,
    pub status_message: StatusMessage,
    pub editor_events: EditorEventQueue,
    pub keymaps: KeyMapCollection,
    pub lsp: ClientManager,
    pub commands: CommandManager,
    pub source_requests: Vec<SourceRequest>,
    /// The directories whose files are to be listed for completion.
    pub completion_requests: Vec<String>,
}

impl Editor {
    /// The tables of the editor are well formed.
    pub open spec fn well_formed(&self) -> bool {
        &&& self.buffers.well_formed()
        &&& self.buffer_views.well_formed()
        &&& self.registers.well_formed()
        &&& self.picker.well_formed()
        &&& match self.recording_macro {
            Some(key) => key.well_formed(),
            None => true,
        }
    }

    /// An editor without buffers, in normal mode.
    pub fn new(current_directory: String) -> (r: Self)
        ensures
            r.well_formed(),
            r.current_directory == current_directory,
            r.config == (Config { tab_size: 4, indent_with_tabs: false, picker_max_height: 8 }),
            r.mode.kind == ModeKind::Normal,
            r.buffers.buffers@.len() == 0,
            r.buffer_views.views@.len() == 0,
            r.buffered_keys.0@.len() == 0,
            r.recording_macro is None,
            r.editor_events.pending() == Seq::<EditorEventView>::empty(),
            r.editor_events.reading() == Seq::<EditorEventView>::empty(),
            r.lsp.entries@.len() == 0,
            r.lsp.recipes@.len() == 0,
            r.keymaps.maps@.len() == 0,
            r.commands.history@.len() == 0,
            r.source_requests@.len() == 0,
            r.completion_requests@.len() == 0,
    {
        Editor {
            current_directory,
            config: Config::new(),
            mode: Mode::new(),
            buffers: BufferCollection::new(),
            buffer_views: BufferViewCollection::new(),
            buffered_keys: BufferedKeys::new(),
            recording_macro: None,
            registers: RegisterCollection::new(),
            read_line: ReadLine::new(),
            picker: Picker::new(),
            status_message: StatusMessage::new(),
            editor_events: EditorEventQueue::new(),
            keymaps: KeyMapCollection::new(),
            lsp: ClientManager::new(),
            commands: CommandManager::new(),
            source_requests: Vec::new(),
            completion_requests: Vec::new(),
        }
    }
}

/// Everything but the buffers, the views and the queue of events is the
/// same in the two editors.
pub open spec fn same_but_buffers(a: &Editor, b: &Editor) -> bool {
    *a == (Editor {
        buffers: a.buffers,
        buffer_views: a.buffer_views,
        editor_events: a.editor_events,
        ..*b
    })
}

/// Everything but the mode, the line being read and the picker is the same
/// in the two editors.
pub open spec fn same_but_mode(a: &Editor, b: &Editor) -> bool {
    *a == (Editor { mode: a.mode, read_line: a.read_line, picker: a.picker, ..*b })
}

/// Everything but the status message is the same in the two editors.
pub open spec fn same_but_status(a: &Editor, b: &Editor) -> bool {
    *a == (Editor { status_message: a.status_message, ..*b })
}

/// The editor has entered the mode `next`: leaving read line, picker or
/// command mode empties the line being read and the picker; entering picker
/// mode ranks the entries without a pattern; entering command mode sets the
/// prompt to a colon and starts with an empty command line.
pub open spec fn mode_entered(e0: &Editor, e1: &Editor, next: ModeKind) -> bool {
    let left = leaves_input(e0.mode.kind);
    &&& same_but_mode(e1, e0)
    &&& e1.mode.kind == next
    &&& e1.mode.picker_state == e0.mode.picker_state
    &&& e1.mode.read_line_purpose == e0.mode.read_line_purpose
    &&& e1.read_line.input_text() == if left || next == ModeKind::Picker || next
        == ModeKind::Command {
        Seq::<char>::empty()
    } else {
        e0.read_line.input_text()
    }
    &&& if next == ModeKind::Command {
        &&& e1.read_line.prompt_text() == ":"@
        &&& e1.picker.names().len() == 0
        &&& e1.mode.command_state.completion_index == 0
        &&& e1.mode.command_state.completion_source == CompletionSource::Nothing
        &&& e1.mode.command_state.read_state == ReadCommandState::NavigatingHistory(
            e0.commands.history@.len() as usize,
        )
    } else {
        &&& e1.read_line.prompt_text() == e0.read_line.prompt_text()
        &&& e1.mode.command_state == e0.mode.command_state
        &&& if left {
            e1.picker.names().len() == 0 && e1.picker.filtered().len() == 0
        } else if next == ModeKind::Picker {
            &&& e1.picker.descriptions() == e0.picker.descriptions()
            &&& e1.picker.names() == e0.picker.names()
            &&& crate::picker::is_ranking(
                e1.picker.names(),
                e1.picker.names().len() as int,
                Seq::empty(),
                e1.picker.filtered(),
                true,
            )
        } else {
            e1.picker == e0.picker
        }
    }
}

impl Editor {
    /// The view that shows the buffer of the path `path` to `client`. The
    /// buffer is the first one with that path; where there is none, an empty
    /// buffer with that path is added and the event of its loading is
    /// queued. The view is the first one of that buffer for the client, or a
    /// new one. `None`, with nothing changed, where a table is full.
    pub fn buffer_view_handle_from_path(&mut self, client: TargetClient, path: &str) -> (r: Option<
        BufferViewHandle,
    >)
        requires
            old(self).well_formed(),
        ensures
            final(self).well_formed(),
            same_but_buffers(final(self), old(self)),
            final(self).editor_events.reading() == old(self).editor_events.reading(),
            r is None == tables_full(old(self), path@),
            match r {
                Some(view) => {
                    &&& final(self).buffer_views.contains(view)
                    &&& final(self).buffer_views.view_of(view).client == client
                    &&& final(self).buffers.contains(
                        final(self).buffer_views.view_of(view).buffer_handle,
                    )
                    &&& final(self).buffers.buffer(
                        final(self).buffer_views.view_of(view).buffer_handle,
                    ).path@ == path@
                    &&& final(self).buffer_views.same_but(&old(self).buffer_views, view)
                    &&& old(self).buffer_views.contains(view) ==> final(self).buffer_views == old(self).buffer_views
                    &&& !old(self).buffer_views.contains(view) ==> final(self).buffer_views.view_of(
                        view,
                    ).cursors@ == seq![Cursor::at_zero()]
                    &&& match old(self).buffers.path_handle(path@) {
                        Some(buffer) => final(self).buffers == old(self).buffers && final(self).buffer_views.view_of(view).buffer_handle == buffer && final(self).editor_events.pending() == old(self).editor_events.pending(),
                        None => {
                            let buffer = final(self).buffer_views.view_of(view).buffer_handle;
                            &&& !old(self).buffers.contains(buffer)
                            &&& final(self).buffers.buffer(buffer).content@ == seq![
                                Seq::<char>::empty(),
                            ]
                            &&& final(self).buffers.buffer(buffer).capabilities
                                == (BufferCapabilities {
                                can_save: true,
                                auto_close: false,
                                is_log: false,
                            })
                            &&& forall|h: BufferHandle|
                                h != buffer ==> final(self).buffers.contains(h) == old(self).buffers.contains(h) && (old(self).buffers.contains(h) ==> final(self).buffers.buffer(h) == old(self).buffers.buffer(h))
                            &&& final(self).editor_events.pending() == old(self).editor_events.pending().push(
                                EditorEventView::BufferLoad { handle: buffer },
                            )
                        },
                    }
                },
                None => *final(self) == *old(self),
            },
    {
        if self.buffer_views.views.len() >= u32::MAX as usize {
            return None;
        }
        let buffer_handle = match self.buffers.find_with_path(path) {
            Some(handle) => handle,
            None => {
                let handle = match self.buffers.add_new() {
                    Some(handle) => handle,
                    None => {
                        return None;
                    },
                };
                self.buffers.set_path(handle, path);
                self.editor_events.enqueue(EditorEvent::BufferLoad { handle });
                handle
            },
        };
        self.buffer_views.buffer_view_handle_from_buffer_handle(client, buffer_handle)
    }

    /// Leaves the mode that the editor is in and enters `next`. Leaving read
    /// line, picker or command mode empties the line being read and the
    /// picker. Entering picker mode filters the picker with an empty
    /// pattern; entering command mode sets the prompt to a colon and starts
    /// with an empty command line.
    pub fn enter_mode(&mut self, next: ModeKind)
        requires
            old(self).well_formed(),
        ensures
            mode_entered(old(self), final(self), next),
            final(self).well_formed(),
    {
        let previous = self.mode.kind;
        let left = match previous {
            ModeKind::ReadLine => true,
            ModeKind::Picker => true,
            ModeKind::Command => true,
            _ => false,
        };
        if left {
            self.read_line.set_input("");
            self.picker.clear();
        }
        self.mode.kind = next;
        match next {
            ModeKind::Picker => {
                self.read_line.set_input("");
                if !left {
                    self.picker.filter("");
                }
            },
            ModeKind::Command => {
                self.mode.command_state.read_state = ReadCommandState::NavigatingHistory(
                    self.commands.history_len(),
                );
                self.mode.command_state.completion_index = 0;
                self.mode.command_state.completion_source = CompletionSource::Nothing;
                self.mode.command_state.completion_path_hash = None;
                self.read_line.set_prompt(":");
                self.read_line.set_input("");
                self.picker.clear();
            },
            _ => {},
        }
        proof {
            reveal_strlit("");
        }
        assert(""@ =~= Seq::<char>::empty());
    }
}

/// Whether leaving a mode empties the line being read and the picker.
pub open spec fn leaves_input(kind: ModeKind) -> bool {
    kind == ModeKind::ReadLine || kind == ModeKind::Picker || kind == ModeKind::Command
}

impl Editor {
    /// Applies edits of a language server to a buffer, bottom up, as one
    /// group of its history. Nothing changes where the buffer does not exist.
    pub fn apply_edits_to_buffer(
        &mut self,
        buffer_handle: BufferHandle,
        edits: &Vec<crate::lsp::protocol::TextEdit>,
    )
        requires
            old(self).well_formed(),
        ensures
            final(self).well_formed(),
            same_but_buffers(final(self), old(self)),
            final(self).buffer_views == old(self).buffer_views,
            final(self).editor_events.reading() == old(self).editor_events.reading(),
            final(self).buffers.buffers@.len() == old(self).buffers.buffers@.len(),
            !old(self).buffers.contains(buffer_handle) ==> *final(self) == *old(self),
            old(self).buffers.contains(buffer_handle) ==> {
                &&& final(self).buffers.contains(buffer_handle)
                &&& final(self).buffers.buffer(buffer_handle).content@
                    == crate::lsp::edits::content_after_edits(
                    old(self).buffers.buffer(buffer_handle).content@,
                    crate::lsp::edits::bottom_up(
                        crate::lsp::protocol::text_edit_views(edits@),
                        edits@.len() as int,
                    ),
                )
                &&& final(self).buffers.buffer(buffer_handle).path == old(self).buffers.buffer(
                    buffer_handle,
                ).path
                &&& final(self).buffers.buffer(buffer_handle).capabilities == old(self).buffers.buffer(buffer_handle).capabilities
                &&& forall|h: BufferHandle|
                    h != buffer_handle ==> final(self).buffers.contains(h) == old(self).buffers.contains(h) && (old(self).buffers.contains(h) ==> final(self).buffers.buffer(h) == old(self).buffers.buffer(h))
            },
    {
        let index = buffer_handle.0 as usize;
        if index >= self.buffers.buffers.len() || self.buffers.buffers[index].is_none() {
            return ;
        }
        let mut slot: Option<Buffer> = None;
        core::mem::swap(&mut self.buffers.buffers[index], &mut slot);
        match slot {
            Some(mut buffer) => {
                crate::lsp::edits::apply_text_edits(&mut buffer, edits, &mut self.editor_events);
                self.buffers.buffers.set(index, Some(buffer));
            },
            None => {},
        }
    }
}

/// Whether no room is left to show the path `path`: the table of views is
/// full, or no buffer has the path and the table of buffers is full.
pub open spec fn tables_full(editor: &Editor, path: Seq<char>) -> bool {
    editor.buffer_views.views@.len() >= u32::MAX || (editor.buffers.path_handle(path) is None
        && editor.buffers.buffers@.len() == u32::MAX && forall|i: int|
        0 <= i < editor.buffers.buffers@.len() ==> (#[trigger] editor.buffers.buffers@[i]).is_some())
}

/// The client `client` is shown the buffer of the path `path`, with the
/// single cursor `cursor` in its view: the client shows a view of its own
/// with that cursor, the view shows a buffer with that path, the view that
/// the client showed before is kept as its previous view, and the change of
/// view is queued as an event. The other views and the other clients are as
/// they were, and so are the buffers, but for a new buffer where none had
/// the path.
pub open spec fn shown_at(
    e0: &Editor,
    e1: &Editor,
    c0: &ClientCollection,
    c1: &ClientCollection,
    client: TargetClient,
    path: Seq<char>,
    cursor: Cursor,
) -> bool {
    &&& same_but_buffers(e1, e0)
    &&& e1.editor_events.reading() == e0.editor_events.reading()
    &&& c1.focused_client == c0.focused_client
    &&& c1.client_map == c0.client_map
    &&& forall|t: TargetClient| t != client ==> c1.client(t) == c0.client(t)
    &&& c1.client(client) is Some
    &&& c1.client(client).unwrap().buffer_view_handle is Some
    &&& {
        let view = c1.client(client).unwrap().buffer_view_handle.unwrap();
        let buffer = e1.buffer_views.view_of(view).buffer_handle;
        &&& c1.client(client) == Some(
            crate::client_collection::ClientData {
                buffer_view_handle: Some(view),
                previous_buffer_view_handle: c0.client(client).unwrap().buffer_view_handle,
                ..c0.client(client).unwrap()
            },
        )
        &&& e1.buffer_views.contains(view)
        &&& e1.buffer_views.view_of(view).client == client
        &&& e1.buffer_views.view_of(view).cursors@ == seq![cursor]
        &&& e1.buffer_views.same_but(&e0.buffer_views, view)
        &&& e1.buffers.contains(buffer)
        &&& e1.buffers.buffer(buffer).path@ == path
        &&& match e0.buffers.path_handle(path) {
            Some(found) => buffer == found && e1.buffers == e0.buffers
                && e1.editor_events.pending() == e0.editor_events.pending().push(
                EditorEventView::ClientChangeBufferView { client },
            ),
            None => {
                &&& !e0.buffers.contains(buffer)
                &&& e1.buffers.buffer(buffer).content@ == seq![Seq::<char>::empty()]
                &&& e1.buffers.buffer(buffer).capabilities == (BufferCapabilities {
                    can_save: true,
                    auto_close: false,
                    is_log: false,
                })
                &&& forall|h: BufferHandle|
                    h != buffer ==> e1.buffers.contains(h) == e0.buffers.contains(h) && (
                    e0.buffers.contains(h) ==> e1.buffers.buffer(h) == e0.buffers.buffer(h))
                &&& e1.editor_events.pending() == e0.editor_events.pending().push(
                    EditorEventView::BufferLoad { handle: buffer },
                ).push(EditorEventView::ClientChangeBufferView { client })
            },
        }
    }
}

impl Editor {
    /// Shows the buffer of the path `path` to a client, with the single
    /// cursor `cursor`. Returns whether it did: nothing changes where the
    /// client is not attached or no room is left in the tables.
    pub fn show_path(
        &mut self,
        clients: &mut ClientCollection,
        client: TargetClient,
        path: &str,
        cursor: Cursor,
    ) -> (r: bool)
        requires
            old(self).well_formed(),
        ensures
            final(self).well_formed(),
            r == (old(clients).client(client) is Some && !tables_full(old(self), path@)),
            r ==> shown_at(old(self), final(self), old(clients), final(clients), client, path@, cursor),
            !r ==> *final(self) == *old(self) && *final(clients) == *old(clients),
    {
        if clients.get(client).is_none() {
            return false;
        }
        let view = match self.buffer_view_handle_from_path(client, path) {
            Some(view) => view,
            None => {
                return false;
            },
        };
        self.buffer_views.set_cursor(view, cursor);
        clients.set_buffer_view_handle(client, Some(view), &mut self.editor_events);
        true
    }
}

/// The buffer `handle` holds `text` and has the capabilities given; its
/// path is as it was, and so are the other buffers and the views.
pub open spec fn text_replaced(
    before: &Editor,
    after: &Editor,
    handle: BufferHandle,
    text: Seq<char>,
    capabilities: BufferCapabilities,
) -> bool {
    &&& same_but_buffers(after, before)
    &&& after.buffer_views == before.buffer_views
    &&& after.editor_events.reading() == before.editor_events.reading()
    &&& after.buffers.buffers@.len() == before.buffers.buffers@.len()
    &&& after.buffers.contains(handle)
    &&& after.buffers.buffer(handle).content@ == crate::buffer_content::split_lines(text)
    &&& after.buffers.buffer(handle).capabilities == capabilities
    &&& after.buffers.buffer(handle).path == before.buffers.buffer(handle).path
    &&& after.buffers.buffer(handle).handle == handle
    &&& forall|h: BufferHandle|
        h != handle ==> after.buffers.contains(h) == before.buffers.contains(h) && (
        before.buffers.contains(h) ==> after.buffers.buffer(h) == before.buffers.buffer(h))
}

impl Editor {
    /// Replaces the whole text of a buffer, as one group of its history, and
    /// sets its capabilities. Returns whether the buffer exists; nothing
    /// changes where it does not.
    pub fn replace_buffer_text(
        &mut self,
        handle: BufferHandle,
        text: &str,
        capabilities: BufferCapabilities,
    ) -> (r: bool)
        requires
            old(self).well_formed(),
        ensures
            final(self).well_formed(),
            r == old(self).buffers.contains(handle),
            r ==> text_replaced(old(self), final(self), handle, text@, capabilities),
            !r ==> *final(self) == *old(self),
    {
        let index = handle.0 as usize;
        if index >= self.buffers.buffers.len() || self.buffers.buffers[index].is_none() {
            return false;
        }
        let mut slot: Option<Buffer> = None;
        core::mem::swap(&mut self.buffers.buffers[index], &mut slot);
        match slot {
            Some(mut buffer) => {
                buffer.capabilities = capabilities;
                buffer.commit_edits();
                let ghost content = buffer.content@;
                let end = buffer.content.end();
                let range = BufferRange { from: BufferPosition::zero(), to: end };
                proof {
                    crate::buffer_content::lemma_delete_everything(content);
                }
                buffer.delete_range(range, 0, &mut self.editor_events);
                proof {
                    if end == BufferPosition::at_zero() {
                        assert(content.len() == 1);
                        assert(content[0].len() == 0);
                        assert(content[0] =~= Seq::<char>::empty());
                        assert(content =~= seq![Seq::<char>::empty()]);
                    }
                    assert(buffer.content@ =~= seq![Seq::<char>::empty()]);
                    crate::buffer_content::lemma_insert_into_empty(text@);
                    if text@.len() == 0 {
                        assert(crate::buffer_content::split_lines(text@) =~= seq![
                            Seq::<char>::empty(),
                        ]);
                    }
                }
                buffer.insert_text(BufferPosition::zero(), text, 0, &mut self.editor_events);
                buffer.commit_edits();
                self.buffers.buffers.set(index, Some(buffer));
            },
            None => {},
        }
        true
    }
}

/// Nothing but the buffer `handle` and the queue of events differs between
/// the two editors; the buffer is there in both.
pub open spec fn buffer_edited(before: &Editor, after: &Editor, handle: BufferHandle) -> bool {
    &&& same_but_buffers(after, before)
    &&& after.buffer_views == before.buffer_views
    &&& after.buffers.buffers@.len() == before.buffers.buffers@.len()
    &&& before.buffers.contains(handle)
    &&& after.buffers.contains(handle)
    &&& forall|h: BufferHandle|
        h != handle ==> after.buffers.contains(h) == before.buffers.contains(h) && (
        before.buffers.contains(h) ==> after.buffers.buffer(h) == before.buffers.buffer(h))
}

impl Editor {
    /// Takes a buffer out of its slot, to change it; the slot is empty until
    /// the buffer is put back.
    fn take_buffer(&mut self, handle: BufferHandle) -> (r: Option<Buffer>)
        requires
            old(self).well_formed(),
        ensures
            r is Some == old(self).buffers.contains(handle),
            r is Some ==> r.unwrap() == old(self).buffers.buffer(handle) && r.unwrap().well_formed()
                && final(self).buffers.buffers@ == old(self).buffers.buffers@.update(
                handle.0 as int,
                None,
            ) && *final(self) == (Editor { buffers: final(self).buffers, ..*old(self) }),
            r is None ==> *final(self) == *old(self),
    {
        let index = handle.0 as usize;
        if index >= self.buffers.buffers.len() || self.buffers.buffers[index].is_none() {
            return None;
        }
        let mut slot: Option<Buffer> = None;
        core::mem::swap(&mut self.buffers.buffers[index], &mut slot);
        slot
    }

    /// Puts a buffer that was changed back into its slot.
    fn put_buffer(&mut self, Ghost(before): Ghost<&Editor>, handle: BufferHandle, buffer: Buffer)
        requires
            before.well_formed(),
            before.buffers.contains(handle),
            buffer.well_formed(),
            buffer.handle == handle,
            old(self).buffers.buffers@ == before.buffers.buffers@.update(handle.0 as int, None),
            same_but_buffers(old(self), before),
            old(self).buffer_views == before.buffer_views,
        ensures
            final(self).well_formed(),
            buffer_edited(before, final(self), handle),
            final(self).buffers.buffer(handle) == buffer,
            final(self).editor_events == old(self).editor_events,
    {
        self.buffers.buffers.set(handle.0 as usize, Some(buffer));
        assert forall|h: BufferHandle| h != handle implies self.buffers.contains(h)
            == before.buffers.contains(h) && (before.buffers.contains(h) ==> self.buffers.buffer(h)
            == before.buffers.buffer(h)) by {
            if (h.0 as int) < self.buffers.buffers@.len() {
                assert(self.buffers.buffers@[h.0 as int] == before.buffers.buffers@[h.0 as int]);
            }
        }
    }

    /// Inserts `text` into a buffer, for the cursor `cursor_index`. Returns
    /// the range that the text fills; `None`, with nothing changed, where
    /// the buffer does not exist.
    pub fn insert_text(
        &mut self,
        handle: BufferHandle,
        position: BufferPosition,
        text: &str,
        cursor_index: u8,
    ) -> (r: Option<BufferRange>)
        requires
            old(self).well_formed(),
        ensures
            final(self).well_formed(),
            r is Some == old(self).buffers.contains(handle),
            match r {
                Some(range) => buffer_edited(old(self), final(self), handle)
                    && crate::buffer::text_inserted(
                    &old(self).buffers.buffer(handle),
                    &final(self).buffers.buffer(handle),
                    &old(self).editor_events,
                    &final(self).editor_events,
                    position,
                    text@,
                    cursor_index,
                    range,
                ),
                None => *final(self) == *old(self),
            },
    {
        let ghost before = *self;
        match self.take_buffer(handle) {
            Some(mut buffer) => {
                let range = buffer.insert_text(position, text, cursor_index, &mut self.editor_events);
                self.put_buffer(Ghost(&before), handle, buffer);
                Some(range)
            },
            None => None,
        }
    }

    /// Deletes a range of a buffer, for the cursor `cursor_index`. Returns
    /// the range that was emptied; `None`, with nothing changed, where the
    /// buffer does not exist.
    pub fn delete_range(&mut self, handle: BufferHandle, range: BufferRange, cursor_index: u8) -> (r:
        Option<BufferRange>)
        requires
            old(self).well_formed(),
        ensures
            final(self).well_formed(),
            r is Some == old(self).buffers.contains(handle),
            match r {
                Some(emptied) => buffer_edited(old(self), final(self), handle)
                    && crate::buffer::range_deleted(
                    &old(self).buffers.buffer(handle),
                    &final(self).buffers.buffer(handle),
                    &old(self).editor_events,
                    &final(self).editor_events,
                    range,
                    cursor_index,
                    emptied,
                ),
                None => *final(self) == *old(self),
            },
    {
        let ghost before = *self;
        match self.take_buffer(handle) {
            Some(mut buffer) => {
                let emptied = buffer.delete_range(range, cursor_index, &mut self.editor_events);
                self.put_buffer(Ghost(&before), handle, buffer);
                Some(emptied)
            },
            None => None,
        }
    }

    /// Closes the open group of the history of a buffer. Returns whether
    /// the buffer exists.
    pub fn commit_edits(&mut self, handle: BufferHandle) -> (r: bool)
        requires
            old(self).well_formed(),
        ensures
            final(self).well_formed(),
            r == old(self).buffers.contains(handle),
            r ==> buffer_edited(old(self), final(self), handle) && final(self).editor_events
                == old(self).editor_events && final(self).buffers.buffer(handle) == (Buffer {
                history: final(self).buffers.buffer(handle).history,
                ..old(self).buffers.buffer(handle)
            }) && final(self).buffers.buffer(handle).history@ == crate::history::committed(
                old(self).buffers.buffer(handle).history@,
            ),
            !r ==> *final(self) == *old(self),
    {
        let ghost before = *self;
        match self.take_buffer(handle) {
            Some(mut buffer) => {
                buffer.commit_edits();
                self.put_buffer(Ghost(&before), handle, buffer);
                true
            },
            None => false,
        }
    }
}

impl Editor {
    /// Adds an empty buffer with the path and the capabilities given, in
    /// the first free slot, and returns its handle; `None`, with nothing
    /// changed, where the table is full. No event is queued.
    pub fn add_buffer_with(&mut self, path: &str, capabilities: BufferCapabilities) -> (r: Option<
        BufferHandle,
    >)
        requires
            old(self).well_formed(),
        ensures
            final(self).well_formed(),
            *final(self) == (Editor { buffers: final(self).buffers, ..*old(self) }),
            match r {
                Some(handle) => {
                    &&& !old(self).buffers.contains(handle)
                    &&& final(self).buffers.contains(handle)
                    &&& final(self).buffers.buffer(handle).handle == handle
                    &&& final(self).buffers.buffer(handle).content@ == seq![Seq::<char>::empty()]
                    &&& final(self).buffers.buffer(handle).path@ == path@
                    &&& final(self).buffers.buffer(handle).capabilities == capabilities
                    &&& forall|h: BufferHandle|
                        h != handle ==> final(self).buffers.contains(h) == old(self).buffers.contains(
                            h,
                        ) && (old(self).buffers.contains(h) ==> final(self).buffers.buffer(h) == old(self).buffers.buffer(h))
                },
                None => final(self).buffers == old(self).buffers && old(self).buffers.buffers@.len()
                    == u32::MAX && forall|i: int|
                    0 <= i < old(self).buffers.buffers@.len() ==> (
                    #[trigger] old(self).buffers.buffers@[i]).is_some(),
            },
    {
        let handle = match self.buffers.add_new() {
            Some(handle) => handle,
            None => {
                return None;
            },
        };
        let ghost added = *self;
        match self.take_buffer(handle) {
            Some(mut buffer) => {
                buffer.capabilities = capabilities;
                buffer.set_path(path);
                self.put_buffer(Ghost(&added), handle, buffer);
            },
            None => {},
        }
        Some(handle)
    }
}

/// What a client looks at: its view, the buffer of the view, and the first
/// cursor of the view.
#[derive(Clone, Copy, PartialEq, Eq, Structural)]
pub struct Focus {
    pub view: BufferViewHandle,
    pub buffer: BufferHandle,
    pub cursor: Cursor,
}

/// What the client looks at, if it is attached and shows a view of a buffer.
pub open spec fn focus_of(editor: &Editor, clients: &ClientCollection, client: TargetClient) -> Option<
    Focus,
> {
    match clients.client(client) {
        Some(data) => match data.buffer_view_handle {
            Some(view) => if editor.buffer_views.contains(view) && editor.buffers.contains(
                editor.buffer_views.view_of(view).buffer_handle,
            ) {
                Some(
                    Focus {
                        view,
                        buffer: editor.buffer_views.view_of(view).buffer_handle,
                        cursor: editor.buffer_views.view_of(view).cursors@[0],
                    },
                )
            } else {
                None
            },
            None => None,
        },
        None => None,
    }
}

/// Nothing but the buffer `handle` differs between the two tables; the
/// buffer is there in both.
pub open spec fn buffers_changed_at(
    before: &BufferCollection,
    after: &BufferCollection,
    handle: BufferHandle,
) -> bool {
    &&& after.buffers@.len() == before.buffers@.len()
    &&& before.contains(handle)
    &&& after.contains(handle)
    &&& forall|h: BufferHandle|
        h != handle ==> after.contains(h) == before.contains(h) && (before.contains(h)
            ==> after.buffer(h) == before.buffer(h))
}

/// The view `view` has the single cursor at `position`, and shows the same
/// buffer to the same client; the other views are as they were.
pub open spec fn cursor_moved(
    before: &BufferViewCollection,
    after: &BufferViewCollection,
    view: BufferViewHandle,
    position: BufferPosition,
) -> bool {
    &&& after.same_but(before, view)
    &&& after.contains(view)
    &&& after.view_of(view).cursors@ == seq![Cursor { anchor: position, position }]
    &&& after.view_of(view).client == before.view_of(view).client
    &&& after.view_of(view).buffer_handle == before.view_of(view).buffer_handle
}

/// What stepping the history of a buffer one group back makes of the
/// buffer and of the queue of events.
pub open spec fn stepped_back(
    b0: &Buffer,
    b1: &Buffer,
    q0: &EditorEventQueue,
    q1: &EditorEventQueue,
) -> bool {
    &&& b1.handle == b0.handle
    &&& b1.path == b0.path
    &&& b1.capabilities == b0.capabilities
    &&& b1.needs_save == (b0.needs_save || crate::history::undone(b0.history@).1.len() > 0)
    &&& b1.history@ == crate::history::undone(b0.history@).0
    &&& b1.content@ == crate::buffer::content_after_all(
        b0.content@,
        crate::history::undone(b0.history@).1,
    )
    &&& q1.pending() == q0.pending() + crate::buffer::events_of(
        b0.handle,
        b0.content@,
        crate::history::undone(b0.history@).1,
    )
    &&& q1.reading() == q0.reading()
}

/// What stepping the history of a buffer one group forward makes of the
/// buffer and of the queue of events.
pub open spec fn stepped_forward(
    b0: &Buffer,
    b1: &Buffer,
    q0: &EditorEventQueue,
    q1: &EditorEventQueue,
) -> bool {
    &&& b1.handle == b0.handle
    &&& b1.path == b0.path
    &&& b1.capabilities == b0.capabilities
    &&& b1.needs_save == (b0.needs_save || crate::history::redone(b0.history@).1.len() > 0)
    &&& b1.history@ == crate::history::redone(b0.history@).0
    &&& b1.content@ == crate::buffer::content_after_all(
        b0.content@,
        crate::history::redone(b0.history@).1,
    )
    &&& q1.pending() == q0.pending() + crate::buffer::events_of(
        b0.handle,
        b0.content@,
        crate::history::redone(b0.history@).1,
    )
    &&& q1.reading() == q0.reading()
}

impl Editor {
    /// What the client looks at.
    pub fn focus(&self, clients: &ClientCollection, client: TargetClient) -> (r: Option<Focus>)
        requires
            self.well_formed(),
        ensures
            r == focus_of(self, clients, client),
    {
        let view = match clients.get(client) {
            Some(data) => match data.buffer_view_handle {
                Some(view) => view,
                None => {
                    return None;
                },
            },
            None => {
                return None;
            },
        };
        match self.buffer_views.get(view) {
            Some(found) => {
                if self.buffers.get(found.buffer_handle).is_some() {
                    Some(
                        Focus {
                            view,
                            buffer: found.buffer_handle,
                            cursor: found.cursors.main_cursor(),
                        },
                    )
                } else {
                    None
                }
            },
            None => None,
        }
    }

    /// Steps the history of a buffer one group back. Returns whether the
    /// buffer exists; nothing changes where it does not.
    pub fn undo(&mut self, handle: BufferHandle) -> (r: bool)
        requires
            old(self).well_formed(),
        ensures
            final(self).well_formed(),
            r == old(self).buffers.contains(handle),
            r ==> buffer_edited(old(self), final(self), handle) && stepped_back(
                &old(self).buffers.buffer(handle),
                &final(self).buffers.buffer(handle),
                &old(self).editor_events,
                &final(self).editor_events,
            ),
            !r ==> *final(self) == *old(self),
    {
        let ghost before = *self;
        match self.take_buffer(handle) {
            Some(mut buffer) => {
                buffer.undo(&mut self.editor_events);
                self.put_buffer(Ghost(&before), handle, buffer);
                true
            },
            None => false,
        }
    }

    /// Steps the history of a buffer one group forward. Returns whether the
    /// buffer exists; nothing changes where it does not.
    pub fn redo(&mut self, handle: BufferHandle) -> (r: bool)
        requires
            old(self).well_formed(),
        ensures
            final(self).well_formed(),
            r == old(self).buffers.contains(handle),
            r ==> buffer_edited(old(self), final(self), handle) && stepped_forward(
                &old(self).buffers.buffer(handle),
                &final(self).buffers.buffer(handle),
                &old(self).editor_events,
                &final(self).editor_events,
            ),
            !r ==> *final(self) == *old(self),
    {
        let ghost before = *self;
        match self.take_buffer(handle) {
            Some(mut buffer) => {
                buffer.redo(&mut self.editor_events);
                self.put_buffer(Ghost(&before), handle, buffer);
                true
            },
            None => false,
        }
    }
}

/// The editor with other language servers.
pub open spec fn with_lsp(editor: &Editor, lsp: ClientManager) -> Editor {
    Editor { lsp, ..*editor }
}

/// The key was applied to the line that is being read, with `pasted` as
/// what the clipboard held; nothing else has changed.
pub open spec fn line_typed(e0: &Editor, e1: &Editor, key: Key, pasted: Option<Seq<char>>) -> bool {
    &&& *e1 == (Editor { read_line: e1.read_line, ..*e0 })
    &&& e1.read_line.prompt_text() == e0.read_line.prompt_text()
    &&& e1.read_line.input_text() == input_after(e0.read_line.input_text(), key, pasted)
}

/// What was pasted, as a sequence.
pub open spec fn pasted_view(pasted: Option<&str>) -> Option<Seq<char>> {
    match pasted {
        Some(text) => Some(text@),
        None => None,
    }
}

/// The buffer `handle` holds the text of its file as it was read: the text
/// stands in the buffer from its start, the change is queued as an event,
/// and the buffer has no history and nothing to save. The other buffers and
/// the views are as they were.
pub open spec fn buffer_loaded(e0: &Editor, e1: &Editor, handle: BufferHandle, text: Seq<char>) -> bool {
    let b0 = e0.buffers.buffer(handle);
    let b1 = e1.buffers.buffer(handle);
    let start = crate::buffer_content::clamped(b0.content@, BufferPosition::at_zero());
    &&& buffer_edited(e0, e1, handle)
    &&& e1.editor_events.reading() == e0.editor_events.reading()
    &&& b1.handle == b0.handle
    &&& b1.path == b0.path
    &&& b1.capabilities == b0.capabilities
    &&& !b1.needs_save
    &&& b1.history@.edits.len() == 0
    &&& b1.history@.groups.len() == 0
    &&& b1.history@.state == crate::history::HistoryStateView::IterIndex(0)
    &&& if text.len() == 0 {
        b1.content == b0.content && e1.editor_events.pending() == e0.editor_events.pending()
    } else {
        &&& b1.content@ == crate::buffer_content::inserted(b0.content@, start, text)
        &&& e1.editor_events.pending() == e0.editor_events.pending().push(
            EditorEventView::BufferInsertText {
                handle: b0.handle,
                range: BufferRange {
                    from: start,
                    to: crate::buffer_content::end_of_insert(start, text),
                },
                text,
            },
        )
    }
}

impl Editor {
    /// Puts the text of the file of a buffer, as it was read, into the
    /// buffer. Returns whether the buffer exists; nothing changes where it
    /// does not.
    pub fn load_buffer(&mut self, handle: BufferHandle, text: &str) -> (r: bool)
        requires
            old(self).well_formed(),
        ensures
            final(self).well_formed(),
            r == old(self).buffers.contains(handle),
            r ==> buffer_loaded(old(self), final(self), handle, text@),
            !r ==> *final(self) == *old(self),
    {
        let ghost before = *self;
        match self.take_buffer(handle) {
            Some(mut buffer) => {
                buffer.insert_text(BufferPosition::zero(), text, 0, &mut self.editor_events);
                buffer.history.clear();
                buffer.needs_save = false;
                self.put_buffer(Ghost(&before), handle, buffer);
                true
            },
            None => false,
        }
    }
}

} // verus!
