//! How the editor answers the events of its clients: keys run through
//! key maps, modes and macros; buffers are opened; events of the editor are
//! handed to those that listen.

use crate::buffer_position::BufferPosition;
use crate::client_collection::{ClientCollection, ClientData};
use crate::command::{eval_answer, eval_effect, tokens_of, CommandManager, CommandOperation};
use crate::connection::{RemoteConnectionWithClientHandle, TargetClient};
use crate::cursor::Cursor;
use crate::editor::{
    mode_entered, shown_at, tables_full, BufferedKeys, Editor, EditorLoop, KeysIterator,
    StatusMessageKind,
};
use crate::events::{BufferHandle, EditorEvent, EditorEventView};
use crate::json_parser::digits_value;
use crate::keymap::{
    begins_a_map, exact_map, key_text, keys_text, parse_keys, parsed_keys, write_key_text,
    MatchResult,
};
use crate::editor::with_lsp;
use crate::lsp::client::{ClientEntry, ClientHandle, ClientManager};
use crate::lsp::manager::{client_at, occupied, server_event_handled, servers_saw};
use crate::lsp::protocol::{ServerEvent, ServerEventView};
use crate::lsp::responses::status_shown;
use crate::mode::{Mode, ModeKind, ModeOperation};
use crate::platform::{Key, Platform, PlatformRequestView};
use crate::register::{key_queue_register, RegisterKey};
use crate::serialization::{ClientEvent, ClientEventView};
use crate::text::{chars_of, find_last, last_index_of, views};
use vstd::prelude::*;

verus! {

/// How often the keys of registers may be taken up while one key is
/// handled, before the editor gives up on macros that run each other.
pub const MACRO_ROUNDS: usize = 1024;

/// What handling the buffered keys once came to.
#[derive(Clone, Copy, PartialEq, Eq, Structural)]
pub enum KeysOutcome {
    /// All keys were handled.
    Done,
    /// The mode waits for more keys.
    Waiting,
    /// The client is to leave.
    Quit,
    /// All clients are to leave.
    QuitAll,
    /// The keys of a register are to be run in place of the keys that are left.
    Macro(RegisterKey),
}

/// The path and the line that a text names: where it ends in a colon and
/// a number that fits, the path before the colon and the line of that
/// number, counted from one; else the whole text and no line.
pub open spec fn path_and_line(text: Seq<char>) -> (Seq<char>, Option<usize>) {
    let colon = last_index_of(text, ':');
    if 0 <= colon < text.len() && colon + 1 < text.len() {
        match digits_value(text, colon + 1, text.len() as int, usize::MAX as int) {
            Some(n) => (
                text.take(colon),
                Some(
                    if n > 0 {
                        (n - 1) as usize
                    } else {
                        0usize
                    },
                ),
            ),
            None => (text, None),
        }
    } else {
        (text, None)
    }
}

/// The place that opening the text `text` leads to: the start of the line
/// that it names, or of the buffer.
pub open spec fn opened_cursor(text: Seq<char>) -> Cursor {
    let position = BufferPosition {
        line_index: match path_and_line(text).1 {
            Some(line) => line,
            None => 0,
        },
        column_index: 0,
    };
    Cursor { anchor: position, position }
}

/// Whether one of the events tells that the buffer was closed.
pub open spec fn closed_by(events: Seq<EditorEventView>, handle: BufferHandle) -> bool {
    exists|i: int| 0 <= i < events.len() && #[trigger] events[i] == (EditorEventView::BufferClose {
        handle,
    })
}

/// The commands of a text of commands up to the place `end`, behind `out`:
/// each line without what follows a `#` on it.
pub open spec fn config_lines(text: Seq<char>, from: int, out: Seq<Seq<char>>) -> Seq<Seq<char>>
    decreases text.len() - from,
{
    if from < 0 || from >= text.len() {
        out
    } else {
        let end = line_end(text, from);
        let line = text.subrange(from, comment_start(text, from, end));
        if end <= from - 1 || end >= text.len() {
            out.push(line)
        } else {
            config_lines(text, end + 1, out.push(line))
        }
    }
}

/// The place of the first line feed at or behind `from`, or the length of
/// the text.
pub open spec fn line_end(text: Seq<char>, from: int) -> int
    decreases text.len() - from,
{
    if from < 0 || from >= text.len() || text[from] == '\n' {
        from
    } else {
        line_end(text, from + 1)
    }
}

/// The place of the first `#` in `from..end`, or `end`.
pub open spec fn comment_start(text: Seq<char>, from: int, end: int) -> int
    decreases end - from,
{
    if from < 0 || from >= end || from >= text.len() || text[from] == '#' {
        if from < end {
            from
        } else {
            end
        }
    } else {
        comment_start(text, from + 1, end)
    }
}

fn find_line_end(text: &Vec<char>, from: usize) -> (r: usize)
    requires
        from <= text.len(),
    ensures
        r == line_end(text@, from as int),
        from <= r <= text.len(),
{
    let mut i = from;
    while i < text.len() && text[i] != '\n'
        invariant
            from <= i <= text.len(),
            line_end(text@, from as int) == line_end(text@, i as int),
        decreases text.len() - i,
    {
        i = i + 1;
    }
    i
}

fn find_comment_start(text: &Vec<char>, from: usize, end: usize) -> (r: usize)
    requires
        from <= end <= text.len(),
    ensures
        r == comment_start(text@, from as int, end as int),
        from <= r <= end,
{
    let mut i = from;
    while i < end && text[i] != '#'
        invariant
            from <= i <= end <= text.len(),
            comment_start(text@, from as int, end as int) == comment_start(
                text@,
                i as int,
                end as int,
            ),
        decreases end - i,
    {
        i = i + 1;
    }
    i
}

fn slice_text(text: &Vec<char>, from: usize, to: usize) -> (r: String)
    requires
        from <= to <= text.len(),
    ensures
        r@ == text@.subrange(from as int, to as int),
{
    let mut out = String::new();
    let mut i = from;
    while i < to
        invariant
            from <= i <= to <= text.len(),
            out@ == text@.subrange(from as int, i as int),
        decreases to - i,
    {
        out.push(text[i]);
        i = i + 1;
        assert(out@ =~= text@.subrange(from as int, i as int));
    }
    assert(out@ =~= text@.subrange(from as int, to as int));
    out
}

/// The commands of a text of commands: its lines, each without its comment.
pub fn config_commands(text: &str) -> (r: Vec<String>)
    ensures
        views(r@) == config_lines(text@, 0, Seq::empty()),
{
    let chars = chars_of(text);
    let mut out: Vec<String> = Vec::new();
    let mut i: usize = 0;
    assert(views(out@) =~= Seq::<Seq<char>>::empty());
    let mut done = false;
    while !done && i < chars.len()
        invariant
            0 <= i,
            chars@ == text@,
            !done ==> config_lines(text@, 0, Seq::empty()) == config_lines(
                chars@,
                i as int,
                views(out@),
            ),
            done ==> config_lines(text@, 0, Seq::empty()) == views(out@),
        decreases chars.len() - i + if done { 0int } else { 1int },
    {
        let end = find_line_end(&chars, i);
        let stop = find_comment_start(&chars, i, end);
        let ghost before = views(out@);
        let line = slice_text(&chars, i, stop);
        out.push(line);
        assert(views(out@) =~= before.push(chars@.subrange(i as int, stop as int)));
        if end >= chars.len() {
            done = true;
        } else {
            i = end + 1;
        }
    }
    out
}

fn read_number(text: &Vec<char>, from: usize, to: usize) -> (r: Option<usize>)
    requires
        from <= to <= text.len(),
    ensures
        match digits_value(text@, from as int, to as int, usize::MAX as int) {
            Some(n) => r == Some(n as usize) && 0 <= n <= usize::MAX,
            None => r is None,
        },
{
    let mut value: usize = 0;
    let mut i = from;
    while i < to
        invariant
            from <= i <= to <= text.len(),
            digits_value(text@, from as int, i as int, usize::MAX as int) == Some(value as int),
        decreases to - i,
    {
        let c = text[i];
        if !('0' <= c && c <= '9') {
            proof {
                lemma_digits_fail(text@, from as int, i + 1, to as int);
            }
            return None;
        }
        let digit = (c as u32 - '0' as u32) as usize;
        if value > (usize::MAX - digit) / 10 {
            proof {
                lemma_digits_fail(text@, from as int, i + 1, to as int);
            }
            return None;
        }
        value = value * 10 + digit;
        i = i + 1;
    }
    Some(value)
}

proof fn lemma_digits_fail(text: Seq<char>, from: int, bad: int, to: int)
    requires
        from < bad <= to <= text.len(),
        digits_value(text, from, bad, usize::MAX as int) is None,
    ensures
        digits_value(text, from, to, usize::MAX as int) is None,
    decreases to - bad,
{
    if bad < to {
        lemma_digits_fail(text, from, bad, to - 1);
    }
}

/// The path and the line that a text names.
pub fn split_path_and_line(text: &str) -> (r: (String, Option<usize>))
    ensures
        r.0@ == path_and_line(text@).0,
        r.1 == path_and_line(text@).1,
{
    let chars = chars_of(text);
    match find_last(&chars, ':') {
        Some(colon) => {
            if colon + 1 < chars.len() {
                match read_number(&chars, colon + 1, chars.len()) {
                    Some(n) => {
                        let path = slice_text(&chars, 0, colon);
                        assert(path@ =~= text@.take(colon as int));
                        let line = if n > 0 {
                            n - 1
                        } else {
                            0
                        };
                        return (path, Some(line));
                    },
                    None => {},
                }
            }
        },
        None => {},
    }
    (String::from_str(text), None)
}

/// The place of the first comma at or behind `from`, or the length of the
/// text.
pub open spec fn comma_at(text: Seq<char>, from: int) -> int
    decreases text.len() - from,
{
    if from < 0 || from >= text.len() || text[from] == ',' {
        from
    } else {
        comma_at(text, from + 1)
    }
}

/// The index that a number counted from one names.
pub open spec fn one_less(n: int) -> usize {
    if n > 0 {
        (n - 1) as usize
    } else {
        0
    }
}

/// The path and the place that a text names: where it ends in a colon, a
/// line and, behind a comma, a column, both numbers that fit and counted
/// from one, the path before the colon and that place; the column may be
/// left out with its comma. Else the whole text and no place.
pub open spec fn path_and_position(text: Seq<char>) -> (Seq<char>, Option<BufferPosition>) {
    let colon = last_index_of(text, ':');
    if 0 <= colon && colon + 1 < text.len() {
        let comma = comma_at(text, colon + 1);
        match digits_value(text, colon + 1, comma, usize::MAX as int) {
            Some(line) => if comma <= colon + 1 {
                (text, None)
            } else if comma >= text.len() {
                (
                    text.take(colon),
                    Some(BufferPosition { line_index: one_less(line), column_index: 0 }),
                )
            } else if comma + 1 >= text.len() {
                (text, None)
            } else {
                match digits_value(text, comma + 1, text.len() as int, usize::MAX as int) {
                    Some(column) => (
                        text.take(colon),
                        Some(
                            BufferPosition {
                                line_index: one_less(line),
                                column_index: one_less(column),
                            },
                        ),
                    ),
                    None => (text, None),
                }
            },
            None => (text, None),
        }
    } else {
        (text, None)
    }
}

fn find_comma(text: &Vec<char>, from: usize) -> (r: usize)
    requires
        from <= text.len(),
    ensures
        r == comma_at(text@, from as int),
        from <= r <= text.len(),
{
    let mut i = from;
    while i < text.len() && text[i] != ','
        invariant
            from <= i <= text.len(),
            comma_at(text@, from as int) == comma_at(text@, i as int),
        decreases text.len() - i,
    {
        i = i + 1;
    }
    i
}

fn index_of(n: usize) -> (r: usize)
    ensures
        r == one_less(n as int),
{
    if n > 0 {
        n - 1
    } else {
        0
    }
}

/// The path and the place that a text names.
pub fn split_path_and_position(text: &str) -> (r: (String, Option<BufferPosition>))
    ensures
        r.0@ == path_and_position(text@).0,
        r.1 == path_and_position(text@).1,
{
    let chars = chars_of(text);
    let colon = match find_last(&chars, ':') {
        Some(colon) => colon,
        None => {
            return (String::from_str(text), None);
        },
    };
    if colon + 1 >= chars.len() {
        return (String::from_str(text), None);
    }
    let comma = find_comma(&chars, colon + 1);
    let line = match read_number(&chars, colon + 1, comma) {
        Some(line) => line,
        None => {
            return (String::from_str(text), None);
        },
    };
    if comma <= colon + 1 {
        return (String::from_str(text), None);
    }
    let column = if comma >= chars.len() {
        0
    } else if comma + 1 >= chars.len() {
        return (String::from_str(text), None);
    } else {
        match read_number(&chars, comma + 1, chars.len()) {
            Some(column) => index_of(column),
            None => {
                return (String::from_str(text), None);
            },
        }
    };
    let path = slice_text(&chars, 0, colon);
    assert(path@ =~= text@.take(colon as int));
    (path, Some(BufferPosition { line_index: index_of(line), column_index: column }))
}

/// The keys of a register stand in place of the buffered keys. Where the
/// register does not spell keys, that is said on the status bar and no keys
/// are left.
pub open spec fn register_taken(e0: &Editor, e1: &Editor, register: RegisterKey) -> bool {
    let text = e0.registers@[register.index()];
    match parsed_keys(text, 0, Seq::empty()) {
        Some(keys) => *e1 == (Editor { buffered_keys: e1.buffered_keys, ..*e0 })
            && e1.buffered_keys.0@ == keys,
        None => *e1 == (Editor {
            buffered_keys: e1.buffered_keys,
            status_message: e1.status_message,
            ..*e0
        }) && e1.buffered_keys.0@.len() == 0 && e1.status_message.kind()
            == StatusMessageKind::Error && e1.status_message.text() == "error parsing keys '"@
            + text + "'"@,
    }
}

/// The buffers that the events being read tell to be closed are gone; the
/// other buffers are as they were, and so is everything else.
pub open spec fn buffers_dropped(e0: &Editor, e1: &Editor) -> bool {
    &&& *e1 == (Editor { buffers: e1.buffers, ..*e0 })
    &&& forall|h: BufferHandle|
        e1.buffers.contains(h) == (e0.buffers.contains(h) && !closed_by(
            e0.editor_events.reading(),
            h,
        ))
    &&& forall|h: BufferHandle|
        e1.buffers.contains(h) ==> e1.buffers.buffer(h) == e0.buffers.buffer(h)
}

/// The events that were queued were handed to those that listen: they are
/// the events being read now, and none is queued; the language servers
/// have seen them; and the buffers that they tell to be closed are gone.
/// Nothing but the flip has happened where no event was queued.
pub open spec fn events_handed(
    e0: &Editor,
    e1: &Editor,
    w0: Seq<PlatformRequestView>,
    w1: Seq<PlatformRequestView>,
) -> bool {
    let flipped = Editor { editor_events: e1.editor_events, ..*e0 };
    &&& e1.editor_events.reading() == e0.editor_events.pending()
    &&& e1.editor_events.pending() == Seq::<EditorEventView>::empty()
    &&& if e0.editor_events.pending().len() == 0 {
        *e1 == flipped && w1 == w0
    } else {
        exists|seen: Editor|
            #![trigger buffers_dropped(&seen, e1)]
            seen.well_formed() && servers_saw(&flipped, &seen, w0, w1) && buffers_dropped(&seen, e1)
    }
}

/// The keys from `from` up to `to` were added to the register that is
/// being recorded into, as their texts; nothing else has changed.
pub open spec fn keys_recorded(e0: &Editor, e1: &Editor, from: int, to: int) -> bool {
    let keys = e0.buffered_keys.0@;
    let end = if to < keys.len() {
        to
    } else {
        keys.len() as int
    };
    match e0.recording_macro {
        Some(register) => if 0 <= from < end {
            &&& *e1 == (Editor { registers: e1.registers, ..*e0 })
            &&& e1.registers@ == e0.registers@.update(
                register.index(),
                e0.registers@[register.index()] + keys_text(keys.subrange(from, end)),
            )
        } else {
            *e1 == *e0
        },
        None => *e1 == *e0,
    }
}

/// Where the editor, the clients and the requests to the platform stand
/// while keys are handled, and the place of the next key.
pub struct KeyStage {
    pub editor: Editor,
    pub clients: ClientCollection,
    pub requests: Seq<PlatformRequestView>,
    pub at: int,
}

/// Whether the keys go on behind what a mode answered.
pub open spec fn goes_on(operation: ModeOperation) -> bool {
    match operation {
        ModeOperation::Handled => true,
        ModeOperation::EnterMode(_) => true,
        ModeOperation::ExecuteMacro(register) => !register.well_formed(),
        _ => false,
    }
}

/// One step through the buffered keys, with what lies between its two
/// ends: the mode handles the next keys and answers `operation`, which
/// leaves the editor as `handled`; the mode that the answer names is
/// entered, which leaves the editor as `entered`; and, where a macro was
/// being recorded before the step, the keys of the step are recorded.
pub open spec fn step_parts(
    s0: KeyStage,
    s1: KeyStage,
    client: TargetClient,
    handled: Editor,
    entered: Editor,
    operation: ModeOperation,
) -> bool {
    &&& 0 <= s0.at < s0.editor.buffered_keys.0@.len()
    &&& crate::mode::keys_handled(
        &s0.editor,
        &handled,
        &s0.clients,
        &s1.clients,
        s0.requests,
        s1.requests,
        client,
        s0.at,
        s1.at,
        operation,
    )
    &&& goes_on(operation)
    &&& match operation {
        ModeOperation::EnterMode(next) => mode_entered(&handled, &entered, next),
        _ => entered == handled,
    }
    &&& if s0.editor.recording_macro is Some {
        keys_recorded(&entered, &s1.editor, s0.at, s1.at)
    } else {
        s1.editor == entered
    }
}

/// The stage at the place `i` leads to the next one by one step.
pub open spec fn key_linked(stages: Seq<KeyStage>, i: int, client: TargetClient) -> bool {
    key_step(stages[i], stages[i + 1], client)
}

/// One step through the buffered keys.
pub open spec fn key_step(s0: KeyStage, s1: KeyStage, client: TargetClient) -> bool {
    exists|handled: Editor, entered: Editor, operation: ModeOperation|
        #![trigger step_parts(s0, s1, client, handled, entered, operation)]
        step_parts(s0, s1, client, handled, entered, operation)
}

/// The last step through the buffered keys, where they are not used up:
/// the mode handles the next keys and answers what ends the run.
pub open spec fn end_parts(
    last: KeyStage,
    e1: &Editor,
    k1: &ClientCollection,
    w1: Seq<PlatformRequestView>,
    client: TargetClient,
    outcome: KeysOutcome,
    at: int,
    operation: ModeOperation,
) -> bool {
    &&& 0 <= last.at < last.editor.buffered_keys.0@.len()
    &&& crate::mode::keys_handled(
        &last.editor,
        e1,
        &last.clients,
        k1,
        last.requests,
        w1,
        client,
        last.at,
        at,
        operation,
    )
    &&& match operation {
        ModeOperation::Pending => outcome == KeysOutcome::Waiting,
        ModeOperation::Quit => outcome == KeysOutcome::Quit,
        ModeOperation::QuitAll => outcome == KeysOutcome::QuitAll,
        ModeOperation::ExecuteMacro(register) => register.well_formed() && outcome
            == KeysOutcome::Macro(register),
        _ => false,
    }
}

/// How a run through the buffered keys ends: with all keys used up, or with
/// a last step that asks for something else.
pub open spec fn key_end(
    last: KeyStage,
    e1: &Editor,
    k1: &ClientCollection,
    w1: Seq<PlatformRequestView>,
    client: TargetClient,
    outcome: KeysOutcome,
) -> bool {
    if outcome == KeysOutcome::Done {
        last.at >= last.editor.buffered_keys.0@.len() && *e1 == last.editor && *k1 == last.clients
            && w1 == last.requests
    } else {
        exists|at: int, operation: ModeOperation|
            #![trigger end_parts(last, e1, k1, w1, client, outcome, at, operation)]
            end_parts(last, e1, k1, w1, client, outcome, at, operation)
    }
}

/// The stages begin where the run begins, before the first key.
pub open spec fn begins(
    stages: Seq<KeyStage>,
    e0: &Editor,
    k0: &ClientCollection,
    w0: Seq<PlatformRequestView>,
) -> bool {
    stages.len() > 0 && stages[0] == (KeyStage {
        editor: *e0,
        clients: *k0,
        requests: w0,
        at: 0,
    })
}

/// The buffered keys were handed to the modes, from the first key on, step
/// by step, until they were used up or a mode asked for something else.
pub open spec fn keys_run(
    e0: &Editor,
    e1: &Editor,
    k0: &ClientCollection,
    k1: &ClientCollection,
    w0: Seq<PlatformRequestView>,
    w1: Seq<PlatformRequestView>,
    client: TargetClient,
    outcome: KeysOutcome,
) -> bool {
    exists|stages: Seq<KeyStage>|
        #![trigger begins(stages, e0, k0, w0)]
        {
            &&& begins(stages, e0, k0, w0)
            &&& forall|i: int| 0 <= i < stages.len() - 1 ==> #[trigger] key_linked(stages, i, client)
            &&& key_end(stages.last(), e1, k1, w1, client, outcome)
        }
}

/// What is said when macros do not stop running each other.
pub open spec fn too_many_macros() -> Seq<char> {
    "too many macros ran each other"@
}

/// Where the editor, the clients and the requests to the platform stand
/// between two runs through the buffered keys, and whether keys are left
/// for another run.
pub struct RoundStage {
    pub editor: Editor,
    pub clients: ClientCollection,
    pub requests: Seq<PlatformRequestView>,
    pub more: bool,
}

/// The clients with the focus on `target`.
pub open spec fn focused_on(clients: &ClientCollection, target: TargetClient) -> ClientCollection {
    ClientCollection { focused_client: target, ..*clients }
}

/// What follows a run through the buffered keys that used them up: the
/// keys that wait in the register of the key queue take their place and the
/// register is emptied; while that register is being recorded into, no keys
/// are left instead.
pub open spec fn queue_taken(e0: &Editor, e1: &Editor) -> bool {
    let queue = RegisterKey::queue();
    if e0.recording_macro == Some(queue) {
        *e1 == (Editor { buffered_keys: e1.buffered_keys, ..*e0 }) && e1.buffered_keys.0@.len() == 0
    } else {
        exists|taken: Editor|
            #![trigger register_taken(e0, &taken, queue)]
            register_taken(e0, &taken, queue) && *e1 == (Editor {
                registers: e1.registers,
                ..taken
            }) && e1.registers@ == taken.registers@.update(queue.index(), Seq::empty())
    }
}

/// One round: the buffered keys run through the modes and are used up or
/// give way to a macro; then the keys of the macro, or those of the key
/// queue, take their place. Keys are left for another round behind a macro,
/// and where the key queue held keys.
pub open spec fn round_parts(
    s0: RoundStage,
    s1: RoundStage,
    client: TargetClient,
    ran: Editor,
    asked: ClientCollection,
    outcome: KeysOutcome,
) -> bool {
    &&& s0.more
    &&& keys_run(&s0.editor, &ran, &s0.clients, &asked, s0.requests, s1.requests, client, outcome)
    &&& s1.clients == focused_on(&asked, client)
    &&& match outcome {
        KeysOutcome::Macro(register) => s1.more && register_taken(&ran, &s1.editor, register),
        KeysOutcome::Done => queue_taken(&ran, &s1.editor) && s1.more == (
        s1.editor.buffered_keys.0@.len() > 0),
        _ => false,
    }
}

/// The stage at the place `i` leads to the next one by one round.
pub open spec fn round_linked(stages: Seq<RoundStage>, i: int, client: TargetClient) -> bool {
    round_step(stages[i], stages[i + 1], client)
}

/// One round.
pub open spec fn round_step(s0: RoundStage, s1: RoundStage, client: TargetClient) -> bool {
    exists|ran: Editor, asked: ClientCollection, outcome: KeysOutcome|
        #![trigger round_parts(s0, s1, client, ran, asked, outcome)]
        round_parts(s0, s1, client, ran, asked, outcome)
}

/// The last round, where it ends what a key set off before the keys are
/// used up: the mode waits for more keys, or the client or all clients are
/// to leave. A client that leaves does so from normal mode, and no keys are
/// left where anybody leaves.
pub open spec fn leaving_parts(
    last: RoundStage,
    e1: &Editor,
    k1: &ClientCollection,
    w1: Seq<PlatformRequestView>,
    client: TargetClient,
    result: EditorLoop,
    ran: Editor,
    asked: ClientCollection,
    outcome: KeysOutcome,
) -> bool {
    &&& last.more
    &&& keys_run(&last.editor, &ran, &last.clients, &asked, last.requests, w1, client, outcome)
    &&& *k1 == focused_on(&asked, client)
    &&& match outcome {
        KeysOutcome::Waiting => result == EditorLoop::Continue && *e1 == ran,
        KeysOutcome::Quit => result == EditorLoop::Quit && exists|normal: Editor|
            #![trigger mode_entered(&ran, &normal, ModeKind::Normal)]
            mode_entered(&ran, &normal, ModeKind::Normal) && *e1 == (Editor {
                buffered_keys: e1.buffered_keys,
                ..normal
            }) && e1.buffered_keys.0@.len() == 0,
        KeysOutcome::QuitAll => result == EditorLoop::QuitAll && *e1 == (Editor {
            buffered_keys: e1.buffered_keys,
            ..ran
        }) && e1.buffered_keys.0@.len() == 0,
        _ => false,
    }
}

/// The rounds that a key set off have left.
pub open spec fn left(
    last: RoundStage,
    e1: &Editor,
    k1: &ClientCollection,
    w1: Seq<PlatformRequestView>,
    client: TargetClient,
    result: EditorLoop,
) -> bool {
    exists|ran: Editor, asked: ClientCollection, outcome: KeysOutcome|
        #![trigger leaving_parts(last, e1, k1, w1, client, result, ran, asked, outcome)]
        leaving_parts(last, e1, k1, w1, client, result, ran, asked, outcome)
}

/// The end of the rounds, where the keys are used up or the rounds are: no
/// keys are left, which is an error where the rounds ran out first; and the
/// events that were queued are handed to those that listen.
pub open spec fn finishing_parts(
    last: RoundStage,
    e1: &Editor,
    k1: &ClientCollection,
    w1: Seq<PlatformRequestView>,
    cleared: Editor,
) -> bool {
    &&& *k1 == last.clients
    &&& if last.editor.buffered_keys.0@.len() > 0 {
        &&& cleared == (Editor {
            buffered_keys: cleared.buffered_keys,
            status_message: cleared.status_message,
            ..last.editor
        })
        &&& cleared.buffered_keys.0@.len() == 0
        &&& cleared.status_message.kind() == StatusMessageKind::Error
        &&& cleared.status_message.text() == too_many_macros()
    } else {
        cleared == last.editor
    }
    &&& events_handed(&cleared, e1, last.requests, w1)
}

/// How the rounds that a key set off end: within the rounds that are
/// allowed, by leaving; else, with the keys or the rounds used up, by
/// finishing.
pub open spec fn rounds_end(
    last: RoundStage,
    e1: &Editor,
    k1: &ClientCollection,
    w1: Seq<PlatformRequestView>,
    client: TargetClient,
    result: EditorLoop,
    rounds: int,
) -> bool {
    if last.more && rounds < MACRO_ROUNDS {
        left(last, e1, k1, w1, client, result)
    } else {
        result == EditorLoop::Continue && exists|cleared: Editor|
            #![trigger finishing_parts(last, e1, k1, w1, cleared)]
            finishing_parts(last, e1, k1, w1, cleared)
    }
}

/// The key has joined the buffered keys of the editor, after the focus
/// went to the client: a client that takes the focus from another starts
/// without buffered keys and without a macro being recorded.
pub open spec fn key_buffered(
    e0: &Editor,
    e1: &Editor,
    k0: &ClientCollection,
    k1: &ClientCollection,
    target: TargetClient,
    key: Key,
) -> bool {
    let moved = k0.focused_client != target;
    &&& *k1 == focused_on(k0, target)
    &&& *e1 == (Editor {
        buffered_keys: e1.buffered_keys,
        recording_macro: if moved {
            None
        } else {
            e0.recording_macro
        },
        ..*e0
    })
    &&& e1.buffered_keys.0@ == (if moved {
        Seq::<Key>::empty()
    } else {
        e0.buffered_keys.0@
    }).push(key)
}

/// What a key of a client does. The key joins the buffered keys, which are
/// looked up among the key maps of the mode: keys that begin a map wait for
/// more; keys that are a map give way to what they stand for. Then the keys
/// run through the modes, round by round, with the keys of macros and of
/// the key queue taking their place, until none are left, a mode waits for
/// more, somebody is to leave, or the rounds run out.
pub open spec fn key_handled(
    e0: &Editor,
    e1: &Editor,
    k0: &ClientCollection,
    k1: &ClientCollection,
    w0: Seq<PlatformRequestView>,
    w1: Seq<PlatformRequestView>,
    target: TargetClient,
    key: Key,
    result: EditorLoop,
) -> bool {
    exists|buffered: Editor, focused: ClientCollection|
        #![trigger key_buffered(e0, &buffered, k0, &focused, target, key)]
        {
            let i = exact_map(
                buffered.keymaps.maps@,
                buffered.mode.kind,
                buffered.buffered_keys.0@,
                0,
            );
            &&& key_buffered(e0, &buffered, k0, &focused, target, key)
            &&& if i >= buffered.keymaps.maps@.len() && begins_a_map(
                buffered.keymaps.maps@,
                buffered.mode.kind,
                buffered.buffered_keys.0@,
            ) {
                result == EditorLoop::Continue && *e1 == buffered && *k1 == focused && w1 == w0
            } else {
                exists|stages: Seq<RoundStage>|
                    #![trigger rounds_begin(stages, &buffered, &focused, w0)]
                    {
                        &&& rounds_begin(stages, &buffered, &focused, w0)
                        &&& stages.len() <= MACRO_ROUNDS + 1
                        &&& forall|j: int|
                            0 <= j < stages.len() - 1 ==> #[trigger] round_linked(
                                stages,
                                j,
                                target,
                            )
                        &&& rounds_end(
                            stages.last(),
                            e1,
                            k1,
                            w1,
                            target,
                            result,
                            stages.len() - 1,
                        )
                    }
            }
        }
}

/// The rounds begin with the buffered keys as they stand behind the key
/// maps: keys that are a map have given way to what they stand for.
pub open spec fn rounds_begin(
    stages: Seq<RoundStage>,
    e0: &Editor,
    k0: &ClientCollection,
    w0: Seq<PlatformRequestView>,
) -> bool {
    let i = exact_map(e0.keymaps.maps@, e0.mode.kind, e0.buffered_keys.0@, 0);
    &&& stages.len() > 0
    &&& stages[0].more
    &&& stages[0].clients == *k0
    &&& stages[0].requests == w0
    &&& stages[0].editor == (Editor { buffered_keys: stages[0].editor.buffered_keys, ..*e0 })
    &&& stages[0].editor.buffered_keys.0@ == if i < e0.keymaps.maps@.len() {
        e0.keymaps.maps@[i].to@
    } else {
        e0.buffered_keys.0@
    }
}

/// The buffer that a text names is shown to a client, at the line that the
/// text names; where it cannot be shown, that is said on the status bar.
pub open spec fn buffer_opened(
    e0: &Editor,
    e1: &Editor,
    k0: &ClientCollection,
    k1: &ClientCollection,
    client: TargetClient,
    text: Seq<char>,
) -> bool {
    if k0.client(client) is Some && !tables_full(e0, path_and_line(text).0) {
        shown_at(e0, e1, k0, k1, client, path_and_line(text).0, opened_cursor(text))
    } else {
        status_shown(e0, e1, StatusMessageKind::Error, "could not open buffer"@) && *k1 == *k0
    }
}

/// A buffer was opened, which left the editor as `opened`, and the events
/// that this queued were handed to those that listen.
pub open spec fn open_parts(
    e0: &Editor,
    e1: &Editor,
    k0: &ClientCollection,
    k1: &ClientCollection,
    w0: Seq<PlatformRequestView>,
    w1: Seq<PlatformRequestView>,
    target: TargetClient,
    path: Seq<char>,
    opened: Editor,
) -> bool {
    opened.well_formed() && buffer_opened(e0, &opened, k0, k1, target, path) && events_handed(
        &opened,
        e1,
        w0,
        w1,
    )
}

/// A command line was run, which left the editor as `run`, and the events
/// that this queued were handed to those that listen.
pub open spec fn command_parts(
    e0: &Editor,
    e1: &Editor,
    k0: &ClientCollection,
    k1: &ClientCollection,
    w0: Seq<PlatformRequestView>,
    w1: Seq<PlatformRequestView>,
    target: TargetClient,
    line: Seq<char>,
    run: Editor,
) -> bool {
    run.well_formed() && eval_effect(e0, &run, k0, k1, target, tokens_of(line)) && events_handed(
        &run,
        e1,
        w0,
        w1,
    )
}

/// What an event of a client does, for the client `target` that the sender
/// acts for. A key runs through key maps, modes and macros. A new size is
/// noted for the client. A command line is run, and a buffer is opened, and
/// the events that this queues are handed to those that listen.
pub open spec fn event_handled(
    e0: &Editor,
    e1: &Editor,
    k0: &ClientCollection,
    k1: &ClientCollection,
    w0: Seq<PlatformRequestView>,
    w1: Seq<PlatformRequestView>,
    target: TargetClient,
    event: ClientEventView,
    result: EditorLoop,
) -> bool {
    match event {
        ClientEventView::Key(_, key) => key_handled(e0, e1, k0, k1, w0, w1, target, key, result),
        ClientEventView::Resize(_, width, height) => {
            &&& result == EditorLoop::Continue
            &&& *e1 == *e0
            &&& w1 == w0
            &&& k1.focused_client == k0.focused_client
            &&& k1.client_map == k0.client_map
            &&& forall|t: TargetClient| t != target ==> k1.client(t) == k0.client(t)
            &&& k1.client(target) == match k0.client(target) {
                Some(data) => Some(
                    ClientData { viewport_width: width, viewport_height: height, ..data },
                ),
                None => None,
            }
        },
        ClientEventView::Command(_, line) => {
            &&& result == match eval_answer(e0, tokens_of(line)) {
                Some(CommandOperation::Quit) => EditorLoop::Quit,
                Some(CommandOperation::QuitAll) => EditorLoop::QuitAll,
                None => EditorLoop::Continue,
            }
            &&& exists|run: Editor|
                #![trigger command_parts(e0, e1, k0, k1, w0, w1, target, line, run)]
                command_parts(e0, e1, k0, k1, w0, w1, target, line, run)
        },
        ClientEventView::OpenBuffer(_, path) => {
            &&& result == EditorLoop::Continue
            &&& exists|opened: Editor|
                #![trigger open_parts(e0, e1, k0, k1, w0, w1, target, path, opened)]
                open_parts(e0, e1, k0, k1, w0, w1, target, path, opened)
        },
    }
}

/// Where the editor and its clients stand between two lines of a text of
/// commands.
pub struct ConfigStage {
    pub editor: Editor,
    pub clients: ClientCollection,
}

/// The stage at the place `i` leads to the next one by running the line at
/// the place `i` for the local client.
pub open spec fn line_linked(stages: Seq<ConfigStage>, lines: Seq<Seq<char>>, i: int) -> bool {
    eval_effect(
        &stages[i].editor,
        &stages[i + 1].editor,
        &stages[i].clients,
        &stages[i + 1].clients,
        TargetClient::Local,
        tokens_of(lines[i]),
    )
}

/// The commands of a text of commands were run, line by line, for the
/// local client, and the editor is in normal mode.
pub open spec fn config_loaded(
    e0: &Editor,
    e1: &Editor,
    k0: &ClientCollection,
    k1: &ClientCollection,
    text: Seq<char>,
) -> bool {
    let lines = config_lines(text, 0, Seq::empty());
    exists|stages: Seq<ConfigStage>|
        #![trigger mode_entered(&stages.last().editor, e1, ModeKind::Normal)]
        {
            &&& stages.len() == lines.len() + 1
            &&& stages[0] == (ConfigStage { editor: *e0, clients: *k0 })
            &&& forall|i: int| 0 <= i < lines.len() ==> #[trigger] line_linked(stages, lines, i)
            &&& stages.last().clients == *k1
            &&& mode_entered(&stages.last().editor, e1, ModeKind::Normal)
        }
}

/// An event of a language server was handed to the client in the slot of
/// `handle`, which handled it with its slot reserved. Nothing happens where
/// the slot holds no client.
pub open spec fn lsp_event_handled(
    e0: &Editor,
    e1: &Editor,
    k0: &ClientCollection,
    k1: &ClientCollection,
    w0: Seq<PlatformRequestView>,
    w1: Seq<PlatformRequestView>,
    handle: ClientHandle,
    event: ServerEventView,
) -> bool {
    if occupied(e0.lsp.entries@, handle) {
        exists|reserved: Editor, handled: Editor|
            #![trigger lsp_parts(e0, e1, k0, k1, w0, w1, handle, event, reserved, handled)]
            lsp_parts(e0, e1, k0, k1, w0, w1, handle, event, reserved, handled)
    } else {
        *e1 == *e0 && *k1 == *k0 && w1 == w0
    }
}

/// The parts of `lsp_event_handled`: the editor with the slot reserved,
/// and the editor as the client left it.
pub open spec fn lsp_parts(
    e0: &Editor,
    e1: &Editor,
    k0: &ClientCollection,
    k1: &ClientCollection,
    w0: Seq<PlatformRequestView>,
    w1: Seq<PlatformRequestView>,
    handle: ClientHandle,
    event: ServerEventView,
    reserved: Editor,
    handled: Editor,
) -> bool {
    &&& reserved == with_lsp(e0, reserved.lsp)
    &&& reserved.lsp.recipes == e0.lsp.recipes
    &&& reserved.lsp.entries@ == e0.lsp.entries@.update(handle.0 as int, ClientEntry::Reserved)
    &&& occupied(e1.lsp.entries@, handle)
    &&& server_event_handled(
        event,
        client_at(e0.lsp.entries@, handle)@,
        client_at(e1.lsp.entries@, handle)@,
        &reserved,
        &handled,
        k0,
        k1,
        w0,
        w1,
    )
    &&& *e1 == with_lsp(&handled, e1.lsp)
    &&& e1.lsp.recipes == e0.lsp.recipes
    &&& e1.lsp.entries@ == e0.lsp.entries@.update(handle.0 as int, e1.lsp.entries@[handle.0 as int])
}

/// A remote client was attached. It is shown what the focused client looks
/// at, in a view of its own with the same cursors, where there is room for
/// one.
pub open spec fn client_joined(
    e0: &Editor,
    e1: &Editor,
    k0: &ClientCollection,
    k1: &ClientCollection,
    client_handle: RemoteConnectionWithClientHandle,
) -> bool {
    &&& (*e1 == (Editor { buffer_views: e1.buffer_views, ..*e0 }))
    &&& (k1.focused_client == k0.focused_client)
    &&& (k1.client_map == k0.client_map)
    &&& (forall|t: TargetClient|
        t != TargetClient::Remote(client_handle) ==> k1.client(t) == k0.client(t))
    &&& (k1.client(TargetClient::Remote(client_handle)) is Some)
    &&& (({
        let target = TargetClient::Remote(client_handle);
        let shown = match k0.client(k0.focused_client) {
            Some(data) => if k0.focused_client != target {
                data.buffer_view_handle
            } else {
                None
            },
            None => None,
        };
        let added = k1.client(target).unwrap().buffer_view_handle;
        &&& k1.client(target) == Some(
            ClientData { buffer_view_handle: added, ..ClientData::fresh() },
        )
        &&& match added {
            Some(copy) => {
                &&& shown is Some
                &&& e0.buffer_views.contains(shown.unwrap())
                &&& !e0.buffer_views.contains(copy)
                &&& e1.buffer_views.contains(copy)
                &&& e1.buffer_views.same_but(&e0.buffer_views, copy)
                &&& e1.buffer_views.view_of(copy).client == target
                &&& e1.buffer_views.view_of(copy).buffer_handle == e0.buffer_views.view_of(shown.unwrap()).buffer_handle
                &&& e1.buffer_views.view_of(copy).cursors@ == e0.buffer_views.view_of(
                    shown.unwrap(),
                ).cursors@
            },
            None => e1.buffer_views == e0.buffer_views && (shown is Some
                && e0.buffer_views.contains(shown.unwrap()) ==> e0.buffer_views.views@.len() == u32::MAX),
        }
    }))
}

/// A remote client was detached. Where it had the focus, the focus goes to
/// the local client.
pub open spec fn client_left(
    e0: &Editor,
    e1: &Editor,
    k0: &ClientCollection,
    k1: &ClientCollection,
    client_handle: RemoteConnectionWithClientHandle,
) -> bool {
    &&& (*e1 == *e0)
    &&& (k1.client(TargetClient::Remote(client_handle)).is_none())
    &&& (forall|t: TargetClient|
        t != TargetClient::Remote(client_handle) ==> k1.client(t) == k0.client(t))
    &&& (k1.focused_client == if k0.focused_client == TargetClient::Remote(
        client_handle,
    ) {
        TargetClient::Local
    } else {
        k0.focused_client
    })
    &&& (k1.client_map == k0.client_map)
}

/// The picker is ready to be shown on `r` rows: its scroll follows its
/// cursor.
pub open spec fn picker_readied(e0: &Editor, e1: &Editor, r: usize) -> bool {
    &&& (*e1 == (Editor { picker: e1.picker, ..*e0 }))
    &&& (r == if e0.picker.filtered().len() < e0.config.picker_max_height {
        e0.picker.filtered().len()
    } else {
        e0.config.picker_max_height as nat
    })
    &&& (e1.picker.names() == e0.picker.names())
    &&& (e1.picker.descriptions() == e0.picker.descriptions())
    &&& (e1.picker.filtered() == e0.picker.filtered())
    &&& (e1.picker.cursor_index() == e0.picker.cursor_index())
    &&& (e1.picker.scroll_index() == if e0.picker.cursor_index() < e0.picker.scroll_index() {
        e0.picker.cursor_index()
    } else if r > 0 && e0.picker.cursor_index() >= e0.picker.scroll_index() + r {
        e0.picker.cursor_index() - r + 1
    } else {
        e0.picker.scroll_index()
    })
}

/// The event that the editor is idle was queued, which left the editor
/// as `queued`, and the events that were queued were handed to those that
/// listen.
pub open spec fn idle_parts(
    e0: &Editor,
    e1: &Editor,
    w0: Seq<PlatformRequestView>,
    w1: Seq<PlatformRequestView>,
    queued: Editor,
) -> bool {
    &&& queued.well_formed()
    &&& queued == (Editor { editor_events: queued.editor_events, ..*e0 })
    &&& queued.editor_events.reading() == e0.editor_events.reading()
    &&& queued.editor_events.pending() == e0.editor_events.pending().push(EditorEventView::Idle)
    &&& events_handed(&queued, e1, w0, w1)
}

/// Those that listen were told that the editor is idle.
pub open spec fn idle_told(
    e0: &Editor,
    e1: &Editor,
    w0: Seq<PlatformRequestView>,
    w1: Seq<PlatformRequestView>,
) -> bool {
    exists|queued: Editor|
        #![trigger idle_parts(e0, e1, w0, w1, queued)]
        idle_parts(e0, e1, w0, w1, queued)
}

impl Editor {
    /// Puts the keys that a register spells in place of the buffered keys.
    /// Where the register does not spell keys, that is said on the status
    /// bar and no keys are left.
    pub fn parse_and_set_keys_in_register(&mut self, register_key: RegisterKey)
        requires
            old(self).well_formed(),
            register_key.well_formed(),
        ensures
            final(self).well_formed(),
            register_taken(old(self), final(self), register_key),
    {
        let text = String::from_str(self.registers.get(register_key));
        match parse_keys(text.as_str()) {
            Some(keys) => {
                self.buffered_keys = BufferedKeys(keys);
            },
            None => {
                self.buffered_keys = BufferedKeys::new();
                let mut message = String::from_str("error parsing keys '");
                message.append(text.as_str());
                message.append("'");
                self.status_message.write_str(StatusMessageKind::Error, message.as_str());
            },
        }
    }

    /// Shows a client the buffer that a text names, at the line that it
    /// names. Where the buffer cannot be shown, that is said on the status
    /// bar.
    pub fn open_buffer(&mut self, clients: &mut ClientCollection, client: TargetClient, text: &str)
        requires
            old(self).well_formed(),
        ensures
            final(self).well_formed(),
            buffer_opened(old(self), final(self), old(clients), final(clients), client, text@),
    {
        let (path, line) = split_path_and_line(text);
        let position = BufferPosition {
            line_index: match line {
                Some(line) => line,
                None => 0,
            },
            column_index: 0,
        };
        let cursor = Cursor { anchor: position, position };
        if !self.show_path(clients, client, path.as_str(), cursor) {
            self.status_message.write_str(StatusMessageKind::Error, "could not open buffer");
        }
    }

    /// Drops the buffers that the events being read tell to be closed.
    pub fn handle_editor_events(&mut self)
        requires
            old(self).well_formed(),
        ensures
            final(self).well_formed(),
            buffers_dropped(old(self), final(self)),
    {
        let count = self.editor_events.read.len();
        let ghost events = self.editor_events.reading();
        let mut i: usize = 0;
        while i < count
            invariant
                0 <= i <= count,
                count == self.editor_events.read@.len(),
                events == self.editor_events.reading(),
                events.len() == count,
                self.well_formed(),
                *self == (Editor { buffers: self.buffers, ..*old(self) }),
                forall|h: BufferHandle|
                    self.buffers.contains(h) == (old(self).buffers.contains(h) && !closed_by(
                        events.take(i as int),
                        h,
                    )),
                forall|h: BufferHandle|
                    self.buffers.contains(h) ==> self.buffers.buffer(h) == old(self).buffers.buffer(h),
            decreases count - i,
        {
            let closed = match &self.editor_events.read[i] {
                EditorEvent::BufferClose { handle } => Some(*handle),
                _ => None,
            };
            let ghost before = self.buffers;
            match closed {
                Some(handle) => {
                    self.buffers.remove(handle);
                },
                None => {},
            }
            proof {
                assert(events[i as int] == self.editor_events.read@[i as int]@);
                assert forall|h: BufferHandle|
                    self.buffers.contains(h) == (old(self).buffers.contains(h) && !closed_by(
                        events.take(i + 1),
                        h,
                    )) by {
                    let wider = events.take(i + 1);
                    let narrow = events.take(i as int);
                    if closed_by(narrow, h) {
                        let k = choose|k: int|
                            0 <= k < narrow.len() && #[trigger] narrow[k] == (
                            EditorEventView::BufferClose { handle: h });
                        assert(wider[k] == narrow[k]);
                    }
                    if closed_by(wider, h) && !closed_by(narrow, h) {
                        let k = choose|k: int|
                            0 <= k < wider.len() && #[trigger] wider[k] == (
                            EditorEventView::BufferClose { handle: h });
                        if k < i {
                            assert(narrow[k] == wider[k]);
                        }
                        assert(k == i);
                    }
                    if closed == Some(h) {
                        assert(wider[i as int] == (EditorEventView::BufferClose { handle: h }));
                    }
                }
            }
            i = i + 1;
        }
        assert(events.take(count as int) =~= events);
    }

    /// Hands the events that were queued to those that listen: the events
    /// become the ones being read; the language servers see them; and the
    /// buffers that they tell to be closed are dropped. Nothing but the flip
    /// happens where no event was queued.
    pub fn trigger_event_handlers(&mut self, platform: &mut Platform)
        requires
            old(self).well_formed(),
        ensures
            final(self).well_formed(),
            events_handed(old(self), final(self), old(platform)@, final(platform)@),
    {
        self.editor_events.flip();
        if self.editor_events.read.len() == 0 {
            assert(old(self).editor_events.pending().len() == self.editor_events.read@.len());
            return ;
        }
        assert(old(self).editor_events.pending().len() == self.editor_events.read@.len());
        let ghost flipped = *self;
        ClientManager::on_editor_events(self, platform);
        let ghost seen = *self;
        self.handle_editor_events();
        assert(buffers_dropped(&seen, self));
        assert(flipped == (Editor { editor_events: self.editor_events, ..*old(self) }));
    }

    /// Tells those that listen that the editor is idle.
    pub fn on_idle(&mut self, platform: &mut Platform)
        requires
            old(self).well_formed(),
        ensures
            final(self).well_formed(),
            idle_told(old(self), final(self), old(platform)@, final(platform)@),
    {
        self.editor_events.enqueue(EditorEvent::Idle);
        let ghost queued = *self;
        self.trigger_event_handlers(platform);
        assert(idle_parts(old(self), self, old(platform)@, platform@, queued));
    }

    /// Attaches a remote client. It is shown what the focused client looks
    /// at, in a view of its own, where there is room for one.
    pub fn on_client_joined(
        &mut self,
        clients: &mut ClientCollection,
        client_handle: RemoteConnectionWithClientHandle,
    )
        requires
            old(self).well_formed(),
        ensures
            final(self).well_formed(),
            client_joined(old(self), final(self), old(clients), final(clients), client_handle),
    {
        let target = TargetClient::Remote(client_handle);
        let shown = match clients.get(clients.focused_client) {
            Some(data) => if clients.focused_client != target {
                data.buffer_view_handle
            } else {
                None
            },
            None => None,
        };
        clients.on_client_joined(client_handle);
        let copy = match shown {
            Some(view) => match self.buffer_views.get(view) {
                Some(found) => Some(found.clone_with_target_client(target)),
                None => None,
            },
            None => None,
        };
        match copy {
            Some(copy) => {
                match self.buffer_views.add(copy) {
                    Some(added) => {
                        let mut data = ClientData::new();
                        data.buffer_view_handle = Some(added);
                        clients.set(target, data);
                    },
                    None => {},
                }
            },
            None => {},
        }
    }

    /// Detaches a remote client.
    pub fn on_client_left(
        &mut self,
        clients: &mut ClientCollection,
        client_handle: RemoteConnectionWithClientHandle,
    )
        ensures
            client_left(old(self), final(self), old(clients), final(clients), client_handle),
    {
        clients.on_client_left(client_handle);
    }

    /// Gets the picker ready to be shown: its scroll follows its cursor.
    /// Returns the number of rows that the picker takes.
    pub fn on_pre_render(&mut self) -> (r: usize)
        requires
            old(self).well_formed(),
        ensures
            final(self).well_formed(),
            picker_readied(old(self), final(self), r),
    {
        let height = self.picker.height(self.config.picker_max_height as usize);
        self.picker.update_scroll(height);
        height
    }

    /// Runs the commands of a text of commands, line by line, for the local
    /// client; what a line asks of the loop that runs the editor is dropped.
    /// The editor is in normal mode afterwards.
    pub fn load_config(&mut self, clients: &mut ClientCollection, text: &str)
        requires
            old(self).well_formed(),
        ensures
            final(self).well_formed(),
            final(self).mode.kind == ModeKind::Normal,
            config_loaded(old(self), final(self), old(clients), final(clients), text@),
    {
        let lines = config_commands(text);
        let ghost all = config_lines(text@, 0, Seq::empty());
        let ghost mut stages: Seq<ConfigStage> = seq![
            ConfigStage { editor: *self, clients: *clients },
        ];
        let mut i: usize = 0;
        while i < lines.len()
            invariant
                0 <= i <= lines.len(),
                views(lines@) == all,
                self.well_formed(),
                stages.len() == i + 1,
                stages[0] == (ConfigStage { editor: *old(self), clients: *old(clients) }),
                stages.last() == (ConfigStage { editor: *self, clients: *clients }),
                forall|j: int| 0 <= j < i ==> #[trigger] line_linked(stages, all, j),
            decreases lines.len() - i,
        {
            assert(all[i as int] == lines@[i as int]@);
            CommandManager::eval(self, clients, TargetClient::Local, lines[i].as_str());
            proof {
                let before = stages;
                stages = stages.push(ConfigStage { editor: *self, clients: *clients });
                assert(stages[i as int] == before[i as int]);
                assert(line_linked(stages, all, i as int));
                assert forall|j: int| 0 <= j < i + 1 implies #[trigger] line_linked(
                    stages,
                    all,
                    j,
                ) by {
                    if j < i {
                        assert(stages[j] == before[j] && stages[j + 1] == before[j + 1]);
                        assert(line_linked(before, all, j));
                    }
                }
            }
            i = i + 1;
        }
        self.enter_mode(ModeKind::Normal);
        assert(mode_entered(&stages.last().editor, self, ModeKind::Normal));
    }

    /// Adds the texts of the buffered keys from `from` up to `to` to the
    /// register that is being recorded into.
    pub fn record_keys(&mut self, from: usize, to: usize)
        requires
            old(self).well_formed(),
        ensures
            final(self).well_formed(),
            keys_recorded(old(self), final(self), from as int, to as int),
    {
        let register = match self.recording_macro {
            Some(register) => register,
            None => {
                return ;
            },
        };
        let end = if to < self.buffered_keys.0.len() {
            to
        } else {
            self.buffered_keys.0.len()
        };
        if from >= end {
            return ;
        }
        let ghost keys = self.buffered_keys.0@;
        let ghost before = self.registers@;
        proof {
            self.registers.lemma_has_register(register);
            assert(keys.subrange(from as int, from as int) =~= Seq::<Key>::empty());
            assert(before[register.index()] + keys_text(Seq::<Key>::empty())
                =~= before[register.index()]);
            assert(before =~= before.update(register.index(), before[register.index()]));
        }
        let mut i = from;
        while i < end
            invariant
                from <= i <= end <= keys.len(),
                self.well_formed(),
                register.well_formed(),
                0 <= register.index() < before.len(),
                keys == self.buffered_keys.0@,
                before == old(self).registers@,
                *self == (Editor { registers: self.registers, ..*old(self) }),
                self.registers@ == before.update(
                    register.index(),
                    before[register.index()] + keys_text(keys.subrange(from as int, i as int)),
                ),
            decreases end - i,
        {
            let mut text = String::new();
            write_key_text(self.buffered_keys.0[i], &mut text);
            self.registers.append(register, text.as_str());
            proof {
                let wider = keys.subrange(from as int, i + 1);
                assert(wider.drop_last() =~= keys.subrange(from as int, i as int));
                assert(wider.last() == keys[i as int]);
                assert(text@ =~= key_text(keys[i as int]));
                let narrow = keys.subrange(from as int, i as int);
                assert(keys_text(wider) == keys_text(narrow) + key_text(keys[i as int]));
                let held = before[register.index()];
                assert((held + keys_text(narrow)) + text@ =~= held + keys_text(wider));
                assert(self.registers@ =~= before.update(
                    register.index(),
                    before[register.index()] + keys_text(wider),
                ));
            }
            i = i + 1;
        }
    }

    /// Hands the buffered keys to the modes, from the first key on, until
    /// they are used up or a mode asks for something else. Keys that were
    /// handled while a macro is recorded are added to its register.
    pub fn run_keys(
        &mut self,
        platform: &mut Platform,
        clients: &mut ClientCollection,
        client: TargetClient,
    ) -> (r: KeysOutcome)
        requires
            old(self).well_formed(),
        ensures
            final(self).well_formed(),
            final(self).buffered_keys == old(self).buffered_keys,
            keys_run(
                old(self),
                final(self),
                old(clients),
                final(clients),
                old(platform)@,
                final(platform)@,
                client,
                r,
            ),
            match r {
                KeysOutcome::Macro(register) => register.well_formed(),
                _ => true,
            },
    {
        let mut keys = KeysIterator::new();
        let count = self.buffered_keys.0.len();
        let ghost mut stages: Seq<KeyStage> = seq![
            KeyStage { editor: *self, clients: *clients, requests: platform@, at: 0 },
        ];
        while keys.index() < count
            invariant
                self.well_formed(),
                self.buffered_keys == old(self).buffered_keys,
                count == self.buffered_keys.0@.len(),
                0 <= keys.position() <= count,
                begins(stages, old(self), old(clients), old(platform)@),
                stages.last() == (KeyStage {
                    editor: *self,
                    clients: *clients,
                    requests: platform@,
                    at: keys.position(),
                }),
                forall|i: int| 0 <= i < stages.len() - 1 ==> #[trigger] key_linked(stages, i, client),
            decreases count - keys.position(),
        {
            let from = keys.index();
            let recording = self.recording_macro.is_some();
            let ghost s0 = stages.last();
            let operation = Mode::on_client_keys(self, platform, clients, client, &mut keys);
            let ghost handled = *self;
            let ended = match operation {
                ModeOperation::Pending => Some(KeysOutcome::Waiting),
                ModeOperation::Handled => None,
                ModeOperation::Quit => Some(KeysOutcome::Quit),
                ModeOperation::QuitAll => Some(KeysOutcome::QuitAll),
                ModeOperation::EnterMode(next) => {
                    self.enter_mode(next);
                    None
                },
                ModeOperation::ExecuteMacro(register) => {
                    proof {
                        crate::register::lemma_well_formed(register);
                    }
                    if register.as_index() < 26 {
                        Some(KeysOutcome::Macro(register))
                    } else {
                        None
                    }
                },
            };
            match ended {
                Some(outcome) => {
                    assert(end_parts(
                        s0,
                        self,
                        clients,
                        platform@,
                        client,
                        outcome,
                        keys.position(),
                        operation,
                    ));
                    return outcome;
                },
                None => {},
            }
            let ghost entered = *self;
            if recording {
                self.record_keys(from, keys.index());
            }
            proof {
                let s1 = KeyStage {
                    editor: *self,
                    clients: *clients,
                    requests: platform@,
                    at: keys.position(),
                };
                assert(step_parts(s0, s1, client, handled, entered, operation));
                let before = stages;
                stages = stages.push(s1);
                assert forall|i: int| 0 <= i < stages.len() - 1 implies #[trigger] key_linked(
                    stages,
                    i,
                    client,
                ) by {
                    if i < before.len() - 1 {
                        assert(stages[i] == before[i] && stages[i + 1] == before[i + 1]);
                        assert(key_linked(before, i, client));
                    } else {
                        assert(stages[i] == s0 && stages[i + 1] == s1);
                    }
                }
            }
        }
        KeysOutcome::Done
    }

    /// Runs the buffered keys through the modes once, and lets the keys of
    /// a macro or of the key queue take their place. Returns what the loop
    /// that runs the editor is to do where the round ends what the key set
    /// off, and else whether keys are left for another round.
    fn run_round(
        &mut self,
        platform: &mut Platform,
        clients: &mut ClientCollection,
        target: TargetClient,
    ) -> (r: Result<bool, EditorLoop>)
        requires
            old(self).well_formed(),
        ensures
            final(self).well_formed(),
            final(clients).focused_client == target,
            ({
                let s0 = RoundStage {
                    editor: *old(self),
                    clients: *old(clients),
                    requests: old(platform)@,
                    more: true,
                };
                match r {
                    Ok(more) => round_step(
                        s0,
                        RoundStage {
                            editor: *final(self),
                            clients: *final(clients),
                            requests: final(platform)@,
                            more,
                        },
                        target,
                    ) && (!more ==> final(self).buffered_keys.0@.len() == 0),
                    Err(result) => left(
                        s0,
                        final(self),
                        final(clients),
                        final(platform)@,
                        target,
                        result,
                    ) && (result != EditorLoop::Continue ==> final(self).buffered_keys.0@.len()
                        == 0),
                }
            }),
    {
        let ghost s0 = RoundStage {
            editor: *self,
            clients: *clients,
            requests: platform@,
            more: true,
        };
        let outcome = self.run_keys(platform, clients, target);
        let ghost ran = *self;
        let ghost asked = *clients;
        clients.focused_client = target;
        let mut more = true;
        match outcome {
            KeysOutcome::Waiting => {
                assert(leaving_parts(
                    s0,
                    self,
                    clients,
                    platform@,
                    target,
                    EditorLoop::Continue,
                    ran,
                    asked,
                    outcome,
                ));
                return Err(EditorLoop::Continue);
            },
            KeysOutcome::Quit => {
                self.enter_mode(ModeKind::Normal);
                self.buffered_keys = BufferedKeys::new();
                assert(leaving_parts(
                    s0,
                    self,
                    clients,
                    platform@,
                    target,
                    EditorLoop::Quit,
                    ran,
                    asked,
                    outcome,
                ));
                return Err(EditorLoop::Quit);
            },
            KeysOutcome::QuitAll => {
                self.buffered_keys = BufferedKeys::new();
                assert(leaving_parts(
                    s0,
                    self,
                    clients,
                    platform@,
                    target,
                    EditorLoop::QuitAll,
                    ran,
                    asked,
                    outcome,
                ));
                return Err(EditorLoop::QuitAll);
            },
            KeysOutcome::Macro(register) => {
                self.parse_and_set_keys_in_register(register);
            },
            KeysOutcome::Done => {
                let queue = key_queue_register();
                if self.recording_macro == Some(queue) {
                    self.buffered_keys = BufferedKeys::new();
                } else {
                    self.parse_and_set_keys_in_register(queue);
                    let ghost taken = *self;
                    proof {
                        reveal_strlit("");
                        assert(""@ =~= Seq::<char>::empty());
                    }
                    self.registers.set(queue, "");
                    assert(register_taken(&ran, &taken, queue));
                }
                assert(queue_taken(&ran, self));
                if self.buffered_keys.0.len() == 0 {
                    more = false;
                }
            },
        }
        assert(round_parts(
            s0,
            RoundStage { editor: *self, clients: *clients, requests: platform@, more },
            target,
            ran,
            asked,
            outcome,
        ));
        Ok(more)
    }

    /// Handles a key of a client. Returns what the loop that runs the
    /// editor is to do.
    #[verifier::loop_isolation(false)]
    pub fn on_key(
        &mut self,
        platform: &mut Platform,
        clients: &mut ClientCollection,
        target_client: TargetClient,
        key: Key,
    ) -> (r: EditorLoop)
        requires
            old(self).well_formed(),
        ensures
            final(self).well_formed(),
            final(clients).focused_client == old(clients).mapped(target_client),
            r != EditorLoop::Continue ==> final(self).buffered_keys.0@.len() == 0,
            key_handled(
                old(self),
                final(self),
                old(clients),
                final(clients),
                old(platform)@,
                final(platform)@,
                old(clients).mapped(target_client),
                key,
                r,
            ),
    {
        let target = clients.get_mapped(target_client);
        if target != clients.focused_client {
            clients.focused_client = target;
            self.recording_macro = None;
            self.buffered_keys = BufferedKeys::new();
        }
        self.buffered_keys.0.push(key);
        let ghost buffered = *self;
        let ghost focused = *clients;
        proof {
            let kept = if old(clients).focused_client != target {
                Seq::<Key>::empty()
            } else {
                old(self).buffered_keys.0@
            };
            assert(buffered.buffered_keys.0@ =~= kept.push(key));
        }
        assert(key_buffered(old(self), &buffered, old(clients), &focused, target, key));
        match self.keymaps.matches(self.mode.kind, self.buffered_keys.as_slice()) {
            MatchResult::NoMatch => {},
            MatchResult::Prefix => {
                return EditorLoop::Continue;
            },
            MatchResult::ReplaceWith(keys) => {
                self.buffered_keys = BufferedKeys(keys);
            },
        }
        let ghost mut stages: Seq<RoundStage> = seq![
            RoundStage { editor: *self, clients: *clients, requests: platform@, more: true },
        ];
        assert(rounds_begin(stages, &buffered, &focused, old(platform)@));
        let mut rounds: usize = 0;
        let mut more = true;
        while more && rounds < MACRO_ROUNDS
            invariant
                self.well_formed(),
                clients.focused_client == target,
                0 <= rounds <= MACRO_ROUNDS,
                stages.len() == rounds + 1,
                stages[0].more,
                rounds_begin(stages, &buffered, &focused, old(platform)@),
                stages.last() == (RoundStage {
                    editor: *self,
                    clients: *clients,
                    requests: platform@,
                    more,
                }),
                !more ==> self.buffered_keys.0@.len() == 0,
                forall|j: int|
                    0 <= j < stages.len() - 1 ==> #[trigger] round_linked(stages, j, target),
            decreases MACRO_ROUNDS - rounds + if more { 1int } else { 0int },
        {
            let ghost s0 = stages.last();
            match self.run_round(platform, clients, target) {
                Ok(left) => {
                    more = left;
                },
                Err(result) => {
                    return result;
                },
            }
            rounds = rounds + 1;
            proof {
                let s1 = RoundStage {
                    editor: *self,
                    clients: *clients,
                    requests: platform@,
                    more,
                };
                let before = stages;
                stages = stages.push(s1);
                assert forall|j: int| 0 <= j < stages.len() - 1 implies #[trigger] round_linked(
                    stages,
                    j,
                    target,
                ) by {
                    if j < before.len() - 1 {
                        assert(stages[j] == before[j] && stages[j + 1] == before[j + 1]);
                        assert(round_linked(before, j, target));
                    } else {
                        assert(stages[j] == s0 && stages[j + 1] == s1);
                    }
                }
                assert(stages[0] == before[0]);
            }
        }
        let ghost last = stages.last();
        if self.buffered_keys.0.len() > 0 {
            self.buffered_keys = BufferedKeys::new();
            self.status_message.write_str(
                StatusMessageKind::Error,
                "too many macros ran each other",
            );
        }
        let ghost cleared = *self;
        self.trigger_event_handlers(platform);
        assert(finishing_parts(last, self, clients, platform@, cleared));
        EditorLoop::Continue
    }

    /// Handles an event of a client, for the client that the sender acts
    /// for. Returns what the loop that runs the editor is to do.
    pub fn on_event(
        &mut self,
        platform: &mut Platform,
        clients: &mut ClientCollection,
        target_client: TargetClient,
        event: ClientEvent,
    ) -> (r: EditorLoop)
        requires
            old(self).well_formed(),
        ensures
            final(self).well_formed(),
            event_handled(
                old(self),
                final(self),
                old(clients),
                final(clients),
                old(platform)@,
                final(platform)@,
                old(clients).mapped(target_client),
                event@,
                r,
            ),
    {
        match event {
            ClientEvent::Key(_, key) => {
                let r = self.on_key(platform, clients, target_client, key);
                assert(event_handled(
                    old(self),
                    self,
                    old(clients),
                    clients,
                    old(platform)@,
                    platform@,
                    old(clients).mapped(target_client),
                    event@,
                    r,
                ));
                r
            },
            ClientEvent::Resize(_, width, height) => {
                let target = clients.get_mapped(target_client);
                match clients.get(target) {
                    Some(data) => {
                        let resized = ClientData {
                            buffer_view_handle: data.buffer_view_handle,
                            previous_buffer_view_handle: data.previous_buffer_view_handle,
                            viewport_width: width,
                            viewport_height: height,
                            scroll: data.scroll,
                            has_ui: data.has_ui,
                        };
                        clients.set(target, resized);
                    },
                    None => {},
                }
                assert(event_handled(
                    old(self),
                    self,
                    old(clients),
                    clients,
                    old(platform)@,
                    platform@,
                    old(clients).mapped(target_client),
                    event@,
                    EditorLoop::Continue,
                ));
                EditorLoop::Continue
            },
            ClientEvent::Command(_, line) => {
                let target = clients.get_mapped(target_client);
                let operation = CommandManager::eval(self, clients, target, line.as_str());
                let ghost run = *self;
                assert(eval_effect(old(self), &run, old(clients), clients, target, tokens_of(line@)));
                self.trigger_event_handlers(platform);
                let r = match operation {
                    Some(CommandOperation::Quit) => EditorLoop::Quit,
                    Some(CommandOperation::QuitAll) => EditorLoop::QuitAll,
                    None => EditorLoop::Continue,
                };
                assert(command_parts(
                    old(self),
                    self,
                    old(clients),
                    clients,
                    old(platform)@,
                    platform@,
                    target,
                    line@,
                    run,
                ));
                assert(event_handled(
                    old(self),
                    self,
                    old(clients),
                    clients,
                    old(platform)@,
                    platform@,
                    old(clients).mapped(target_client),
                    event@,
                    r,
                ));
                r
            },
            ClientEvent::OpenBuffer(_, path) => {
                let target = clients.get_mapped(target_client);
                self.open_buffer(clients, target, path.as_str());
                let ghost opened = *self;
                assert(buffer_opened(old(self), &opened, old(clients), clients, target, path@));
                self.trigger_event_handlers(platform);
                assert(open_parts(
                    old(self),
                    self,
                    old(clients),
                    clients,
                    old(platform)@,
                    platform@,
                    target,
                    path@,
                    opened,
                ));
                assert(event@ is OpenBuffer);
                assert(event@->OpenBuffer_1 == path@);
                assert(target == old(clients).mapped(target_client));
                assert(event_handled(
                    old(self),
                    self,
                    old(clients),
                    clients,
                    old(platform)@,
                    platform@,
                    old(clients).mapped(target_client),
                    event@,
                    EditorLoop::Continue,
                ));
                EditorLoop::Continue
            },
        }
    }

    /// Hands an event of a language server to its client. Nothing happens
    /// where the slot holds no client.
    pub fn on_lsp_event(
        &mut self,
        platform: &mut Platform,
        clients: &mut ClientCollection,
        client_handle: ClientHandle,
        event: ServerEvent,
    )
        requires
            old(self).well_formed(),
        ensures
            final(self).well_formed(),
            lsp_event_handled(
                old(self),
                final(self),
                old(clients),
                final(clients),
                old(platform)@,
                final(platform)@,
                client_handle,
                event@,
            ),
    {
        match ClientManager::access(self, client_handle) {
            Some(mut client) => {
                let ghost reserved = *self;
                client.on_server_event(self, platform, clients, event);
                let ghost handled = *self;
                ClientManager::release(self, client_handle, client);
                assert(self.lsp.entries@ =~= old(self).lsp.entries@.update(
                    client_handle.0 as int,
                    self.lsp.entries@[client_handle.0 as int],
                ));
                assert(lsp_parts(
                    old(self),
                    self,
                    old(clients),
                    clients,
                    old(platform)@,
                    platform@,
                    client_handle,
                    event@,
                    reserved,
                    handled,
                ));
            },
            None => {},
        }
    }
}

} // verus!
