//! What a client does between its terminal and the server: it turns what
//! is typed into events for the server, and the events of the server into
//! what the terminal shows.

use crate::args::Args;
use crate::connection::TargetClient;
use crate::platform::Key;
use crate::serialization::{
    client_event_bytes, client_event_fits, take_server_event, ClientEvent, ClientEventView,
    DeserializeError, ServerEvent, ServerEventView,
};
use vstd::prelude::*;
use vstd::slice::slice_subrange;
use vstd::utf8::{decode_utf8, valid_utf8};

verus! {

/// What a client keeps between its updates.
pub struct ClientApplication {
    /// The client as the server knows it.
    pub target: TargetClient,
    /// Whether the client has no terminal, but reads commands and writes
    /// their output.
    pub is_pipped: bool,
    /// The bytes of commands that are not whole yet.
    pub stdin_read_buf: Vec<u8>,
    /// The bytes of the server that are no whole event yet.
    pub server_read_buf: Vec<u8>,
}

/// What an update of a client comes to.
pub struct ClientOutput {
    /// Whether the server asks the client to suspend.
    pub suspend: bool,
    /// Whether the server sent what is no event.
    pub invalid: bool,
    /// The bytes to send to the server.
    pub to_server: Vec<u8>,
    /// The bytes to write to the terminal.
    pub to_stdout: Vec<u8>,
}

/// The key that a byte from a terminal stands for.
pub open spec fn key_of_byte(byte: u8) -> Key {
    if byte == 0x1b {
        Key::Esc
    } else if byte == 13 || byte == 10 {
        Key::Enter
    } else if byte == 9 {
        Key::Tab
    } else if byte == 0x7f || byte == 8 {
        Key::Backspace
    } else if 1 <= byte <= 26 {
        Key::Ctrl((96 + byte) as char)
    } else {
        Key::Char(byte as char)
    }
}

/// The bytes with the record of the event behind them, where the event can
/// be written.
pub open spec fn with_event(out: Seq<u8>, event: ClientEventView) -> Seq<u8> {
    if client_event_fits(event) {
        out + client_event_bytes(event)
    } else {
        out
    }
}

/// The bytes with the records of the first `count` keys behind them.
pub open spec fn with_keys(out: Seq<u8>, target: TargetClient, keys: Seq<Key>, count: int) -> Seq<u8>
    decreases count,
{
    if count <= 0 || count > keys.len() {
        out
    } else {
        with_event(
            with_keys(out, target, keys, count - 1),
            ClientEventView::Key(target, keys[count - 1]),
        )
    }
}

/// The bytes with the events that open the first `count` files behind them.
pub open spec fn with_files(
    out: Seq<u8>,
    target: TargetClient,
    files: Seq<Seq<char>>,
    count: int,
) -> Seq<u8>
    decreases count,
{
    if count <= 0 || count > files.len() {
        out
    } else {
        with_event(
            with_files(out, target, files, count - 1),
            ClientEventView::OpenBuffer(target, files[count - 1]),
        )
    }
}

/// The command that reads a file of commands: `try-source` where a
/// missing file is no error, `source` otherwise, and the path in quotes.
pub open spec fn source_command(config: (Seq<char>, bool)) -> Seq<char> {
    (if config.1 {
        "try-source '"@
    } else {
        "source '"@
    }) + config.0 + "'"@
}

/// The bytes with the commands that read the first `count` files of
/// commands behind them.
pub open spec fn with_configs(
    out: Seq<u8>,
    target: TargetClient,
    configs: Seq<(Seq<char>, bool)>,
    count: int,
) -> Seq<u8>
    decreases count,
{
    if count <= 0 || count > configs.len() {
        out
    } else {
        with_event(
            with_configs(out, target, configs, count - 1),
            ClientEventView::Command(target, source_command(configs[count - 1])),
        )
    }
}

/// The place of the first zero byte at or behind `from`, or the length of
/// the bytes.
pub open spec fn command_end(bytes: Seq<u8>, from: int) -> int
    decreases bytes.len() - from,
{
    if from < 0 || from >= bytes.len() || bytes[from] == 0 {
        from
    } else {
        command_end(bytes, from + 1)
    }
}

/// What the bytes of commands from `from` on come to: the events of the
/// commands that end in a zero byte, behind `out`, and the place where the
/// bytes that are no whole command yet begin. A command that is no text is
/// dropped.
pub open spec fn with_commands(bytes: Seq<u8>, from: int, target: TargetClient, out: Seq<u8>) -> (
    Seq<u8>,
    int,
)
    decreases bytes.len() - from,
{
    let end = command_end(bytes, from);
    if from < 0 || end < from || end >= bytes.len() {
        (out, from)
    } else {
        let command = bytes.subrange(from, end);
        with_commands(
            bytes,
            end + 1,
            target,
            if valid_utf8(command) {
                with_event(out, ClientEventView::Command(target, decode_utf8(command)))
            } else {
                out
            },
        )
    }
}

/// What the terminal is to show for an event of the server: a display as
/// it is, the output of a command followed by a zero byte.
pub open spec fn shown_for(event: ServerEventView) -> Seq<u8> {
    match event {
        ServerEventView::Display(bytes) => bytes,
        ServerEventView::CommandOutput(text) => vstd::utf8::encode_utf8(text).push(0u8),
        _ => Seq::empty(),
    }
}

/// What the bytes of the server from `from` on come to.
pub struct Shown {
    /// What the terminal is to show.
    pub out: Seq<u8>,
    /// Whether an event asks the client to suspend.
    pub suspend: bool,
    /// Whether the bytes hold what is no event.
    pub invalid: bool,
    /// Where the bytes that are no whole event yet begin.
    pub rest: int,
}

/// Reads the events of the server from `from` on, oldest first, up to the
/// first that is not whole or no event at all.
pub open spec fn shown(bytes: Seq<u8>, from: int, out: Seq<u8>, suspend: bool) -> Shown
    decreases bytes.len() - from,
{
    if from < 0 || from >= bytes.len() {
        Shown { out, suspend, invalid: false, rest: from }
    } else {
        match take_server_event(bytes.skip(from), 0) {
            Ok((event, length)) => if length <= 0 || from + length > bytes.len() {
                Shown { out, suspend, invalid: false, rest: from }
            } else {
                shown(
                    bytes,
                    from + length,
                    out + shown_for(event),
                    suspend || event == ServerEventView::Suspend,
                )
            },
            Err(DeserializeError::InsufficientData) => Shown {
                out,
                suspend,
                invalid: false,
                rest: from,
            },
            Err(DeserializeError::InvalidData) => Shown { out, suspend, invalid: true, rest: from },
        }
    }
}

/// The key that a byte from a terminal stands for.
pub fn terminal_key(byte: u8) -> (r: Key)
    ensures
        r == key_of_byte(byte),
{
    if byte == 0x1b {
        Key::Esc
    } else if byte == 13 || byte == 10 {
        Key::Enter
    } else if byte == 9 {
        Key::Tab
    } else if byte == 0x7f || byte == 8 {
        Key::Backspace
    } else if 1 <= byte && byte <= 26 {
        Key::Ctrl((96 + byte) as char)
    } else {
        Key::Char(byte as char)
    }
}

fn append(out: &mut Vec<u8>, bytes: &[u8])
    ensures
        final(out)@ == old(out)@ + bytes@,
{
    let mut i: usize = 0;
    while i < bytes.len()
        invariant
            0 <= i <= bytes.len(),
            out@ == old(out)@ + bytes@.take(i as int),
        decreases bytes.len() - i,
    {
        out.push(bytes[i]);
        i = i + 1;
        assert(out@ =~= old(out)@ + bytes@.take(i as int));
    }
    assert(bytes@.take(bytes@.len() as int) =~= bytes@);
}

impl ClientApplication {
    /// The number of bytes that are read from the terminal at a time.
    pub fn stdin_buffer_len() -> (r: usize)
        ensures
            r == 4096,
    {
        4 * 1024
    }

    /// The number of bytes that are read from the server at a time.
    pub fn connection_buffer_len() -> (r: usize)
        ensures
            r == 49152,
    {
        48 * 1024
    }

    pub fn new(target: TargetClient, is_pipped: bool) -> (r: Self)
        ensures
            r.target == target,
            r.is_pipped == is_pipped,
            r.stdin_read_buf@.len() == 0,
            r.server_read_buf@.len() == 0,
    {
        ClientApplication {
            target,
            is_pipped,
            stdin_read_buf: Vec::new(),
            server_read_buf: Vec::new(),
        }
    }

    /// The bytes that a client sends first: a key that is no key, to be
    /// shown the editor, unless the client has no terminal or acts for the
    /// focused client; the commands that read the files of commands, for
    /// the first client; the events that open the files; and the command to
    /// quit, where that is asked for.
    pub fn init(&self, args: &Args, is_first_client: bool) -> (r: Vec<u8>)
        ensures
            ({
                let target = self.target;
                let greeted = if !self.is_pipped && !args.as_focused_client {
                    with_event(Seq::empty(), ClientEventView::Key(target, Key::NoKey))
                } else {
                    Seq::empty()
                };
                let configured = if is_first_client {
                    with_configs(greeted, target, args@.configs, args@.configs.len() as int)
                } else {
                    greeted
                };
                let opened = with_files(configured, target, args@.files, args@.files.len() as int);
                r@ == if args.quit {
                    with_event(opened, ClientEventView::Command(target, "quit"@))
                } else {
                    opened
                }
            }),
    {
        let target = self.target;
        let mut out: Vec<u8> = Vec::new();
        if !self.is_pipped && !args.as_focused_client {
            ClientEvent::Key(target, Key::NoKey).serialize(&mut out);
        }
        if is_first_client {
            let ghost start = out@;
            let mut i: usize = 0;
            while i < args.configs.len()
                invariant
                    0 <= i <= args.configs.len(),
                    out@ == with_configs(start, target, args@.configs, i as int),
                decreases args.configs.len() - i,
            {
                let config = &args.configs[i];
                assert(args@.configs[i as int] == config@);
                let mut command = String::from_str(
                    if config.suppress_file_not_found {
                        "try-source '"
                    } else {
                        "source '"
                    },
                );
                command.append(config.path.as_str());
                command.append("'");
                ClientEvent::Command(target, command).serialize(&mut out);
                i = i + 1;
            }
        }
        let ghost configured = out@;
        let mut i: usize = 0;
        while i < args.files.len()
            invariant
                0 <= i <= args.files.len(),
                out@ == with_files(configured, target, args@.files, i as int),
            decreases args.files.len() - i,
        {
            assert(args@.files[i as int] == args.files@[i as int]@);
            ClientEvent::OpenBuffer(target, args.files[i].clone()).serialize(&mut out);
            i = i + 1;
        }
        if args.quit {
            ClientEvent::Command(target, String::from_str("quit")).serialize(&mut out);
        }
        out
    }

    /// Takes in what has come from the terminal and from the server since
    /// the last update. A new size and the keys become events for the
    /// server, and so do the commands that are whole; the events of the
    /// server that are whole are turned into what the terminal shows. What
    /// is not whole yet waits for more.
    #[verifier::loop_isolation(false)]
    pub fn update(
        &mut self,
        resize: Option<(u16, u16)>,
        keys: &[Key],
        stdin_bytes: &[u8],
        server_bytes: &[u8],
    ) -> (r: ClientOutput)
        ensures
            final(self).target == old(self).target,
            final(self).is_pipped == old(self).is_pipped,
            ({
                let target = old(self).target;
                let typed = old(self).stdin_read_buf@ + stdin_bytes@;
                let received = old(self).server_read_buf@ + server_bytes@;
                let resized = match resize {
                    Some((width, height)) => with_event(
                        Seq::empty(),
                        ClientEventView::Resize(target, width, height),
                    ),
                    None => Seq::empty(),
                };
                let keyed = with_keys(resized, target, keys@, keys@.len() as int);
                let commanded = with_commands(typed, 0, target, keyed);
                let seen = shown(received, 0, Seq::empty(), false);
                &&& r.to_server@ == commanded.0
                &&& final(self).stdin_read_buf@ == typed.skip(commanded.1)
                &&& r.to_stdout@ == seen.out
                &&& r.suspend == seen.suspend
                &&& r.invalid == seen.invalid
                &&& final(self).server_read_buf@ == received.skip(seen.rest)
            }),
    {
        let target = self.target;
        let mut to_server: Vec<u8> = Vec::new();
        match resize {
            Some((width, height)) => {
                ClientEvent::Resize(target, width, height).serialize(&mut to_server);
            },
            None => {},
        }
        let ghost resized = to_server@;
        let mut i: usize = 0;
        while i < keys.len()
            invariant
                0 <= i <= keys.len(),
                to_server@ == with_keys(resized, target, keys@, i as int),
            decreases keys.len() - i,
        {
            ClientEvent::Key(target, keys[i]).serialize(&mut to_server);
            i = i + 1;
        }
        let ghost keyed = to_server@;

        append(&mut self.stdin_read_buf, stdin_bytes);
        let ghost typed = self.stdin_read_buf@;
        let mut from: usize = 0;
        let mut scanning = true;
        while scanning
            invariant
                0 <= from <= self.stdin_read_buf.len(),
                self.stdin_read_buf@ == typed,
                scanning ==> with_commands(typed, 0, target, keyed) == with_commands(
                    typed,
                    from as int,
                    target,
                    to_server@,
                ),
                !scanning ==> with_commands(typed, 0, target, keyed) == (to_server@, from as int),
            decreases self.stdin_read_buf.len() - from + if scanning { 1int } else { 0int },
        {
            let mut end = from;
            while end < self.stdin_read_buf.len() && self.stdin_read_buf[end] != 0
                invariant
                    from <= end <= self.stdin_read_buf.len(),
                    self.stdin_read_buf@ == typed,
                    command_end(typed, from as int) == command_end(typed, end as int),
                decreases self.stdin_read_buf.len() - end,
            {
                end = end + 1;
            }
            if end >= self.stdin_read_buf.len() {
                scanning = false;
            } else {
                let command = slice_subrange(self.stdin_read_buf.as_slice(), from, end);
                match core::str::from_utf8(command) {
                    Ok(text) => {
                        ClientEvent::Command(target, String::from_str(text)).serialize(
                            &mut to_server,
                        );
                    },
                    Err(_) => {},
                }
                from = end + 1;
            }
        }
        let rest = self.stdin_read_buf.split_off(from);
        self.stdin_read_buf = rest;
        assert(self.stdin_read_buf@ =~= typed.skip(from as int));

        append(&mut self.server_read_buf, server_bytes);
        let ghost received = self.server_read_buf@;
        let mut to_stdout: Vec<u8> = Vec::new();
        let mut suspend = false;
        let mut invalid = false;
        let mut at: usize = 0;
        let mut reading = true;
        while reading
            invariant
                0 <= at <= self.server_read_buf.len(),
                self.server_read_buf@ == received,
                reading ==> !invalid,
                reading ==> shown(received, 0, Seq::empty(), false) == shown(
                    received,
                    at as int,
                    to_stdout@,
                    suspend,
                ),
                !reading ==> shown(received, 0, Seq::empty(), false) == (Shown {
                    out: to_stdout@,
                    suspend,
                    invalid,
                    rest: at as int,
                }),
            decreases self.server_read_buf.len() - at + if reading { 1int } else { 0int },
        {
            if at >= self.server_read_buf.len() {
                reading = false;
            } else {
                let left = slice_subrange(
                    self.server_read_buf.as_slice(),
                    at,
                    self.server_read_buf.len(),
                );
                assert(left@ =~= received.skip(at as int));
                match ServerEvent::deserialize(left) {
                    Ok((event, length)) => {
                        if length == 0 {
                            reading = false;
                        } else {
                            match &event {
                                ServerEvent::Display(bytes) => {
                                    append(&mut to_stdout, bytes.as_slice());
                                },
                                ServerEvent::Suspend => {
                                    suspend = true;
                                },
                                ServerEvent::CommandOutput(text) => {
                                    append(&mut to_stdout, text.as_str().as_bytes());
                                    to_stdout.push(0);
                                },
                                ServerEvent::Request(_) => {},
                            }
                            at = at + length;
                        }
                    },
                    Err(DeserializeError::InsufficientData) => {
                        reading = false;
                    },
                    Err(DeserializeError::InvalidData) => {
                        invalid = true;
                        reading = false;
                    },
                }
            }
        }
        let rest = self.server_read_buf.split_off(at);
        self.server_read_buf = rest;
        assert(self.server_read_buf@ =~= received.skip(at as int));
        ClientOutput { suspend, invalid, to_server, to_stdout }
    }
}

} // verus!
