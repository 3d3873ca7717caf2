//! What the editor and the platform underneath it say to each other: keys,
//! readiness events, and the hooks a platform offers.

use crate::buf_pool::BufPool;
use crate::connection::TargetClient;
use crate::lsp::client::ClientHandle;
use vstd::prelude::*;

verus! {

/// A key press as the editor sees it.
#[derive(Debug, Clone, Copy, PartialEq, Eq, Structural)]
pub enum Key {
    /// No key: what a drained key queue yields.
    NoKey,
    Backspace,
    Enter,
    Left,
    Right,
    Up,
    Down,
    Home,
    End,
    PageUp,
    PageDown,
    Tab,
    Delete,
    F(u8),
    Char(char),
    Ctrl(char),
    Alt(char),
    Esc,
}

/// What a platform reports to the server side of the editor.
#[derive(Debug, Clone, Copy, PartialEq, Eq, Structural)]
pub enum ServerPlatformEvent {
    Redraw,
    Idle,
    ConnectionOpen { index: usize },
    ConnectionClose { index: usize },
    ConnectionMessage { index: usize, len: usize },
    ProcessStdout { index: usize, len: usize },
    ProcessStderr { index: usize, len: usize },
    ProcessExit { index: usize, success: bool },
}

/// What a platform reports to the client side of the editor.
#[derive(Debug, Clone, Copy, PartialEq, Eq, Structural)]
pub enum ClientPlatformEvent {
    Resize(usize, usize),
    Key(Key),
    Message(usize),
}

/// Command line arguments, as a platform hands them over.
pub trait Args: Sized {
    fn parse() -> Option<Self>;

    fn session(&self) -> Option<&str>;

    fn print_session(&self) -> bool;
}

/// The connection of a client process to its server, as a platform offers it.
pub trait ClientPlatform {
    fn read(&self, len: usize) -> &[u8];

    fn write(&mut self, buf: &[u8]) -> bool;
}

/// The number that the platform gave to a process that it spawned.
#[derive(Debug, Clone, Copy, PartialEq, Eq, Structural)]
pub struct ProcessHandle(pub u8);

/// For whom a process runs.
#[derive(Clone, Copy, PartialEq, Eq, Structural)]
pub enum ProcessTag {
    Lsp(ClientHandle),
    Command(usize),
}

/// What the editor asks of the platform.
pub enum PlatformRequest {
    Quit,
    WriteToClient { client: TargetClient, buf: Vec<u8> },
    CloseClient { client: TargetClient },
    SpawnProcess { tag: ProcessTag, command: String, environment: String, buf_len: usize },
    WriteToProcess { handle: ProcessHandle, buf: Vec<u8> },
    KillProcess { handle: ProcessHandle },
}

/// A request with its contents as sequences.
pub enum PlatformRequestView {
    Quit,
    WriteToClient { client: TargetClient, buf: Seq<u8> },
    CloseClient { client: TargetClient },
    SpawnProcess { tag: ProcessTag, command: Seq<char>, environment: Seq<char>, buf_len: usize },
    WriteToProcess { handle: ProcessHandle, buf: Seq<u8> },
    KillProcess { handle: ProcessHandle },
}

impl View for PlatformRequest {
    type V = PlatformRequestView;

    open spec fn view(&self) -> PlatformRequestView {
        match self {
            PlatformRequest::Quit => PlatformRequestView::Quit,
            PlatformRequest::WriteToClient { client, buf } => PlatformRequestView::WriteToClient {
                client: *client,
                buf: buf@,
            },
            PlatformRequest::CloseClient { client } => PlatformRequestView::CloseClient {
                client: *client,
            },
            PlatformRequest::SpawnProcess { tag, command, environment, buf_len } => {
                PlatformRequestView::SpawnProcess {
                    tag: *tag,
                    command: command@,
                    environment: environment@,
                    buf_len: *buf_len,
                }
            },
            PlatformRequest::WriteToProcess { handle, buf } => PlatformRequestView::WriteToProcess {
                handle: *handle,
                buf: buf@,
            },
            PlatformRequest::KillProcess { handle } => PlatformRequestView::KillProcess {
                handle: *handle,
            },
        }
    }
}

/// What the editor has of the platform: the requests that it has made and
/// the platform has not taken yet, and the pool of buffers for what is read
/// and written.
pub struct Platform {
    pub requests: Vec<PlatformRequest>,
    pub buf_pool: BufPool,
}

impl View for Platform {
    type V = Seq<PlatformRequestView>;

    open spec fn view(&self) -> Seq<PlatformRequestView> {
        Seq::new(self.requests@.len(), |i: int| self.requests@[i]@)
    }
}

impl Platform {
    pub fn new() -> (r: Self)
        ensures
            r@ == Seq::<PlatformRequestView>::empty(),
            r.buf_pool.well_formed(),
            r.buf_pool.states().len() == 0,
    {
        let r = Platform { requests: Vec::new(), buf_pool: BufPool::new() };
        assert(r@ =~= Seq::<PlatformRequestView>::empty());
        r
    }

    /// Puts a request behind those that wait.
    pub fn enqueue_request(&mut self, request: PlatformRequest)
        ensures
            final(self)@ == old(self)@.push(request@),
            final(self).buf_pool == old(self).buf_pool,
    {
        self.requests.push(request);
        assert(self@ =~= old(self)@.push(request@));
    }

    /// Hands the waiting requests over, oldest first, and leaves none.
    pub fn flush_requests(&mut self) -> (r: Vec<PlatformRequest>)
        ensures
            final(self)@ == Seq::<PlatformRequestView>::empty(),
            final(self).buf_pool == old(self).buf_pool,
            r@.len() == old(self)@.len(),
            forall|i: int| 0 <= i < r@.len() ==> (#[trigger] r@[i])@ == old(self)@[i],
    {
        let mut taken: Vec<PlatformRequest> = Vec::new();
        core::mem::swap(&mut self.requests, &mut taken);
        assert(self@ =~= Seq::<PlatformRequestView>::empty());
        taken
    }
}

} // verus!
