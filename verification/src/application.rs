//! What the server does with the events of the platform, one event at a
//! time.

use crate::client_collection::ClientCollection;
use crate::connection::{RemoteConnectionWithClientHandle, TargetClient};
use crate::dispatch::{client_joined, client_left, event_handled, idle_told, picker_readied};
use crate::editor::{Editor, EditorLoop};
use crate::lsp::client::ClientManager;
use crate::lsp::manager::{output_handled, process_exited, process_spawned};
use crate::platform::{Platform, PlatformRequest, PlatformRequestView, ProcessHandle, ProcessTag};
use crate::serialization::{take_client_event, ClientEvent, ClientEventView, DeserializeError};
use vstd::prelude::*;

verus! {

/// An error of which nothing is kept.
pub struct AnyError;

/// What the platform tells the server.
pub enum ApplicationEvent {
    Idle,
    Redraw,
    ConnectionOpen { handle: RemoteConnectionWithClientHandle },
    ConnectionClose { handle: RemoteConnectionWithClientHandle },
    ConnectionOutput { handle: RemoteConnectionWithClientHandle, buf: Vec<u8> },
    ProcessSpawned { tag: ProcessTag, process: ProcessHandle },
    ProcessOutput { tag: ProcessTag, buf: Vec<u8> },
    ProcessExit { tag: ProcessTag },
}

/// The events that wait for the server, oldest first, until the receiving
/// end is closed.
pub struct ApplicationEventSender {
    pub events: Vec<ApplicationEvent>,
    pub closed: bool,
}

impl ApplicationEventSender {
    pub fn new() -> (r: Self)
        ensures
            r.events@.len() == 0,
            !r.closed,
    {
        ApplicationEventSender { events: Vec::new(), closed: false }
    }

    /// Puts an event behind those that wait. Fails, with the event
    /// dropped, where the receiving end is closed.
    pub fn send(&mut self, event: ApplicationEvent) -> (r: Result<(), AnyError>)
        ensures
            final(self).closed == old(self).closed,
            r is Err == old(self).closed,
            r is Ok ==> final(self).events@ == old(self).events@.push(event),
            r is Err ==> final(self).events@ == old(self).events@,
    {
        if self.closed {
            Err(AnyError)
        } else {
            self.events.push(event);
            Ok(())
        }
    }
}

/// What the server keeps between the events of the platform.
pub struct ServerApplication {
    /// Whether no client has joined yet.
    pub is_first_client: bool,
    /// The number of the process of the server.
    pub process_id: u32,
    /// The bytes of each connection that are no whole event yet, by the
    /// slot of the connection.
    pub read_bufs: Vec<Vec<u8>>,
}

/// The bytes that welcome a client: whether it is the first one, and the
/// slot of its connection.
pub open spec fn welcome_bytes(first: bool, handle: RemoteConnectionWithClientHandle) -> Seq<u8> {
    seq![
        if first {
            1u8
        } else {
            0u8
        },
        (handle.index() % 256) as u8,
    ]
}

/// Where the editor, its clients and the requests to the platform stand
/// while the events of a client are handled, and the place in the bytes of
/// the client where the next event begins.
pub struct OutputStage {
    pub editor: Editor,
    pub clients: ClientCollection,
    pub requests: Seq<PlatformRequestView>,
    pub at: int,
}

/// One event of a client: the event that begins at the place of the first
/// stage is whole, and the editor handles it and goes on.
pub open spec fn output_step(
    s0: OutputStage,
    s1: OutputStage,
    input: Seq<u8>,
    handle: RemoteConnectionWithClientHandle,
) -> bool {
    match take_client_event(input.skip(s0.at), 0) {
        Ok((event, length)) => {
            &&& 0 <= s0.at < input.len()
            &&& length > 0
            &&& s1.at == s0.at + length
            &&& event_handled(
                &s0.editor,
                &s1.editor,
                &s0.clients,
                &s1.clients,
                s0.requests,
                s1.requests,
                s0.clients.mapped(TargetClient::Remote(handle)),
                event,
                EditorLoop::Continue,
            )
        },
        Err(_) => false,
    }
}

/// The stage at the place `i` leads to the next one by one event.
pub open spec fn output_linked(
    stages: Seq<OutputStage>,
    input: Seq<u8>,
    handle: RemoteConnectionWithClientHandle,
    i: int,
) -> bool {
    output_step(stages[i], stages[i + 1], input, handle)
}

/// The request to close the connection of a client.
pub open spec fn close_request(handle: RemoteConnectionWithClientHandle) -> PlatformRequestView {
    PlatformRequestView::CloseClient { client: TargetClient::Remote(handle) }
}

/// How the events of a client end, with `rest` as the place from which its
/// bytes wait for more. The bytes are used up, or what is left is no whole
/// event: the server goes on. What is left is no event at all: the
/// connection is closed and nothing waits. An event asks the client to
/// leave: the connection is closed and nothing waits. An event asks all
/// clients to leave: the server stops.
pub open spec fn output_ended(
    last: OutputStage,
    e1: &Editor,
    k1: &ClientCollection,
    w1: Seq<PlatformRequestView>,
    input: Seq<u8>,
    handle: RemoteConnectionWithClientHandle,
    go_on: bool,
    rest: int,
) -> bool {
    if last.at >= input.len() {
        go_on && rest == input.len() && *e1 == last.editor && *k1 == last.clients && w1
            == last.requests
    } else {
        match take_client_event(input.skip(last.at), 0) {
            Err(DeserializeError::InsufficientData) => go_on && rest == last.at && *e1
                == last.editor && *k1 == last.clients && w1 == last.requests,
            Err(DeserializeError::InvalidData) => go_on && rest == input.len() && *e1
                == last.editor && *k1 == last.clients && w1 == last.requests.push(
                close_request(handle),
            ),
            Ok((event, length)) => if length <= 0 {
                go_on && rest == last.at && *e1 == last.editor && *k1 == last.clients && w1
                    == last.requests
            } else {
                exists|asked: Seq<PlatformRequestView>, result: EditorLoop|
                    #![trigger leaving(last, e1, k1, asked, handle, event, result)]
                    leaving(last, e1, k1, asked, handle, event, result) && if result
                        == EditorLoop::Quit {
                        go_on && rest == input.len() && w1 == asked.push(close_request(handle))
                    } else {
                        !go_on && rest == last.at + length && w1 == asked
                    }
            },
        }
    }
}

/// The editor has handled an event that asks the client, or all clients,
/// to leave.
pub open spec fn leaving(
    last: OutputStage,
    e1: &Editor,
    k1: &ClientCollection,
    w1: Seq<PlatformRequestView>,
    handle: RemoteConnectionWithClientHandle,
    event: ClientEventView,
    result: EditorLoop,
) -> bool {
    result != EditorLoop::Continue && event_handled(
        &last.editor,
        e1,
        &last.clients,
        k1,
        last.requests,
        w1,
        last.clients.mapped(TargetClient::Remote(handle)),
        event,
        result,
    )
}

/// The bytes of a connection that wait for more.
pub open spec fn waiting_bytes(
    bufs: Seq<Vec<u8>>,
    handle: RemoteConnectionWithClientHandle,
) -> Seq<u8> {
    if handle.index() < bufs.len() {
        bufs[handle.index()]@
    } else {
        Seq::empty()
    }
}

/// A client has sent bytes: they have joined the bytes of its connection
/// that waited for more, every whole event in them was handled, oldest
/// first, and what is left waits for more.
pub open spec fn connection_read(
    s0: &ServerApplication,
    s1: &ServerApplication,
    e0: &Editor,
    e1: &Editor,
    k0: &ClientCollection,
    k1: &ClientCollection,
    w0: Seq<PlatformRequestView>,
    w1: Seq<PlatformRequestView>,
    handle: RemoteConnectionWithClientHandle,
    bytes: Seq<u8>,
    go_on: bool,
) -> bool {
    let input = waiting_bytes(s0.read_bufs@, handle) + bytes;
    &&& s1.is_first_client == s0.is_first_client
    &&& s1.process_id == s0.process_id
    &&& forall|i: int|
        0 <= i < s0.read_bufs@.len() && i != handle.index() ==> i < s1.read_bufs@.len()
            && s1.read_bufs@[i]@ == s0.read_bufs@[i]@
    &&& exists|stages: Seq<OutputStage>, rest: int|
        #![trigger output_ended(stages.last(), e1, k1, w1, input, handle, go_on, rest)]
        {
            &&& stages.len() > 0
            &&& stages[0] == (OutputStage { editor: *e0, clients: *k0, requests: w0, at: 0 })
            &&& forall|i: int|
                0 <= i < stages.len() - 1 ==> #[trigger] output_linked(stages, input, handle, i)
            &&& output_ended(stages.last(), e1, k1, w1, input, handle, go_on, rest)
            &&& 0 <= rest <= input.len()
            &&& waiting_bytes(s1.read_bufs@, handle) == input.skip(rest)
        }
}

/// A client has joined: it is attached, shown what the focused client looks
/// at, and welcomed.
pub open spec fn connection_opened(
    s0: &ServerApplication,
    s1: &ServerApplication,
    e0: &Editor,
    e1: &Editor,
    k0: &ClientCollection,
    k1: &ClientCollection,
    w0: Seq<PlatformRequestView>,
    w1: Seq<PlatformRequestView>,
    handle: RemoteConnectionWithClientHandle,
) -> bool {
    &&& client_joined(e0, e1, k0, k1, handle)
    &&& (!s1.is_first_client)
    &&& (s1.process_id == s0.process_id)
    &&& (s1.read_bufs == s0.read_bufs)
    &&& (k1.client(TargetClient::Remote(handle)) is Some)
    &&& (w1 == w0.push(
        PlatformRequestView::WriteToClient {
            client: TargetClient::Remote(handle),
            buf: welcome_bytes(s0.is_first_client, handle),
        },
    ))
}

/// A client has left: it is detached, and the bytes that waited for more
/// of it are dropped. The server goes on while a remote client is left.
pub open spec fn connection_closed(
    s0: &ServerApplication,
    s1: &ServerApplication,
    e0: &Editor,
    e1: &Editor,
    k0: &ClientCollection,
    k1: &ClientCollection,
    handle: RemoteConnectionWithClientHandle,
    r: bool,
) -> bool {
    &&& client_left(e0, e1, k0, k1, handle)
    &&& (*e1 == *e0)
    &&& (k1.client(TargetClient::Remote(handle)) is None)
    &&& (forall|t: TargetClient|
        t != TargetClient::Remote(handle) ==> k1.client(t) == k0.client(t))
    &&& (r == k1.has_remote_clients())
    &&& (s1.is_first_client == s0.is_first_client)
    &&& (s1.process_id == s0.process_id)
    &&& (s1.read_bufs@.len() == s0.read_bufs@.len())
    &&& (forall|i: int|
        0 <= i < s1.read_bufs@.len() ==> s1.read_bufs@[i]@ == if i
            == handle.index() {
            Seq::<u8>::empty()
        } else {
            s0.read_bufs@[i]@
        })
}

/// Where the server, the editor, its clients and the requests to the
/// platform stand between two events of the platform.
pub struct ServerStage {
    pub server: ServerApplication,
    pub editor: Editor,
    pub clients: ClientCollection,
    pub requests: Seq<PlatformRequestView>,
}

/// What one event of the platform does; `go_on` tells whether the server
/// goes on. An idle platform has the editor tell those that listen. A
/// client that joins is attached and welcomed; one that leaves is detached.
/// What a client sends is read as events for the editor. What becomes of a
/// language server, and what it writes, goes to its client.
pub open spec fn application_event_handled(
    s0: ServerStage,
    s1: ServerStage,
    event: ApplicationEvent,
    go_on: bool,
) -> bool {
    let same_server = s1.server == s0.server;
    let same_clients = s1.clients == s0.clients;
    match event {
        ApplicationEvent::Idle => go_on && same_server && same_clients && idle_told(
            &s0.editor,
            &s1.editor,
            s0.requests,
            s1.requests,
        ),
        ApplicationEvent::Redraw => go_on && s1 == s0,
        ApplicationEvent::ConnectionOpen { handle } => go_on && connection_opened(
            &s0.server,
            &s1.server,
            &s0.editor,
            &s1.editor,
            &s0.clients,
            &s1.clients,
            s0.requests,
            s1.requests,
            handle,
        ),
        ApplicationEvent::ConnectionClose { handle } => s1.requests == s0.requests
            && connection_closed(
            &s0.server,
            &s1.server,
            &s0.editor,
            &s1.editor,
            &s0.clients,
            &s1.clients,
            handle,
            go_on,
        ),
        ApplicationEvent::ConnectionOutput { handle, buf } => connection_read(
            &s0.server,
            &s1.server,
            &s0.editor,
            &s1.editor,
            &s0.clients,
            &s1.clients,
            s0.requests,
            s1.requests,
            handle,
            buf@,
            go_on,
        ),
        ApplicationEvent::ProcessSpawned { tag, process } => go_on && same_server && same_clients
            && match tag {
            ProcessTag::Lsp(client) => process_spawned(
                &s0.editor,
                &s1.editor,
                s0.requests,
                s1.requests,
                client,
                process,
                s0.server.process_id,
            ),
            ProcessTag::Command(_) => s1.editor == s0.editor && s1.requests == s0.requests,
        },
        ApplicationEvent::ProcessOutput { tag, buf } => go_on && same_server && match tag {
            ProcessTag::Lsp(client) => output_handled(
                &s0.editor,
                &s1.editor,
                &s0.clients,
                &s1.clients,
                s0.requests,
                s1.requests,
                client,
                buf@,
            ),
            ProcessTag::Command(_) => s1.editor == s0.editor && same_clients && s1.requests
                == s0.requests,
        },
        ApplicationEvent::ProcessExit { tag } => go_on && same_server && same_clients
            && s1.requests == s0.requests && match tag {
            ProcessTag::Lsp(client) => process_exited(&s0.editor, &s1.editor, client),
            ProcessTag::Command(_) => s1.editor == s0.editor,
        },
    }
}

/// The stage at the place `i` leads to the next one by the event at the
/// place `i`, and the server goes on.
pub open spec fn event_linked(stages: Seq<ServerStage>, events: Seq<ApplicationEvent>, i: int) -> bool {
    application_event_handled(stages[i], stages[i + 1], events[i], true)
}

/// The events of the platform were handled, oldest first, until one of
/// them stopped the server or none was left; then the picker was made
/// ready to be shown. `go_on` tells whether the server goes on.
pub open spec fn application_run(
    s0: ServerStage,
    s1: ServerStage,
    events: Seq<ApplicationEvent>,
    go_on: bool,
) -> bool {
    exists|stages: Seq<ServerStage>, last: ServerStage, rows: usize|
        #![trigger run_parts(s0, s1, events, go_on, stages, last, rows)]
        run_parts(s0, s1, events, go_on, stages, last, rows)
}

/// The parts of `application_run`: the stages between the events that let
/// the server go on, the stage behind the last event that was handled, and
/// the rows of the picker.
pub open spec fn run_parts(
    s0: ServerStage,
    s1: ServerStage,
    events: Seq<ApplicationEvent>,
    go_on: bool,
    stages: Seq<ServerStage>,
    last: ServerStage,
    rows: usize,
) -> bool {
    &&& 0 < stages.len() <= events.len() + 1
    &&& stages[0] == s0
    &&& forall|i: int| 0 <= i < stages.len() - 1 ==> #[trigger] event_linked(stages, events, i)
    &&& if go_on {
        stages.len() == events.len() + 1 && last == stages.last()
    } else {
        stages.len() <= events.len() && application_event_handled(
            stages.last(),
            last,
            events[stages.len() - 1],
            false,
        )
    }
    &&& s1.server == last.server
    &&& s1.clients == last.clients
    &&& s1.requests == last.requests
    &&& picker_readied(&last.editor, &s1.editor, rows)
}

impl ServerApplication {
    pub fn new(process_id: u32) -> (r: Self)
        ensures
            r.is_first_client,
            r.process_id == process_id,
            r.read_bufs@.len() == 0,
    {
        ServerApplication { is_first_client: true, process_id, read_bufs: Vec::new() }
    }

    /// The queue of the requests to the platform, empty.
    pub fn platform_request_channel() -> (r: Platform)
        ensures
            r@ == Seq::<PlatformRequestView>::empty(),
    {
        Platform::new()
    }

    /// The number of bytes that are read from a connection at a time.
    pub fn connection_buffer_len() -> (r: usize)
        ensures
            r == 512,
    {
        512
    }

    /// The number of seconds without events after which the editor is idle.
    pub fn idle_duration() -> (r: u64)
        ensures
            r == 1,
    {
        1
    }

    /// A client has joined: it is attached, shown what the focused client
    /// looks at, and welcomed.
    pub fn on_connection_open(
        &mut self,
        editor: &mut Editor,
        platform: &mut Platform,
        clients: &mut ClientCollection,
        handle: RemoteConnectionWithClientHandle,
    )
        requires
            old(editor).well_formed(),
        ensures
            final(editor).well_formed(),
            connection_opened(old(self), final(self), old(editor), final(editor), old(clients), final(clients), old(platform)@, final(platform)@, handle),
    {
        editor.on_client_joined(clients, handle);
        let mut buf: Vec<u8> = Vec::new();
        buf.push(
            if self.is_first_client {
                1
            } else {
                0
            },
        );
        buf.push((handle.into_index() % 256) as u8);
        assert(buf@ =~= welcome_bytes(self.is_first_client, handle));
        platform.enqueue_request(
            PlatformRequest::WriteToClient { client: TargetClient::Remote(handle), buf },
        );
        self.is_first_client = false;
    }

    /// A client has left: it is detached, and the bytes that waited for
    /// more of it are dropped. Returns whether a remote client is left.
    pub fn on_connection_close(
        &mut self,
        editor: &mut Editor,
        clients: &mut ClientCollection,
        handle: RemoteConnectionWithClientHandle,
    ) -> (r: bool)
        ensures
            connection_closed(old(self), final(self), old(editor), final(editor), old(clients), final(clients), handle, r),
    {
        editor.on_client_left(clients, handle);
        let index = handle.into_index();
        if index < self.read_bufs.len() {
            self.read_bufs.set(index, Vec::new());
        }
        clients.any_remote_client()
    }

    /// Handles the event of a client that begins at the place `from` of its
    /// bytes. Returns the place of the next event where the editor goes on,
    /// and else whether the server goes on and from where the bytes wait
    /// for more.
    fn read_event(
        editor: &mut Editor,
        platform: &mut Platform,
        clients: &mut ClientCollection,
        handle: RemoteConnectionWithClientHandle,
        pending: &Vec<u8>,
        from: usize,
    ) -> (r: Result<usize, (bool, usize)>)
        requires
            old(editor).well_formed(),
            from <= pending@.len(),
        ensures
            final(editor).well_formed(),
            ({
                let s0 = OutputStage {
                    editor: *old(editor),
                    clients: *old(clients),
                    requests: old(platform)@,
                    at: from as int,
                };
                match r {
                    Ok(next) => from < next <= pending@.len() && output_step(
                        s0,
                        OutputStage {
                            editor: *final(editor),
                            clients: *final(clients),
                            requests: final(platform)@,
                            at: next as int,
                        },
                        pending@,
                        handle,
                    ),
                    Err((go_on, rest)) => rest <= pending@.len() && output_ended(
                        s0,
                        final(editor),
                        final(clients),
                        final(platform)@,
                        pending@,
                        handle,
                        go_on,
                        rest as int,
                    ),
                }
            }),
    {
        let ghost last = OutputStage {
            editor: *editor,
            clients: *clients,
            requests: platform@,
            at: from as int,
        };
        if from >= pending.len() {
            return Err((true, pending.len()));
        }
        let left = vstd::slice::slice_subrange(pending.as_slice(), from, pending.len());
        assert(left@ =~= pending@.skip(from as int));
        match ClientEvent::deserialize(left) {
            Ok((event, length)) => {
                if length == 0 {
                    return Err((true, from));
                }
                let ghost view = event@;
                let result = editor.on_event(platform, clients, TargetClient::Remote(handle), event);
                match result {
                    EditorLoop::Continue => Ok(from + length),
                    EditorLoop::Quit => {
                        let ghost asked = platform@;
                        platform.enqueue_request(
                            PlatformRequest::CloseClient { client: TargetClient::Remote(handle) },
                        );
                        assert(leaving(last, editor, clients, asked, handle, view, result));
                        Err((true, pending.len()))
                    },
                    EditorLoop::QuitAll => {
                        assert(leaving(last, editor, clients, platform@, handle, view, result));
                        Err((false, from + length))
                    },
                }
            },
            Err(DeserializeError::InsufficientData) => Err((true, from)),
            Err(DeserializeError::InvalidData) => {
                platform.enqueue_request(
                    PlatformRequest::CloseClient { client: TargetClient::Remote(handle) },
                );
                Err((true, pending.len()))
            },
        }
    }

    /// A client has sent bytes: they join the bytes of the connection that
    /// waited for more, and every whole event in them is handled, oldest
    /// first. An event that asks the client to leave has its connection
    /// closed, and so has a client that sends what is no event. Returns
    /// whether the server goes on: it stops where an event asks all clients
    /// to leave.
    #[verifier::loop_isolation(false)]
    pub fn on_connection_output(
        &mut self,
        editor: &mut Editor,
        platform: &mut Platform,
        clients: &mut ClientCollection,
        handle: RemoteConnectionWithClientHandle,
        bytes: &[u8],
    ) -> (r: bool)
        requires
            old(editor).well_formed(),
        ensures
            final(editor).well_formed(),
            connection_read(
                old(self),
                final(self),
                old(editor),
                final(editor),
                old(clients),
                final(clients),
                old(platform)@,
                final(platform)@,
                handle,
                bytes@,
                r,
            ),
    {
        let index = handle.into_index();
        let mut pending: Vec<u8> = Vec::new();
        if index < self.read_bufs.len() {
            core::mem::swap(&mut self.read_bufs[index], &mut pending);
        }
        let ghost taken = self.read_bufs@;
        let ghost waited = pending@;
        assert(waited == waiting_bytes(old(self).read_bufs@, handle));
        let mut i: usize = 0;
        while i < bytes.len()
            invariant
                0 <= i <= bytes.len(),
                pending@ == waited + bytes@.take(i as int),
            decreases bytes.len() - i,
        {
            pending.push(bytes[i]);
            i = i + 1;
            assert(pending@ =~= waited + bytes@.take(i as int));
        }
        assert(bytes@.take(bytes@.len() as int) =~= bytes@);
        let ghost input = pending@;
        let ghost mut stages: Seq<OutputStage> = seq![
            OutputStage { editor: *editor, clients: *clients, requests: platform@, at: 0 },
        ];
        let mut go_on = true;
        let mut open = true;
        let mut from: usize = 0;
        let mut rest: usize = 0;
        while open
            invariant
                0 <= from <= pending.len(),
                0 <= rest <= pending.len(),
                pending@ == input,
                editor.well_formed(),
                stages.len() > 0,
                stages[0] == (OutputStage {
                    editor: *old(editor),
                    clients: *old(clients),
                    requests: old(platform)@,
                    at: 0,
                }),
                forall|j: int|
                    0 <= j < stages.len() - 1 ==> #[trigger] output_linked(stages, input, handle, j),
                open ==> stages.last() == (OutputStage {
                    editor: *editor,
                    clients: *clients,
                    requests: platform@,
                    at: from as int,
                }),
                !open ==> output_ended(
                    stages.last(),
                    editor,
                    clients,
                    platform@,
                    input,
                    handle,
                    go_on,
                    rest as int,
                ),
            decreases pending.len() - from + if open { 1int } else { 0int },
        {
            let ghost last = stages.last();
            match ServerApplication::read_event(editor, platform, clients, handle, &pending, from) {
                Ok(next) => {
                    from = next;
                    proof {
                        let s1 = OutputStage {
                            editor: *editor,
                            clients: *clients,
                            requests: platform@,
                            at: from as int,
                        };
                        let before = stages;
                        stages = stages.push(s1);
                        assert(stages[before.len() - 1] == last);
                        assert(output_linked(stages, input, handle, before.len() - 1));
                        assert forall|j: int|
                            0 <= j < stages.len() - 1 implies #[trigger] output_linked(
                            stages,
                            input,
                            handle,
                            j,
                        ) by {
                            if j < before.len() - 1 {
                                assert(stages[j] == before[j] && stages[j + 1] == before[j + 1]);
                                assert(output_linked(before, input, handle, j));
                            }
                        }
                        assert(stages[0] == before[0]);
                    }
                },
                Err((goes, left)) => {
                    go_on = goes;
                    rest = left;
                    open = false;
                },
            }
        }
        let left = pending.split_off(rest);
        assert(left@ =~= input.skip(rest as int));
        while self.read_bufs.len() <= index && left.len() > 0
            invariant
                self.is_first_client == old(self).is_first_client,
                self.process_id == old(self).process_id,
                self.read_bufs@.len() >= taken.len(),
                forall|j: int| 0 <= j < taken.len() ==> self.read_bufs@[j] == taken[j],
            decreases index + 1 - self.read_bufs.len(),
        {
            self.read_bufs.push(Vec::new());
        }
        if index < self.read_bufs.len() {
            self.read_bufs.set(index, left);
        }
        proof {
            assert(waiting_bytes(self.read_bufs@, handle) =~= input.skip(rest as int));
            assert(input == waiting_bytes(old(self).read_bufs@, handle) + bytes@);
            assert(output_ended(
                stages.last(),
                editor,
                clients,
                platform@,
                input,
                handle,
                go_on,
                rest as int,
            ));
            assert forall|i: int|
                0 <= i < old(self).read_bufs@.len() && i != handle.index() implies i
                < self.read_bufs@.len() && self.read_bufs@[i]@ == old(self).read_bufs@[i]@ by {
                assert(taken[i] == old(self).read_bufs@[i]);
            }
        }
        go_on
    }

    /// Handles one event of the platform. Returns whether the server goes
    /// on: it stops where the last remote client has left or an event asks
    /// all clients to leave.
    pub fn on_application_event(
        &mut self,
        editor: &mut Editor,
        platform: &mut Platform,
        clients: &mut ClientCollection,
        event: ApplicationEvent,
    ) -> (r: bool)
        requires
            old(editor).well_formed(),
        ensures
            final(editor).well_formed(),
            application_event_handled(
                ServerStage {
                    server: *old(self),
                    editor: *old(editor),
                    clients: *old(clients),
                    requests: old(platform)@,
                },
                ServerStage {
                    server: *final(self),
                    editor: *final(editor),
                    clients: *final(clients),
                    requests: final(platform)@,
                },
                event,
                r,
            ),
    {
        match event {
            ApplicationEvent::Idle => {
                editor.on_idle(platform);
                true
            },
            ApplicationEvent::Redraw => true,
            ApplicationEvent::ConnectionOpen { handle } => {
                self.on_connection_open(editor, platform, clients, handle);
                true
            },
            ApplicationEvent::ConnectionClose { handle } => self.on_connection_close(
                editor,
                clients,
                handle,
            ),
            ApplicationEvent::ConnectionOutput { handle, buf } => self.on_connection_output(
                editor,
                platform,
                clients,
                handle,
                buf.as_slice(),
            ),
            ApplicationEvent::ProcessSpawned { tag, process } => {
                match tag {
                    ProcessTag::Lsp(client) => {
                        ClientManager::on_process_spawned(
                            editor,
                            platform,
                            client,
                            process,
                            self.process_id,
                        );
                    },
                    ProcessTag::Command(_) => {},
                }
                true
            },
            ApplicationEvent::ProcessOutput { tag, buf } => {
                match tag {
                    ProcessTag::Lsp(client) => {
                        ClientManager::on_process_output(
                            editor,
                            platform,
                            clients,
                            client,
                            buf.as_slice(),
                        );
                    },
                    ProcessTag::Command(_) => {},
                }
                true
            },
            ApplicationEvent::ProcessExit { tag } => {
                match tag {
                    ProcessTag::Lsp(client) => {
                        ClientManager::on_process_exit(editor, client);
                    },
                    ProcessTag::Command(_) => {},
                }
                true
            },
        }
    }

    /// Handles the events of the platform that have come in, oldest first,
    /// until one of them stops the server; then the picker is made ready to
    /// be shown. Returns whether the server goes on.
    pub fn run_application(
        &mut self,
        editor: &mut Editor,
        platform: &mut Platform,
        clients: &mut ClientCollection,
        events: Vec<ApplicationEvent>,
    ) -> (r: bool)
        requires
            old(editor).well_formed(),
        ensures
            final(editor).well_formed(),
            application_run(
                ServerStage {
                    server: *old(self),
                    editor: *old(editor),
                    clients: *old(clients),
                    requests: old(platform)@,
                },
                ServerStage {
                    server: *final(self),
                    editor: *final(editor),
                    clients: *final(clients),
                    requests: final(platform)@,
                },
                events@,
                r,
            ),
    {
        let mut events = events;
        let ghost all = events@;
        assert(all.len() == events.len());
        let ghost s0 = ServerStage {
            server: *self,
            editor: *editor,
            clients: *clients,
            requests: platform@,
        };
        let ghost mut stages: Seq<ServerStage> = seq![s0];
        let ghost mut last = s0;
        let mut go_on = true;
        let mut done: usize = 0;
        while go_on && events.len() > 0
            invariant
                editor.well_formed(),
                done + events@.len() == all.len(),
                all.len() <= usize::MAX,
                events@ == all.skip(done as int),
                0 < stages.len() <= all.len() + 1,
                stages[0] == s0,
                forall|i: int| 0 <= i < stages.len() - 1 ==> #[trigger] event_linked(stages, all, i),
                go_on ==> stages.len() == done + 1 && stages.last() == (ServerStage {
                    server: *self,
                    editor: *editor,
                    clients: *clients,
                    requests: platform@,
                }),
                !go_on ==> stages.len() <= all.len() && application_event_handled(
                    stages.last(),
                    ServerStage {
                        server: *self,
                        editor: *editor,
                        clients: *clients,
                        requests: platform@,
                    },
                    all[stages.len() - 1],
                    false,
                ),
            decreases events.len() + if go_on { 1int } else { 0int },
        {
            let ghost before_events = events@;
            let event = events.remove(0);
            assert(event == all[done as int]) by {
                assert(before_events[0] == all[done as int]);
            }
            assert(events@ =~= all.skip(done + 1));
            go_on = self.on_application_event(editor, platform, clients, event);
            done = done + 1;
            if go_on {
                proof {
                    let s1 = ServerStage {
                        server: *self,
                        editor: *editor,
                        clients: *clients,
                        requests: platform@,
                    };
                    let before = stages;
                    stages = stages.push(s1);
                    assert(stages[before.len() - 1] == before.last());
                    assert(event_linked(stages, all, before.len() - 1));
                    assert forall|i: int| 0 <= i < stages.len() - 1 implies #[trigger] event_linked(
                        stages,
                        all,
                        i,
                    ) by {
                        if i < before.len() - 1 {
                            assert(stages[i] == before[i] && stages[i + 1] == before[i + 1]);
                            assert(event_linked(before, all, i));
                        }
                    }
                    assert(stages[0] == before[0]);
                }
            }
        }
        let ghost handled = ServerStage {
            server: *self,
            editor: *editor,
            clients: *clients,
            requests: platform@,
        };
        let rows = editor.on_pre_render();
        assert(run_parts(
            s0,
            ServerStage { server: *self, editor: *editor, clients: *clients, requests: platform@ },
            all,
            go_on,
            stages,
            handled,
            rows,
        ));
        go_on
    }
}

} // verus!
