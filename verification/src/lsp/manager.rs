//! The table of language server clients, and the recipes that start them.

use crate::buffer::{text_inserted, BufferCapabilities};
use crate::buffer_content::end_of;
use crate::buffer_position::BufferRange;
use crate::client_collection::ClientCollection;
use crate::editor::{buffer_edited, with_lsp, Editor, StatusMessageKind};
use crate::events::{BufferHandle, EditorEvent, EditorEventView};
use crate::glob::{compiled, Glob, InvalidGlobError};
use crate::json::{json_text, Json, JsonValue, ObjectBuilder};
use crate::lsp::actions::initialize_params;
use crate::lsp::capabilities::ServerCapabilities;
use crate::lsp::client::{
    logged, notified, requested, responded, Client, ClientEntry, ClientHandle,
    ClientManager, ClientModel, ClientRecipe, RequestState,
};
use crate::lsp::protocol::{
    pending_index, next_in, header_end, frame_of, Frame, RequestId, ResponseErrorView, ServerEvent, ServerEventView,
};
use crate::lsp::requests::{
    notification_effect, notification_received_log, parse_error_view, request_effect,
    request_received_log,
};
use crate::lsp::responses::{response_effect, response_received_log, status_shown};
use crate::platform::{
    Platform, PlatformRequest, PlatformRequestView, ProcessHandle, ProcessTag,
};
use crate::text::same_text;
use vstd::prelude::*;
use vstd::utf8::encode_utf8;

verus! {

/// The number of bytes that the platform reads from a server at a time.
pub const BUFFER_LEN: usize = 4096;

/// Whether the slot of `handle` holds a client.
pub open spec fn occupied(entries: Seq<ClientEntry>, handle: ClientHandle) -> bool {
    handle.0 < entries.len() && entries[handle.0 as int] is Occupied
}

/// The client in the slot of `handle`.
pub open spec fn client_at(entries: Seq<ClientEntry>, handle: ClientHandle) -> Client {
    entries[handle.0 as int]->Occupied_0
}

/// The place of the first vacant slot from `from` on, or the number of slots.
pub open spec fn free_slot(entries: Seq<ClientEntry>, from: int) -> int
    decreases entries.len() - from,
{
    if from < 0 || from >= entries.len() {
        entries.len() as int
    } else if entries[from] is Vacant {
        from
    } else {
        free_slot(entries, from + 1)
    }
}

/// The place of the first recipe from `from` on for the command, or the
/// number of recipes.
pub open spec fn recipe_of_command(recipes: Seq<ClientRecipe>, command: Seq<char>, from: int) -> int
    decreases recipes.len() - from,
{
    if from < 0 || from >= recipes.len() {
        recipes.len() as int
    } else if recipes[from].command@ == command {
        from
    } else {
        recipe_of_command(recipes, command, from + 1)
    }
}

/// The recipe starts the command for the files that the pattern matches,
/// and no client runs for it.
pub open spec fn recipe_holds(
    recipe: ClientRecipe,
    pattern: Seq<u8>,
    command: Seq<char>,
    environment: Seq<char>,
    root: Seq<char>,
    log_buffer_name: Seq<char>,
) -> bool {
    &&& compiled(pattern) == Some((recipe.glob.ops(), recipe.glob.pool()))
    &&& recipe.command@ == command
    &&& recipe.environment@ == environment
    &&& recipe.root@ == root
    &&& recipe.log_buffer_name@ == log_buffer_name
    &&& recipe.running_client is None
}

/// The text, or the empty text where there is none.
pub open spec fn text_or_empty(text: Option<&str>) -> Seq<char> {
    match text {
        Some(text) => text@,
        None => Seq::empty(),
    }
}

/// The recipes once the client `handle` runs no longer.
pub open spec fn released(recipes: Seq<ClientRecipe>, handle: ClientHandle) -> Seq<ClientRecipe> {
    Seq::new(
        recipes.len(),
        |i: int|
            ClientRecipe {
                running_client: if recipes[i].running_client == Some(handle) {
                    None
                } else {
                    recipes[i].running_client
                },
                ..recipes[i]
            },
    )
}

/// A client that has not spoken to its server yet.
pub open spec fn fresh_client(
    handle: ClientHandle,
    root: Seq<char>,
    log_buffer_handle: Option<BufferHandle>,
) -> ClientModel {
    ClientModel {
        handle,
        process_handle: None,
        next_request_id: 1,
        read_buf: Seq::empty(),
        root,
        pending_requests: Seq::empty(),
        initialized: false,
        capabilities: ServerCapabilities::none(),
        log: Seq::empty(),
        log_buffer_handle,
        document_selectors: Seq::empty(),
        versioned_buffers: Seq::empty(),
        diagnostics: Seq::empty(),
        request_state: RequestState::Idle,
        request_raw_json: Json::Null,
    }
}

/// The clients in the first `count` slots, in the order of their slots.
pub open spec fn occupants(entries: Seq<ClientEntry>, count: int) -> Seq<Client>
    decreases count,
{
    if count <= 0 || count > entries.len() {
        Seq::empty()
    } else {
        match entries[count - 1] {
            ClientEntry::Occupied(client) => occupants(entries, count - 1).push(client),
            _ => occupants(entries, count - 1),
        }
    }
}

/// The requests to the platform once the clients in the first `count`
/// slots, as far as handles reach, told their servers to exit.
pub open spec fn exits_sent(
    entries: Seq<ClientEntry>,
    p: Seq<PlatformRequestView>,
    count: int,
) -> Seq<PlatformRequestView>
    decreases count,
{
    if count <= 0 || count > entries.len() || count > 256 {
        p
    } else {
        let before = exits_sent(entries, p, count - 1);
        match entries[count - 1] {
            ClientEntry::Occupied(client) => notified(client@, before, "exit"@, empty_object()).1,
            _ => before,
        }
    }
}

/// The JSON object without members.
pub open spec fn empty_object() -> Json {
    Json::Object(Seq::empty(), Seq::empty())
}

/// The client and the requests once the client has asked a server, which
/// runs as the process `process_handle`, to initialize.
pub open spec fn initialize_sent(
    m: ClientModel,
    p: Seq<PlatformRequestView>,
    process_handle: ProcessHandle,
    process_id: u32,
) -> (ClientModel, Seq<PlatformRequestView>) {
    let (asked, requests) = requested(
        ClientModel { process_handle: Some(process_handle), initialized: true, ..m },
        p,
        "initialize"@,
        initialize_params(m.root, process_id),
    );
    (ClientModel { initialized: false, ..asked }, requests)
}

fn build_empty_object() -> (r: JsonValue)
    ensures
        r@ == empty_object(),
{
    let r = ObjectBuilder::new().build();
    assert(r@->Object_0 =~= Seq::<Seq<char>>::empty());
    assert(r@->Object_1 =~= Seq::<Json>::empty());
    r
}

/// The server of a client was spawned: the client has taken the handle of
/// the process and asked the server to initialize. Nothing happens where
/// the slot holds no client.
pub open spec fn process_spawned(
    e0: &Editor,
    e1: &Editor,
    w0: Seq<PlatformRequestView>,
    w1: Seq<PlatformRequestView>,
    handle: ClientHandle,
    process_handle: ProcessHandle,
    process_id: u32,
) -> bool {
    &&& (if occupied(e0.lsp.entries@, handle) {
        let sent = initialize_sent(
            client_at(e0.lsp.entries@, handle)@,
            w0,
            process_handle,
            process_id,
        );
        &&& *e1 == (Editor { lsp: e1.lsp, ..*e0 })
        &&& e1.lsp.recipes == e0.lsp.recipes
        &&& e1.lsp.entries@.len() == e0.lsp.entries@.len()
        &&& forall|j: int|
            0 <= j < e0.lsp.entries@.len() && j != handle.0 ==> e1.lsp.entries@[j] == e0.lsp.entries@[j]
        &&& occupied(e1.lsp.entries@, handle)
        &&& client_at(e1.lsp.entries@, handle)@ == sent.0
        &&& w1 == sent.1
    } else {
        *e1 == *e0 && w1 == w0
    })
}

/// The server of a client has exited: the slot of the client is vacant,
/// and no recipe has it as its running client.
pub open spec fn process_exited(e0: &Editor, e1: &Editor, handle: ClientHandle) -> bool {
    &&& (*e1 == (Editor { lsp: e1.lsp, ..*e0 }))
    &&& (e1.lsp.recipes@ == released(e0.lsp.recipes@, handle))
    &&& (e1.lsp.entries@ == if handle.0 < e0.lsp.entries@.len() {
        e0.lsp.entries@.update(handle.0 as int, ClientEntry::Vacant)
    } else {
        e0.lsp.entries@
    })
}

impl ClientManager {
    /// Adds a recipe that starts `command` for the files that `glob`
    /// matches, in place of the first recipe for that command where there
    /// is one. Fails, with nothing changed, where the pattern is no glob.
    #[verifier::loop_isolation(false)]
    pub fn add_recipe(
        &mut self,
        glob: &[u8],
        command: &str,
        environment: &str,
        root: Option<&str>,
        log_buffer_name: Option<&str>,
    ) -> (r: Result<(), InvalidGlobError>)
        ensures
            r is Ok == compiled(glob@).is_some(),
            r is Err ==> *final(self) == *old(self),
            r is Ok ==> {
                let i = recipe_of_command(old(self).recipes@, command@, 0);
                &&& final(self).entries == old(self).entries
                &&& final(self).recipes@.len() == if i < old(self).recipes@.len() {
                    old(self).recipes@.len()
                } else {
                    old(self).recipes@.len() + 1
                }
                &&& forall|j: int|
                    0 <= j < old(self).recipes@.len() && j != i ==> final(self).recipes@[j] == old(self).recipes@[j]
                &&& recipe_holds(
                    final(self).recipes@[i],
                    glob@,
                    command@,
                    environment@,
                    text_or_empty(root),
                    text_or_empty(log_buffer_name),
                )
            },
    {
        let mut pattern = Glob::new();
        match pattern.compile(glob) {
            Ok(()) => {},
            Err(error) => {
                return Err(error);
            },
        }
        proof {
            reveal_strlit("");
            assert(""@ =~= Seq::<char>::empty());
        }
        let recipe = ClientRecipe {
            glob: pattern,
            command: String::from_str(command),
            environment: String::from_str(environment),
            root: String::from_str(
                match root {
                    Some(root) => root,
                    None => "",
                },
            ),
            log_buffer_name: String::from_str(
                match log_buffer_name {
                    Some(name) => name,
                    None => "",
                },
            ),
            running_client: None,
        };
        let mut i: usize = 0;
        while i < self.recipes.len()
            invariant
                0 <= i <= self.recipes.len(),
                *self == *old(self),
                recipe_of_command(self.recipes@, command@, 0) == recipe_of_command(
                    self.recipes@,
                    command@,
                    i as int,
                ),
            decreases self.recipes.len() - i,
        {
            if same_text(self.recipes[i].command.as_str(), command) {
                self.recipes.set(i, recipe);
                return Ok(());
            }
            i = i + 1;
        }
        self.recipes.push(recipe);
        Ok(())
    }

    fn find_free_slot(&self) -> (r: usize)
        ensures
            r == free_slot(self.entries@, 0),
            r <= self.entries@.len(),
    {
        let mut i: usize = 0;
        while i < self.entries.len()
            invariant
                0 <= i <= self.entries.len(),
                free_slot(self.entries@, 0) == free_slot(self.entries@, i as int),
            decreases self.entries.len() - i,
        {
            match &self.entries[i] {
                ClientEntry::Vacant => {
                    return i;
                },
                _ => {},
            }
            i = i + 1;
        }
        i
    }

    /// Starts a client: takes the first vacant slot, or a new one, asks the
    /// platform to spawn the server, and puts a fresh client into the slot.
    /// Returns the handle of the client; `None`, with nothing changed, where
    /// no handle is left.
    pub fn start(
        &mut self,
        platform: &mut Platform,
        command: String,
        environment: String,
        root: String,
        log_buffer_handle: Option<BufferHandle>,
    ) -> (r: Option<ClientHandle>)
        ensures
            final(self).recipes == old(self).recipes,
            ({
                let slot = free_slot(old(self).entries@, 0);
                match r {
                    Some(handle) => {
                        &&& handle.0 == slot
                        &&& final(platform)@ == old(platform)@.push(
                            PlatformRequestView::SpawnProcess {
                                tag: ProcessTag::Lsp(handle),
                                command: command@,
                                environment: environment@,
                                buf_len: BUFFER_LEN,
                            },
                        )
                        &&& final(self).entries@.len() == if slot < old(self).entries@.len() {
                            old(self).entries@.len()
                        } else {
                            old(self).entries@.len() + 1
                        }
                        &&& forall|j: int|
                            0 <= j < old(self).entries@.len() && j != slot ==> final(self).entries@[j] == old(self).entries@[j]
                        &&& occupied(final(self).entries@, handle)
                        &&& client_at(final(self).entries@, handle)@ == fresh_client(
                            handle,
                            root@,
                            log_buffer_handle,
                        )
                    },
                    None => slot >= 256 && *final(self) == *old(self) && final(platform)@ == old(platform)@,
                }
            }),
    {
        let i = self.find_free_slot();
        if i >= 256 {
            return None;
        }
        let handle = ClientHandle(i as u8);
        platform.enqueue_request(
            PlatformRequest::SpawnProcess {
                tag: ProcessTag::Lsp(handle),
                command,
                environment,
                buf_len: BUFFER_LEN,
            },
        );
        let client = Client::new(handle, root, log_buffer_handle);
        proof {
            let m = client@;
            assert(m.read_buf =~= Seq::<u8>::empty());
            assert(m.pending_requests =~= Seq::<(RequestId, Seq<char>)>::empty());
            assert(m.log =~= Seq::<char>::empty());
            assert(m.document_selectors =~= Seq::<Glob>::empty());
            assert(m.versioned_buffers =~= Seq::empty());
            assert(m.diagnostics =~= Seq::empty());
        }
        if i < self.entries.len() {
            self.entries.set(i, ClientEntry::Occupied(client));
        } else {
            self.entries.push(ClientEntry::Occupied(client));
        }
        Some(handle)
    }

    fn release_recipes(&mut self, handle: ClientHandle)
        ensures
            final(self).entries == old(self).entries,
            final(self).recipes@ == released(old(self).recipes@, handle),
    {
        let mut i: usize = 0;
        while i < self.recipes.len()
            invariant
                0 <= i <= self.recipes.len(),
                self.entries == old(self).entries,
                self.recipes@.len() == old(self).recipes@.len(),
                forall|j: int|
                    0 <= j < i ==> self.recipes@[j] == released(old(self).recipes@, handle)[j],
                forall|j: int| i <= j < self.recipes@.len() ==> self.recipes@[j] == old(self).recipes@[j],
            decreases self.recipes.len() - i,
        {
            if self.recipes[i].running_client == Some(handle) {
                let recipe = &mut self.recipes[i];
                recipe.running_client = None;
            }
            i = i + 1;
        }
        assert(self.recipes@ =~= released(old(self).recipes@, handle));
    }

    /// Stops a client: its server is told to exit, its slot is vacant, and
    /// no recipe has it as its running client. Nothing happens where the
    /// slot holds no client.
    pub fn stop(&mut self, platform: &mut Platform, handle: ClientHandle)
        ensures
            if occupied(old(self).entries@, handle) {
                &&& final(self).entries@ == old(self).entries@.update(
                    handle.0 as int,
                    ClientEntry::Vacant,
                )
                &&& final(self).recipes@ == released(old(self).recipes@, handle)
                &&& final(platform)@ == notified(
                    client_at(old(self).entries@, handle)@,
                    old(platform)@,
                    "exit"@,
                    empty_object(),
                ).1
            } else {
                *final(self) == *old(self) && final(platform)@ == old(platform)@
            },
    {
        let index = handle.0 as usize;
        if index >= self.entries.len() {
            return ;
        }
        match &self.entries[index] {
            ClientEntry::Occupied(_) => {},
            _ => {
                return ;
            },
        }
        let mut entry = ClientEntry::Vacant;
        core::mem::swap(&mut self.entries[index], &mut entry);
        match entry {
            ClientEntry::Occupied(mut client) => {
                client.notify(platform, "exit", build_empty_object());
            },
            _ => {},
        }
        self.release_recipes(handle);
    }

    /// Stops every client, in the order of the slots.
    pub fn stop_all(&mut self, platform: &mut Platform)
        ensures
            final(platform)@ == exits_sent(
                old(self).entries@,
                old(platform)@,
                if old(self).entries@.len() <= 256 {
                    old(self).entries@.len() as int
                } else {
                    256
                },
            ),
            final(self).entries@.len() == old(self).entries@.len(),
            forall|i: int|
                0 <= i < old(self).entries@.len() ==> final(self).entries@[i] == if i < 256 && old(self).entries@[i] is Occupied {
                    ClientEntry::Vacant
                } else {
                    old(self).entries@[i]
                },
    {
        let mut i: usize = 0;
        while i < self.entries.len() && i < 256
            invariant
                0 <= i <= self.entries.len(),
                i <= 256,
                self.entries@.len() == old(self).entries@.len(),
                platform@ == exits_sent(old(self).entries@, old(platform)@, i as int),
                forall|j: int|
                    0 <= j < i ==> self.entries@[j] == if old(self).entries@[j] is Occupied {
                        ClientEntry::Vacant
                    } else {
                        old(self).entries@[j]
                    },
                forall|j: int| i <= j < self.entries@.len() ==> self.entries@[j] == old(self).entries@[j],
            decreases self.entries.len() - i,
        {
            self.stop(platform, ClientHandle(i as u8));
            i = i + 1;
        }
    }

    /// The client in the slot of `handle`, if there is one.
    pub fn get(&self, handle: ClientHandle) -> (r: Option<&Client>)
        ensures
            r is Some == occupied(self.entries@, handle),
            r is Some ==> *r.unwrap() == client_at(self.entries@, handle),
    {
        let index = handle.0 as usize;
        if index >= self.entries.len() {
            return None;
        }
        match &self.entries[index] {
            ClientEntry::Occupied(client) => Some(client),
            _ => None,
        }
    }

    /// Takes a client out of the table of the editor, to work with it and
    /// the editor at once; its slot is reserved until the client is put
    /// back. `None`, with nothing changed, where the slot holds no client.
    pub fn access(editor: &mut Editor, handle: ClientHandle) -> (r: Option<Client>)
        ensures
            r is Some == occupied(old(editor).lsp.entries@, handle),
            match r {
                Some(client) => client == client_at(old(editor).lsp.entries@, handle) && *final(editor) == (Editor { lsp: final(editor).lsp, ..*old(editor) }) && final(editor).lsp.recipes
                    == old(editor).lsp.recipes && final(editor).lsp.entries@ == old(editor).lsp.entries@.update(handle.0 as int, ClientEntry::Reserved),
                None => *final(editor) == *old(editor),
            },
    {
        let index = handle.0 as usize;
        if index >= editor.lsp.entries.len() {
            return None;
        }
        match &editor.lsp.entries[index] {
            ClientEntry::Occupied(_) => {},
            _ => {
                return None;
            },
        }
        let mut entry = ClientEntry::Reserved;
        core::mem::swap(&mut editor.lsp.entries[index], &mut entry);
        match entry {
            ClientEntry::Occupied(client) => Some(client),
            _ => None,
        }
    }

    /// Puts a client back into its slot. Returns whether the table has the
    /// slot; nothing changes where it has not.
    pub fn release(editor: &mut Editor, handle: ClientHandle, client: Client) -> (r: bool)
        ensures
            r == (handle.0 < old(editor).lsp.entries@.len()),
            r ==> *final(editor) == (Editor { lsp: final(editor).lsp, ..*old(editor) })
                && final(editor).lsp.recipes == old(editor).lsp.recipes && final(editor).lsp.entries@ == old(editor).lsp.entries@.update(
                handle.0 as int,
                ClientEntry::Occupied(client),
            ),
            !r ==> *final(editor) == *old(editor),
    {
        let index = handle.0 as usize;
        if index >= editor.lsp.entries.len() {
            return false;
        }
        editor.lsp.entries.set(index, ClientEntry::Occupied(client));
        true
    }

    /// The clients, in the order of their slots.
    pub fn clients(&self) -> (r: Vec<&Client>)
        ensures
            r@.len() == occupants(self.entries@, self.entries@.len() as int).len(),
            forall|k: int|
                0 <= k < r@.len() ==> *(#[trigger] r@[k]) == occupants(
                    self.entries@,
                    self.entries@.len() as int,
                )[k],
    {
        let mut out: Vec<&Client> = Vec::new();
        let mut i: usize = 0;
        while i < self.entries.len()
            invariant
                0 <= i <= self.entries.len(),
                out@.len() == occupants(self.entries@, i as int).len(),
                forall|k: int|
                    0 <= k < out@.len() ==> *(#[trigger] out@[k]) == occupants(
                        self.entries@,
                        i as int,
                    )[k],
            decreases self.entries.len() - i,
        {
            match &self.entries[i] {
                ClientEntry::Occupied(client) => {
                    out.push(client);
                },
                _ => {},
            }
            i = i + 1;
        }
        out
    }

    /// The server of a client was spawned: the client takes the handle of
    /// the process and asks the server to initialize. Nothing happens where
    /// the slot holds no client.
    pub fn on_process_spawned(
        editor: &mut Editor,
        platform: &mut Platform,
        handle: ClientHandle,
        process_handle: ProcessHandle,
        process_id: u32,
    )
        ensures
            process_spawned(old(editor), final(editor), old(platform)@, final(platform)@, handle, process_handle, process_id),
    {
        match ClientManager::access(editor, handle) {
            Some(mut client) => {
                client.protocol.set_process_handle(process_handle);
                client.initialize(platform, process_id);
                ClientManager::release(editor, handle, client);
            },
            None => {},
        }
    }

    /// The server of a client has exited: the slot of the client is vacant,
    /// and no recipe has it as its running client.
    pub fn on_process_exit(editor: &mut Editor, handle: ClientHandle)
        ensures
            process_exited(old(editor), final(editor), handle),
    {
        let index = handle.0 as usize;
        if index < editor.lsp.entries.len() {
            editor.lsp.entries.set(index, ClientEntry::Vacant);
        }
        editor.lsp.release_recipes(handle);
    }
}

/// What a response of the server does to the client that gets it: a
/// response to a request that the client does not wait for is dropped; else
/// the request is no longer waited for, the response is logged, a failure is
/// shown on the status bar, and a result is handled as the method of the
/// request asks.
pub open spec fn response_handled(
    request: RequestId,
    result: Result<Json, ResponseErrorView>,
    c0: ClientModel,
    c1: ClientModel,
    e0: &Editor,
    e1: &Editor,
    k0: &ClientCollection,
    k1: &ClientCollection,
    w0: Seq<PlatformRequestView>,
    w1: Seq<PlatformRequestView>,
) -> bool {
    let pending = c0.pending_requests;
    let i = pending_index(pending, request, 0);
    if i >= pending.len() {
        c1 == c0 && *e1 == *e0 && w1 == w0 && *k1 == *k0
    } else {
        let method = pending[i].1;
        let waiting = logged(
            ClientModel { pending_requests: pending.remove(i), ..c0 },
            response_received_log(request.0, method, result),
        );
        match result {
            Err(error) => c1 == waiting && status_shown(
                e0,
                e1,
                StatusMessageKind::Error,
                error.message,
            ) && w1 == w0 && *k1 == *k0,
            Ok(value) => response_effect(method, waiting, c1, e0, e1, k0, k1, w0, w1, value),
        }
    }
}

/// What the client does with one event of its server, before it writes
/// its log: the end of the stream changes nothing; a message that could
/// not be read is answered with a parse error; requests, notifications and
/// responses are handled as such.
pub open spec fn server_event_effect(
    event: ServerEventView,
    c0: ClientModel,
    c1: ClientModel,
    e0: &Editor,
    e1: &Editor,
    k0: &ClientCollection,
    k1: &ClientCollection,
    w0: Seq<PlatformRequestView>,
    w1: Seq<PlatformRequestView>,
) -> bool {
    match event {
        ServerEventView::Closed => c1 == c0 && *e1 == *e0 && *k1 == *k0 && w1 == w0,
        ServerEventView::ParseError => *e1 == *e0 && *k1 == *k0 && (c1, w1) == responded(
            logged(c0, "send parse error\nrequest_id: "@ + json_text(Json::Null)),
            w0,
            Json::Null,
            Err(parse_error_view()),
        ),
        ServerEventView::Request { id, method, params } => request_effect(
            method,
            id,
            params,
            logged(c0, request_received_log(id, method, params)),
            c1,
            e0,
            e1,
            k0,
            k1,
            w0,
            w1,
        ),
        ServerEventView::Notification { method, params } => *k1 == *k0 && w1 == w0
            && notification_effect(
            method,
            params,
            logged(c0, notification_received_log(method, params)),
            c1,
            e0,
            e1,
        ),
        ServerEventView::Response { request, result } => response_handled(
            request,
            result,
            c0,
            c1,
            e0,
            e1,
            k0,
            k1,
            w0,
            w1,
        ),
    }
}

/// The client has written what it had logged to the end of its log
/// buffer, where it keeps one that is there.
pub open spec fn log_flushed(c0: ClientModel, c1: ClientModel, e0: &Editor, e1: &Editor) -> bool {
    match c0.log_buffer_handle {
        Some(handle) => if e0.buffers.contains(handle) {
            &&& c1 == (ClientModel { log: Seq::empty(), ..c0 })
            &&& buffer_edited(e0, e1, handle)
            &&& exists|range: BufferRange|
                text_inserted(
                    &e0.buffers.buffer(handle),
                    &e1.buffers.buffer(handle),
                    &e0.editor_events,
                    &e1.editor_events,
                    end_of(e0.buffers.buffer(handle).content@),
                    c0.log,
                    0,
                    range,
                )
        } else {
            c1 == c0 && *e1 == *e0
        },
        None => c1 == c0 && *e1 == *e0,
    }
}

/// The bytes that are left once every whole message was taken off `buf`.
pub open spec fn drained(buf: Seq<u8>) -> Seq<u8>
    decreases buf.len(),
{
    let (event, rest) = next_in(buf);
    if event is Some && rest.len() < buf.len() {
        drained(rest)
    } else {
        buf
    }
}

proof fn lemma_header_end_within(buf: Seq<u8>, from: int)
    requires
        0 <= from,
    ensures
        header_end(buf, from) == -1 || (from <= header_end(buf, from) && header_end(buf, from) + 4
            <= buf.len()),
    decreases buf.len() - from,
{
    if from + 4 <= buf.len() && !(buf[from] == 13 && buf[from + 1] == 10 && buf[from + 2] == 13
        && buf[from + 3] == 10) {
        lemma_header_end_within(buf, from + 1);
    }
}

proof fn lemma_length_not_negative(buf: Seq<u8>, from: int, to: int)
    ensures
        match crate::lsp::protocol::length_value(buf, from, to) {
            Some(v) => v >= 0,
            None => true,
        },
    decreases to - from,
{
    if from < to {
        lemma_length_not_negative(buf, from, to - 1);
    }
}

/// A message that is taken off the bytes received leaves fewer bytes.
pub proof fn lemma_next_in_shrinks(buf: Seq<u8>)
    ensures
        next_in(buf).0 is Some ==> next_in(buf).1.len() < buf.len(),
        next_in(buf).0 is None ==> next_in(buf).1 == buf,
{
    lemma_header_end_within(buf, 0);
    match frame_of(buf) {
        Frame::Body { from, to } => {
            lemma_length_not_negative(
                buf,
                crate::lsp::protocol::length_key().len() as int,
                crate::lsp::protocol::line_end(buf, crate::lsp::protocol::length_key().len() as int),
            );
        },
        _ => {},
    }
}

/// A client has handled an event of its server, which left the client as
/// `c` and the editor as `e`, and then written its log.
pub open spec fn handled_parts(
    event: ServerEventView,
    c0: ClientModel,
    c1: ClientModel,
    e0: &Editor,
    e1: &Editor,
    k0: &ClientCollection,
    k1: &ClientCollection,
    w0: Seq<PlatformRequestView>,
    w1: Seq<PlatformRequestView>,
    c: ClientModel,
    e: Editor,
) -> bool {
    server_event_effect(event, c0, c, e0, &e, k0, k1, w0, w1) && log_flushed(c, c1, &e, e1)
}

/// A client has handled an event of its server and then written its log.
pub open spec fn server_event_handled(
    event: ServerEventView,
    c0: ClientModel,
    c1: ClientModel,
    e0: &Editor,
    e1: &Editor,
    k0: &ClientCollection,
    k1: &ClientCollection,
    w0: Seq<PlatformRequestView>,
    w1: Seq<PlatformRequestView>,
) -> bool {
    exists|c: ClientModel, e: Editor|
        #![trigger handled_parts(event, c0, c1, e0, e1, k0, k1, w0, w1, c, e)]
        handled_parts(event, c0, c1, e0, e1, k0, k1, w0, w1, c, e)
}

/// Where a client, the editor, the clients of the editor and the requests
/// to the platform stand while the messages of a server are handled.
pub struct EventStage {
    pub client: ClientModel,
    pub editor: Editor,
    pub clients: ClientCollection,
    pub requests: Seq<PlatformRequestView>,
}

/// The stage at the place `i` leads to the next one by one message: the
/// next message is taken off the bytes that the client holds, and handled.
pub open spec fn event_linked(stages: Seq<EventStage>, i: int) -> bool {
    let s0 = stages[i];
    let s1 = stages[i + 1];
    let (event, rest) = next_in(s0.client.read_buf);
    &&& event is Some
    &&& s1.client.read_buf == rest
    &&& server_event_handled(
        event.unwrap(),
        ClientModel { read_buf: rest, ..s0.client },
        s1.client,
        &s0.editor,
        &s1.editor,
        &s0.clients,
        &s1.clients,
        s0.requests,
        s1.requests,
    )
}

/// The messages begin with the client holding the bytes that have come in
/// behind those that it held, and with its slot reserved.
pub open spec fn output_begins(
    stages: Seq<EventStage>,
    e0: &Editor,
    k0: &ClientCollection,
    w0: Seq<PlatformRequestView>,
    handle: ClientHandle,
    bytes: Seq<u8>,
) -> bool {
    let client = client_at(e0.lsp.entries@, handle)@;
    &&& stages.len() > 0
    &&& stages[0].client == (ClientModel { read_buf: client.read_buf + bytes, ..client })
    &&& stages[0].clients == *k0
    &&& stages[0].requests == w0
    &&& stages[0].editor == with_lsp(e0, stages[0].editor.lsp)
    &&& stages[0].editor.lsp.recipes == e0.lsp.recipes
    &&& stages[0].editor.lsp.entries@ == e0.lsp.entries@.update(
        handle.0 as int,
        ClientEntry::Reserved,
    )
}

/// The messages end with no whole message left in the bytes that the
/// client holds, and with the client back in its slot.
pub open spec fn output_ends(
    last: EventStage,
    e1: &Editor,
    k1: &ClientCollection,
    w1: Seq<PlatformRequestView>,
    handle: ClientHandle,
) -> bool {
    &&& next_in(last.client.read_buf).0 is None
    &&& *k1 == last.clients
    &&& w1 == last.requests
    &&& *e1 == with_lsp(&last.editor, e1.lsp)
    &&& e1.lsp.recipes == last.editor.lsp.recipes
    &&& occupied(e1.lsp.entries@, handle)
    &&& client_at(e1.lsp.entries@, handle)@ == last.client
    &&& e1.lsp.entries@ == last.editor.lsp.entries@.update(
        handle.0 as int,
        e1.lsp.entries@[handle.0 as int],
    )
}

/// A client has taken in the bytes that its server wrote, and handled
/// every whole message in them, oldest first. Nothing happens where the
/// slot holds no client.
pub open spec fn output_handled(
    e0: &Editor,
    e1: &Editor,
    k0: &ClientCollection,
    k1: &ClientCollection,
    w0: Seq<PlatformRequestView>,
    w1: Seq<PlatformRequestView>,
    handle: ClientHandle,
    bytes: Seq<u8>,
) -> bool {
    if occupied(e0.lsp.entries@, handle) {
        exists|stages: Seq<EventStage>|
            #![trigger output_begins(stages, e0, k0, w0, handle, bytes)]
            {
                &&& output_begins(stages, e0, k0, w0, handle, bytes)
                &&& forall|i: int| 0 <= i < stages.len() - 1 ==> #[trigger] event_linked(stages, i)
                &&& output_ends(stages.last(), e1, k1, w1, handle)
            }
    } else {
        *e1 == *e0 && *k1 == *k0 && w1 == w0
    }
}

impl Client {
    /// Handles one event of the server, and then writes what was logged to
    /// the log buffer.
    pub fn on_server_event(
        &mut self,
        editor: &mut Editor,
        platform: &mut Platform,
        clients: &mut ClientCollection,
        event: ServerEvent,
    )
        requires
            old(editor).well_formed(),
        ensures
            final(editor).well_formed(),
            final(editor).lsp == old(editor).lsp,
            final(self)@.read_buf == old(self)@.read_buf,
            server_event_handled(
                event@,
                old(self)@,
                final(self)@,
                old(editor),
                final(editor),
                old(clients),
                final(clients),
                old(platform)@,
                final(platform)@,
            ),
    {
        match event {
            ServerEvent::Closed => {},
            ServerEvent::ParseError => {
                self.on_parse_error(platform, JsonValue::Null);
            },
            ServerEvent::Request(request) => {
                self.on_request(editor, platform, clients, request);
            },
            ServerEvent::Notification(notification) => {
                self.on_notification(editor, notification);
            },
            ServerEvent::Response(response) => {
                let ghost result = crate::lsp::responses::result_view(response.result);
                assert(event@ == (ServerEventView::Response { request: response.id, result }));
                self.on_response(editor, platform, clients, response);
                assert(response_handled(
                    response.id,
                    result,
                    old(self)@,
                    self@,
                    old(editor),
                    editor,
                    old(clients),
                    clients,
                    old(platform)@,
                    platform@,
                ));
            },
        }
        let ghost c = self@;
        let ghost e = *editor;
        self.flush_log_buffer(editor);
        assert(log_flushed(c, self@, &e, editor));
        assert(handled_parts(
            event@,
            old(self)@,
            self@,
            old(editor),
            editor,
            old(clients),
            clients,
            old(platform)@,
            platform@,
            c,
            e,
        ));
    }
}

impl ClientManager {
    /// A server has written bytes: its client takes them in and handles
    /// every whole message in them, oldest first; what is left of the bytes
    /// waits for more. Nothing happens where the slot holds no client.
    pub fn on_process_output(
        editor: &mut Editor,
        platform: &mut Platform,
        clients: &mut ClientCollection,
        handle: ClientHandle,
        bytes: &[u8],
    )
        requires
            old(editor).well_formed(),
        ensures
            final(editor).well_formed(),
            output_handled(
                old(editor),
                final(editor),
                old(clients),
                final(clients),
                old(platform)@,
                final(platform)@,
                handle,
                bytes@,
            ),
            occupied(old(editor).lsp.entries@, handle) ==> client_at(
                final(editor).lsp.entries@,
                handle,
            )@.read_buf == drained(
                client_at(old(editor).lsp.entries@, handle)@.read_buf + bytes@,
            ),
    {
        let mut client = match ClientManager::access(editor, handle) {
            Some(client) => client,
            None => {
                return ;
            },
        };
        let ghost reserved = editor.lsp;
        client.protocol.receive(bytes);
        let ghost all = client@.read_buf;
        let ghost mut stages: Seq<EventStage> = seq![
            EventStage {
                client: client@,
                editor: *editor,
                clients: *clients,
                requests: platform@,
            },
        ];
        assert(output_begins(
            stages,
            old(editor),
            old(clients),
            old(platform)@,
            handle,
            bytes@,
        ));
        let mut more = true;
        while more
            invariant
                editor.well_formed(),
                editor.lsp == reserved,
                drained(client@.read_buf) == drained(all),
                !more ==> drained(client@.read_buf) == client@.read_buf && next_in(
                    client@.read_buf,
                ).0 is None,
                output_begins(stages, old(editor), old(clients), old(platform)@, handle, bytes@),
                stages.last() == (EventStage {
                    client: client@,
                    editor: *editor,
                    clients: *clients,
                    requests: platform@,
                }),
                forall|i: int| 0 <= i < stages.len() - 1 ==> #[trigger] event_linked(stages, i),
            decreases client@.read_buf.len() + if more { 1int } else { 0int },
        {
            proof {
                lemma_next_in_shrinks(client@.read_buf);
            }
            let ghost s0 = stages.last();
            match client.protocol.next_event() {
                Some(event) => {
                    client.on_server_event(editor, platform, clients, event);
                    proof {
                        let s1 = EventStage {
                            client: client@,
                            editor: *editor,
                            clients: *clients,
                            requests: platform@,
                        };
                        let before = stages;
                        stages = stages.push(s1);
                        assert(stages[before.len() - 1] == s0 && stages[before.len() as int] == s1);
                        assert(event_linked(stages, before.len() - 1));
                        assert forall|i: int| 0 <= i < stages.len() - 1 implies #[trigger] event_linked(
                            stages,
                            i,
                        ) by {
                            if i < before.len() - 1 {
                                assert(stages[i] == before[i] && stages[i + 1] == before[i + 1]);
                                assert(event_linked(before, i));
                            }
                        }
                        assert(stages[0] == before[0]);
                    }
                },
                None => {
                    more = false;
                },
            }
        }
        let ghost last = stages.last();
        ClientManager::release(editor, handle, client);
        assert(editor.lsp.entries@ =~= last.editor.lsp.entries@.update(
            handle.0 as int,
            editor.lsp.entries@[handle.0 as int],
        ));
        assert(output_ends(last, editor, clients, platform@, handle));
    }
}

/// The place of the first recipe from `from` on whose glob matches the
/// path, or the number of recipes.
pub open spec fn recipe_for_path(recipes: Seq<ClientRecipe>, path: Seq<u8>, from: int) -> int
    decreases recipes.len() - from,
{
    if from < 0 || from >= recipes.len() {
        recipes.len() as int
    } else if recipes[from].glob.accepts(path) {
        from
    } else {
        recipe_for_path(recipes, path, from + 1)
    }
}

/// Whether loading the buffer starts a server: the buffer exists, a recipe
/// matches its path, no client runs for that recipe, and a handle is left.
pub open spec fn starts_server(editor: &Editor, buffer: BufferHandle) -> bool {
    &&& editor.buffers.contains(buffer)
    &&& {
        let i = recipe_for_path(
            editor.lsp.recipes@,
            encode_utf8(editor.buffers.buffer(buffer).path@),
            0,
        );
        i < editor.lsp.recipes@.len() && editor.lsp.recipes@[i].running_client is None
    }
    &&& free_slot(editor.lsp.entries@, 0) < 256
}

/// A server was started for the buffer: the platform is asked to spawn the
/// command of the first recipe that matches the path of the buffer; a fresh
/// client stands in the first vacant slot and runs for the recipe. Its root
/// is that of the recipe, or the directory of the editor where the recipe
/// names none. Where the recipe names a log buffer, the client logs to a new
/// buffer of that name, if the table of buffers has room for one.
pub open spec fn server_started(
    e0: &Editor,
    e1: &Editor,
    w0: Seq<PlatformRequestView>,
    w1: Seq<PlatformRequestView>,
    buffer: BufferHandle,
) -> bool {
    let i = recipe_for_path(e0.lsp.recipes@, encode_utf8(e0.buffers.buffer(buffer).path@), 0);
    let recipe = e0.lsp.recipes@[i];
    let slot = free_slot(e0.lsp.entries@, 0);
    let handle = ClientHandle(slot as u8);
    let client = client_at(e1.lsp.entries@, handle)@;
    &&& *e1 == (Editor { buffers: e1.buffers, lsp: e1.lsp, ..*e0 })
    &&& e1.lsp.recipes@ == e0.lsp.recipes@.update(
        i,
        ClientRecipe { running_client: Some(handle), ..recipe },
    )
    &&& w1 == w0.push(
        PlatformRequestView::SpawnProcess {
            tag: ProcessTag::Lsp(handle),
            command: recipe.command@,
            environment: recipe.environment@,
            buf_len: BUFFER_LEN,
        },
    )
    &&& e1.lsp.entries@.len() == if slot < e0.lsp.entries@.len() {
        e0.lsp.entries@.len()
    } else {
        e0.lsp.entries@.len() + 1
    }
    &&& forall|j: int|
        0 <= j < e0.lsp.entries@.len() && j != slot ==> e1.lsp.entries@[j] == e0.lsp.entries@[j]
    &&& occupied(e1.lsp.entries@, handle)
    &&& client == fresh_client(
        handle,
        if recipe.root@.len() == 0 {
            e0.current_directory@
        } else {
            recipe.root@
        },
        client.log_buffer_handle,
    )
    &&& match client.log_buffer_handle {
        Some(log) => {
            &&& recipe.log_buffer_name@.len() > 0
            &&& !e0.buffers.contains(log)
            &&& e1.buffers.contains(log)
            &&& e1.buffers.buffer(log).path@ == recipe.log_buffer_name@
            &&& e1.buffers.buffer(log).capabilities == (BufferCapabilities {
                can_save: false,
                auto_close: false,
                is_log: true,
            })
            &&& e1.buffers.buffer(log).content@ == seq![Seq::<char>::empty()]
            &&& forall|h: BufferHandle|
                h != log ==> e1.buffers.contains(h) == e0.buffers.contains(h) && (
                e0.buffers.contains(h) ==> e1.buffers.buffer(h) == e0.buffers.buffer(h))
        },
        None => e1.buffers == e0.buffers && (recipe.log_buffer_name@.len() > 0
            ==> e0.buffers.buffers@.len() == u32::MAX),
    }
}

/// Nothing but the client in the slot of `handle` differs between the two
/// editors; the slot holds a client in both.
pub open spec fn client_changed(e0: &Editor, e1: &Editor, handle: ClientHandle) -> bool {
    &&& *e1 == with_lsp(e0, e1.lsp)
    &&& e1.lsp.recipes == e0.lsp.recipes
    &&& occupied(e0.lsp.entries@, handle)
    &&& occupied(e1.lsp.entries@, handle)
    &&& e1.lsp.entries@ == e0.lsp.entries@.update(handle.0 as int, e1.lsp.entries@[handle.0 as int])
}


/// A state of the editor and of the requests to the platform.
pub type Stage = (Editor, Seq<PlatformRequestView>);

/// What one event being read does to the language servers: a buffer that
/// was loaded has a server started for it, where a recipe asks for one.
pub open spec fn server_step(before: Stage, after: Stage, event: EditorEventView) -> bool {
    match event {
        EditorEventView::BufferLoad { handle } => if starts_server(&before.0, handle) {
            server_started(&before.0, &after.0, before.1, after.1, handle)
        } else {
            after == before
        },
        _ => after == before,
    }
}

/// The stages lead from the first state to the second in `count` steps.
pub open spec fn leads(
    stages: Seq<Stage>,
    e0: &Editor,
    e1: &Editor,
    w0: Seq<PlatformRequestView>,
    w1: Seq<PlatformRequestView>,
    count: int,
) -> bool {
    stages.len() == count + 1 && stages[0] == (*e0, w0) && stages[count] == (*e1, w1)
}

/// What the first `count` events being read do to the language servers,
/// one after another: for each buffer that was loaded a server is started,
/// where a recipe asks for one.
pub open spec fn servers_started(
    e0: &Editor,
    e1: &Editor,
    w0: Seq<PlatformRequestView>,
    w1: Seq<PlatformRequestView>,
    count: int,
) -> bool {
    exists|stages: Seq<Stage>|
        #![trigger leads(stages, e0, e1, w0, w1, count)]
        leads(stages, e0, e1, w0, w1, count) && forall|i: int|
            0 <= i < count ==> server_step(
                #[trigger] stages[i],
                stages[i + 1],
                e0.editor_events.reading()[i],
            )
}

/// The client in the slot `slot` has seen the events that the editor is
/// reading, as `Client::on_editor_events` says; nothing happens where the
/// slot holds no client.
pub open spec fn client_saw(
    e0: &Editor,
    e1: &Editor,
    w0: Seq<PlatformRequestView>,
    w1: Seq<PlatformRequestView>,
    slot: int,
) -> bool {
    let handle = ClientHandle(slot as u8);
    if 0 <= slot < 256 && occupied(e0.lsp.entries@, handle) {
        let client = client_at(e0.lsp.entries@, handle)@;
        &&& client_changed(e0, e1, handle)
        &&& (client_at(e1.lsp.entries@, handle)@, w1) == if client.initialized {
            crate::lsp::sync::events_handled(
                client,
                w0,
                e0,
                e0.editor_events.reading(),
                e0.editor_events.reading().len() as int,
            )
        } else {
            (client, w0)
        }
    } else {
        *e1 == *e0 && w1 == w0
    }
}

/// The clients in the first `count` slots have seen the events that the
/// editor is reading, one after another in the order of the slots.
pub open spec fn clients_saw(
    e0: &Editor,
    e1: &Editor,
    w0: Seq<PlatformRequestView>,
    w1: Seq<PlatformRequestView>,
    count: int,
) -> bool {
    exists|stages: Seq<Stage>|
        #![trigger leads(stages, e0, e1, w0, w1, count)]
        leads(stages, e0, e1, w0, w1, count) && forall|i: int|
            0 <= i < count ==> client_saw(
                &(#[trigger] stages[i]).0,
                &stages[i + 1].0,
                stages[i].1,
                stages[i + 1].1,
                i,
            )
}

/// The number of slots whose clients handles can name.
pub open spec fn slot_count(editor: &Editor) -> int {
    if editor.lsp.entries@.len() < 256 {
        editor.lsp.entries@.len() as int
    } else {
        256
    }
}

/// What the events being read do to the language servers: servers are
/// started for the buffers that were loaded; then every client sees the
/// events.
pub open spec fn servers_saw(
    e0: &Editor,
    e1: &Editor,
    w0: Seq<PlatformRequestView>,
    w1: Seq<PlatformRequestView>,
) -> bool {
    exists|em: Editor, wm: Seq<PlatformRequestView>|
        #![trigger clients_saw(&em, e1, wm, w1, slot_count(&em))]
        servers_started(e0, &em, w0, wm, e0.editor_events.reading().len() as int) && clients_saw(
            &em,
            e1,
            wm,
            w1,
            slot_count(&em),
        )
}

/// What a client makes of events depends on the buffers and the directory
/// of the editor alone.
pub proof fn lemma_events_handled_frame(
    m: ClientModel,
    w: Seq<PlatformRequestView>,
    a: &Editor,
    b: &Editor,
    events: Seq<EditorEventView>,
    count: int,
)
    requires
        a.buffers == b.buffers,
        a.current_directory == b.current_directory,
    ensures
        crate::lsp::sync::events_handled(m, w, a, events, count) == crate::lsp::sync::events_handled(
            m,
            w,
            b,
            events,
            count,
        ),
    decreases count,
{
    if 0 < count <= events.len() {
        lemma_events_handled_frame(m, w, a, b, events, count - 1);
    }
}

impl ClientManager {
    fn find_recipe(&self, path: &[u8]) -> (r: usize)
        ensures
            r == recipe_for_path(self.recipes@, path@, 0),
            r <= self.recipes@.len(),
    {
        let mut i: usize = 0;
        while i < self.recipes.len()
            invariant
                0 <= i <= self.recipes.len(),
                recipe_for_path(self.recipes@, path@, 0) == recipe_for_path(
                    self.recipes@,
                    path@,
                    i as int,
                ),
            decreases self.recipes.len() - i,
        {
            if self.recipes[i].glob.matches(path) {
                return i;
            }
            i = i + 1;
        }
        i
    }

    /// Starts the server for a buffer that was loaded, where a recipe asks
    /// for one. Returns the handle of the client that was started.
    pub fn start_for_buffer(editor: &mut Editor, platform: &mut Platform, buffer: BufferHandle) -> (r:
        Option<ClientHandle>)
        requires
            old(editor).well_formed(),
        ensures
            final(editor).well_formed(),
            r is Some == starts_server(old(editor), buffer),
            match r {
                Some(handle) => handle.0 == free_slot(old(editor).lsp.entries@, 0)
                    && server_started(old(editor), final(editor), old(platform)@, final(platform)@, buffer),
                None => *final(editor) == *old(editor) && final(platform)@ == old(platform)@,
            },
    {
        let index = match editor.buffers.get(buffer) {
            Some(found) => editor.lsp.find_recipe(found.path.as_str().as_bytes()),
            None => {
                return None;
            },
        };
        if index >= editor.lsp.recipes.len() || editor.lsp.recipes[index].running_client.is_some() {
            return None;
        }
        if editor.lsp.find_free_slot() >= 256 {
            return None;
        }
        let recipe = &editor.lsp.recipes[index];
        let command = recipe.command.clone();
        let environment = recipe.environment.clone();
        let root = if recipe.root.as_str().unicode_len() == 0 {
            editor.current_directory.clone()
        } else {
            recipe.root.clone()
        };
        let name = recipe.log_buffer_name.clone();
        let log = if name.as_str().unicode_len() > 0 {
            editor.add_buffer_with(name.as_str(), BufferCapabilities::log())
        } else {
            None
        };
        let started = editor.lsp.start(platform, command, environment, root, log);
        match started {
            Some(handle) => {
                let ghost before = editor.lsp.recipes@;
                let running = &mut editor.lsp.recipes[index];
                running.running_client = Some(handle);
                assert(editor.lsp.recipes@ =~= before.update(
                    index as int,
                    ClientRecipe { running_client: Some(handle), ..before[index as int] },
                ));
            },
            None => {},
        }
        started
    }

    /// Lets the language servers see the events that the editor is
    /// reading: a server is started for each buffer that was loaded, where
    /// a recipe asks for one; then every client sees the events, in the
    /// order of the slots. The views and the events stay as they were.
    pub fn on_editor_events(editor: &mut Editor, platform: &mut Platform)
        requires
            old(editor).well_formed(),
        ensures
            final(editor).well_formed(),
            *final(editor) == (Editor {
                buffers: final(editor).buffers,
                lsp: final(editor).lsp,
                ..*old(editor)
            }),
            servers_saw(old(editor), final(editor), old(platform)@, final(platform)@),
    {
        let count = editor.editor_events.read.len();
        let ghost events = editor.editor_events.reading();
        let ghost mut stages: Seq<Stage> = seq![(*editor, platform@)];
        let mut i: usize = 0;
        while i < count
            invariant
                0 <= i <= count,
                count == events.len(),
                events == old(editor).editor_events.reading(),
                editor.well_formed(),
                *editor == (Editor { buffers: editor.buffers, lsp: editor.lsp, ..*old(editor) }),
                leads(stages, old(editor), editor, old(platform)@, platform@, i as int),
                forall|j: int|
                    0 <= j < i ==> server_step(#[trigger] stages[j], stages[j + 1], events[j]),
            decreases count - i,
        {
            let loaded = match &editor.editor_events.read[i] {
                EditorEvent::BufferLoad { handle } => Some(*handle),
                _ => None,
            };
            assert(events[i as int] == editor.editor_events.read@[i as int]@);
            match loaded {
                Some(handle) => {
                    ClientManager::start_for_buffer(editor, platform, handle);
                },
                None => {},
            }
            proof {
                let before = stages;
                stages = stages.push((*editor, platform@));
                assert(server_step(stages[i as int], stages[i + 1], events[i as int]));
                assert forall|j: int| 0 <= j < i + 1 implies server_step(
                    #[trigger] stages[j],
                    stages[j + 1],
                    events[j],
                ) by {
                    if j < i {
                        assert(stages[j] == before[j] && stages[j + 1] == before[j + 1]);
                        assert(server_step(before[j], before[j + 1], events[j]));
                    }
                }
            }
            i = i + 1;
        }
        assert(servers_started(old(editor), editor, old(platform)@, platform@, count as int));
        let ghost started = *editor;
        let ghost asked = platform@;
        let ghost mut seen: Seq<Stage> = seq![(*editor, platform@)];
        let slots = editor.lsp.entries.len();
        let mut k: usize = 0;
        while k < slots && k < 256
            invariant
                0 <= k <= slots,
                k <= 256,
                slots == editor.lsp.entries@.len(),
                slots == started.lsp.entries@.len(),
                editor.well_formed(),
                *editor == (Editor { buffers: editor.buffers, lsp: editor.lsp, ..*old(editor) }),
                editor.buffers == started.buffers,
                leads(seen, &started, editor, asked, platform@, k as int),
                forall|j: int|
                    0 <= j < k ==> client_saw(
                        &(#[trigger] seen[j]).0,
                        &seen[j + 1].0,
                        seen[j].1,
                        seen[j + 1].1,
                        j,
                    ),
            decreases slots - k,
        {
            let handle = ClientHandle(k as u8);
            let ghost em = *editor;
            let ghost wm = platform@;
            match ClientManager::access(editor, handle) {
                Some(mut client) => {
                    let ghost reserved = *editor;
                    proof {
                        lemma_events_handled_frame(
                            client@,
                            wm,
                            &reserved,
                            &em,
                            em.editor_events.reading(),
                            em.editor_events.reading().len() as int,
                        );
                    }
                    client.on_editor_events(editor, platform);
                    ClientManager::release(editor, handle, client);
                    assert(editor.lsp.entries@ =~= em.lsp.entries@.update(
                        handle.0 as int,
                        editor.lsp.entries@[handle.0 as int],
                    ));
                },
                None => {},
            }
            assert(client_saw(&em, editor, wm, platform@, k as int));
            proof {
                let before = seen;
                seen = seen.push((*editor, platform@));
                assert forall|j: int| 0 <= j < k + 1 implies client_saw(
                    &(#[trigger] seen[j]).0,
                    &seen[j + 1].0,
                    seen[j].1,
                    seen[j + 1].1,
                    j,
                ) by {
                    if j < k {
                        assert(seen[j] == before[j] && seen[j + 1] == before[j + 1]);
                        assert(client_saw(
                            &before[j].0,
                            &before[j + 1].0,
                            before[j].1,
                            before[j + 1].1,
                            j,
                        ));
                    }
                }
            }
            k = k + 1;
        }
        assert(k == slot_count(&started));
        assert(clients_saw(&started, editor, asked, platform@, slot_count(&started)));
    }
}

} // verus!
