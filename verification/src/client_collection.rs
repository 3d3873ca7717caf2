//! The clients that are attached to the server, as the server sees them.

use crate::buffer_view::BufferViewHandle;
use crate::connection::{RemoteConnectionWithClientHandle, TargetClient};
use crate::events::{EditorEvent, EditorEventQueue, EditorEventView};
use vstd::prelude::*;

verus! {

/// What the server keeps of one client.
#[derive(Clone, Copy, PartialEq, Eq, Structural)]
pub struct ClientData {
    pub buffer_view_handle: Option<BufferViewHandle>,
    pub previous_buffer_view_handle: Option<BufferViewHandle>,
    pub viewport_width: u16,
    pub viewport_height: u16,
    pub scroll: usize,
    pub has_ui: bool,
}

impl ClientData {
    /// A client that shows nothing yet.
    pub fn new() -> (r: Self)
        ensures
            r == Self::fresh(),
    {
        ClientData {
            buffer_view_handle: None,
            previous_buffer_view_handle: None,
            viewport_width: 0,
            viewport_height: 0,
            scroll: 0,
            has_ui: true,
        }
    }

    pub open spec fn fresh() -> Self {
        ClientData {
            buffer_view_handle: None,
            previous_buffer_view_handle: None,
            viewport_width: 0,
            viewport_height: 0,
            scroll: 0,
            has_ui: true,
        }
    }
}

/// The clients of the server: the local one, if there is one, and the remote
/// ones by the slot of their connection; the client that has the focus; and
/// for remote clients that act for another client, for whom.
pub struct ClientCollection {
    pub local: Option<ClientData>,
    pub remotes: Vec<Option<ClientData>>,
    pub focused_client: TargetClient,
    pub client_map: Vec<(TargetClient, TargetClient)>,
}

/// The client that `from` stands for among the pairs from `at` on: the
/// second of the first pair whose first is `from`, or `from` itself.
pub open spec fn mapped_from(pairs: Seq<(TargetClient, TargetClient)>, from: TargetClient, at: int) -> TargetClient
    decreases pairs.len() - at,
{
    if at < 0 || at >= pairs.len() {
        from
    } else if pairs[at].0 == from {
        pairs[at].1
    } else {
        mapped_from(pairs, from, at + 1)
    }
}

impl ClientCollection {
    /// The record of a client, if it is attached.
    pub open spec fn client(&self, target: TargetClient) -> Option<ClientData> {
        match target {
            TargetClient::All => None,
            TargetClient::Local => self.local,
            TargetClient::Remote(handle) => if handle.index() < self.remotes@.len() {
                self.remotes@[handle.index()]
            } else {
                None
            },
        }
    }

    /// The client that `target` acts for.
    pub open spec fn mapped(&self, target: TargetClient) -> TargetClient {
        mapped_from(self.client_map@, target, 0)
    }

    /// Whether any remote client is attached.
    pub open spec fn has_remote_clients(&self) -> bool {
        exists|i: int| 0 <= i < self.remotes@.len() && (#[trigger] self.remotes@[i]).is_some()
    }

    /// A server with its local client alone, which has the focus.
    pub fn new() -> (r: Self)
        ensures
            r.local == Some(ClientData::fresh()),
            r.remotes@.len() == 0,
            r.focused_client == TargetClient::Local,
            r.client_map@.len() == 0,
    {
        ClientCollection {
            local: Some(ClientData::new()),
            remotes: Vec::new(),
            focused_client: TargetClient::Local,
            client_map: Vec::new(),
        }
    }

    /// Attaches the remote client of the connection `handle`, with a fresh
    /// record.
    pub fn on_client_joined(&mut self, handle: RemoteConnectionWithClientHandle)
        ensures
            final(self).client(TargetClient::Remote(handle)) == Some(ClientData::fresh()),
            forall|t: TargetClient|
                t != TargetClient::Remote(handle) ==> final(self).client(t) == old(self).client(t),
            final(self).focused_client == old(self).focused_client,
            final(self).client_map == old(self).client_map,
            final(self).local == old(self).local,
    {
        broadcast use RemoteConnectionWithClientHandle::lemma_index;

        let index = handle.into_index();
        while self.remotes.len() <= index
            invariant
                index == handle.index(),
                self.local == old(self).local,
                self.focused_client == old(self).focused_client,
                self.client_map == old(self).client_map,
                self.remotes@.len() >= old(self).remotes@.len(),
                forall|i: int|
                    0 <= i < old(self).remotes@.len() ==> self.remotes@[i] == old(self).remotes@[i],
                forall|i: int|
                    old(self).remotes@.len() <= i < self.remotes@.len() ==> (
                    #[trigger] self.remotes@[i]).is_none(),
            decreases index + 1 - self.remotes.len(),
        {
            self.remotes.push(None);
        }
        self.remotes.set(index, Some(ClientData::new()));
        proof {
            assert forall|t: TargetClient| t != TargetClient::Remote(handle) implies self.client(t)
                == old(self).client(t) by {
                match t {
                    TargetClient::Remote(other) => {
                        other.lemma_index();
                        handle.lemma_index();
                        assert(other.index() != handle.index());
                    },
                    _ => {},
                }
            }
        }
    }

    /// Detaches the remote client of the connection `handle`. Where it had
    /// the focus, the focus goes to the local client.
    pub fn on_client_left(&mut self, handle: RemoteConnectionWithClientHandle)
        ensures
            final(self).client(TargetClient::Remote(handle)).is_none(),
            forall|t: TargetClient|
                t != TargetClient::Remote(handle) ==> final(self).client(t) == old(self).client(t),
            final(self).focused_client == if old(self).focused_client == TargetClient::Remote(handle) {
                TargetClient::Local
            } else {
                old(self).focused_client
            },
            final(self).client_map == old(self).client_map,
            final(self).local == old(self).local,
            final(self).remotes@.len() == old(self).remotes@.len(),
    {
        broadcast use RemoteConnectionWithClientHandle::lemma_index;

        let index = handle.into_index();
        if index < self.remotes.len() {
            self.remotes.set(index, None);
        }
        if self.focused_client == TargetClient::Remote(handle) {
            self.focused_client = TargetClient::Local;
        }
        proof {
            assert forall|t: TargetClient| t != TargetClient::Remote(handle) implies self.client(t)
                == old(self).client(t) by {
                match t {
                    TargetClient::Remote(other) => {
                        other.lemma_index();
                        handle.lemma_index();
                        assert(other.index() != handle.index());
                    },
                    _ => {},
                }
            }
        }
    }

    /// The record of a client.
    pub fn get(&self, target: TargetClient) -> (r: Option<ClientData>)
        ensures
            r == self.client(target),
    {
        match target {
            TargetClient::All => None,
            TargetClient::Local => self.local,
            TargetClient::Remote(handle) => {
                let index = handle.into_index();
                if index < self.remotes.len() {
                    self.remotes[index]
                } else {
                    None
                }
            },
        }
    }

    /// Replaces the record of a client that is attached. Returns whether it is.
    pub fn set(&mut self, target: TargetClient, data: ClientData) -> (r: bool)
        ensures
            r == old(self).client(target).is_some(),
            r ==> final(self).client(target) == Some(data),
            !r ==> *final(self) == *old(self),
            forall|t: TargetClient| t != target ==> final(self).client(t) == old(self).client(t),
            final(self).focused_client == old(self).focused_client,
            final(self).client_map == old(self).client_map,
            final(self).remotes@.len() == old(self).remotes@.len(),
    {
        broadcast use RemoteConnectionWithClientHandle::lemma_index;

        match target {
            TargetClient::All => false,
            TargetClient::Local => {
                if self.local.is_some() {
                    self.local = Some(data);
                    true
                } else {
                    false
                }
            },
            TargetClient::Remote(handle) => {
                let index = handle.into_index();
                if index < self.remotes.len() && self.remotes[index].is_some() {
                    self.remotes.set(index, Some(data));
                    proof {
                        assert forall|t: TargetClient| t != target implies self.client(t) == old(self).client(t) by {
                            match t {
                                TargetClient::Remote(other) => {
                                    other.lemma_index();
                        handle.lemma_index();
                        assert(other.index() != handle.index());
                                },
                                _ => {},
                            }
                        }
                    }
                    true
                } else {
                    false
                }
            },
        }
    }

    /// Shows the view `handle` to a client, keeps the view that it showed as
    /// its previous view, and queues the event that tells of the change.
    /// Returns whether the client is attached; nothing changes where not.
    pub fn set_buffer_view_handle(
        &mut self,
        target: TargetClient,
        handle: Option<BufferViewHandle>,
        events: &mut EditorEventQueue,
    ) -> (r: bool)
        ensures
            r == old(self).client(target).is_some(),
            r ==> final(self).client(target) == Some(
                ClientData {
                    buffer_view_handle: handle,
                    previous_buffer_view_handle: old(self).client(target).unwrap().buffer_view_handle,
                    ..old(self).client(target).unwrap()
                },
            ) && final(events).pending() == old(events).pending().push(
                EditorEventView::ClientChangeBufferView { client: target },
            ),
            !r ==> *final(self) == *old(self) && final(events).pending() == old(events).pending(),
            final(events).reading() == old(events).reading(),
            forall|t: TargetClient| t != target ==> final(self).client(t) == old(self).client(t),
            final(self).focused_client == old(self).focused_client,
            final(self).client_map == old(self).client_map,
    {
        match self.get(target) {
            Some(data) => {
                let changed = ClientData {
                    buffer_view_handle: handle,
                    previous_buffer_view_handle: data.buffer_view_handle,
                    viewport_width: data.viewport_width,
                    viewport_height: data.viewport_height,
                    scroll: data.scroll,
                    has_ui: data.has_ui,
                };
                self.set(target, changed);
                events.enqueue(EditorEvent::ClientChangeBufferView { client: target });
                true
            },
            None => false,
        }
    }

    /// Makes the client `from` act for the client `to` from now on.
    pub fn map(&mut self, from: TargetClient, to: TargetClient)
        ensures
            final(self).mapped(from) == to,
            forall|t: TargetClient| t != from ==> final(self).mapped(t) == old(self).mapped(t),
            final(self).local == old(self).local,
            final(self).remotes == old(self).remotes,
            final(self).focused_client == old(self).focused_client,
    {
        let mut i: usize = 0;
        while i < self.client_map.len()
            invariant
                0 <= i <= self.client_map.len(),
                *self == *old(self),
                forall|j: int| 0 <= j < i ==> (#[trigger] self.client_map@[j]).0 != from,
            decreases self.client_map.len() - i,
        {
            if self.client_map[i].0 == from {
                self.client_map.set(i, (from, to));
                proof {
                    lemma_mapped_update(old(self).client_map@, i as int, from, to);
                }
                return ;
            }
            i = i + 1;
        }
        self.client_map.push((from, to));
        proof {
            lemma_mapped_push(old(self).client_map@, from, to);
        }
    }

    /// The client that `target` acts for.
    pub fn get_mapped(&self, target: TargetClient) -> (r: TargetClient)
        ensures
            r == self.mapped(target),
    {
        let mut i: usize = 0;
        while i < self.client_map.len()
            invariant
                0 <= i <= self.client_map.len(),
                mapped_from(self.client_map@, target, 0) == mapped_from(
                    self.client_map@,
                    target,
                    i as int,
                ),
            decreases self.client_map.len() - i,
        {
            if self.client_map[i].0 == target {
                return self.client_map[i].1;
            }
            i = i + 1;
        }
        target
    }

    /// Whether a remote client is attached.
    pub fn any_remote_client(&self) -> (r: bool)
        ensures
            r == self.has_remote_clients(),
    {
        let mut i: usize = 0;
        while i < self.remotes.len()
            invariant
                0 <= i <= self.remotes.len(),
                forall|j: int| 0 <= j < i ==> (#[trigger] self.remotes@[j]).is_none(),
            decreases self.remotes.len() - i,
        {
            if self.remotes[i].is_some() {
                return true;
            }
            i = i + 1;
        }
        false
    }
}

proof fn lemma_mapped_update(
    pairs: Seq<(TargetClient, TargetClient)>,
    i: int,
    from: TargetClient,
    to: TargetClient,
)
    requires
        0 <= i < pairs.len(),
        pairs[i].0 == from,
        forall|j: int| 0 <= j < i ==> (#[trigger] pairs[j]).0 != from,
    ensures
        mapped_from(pairs.update(i, (from, to)), from, 0) == to,
        forall|t: TargetClient|
            t != from ==> mapped_from(pairs.update(i, (from, to)), t, 0) == mapped_from(pairs, t, 0),
{
    let updated = pairs.update(i, (from, to));
    lemma_mapped_same(pairs, updated, from, to, i, 0);
    assert forall|t: TargetClient| t != from implies mapped_from(updated, t, 0) == mapped_from(
        pairs,
        t,
        0,
    ) by {
        lemma_mapped_other(pairs, updated, t, 0);
    }
}

proof fn lemma_mapped_same(
    pairs: Seq<(TargetClient, TargetClient)>,
    updated: Seq<(TargetClient, TargetClient)>,
    from: TargetClient,
    to: TargetClient,
    i: int,
    at: int,
)
    requires
        0 <= at <= i < pairs.len(),
        updated == pairs.update(i, (from, to)),
        forall|j: int| 0 <= j < i ==> (#[trigger] pairs[j]).0 != from,
    ensures
        mapped_from(updated, from, at) == to,
    decreases i - at,
{
    if at < i {
        assert(updated[at] == pairs[at]);
        lemma_mapped_same(pairs, updated, from, to, i, at + 1);
    }
}

proof fn lemma_mapped_other(
    pairs: Seq<(TargetClient, TargetClient)>,
    updated: Seq<(TargetClient, TargetClient)>,
    t: TargetClient,
    at: int,
)
    requires
        0 <= at,
        pairs.len() == updated.len(),
        forall|j: int|
            0 <= j < pairs.len() ==> (#[trigger] pairs[j]).0 == updated[j].0 && (pairs[j].0 == t
                ==> pairs[j] == updated[j]),
    ensures
        mapped_from(updated, t, at) == mapped_from(pairs, t, at),
    decreases pairs.len() - at,
{
    if at < pairs.len() {
        assert(pairs[at].0 == updated[at].0);
        if pairs[at].0 != t {
            lemma_mapped_other(pairs, updated, t, at + 1);
        }
    }
}

proof fn lemma_mapped_push(pairs: Seq<(TargetClient, TargetClient)>, from: TargetClient, to: TargetClient)
    requires
        forall|j: int| 0 <= j < pairs.len() ==> (#[trigger] pairs[j]).0 != from,
    ensures
        mapped_from(pairs.push((from, to)), from, 0) == to,
        forall|t: TargetClient|
            t != from ==> mapped_from(pairs.push((from, to)), t, 0) == mapped_from(pairs, t, 0),
{
    let pushed = pairs.push((from, to));
    lemma_mapped_push_at(pairs, from, to, from, 0);
    assert forall|t: TargetClient| t != from implies mapped_from(pushed, t, 0) == mapped_from(
        pairs,
        t,
        0,
    ) by {
        lemma_mapped_push_at(pairs, from, to, t, 0);
    }
}

proof fn lemma_mapped_push_at(
    pairs: Seq<(TargetClient, TargetClient)>,
    from: TargetClient,
    to: TargetClient,
    t: TargetClient,
    at: int,
)
    requires
        0 <= at <= pairs.len(),
        forall|j: int| 0 <= j < pairs.len() ==> (#[trigger] pairs[j]).0 != from,
    ensures
        t == from ==> mapped_from(pairs.push((from, to)), t, at) == to,
        t != from ==> mapped_from(pairs.push((from, to)), t, at) == mapped_from(pairs, t, at),
    decreases pairs.len() - at,
{
    let pushed = pairs.push((from, to));
    if at < pairs.len() {
        assert(pushed[at] == pairs[at]);
        lemma_mapped_push_at(pairs, from, to, t, at + 1);
    } else {
        assert(pushed[at] == (from, to));
        assert(mapped_from(pushed, t, at + 1) == t);
    }
}

impl Default for ClientCollection {
    fn default() -> (r: Self)
        ensures
            r.focused_client == TargetClient::Local,
    {
        ClientCollection::new()
    }
}

} // verus!
