//! The connection registry and session model: the table of live
//! connections keyed by session identifier, the per-connection write
//! half, addressed delivery and authenticated broadcast.
//!
//! A session's write half is the sending end of its outbound frame
//! queue; a writer task outside the core owns the other end together
//! with the socket. The registry is modelled as a map from session
//! identifier to session state.

use vstd::prelude::*;
use crate::events::{message_text, EnvelopeView, EventPayload, Frame};

verus! {

#[verifier::external_type_specification]
#[verifier::external_body]
#[verifier::reject_recursive_types(T)]
pub struct ExSender<T>(crossbeam_channel::Sender<T>);

/// Relies on `crossbeam_channel::Sender::send`: on an unbounded channel
/// it never blocks and fails exactly when every receiver is gone.
/// Nothing is promised of the result: it depends on the other endpoint.
#[verifier::external_body]
fn send_frame(tx: &crossbeam_channel::Sender<Frame>, frame: Frame) -> (ok: bool) {
    tx.send(frame).is_ok()
}

/// Relies on `crossbeam_channel::Sender::send`, as `send_frame` does.
#[verifier::external_body]
pub(crate) fn send_client_message(tx: &crossbeam_channel::Sender<ClientMessage>, m: ClientMessage) -> (ok:
    bool) {
    tx.send(m).is_ok()
}

/// Relies on `crossbeam_channel::Sender::clone`: another sending end of
/// the same channel. Nothing is promised of the value: channel identity
/// is not modelled.
#[verifier::external_body]
fn clone_sender(tx: &crossbeam_channel::Sender<Frame>) -> crossbeam_channel::Sender<Frame> {
    tx.clone()
}

/// Relies on `uuid::Uuid::new_v4`: a freshly minted random 128-bit
/// identifier. Nothing is promised of the value: it is random.
#[verifier::external_body]
fn mint_session_id() -> u128 {
    uuid::Uuid::new_v4().as_u128()
}

/// Why a delivery did not happen: the addressed session is not in the
/// registry, or its write half is gone.
#[derive(Debug, PartialEq, Eq, Structural, Clone, Copy)]
pub enum SendFailure {
    NotFound,
    Transport,
}

/// One live connection: its session identifier, the write half of its
/// transport, and its authentication state.
pub struct WebSocket {
    pub uuid: u128,
    pub outbound: crossbeam_channel::Sender<Frame>,
    pub authenticated: bool,
    pub username: Option<String>,
}

/// Mathematical model of a session's state.
pub ghost struct WebSocketView {
    pub authenticated: bool,
    pub username: Option<Seq<char>>,
}

impl View for WebSocket {
    type V = WebSocketView;

    open spec fn view(&self) -> WebSocketView {
        WebSocketView {
            authenticated: self.authenticated,
            username: match self.username {
                Some(u) => Some(u@),
                None => None,
            },
        }
    }
}

impl WebSocket {
    /// A fresh, unauthenticated session around the given write half.
    pub fn new(uuid: u128, outbound: crossbeam_channel::Sender<Frame>) -> (r: WebSocket)
        ensures
            r.uuid == uuid,
            r@ == (WebSocketView { authenticated: false, username: None }),
    {
        WebSocket { uuid, outbound, authenticated: false, username: None }
    }

    /// Queues one frame on this session's write half; never the
    /// `NotFound` failure, which is reserved for registry lookups.
    pub fn send(&self, message: Frame) -> (r: Result<(), SendFailure>)
        ensures
            r != Err::<(), SendFailure>(SendFailure::NotFound),
    {
        if send_frame(&self.outbound, message) {
            Ok(())
        } else {
            Err(SendFailure::Transport)
        }
    }
}

pub open spec fn distinct_ids(s: Seq<WebSocket>) -> bool {
    forall|p: int, q: int| 0 <= p < q < s.len() ==> s[p].uuid != s[q].uuid
}

/// The map that a sequence of sessions denotes; a later entry with the
/// same identifier wins, though well-formed registries have no such pair.
pub open spec fn clients_map(s: Seq<WebSocket>) -> Map<u128, WebSocketView>
    decreases s.len(),
{
    if s.len() == 0 {
        Map::empty()
    } else {
        clients_map(s.drop_last()).insert(s.last().uuid, s.last()@)
    }
}

proof fn lemma_clients_map_contains(s: Seq<WebSocket>, id: u128)
    ensures
        clients_map(s).contains_key(id) <==> exists|j: int| 0 <= j < s.len() && s[j].uuid == id,
    decreases s.len(),
{
    if s.len() > 0 {
        lemma_clients_map_contains(s.drop_last(), id);
        if clients_map(s).contains_key(id) {
            if id == s.last().uuid {
                assert(s[s.len() - 1].uuid == id);
            } else {
                let j = choose|j: int| 0 <= j < s.drop_last().len() && s.drop_last()[j].uuid == id;
                assert(s[j].uuid == id);
            }
        }
        if exists|j: int| 0 <= j < s.len() && s[j].uuid == id {
            let j = choose|j: int| 0 <= j < s.len() && s[j].uuid == id;
            if j < s.len() - 1 {
                assert(s.drop_last()[j].uuid == id);
            }
        }
    }
}

proof fn lemma_clients_map_at(s: Seq<WebSocket>, j: int)
    requires
        distinct_ids(s),
        0 <= j < s.len(),
    ensures
        clients_map(s).contains_key(s[j].uuid),
        clients_map(s)[s[j].uuid] == s[j]@,
    decreases s.len(),
{
    if j < s.len() - 1 {
        assert(distinct_ids(s.drop_last()));
        assert(s.drop_last()[j] == s[j]);
        lemma_clients_map_at(s.drop_last(), j);
        assert(s[j].uuid != s.last().uuid);
    }
}

proof fn lemma_clients_map_remove(s: Seq<WebSocket>, j: int)
    requires
        distinct_ids(s),
        0 <= j < s.len(),
    ensures
        clients_map(s.remove(j)) == clients_map(s).remove(s[j].uuid),
    decreases s.len(),
{
    let id = s[j].uuid;
    if j == s.len() - 1 {
        assert(s.remove(j) =~= s.drop_last());
        lemma_clients_map_contains(s.drop_last(), id);
        assert(forall|j2: int| 0 <= j2 < s.drop_last().len() ==> s.drop_last()[j2].uuid != id);
        assert(!clients_map(s.drop_last()).contains_key(id));
        assert(clients_map(s).remove(id) =~= clients_map(s.drop_last()));
    } else {
        let t = s.remove(j);
        assert(t.drop_last() =~= s.drop_last().remove(j));
        assert(t.last() == s.last());
        assert(distinct_ids(s.drop_last()));
        assert(s.drop_last()[j] == s[j]);
        lemma_clients_map_remove(s.drop_last(), j);
        assert(s.last().uuid != id);
        assert(clients_map(s.drop_last()).remove(id).insert(s.last().uuid, s.last()@)
            =~= clients_map(s.drop_last()).insert(s.last().uuid, s.last()@).remove(id));
    }
}

/// The connection registry: the table of live sessions. Its model is a
/// map from session identifier to session state.
pub struct WebSocketClients {
    entries: Vec<WebSocket>,
}

impl View for WebSocketClients {
    type V = Map<u128, WebSocketView>;

    closed spec fn view(&self) -> Map<u128, WebSocketView> {
        clients_map(self.entries@)
    }
}

impl WebSocketClients {
    /// Well-formed: no two entries share a session identifier.
    pub closed spec fn wf(&self) -> bool {
        distinct_ids(self.entries@)
    }

    fn find_index(&self, uuid: u128) -> (r: Option<usize>)
        ensures
            match r {
                Some(j) => j < self.entries@.len() && self.entries@[j as int].uuid == uuid,
                None => forall|j: int| 0 <= j < self.entries@.len() ==> self.entries@[j].uuid
                    != uuid,
            },
    {
        let mut j: usize = 0;
        while j < self.entries.len()
            invariant
                j <= self.entries@.len(),
                forall|k: int| 0 <= k < j ==> self.entries@[k].uuid != uuid,
            decreases self.entries@.len() - j,
        {
            if self.entries[j].uuid == uuid {
                return Some(j);
            }
            j = j + 1;
        }
        None
    }

    /// Adds a session; an entry already under the same identifier is
    /// replaced, though fresh identifiers make that a dead path.
    pub fn insert(&mut self, ws: WebSocket)
        requires
            old(self).wf(),
        ensures
            final (self).wf(),
            final (self)@ == old(self)@.insert(ws.uuid, ws@),
    {
        let ghost s0 = self.entries@;
        match self.find_index(ws.uuid) {
            Some(j) => {
                proof {
                    lemma_clients_map_remove(s0, j as int);
                }
                let _ = self.entries.remove(j);
                proof {
                    assert(distinct_ids(self.entries@)) by {
                        assert(forall|p: int|
                            0 <= p < self.entries@.len() ==> #[trigger] self.entries@[p]
                                == if p < j { s0[p] } else { s0[p + 1] });
                    }
                }
            },
            None => {},
        }
        let ghost s1 = self.entries@;
        proof {
            lemma_clients_map_contains(s1, ws.uuid);
            assert(!clients_map(s1).contains_key(ws.uuid));
        }
        self.entries.push(ws);
        proof {
            assert(self.entries@.drop_last() =~= s1);
            assert(distinct_ids(self.entries@)) by {
                lemma_clients_map_contains(s1, ws.uuid);
            }
            assert(clients_map(self.entries@) =~= old(self)@.insert(ws.uuid, ws@));
        }
    }

    /// Removes and returns the session under the identifier; a no-op
    /// returning `None` when it is absent.
    pub fn remove(&mut self, uuid: u128) -> (r: Option<WebSocket>)
        requires
            old(self).wf(),
        ensures
            final (self).wf(),
            final (self)@ == old(self)@.remove(uuid),
            match r {
                Some(ws) => old(self)@.contains_key(uuid) && ws.uuid == uuid && ws@ == old(
                    self,
                )@[uuid],
                None => !old(self)@.contains_key(uuid),
            },
    {
        let ghost s0 = self.entries@;
        match self.find_index(uuid) {
            Some(j) => {
                proof {
                    lemma_clients_map_at(s0, j as int);
                    lemma_clients_map_remove(s0, j as int);
                }
                let ws = self.entries.remove(j);
                proof {
                    assert(distinct_ids(self.entries@)) by {
                        assert(forall|p: int|
                            0 <= p < self.entries@.len() ==> #[trigger] self.entries@[p]
                                == if p < j { s0[p] } else { s0[p + 1] });
                    }
                }
                Some(ws)
            },
            None => {
                proof {
                    lemma_clients_map_contains(s0, uuid);
                    assert(clients_map(s0).remove(uuid) =~= clients_map(s0));
                }
                None
            },
        }
    }

}

/// An empty registry.
pub fn empty_clients() -> (r: WebSocketClients)
    ensures
        r.wf(),
        r@ == Map::<u128, WebSocketView>::empty(),
{
    WebSocketClients { entries: Vec::new() }
}

/// Mints a fresh session identifier, wraps the write half in a new
/// unauthenticated session and registers it; returns the identifier.
pub fn register_session(clients: &mut WebSocketClients, outbound: crossbeam_channel::Sender<Frame>)
    -> (uuid: u128)
    requires
        old(clients).wf(),
    ensures
        final (clients).wf(),
        final (clients)@ == old(clients)@.insert(
            uuid,
            WebSocketView { authenticated: false, username: None },
        ),
{
    let uuid = mint_session_id();
    let ws = WebSocket::new(uuid, outbound);
    clients.insert(ws);
    uuid
}

/// A copy of the addressed session's current state, or `None` when the
/// connection is gone.
pub fn get_client_state(clients: &WebSocketClients, uuid: u128) -> (r: Option<WebSocket>)
    requires
        clients.wf(),
    ensures
        match r {
            Some(ws) => clients@.contains_key(uuid) && ws.uuid == uuid && ws@ == clients@[uuid],
            None => !clients@.contains_key(uuid),
        },
{
    proof {
        lemma_clients_map_contains(clients.entries@, uuid);
    }
    match clients.find_index(uuid) {
        Some(j) => {
            proof {
                lemma_clients_map_at(clients.entries@, j as int);
            }
            let ws = &clients.entries[j];
            let username = match &ws.username {
                Some(u) => Some(u.clone()),
                None => None,
            };
            Some(
                WebSocket {
                    uuid: ws.uuid,
                    outbound: clone_sender(&ws.outbound),
                    authenticated: ws.authenticated,
                    username,
                },
            )
        },
        None => None,
    }
}

/// Whether the addressed session is present and authenticated.
pub fn is_client_authenticated(clients: &WebSocketClients, uuid: u128) -> (r: bool)
    requires
        clients.wf(),
    ensures
        r == (clients@.contains_key(uuid) && clients@[uuid].authenticated),
{
    proof {
        lemma_clients_map_contains(clients.entries@, uuid);
    }
    match clients.find_index(uuid) {
        Some(j) => {
            proof {
                lemma_clients_map_at(clients.entries@, j as int);
            }
            clients.entries[j].authenticated
        },
        None => false,
    }
}

/// Delivers one frame to the addressed session. `NotFound` exactly when
/// the session is not in the registry; a transport failure is possible
/// whenever it is.
pub fn send_to(clients: &WebSocketClients, uuid: u128, message: Frame) -> (r: Result<
    (),
    SendFailure,
>)
    requires
        clients.wf(),
    ensures
        (r == Err::<(), SendFailure>(SendFailure::NotFound)) <==> !clients@.contains_key(uuid),
{
    proof {
        lemma_clients_map_contains(clients.entries@, uuid);
    }
    match clients.find_index(uuid) {
        Some(j) => clients.entries[j].send(message),
        None => Err(SendFailure::NotFound),
    }
}

fn clone_frame(f: &Frame) -> (r: Frame)
    ensures
        r@ == f@,
{
    match f {
        Frame::Text(s) => Frame::Text(s.clone()),
        Frame::Binary(b) => {
            let mut v: Vec<u8> = Vec::new();
            let mut i: usize = 0;
            while i < b.len()
                invariant
                    i <= b@.len(),
                    v@ == b@.take(i as int),
                decreases b@.len() - i,
            {
                v.push(b[i]);
                proof {
                    assert(v@ =~= b@.take(i + 1));
                }
                i = i + 1;
            }
            proof {
                assert(b@.take(b@.len() as int) =~= b@);
            }
            Frame::Binary(v)
        },
        Frame::Close => Frame::Close,
    }
}

/// What a broadcast reports: every authenticated session exactly once,
/// each with whether its delivery went through.
pub open spec fn broadcast_outcome_ok(
    m: Map<u128, WebSocketView>,
    o: Seq<(u128, bool)>,
) -> bool {
    &&& forall|k: int| 0 <= k < o.len() ==> m.contains_key(#[trigger] o[k].0) && m[o[k].0].authenticated
    &&& forall|id: u128| m.contains_key(id) && m[id].authenticated ==> exists|k: int|
        0 <= k < o.len() && #[trigger] o[k].0 == id
    &&& forall|k1: int, k2: int| 0 <= k1 < k2 < o.len() ==> o[k1].0 != o[k2].0
}

/// Best-effort fan-out of one frame to every authenticated session.
/// Each recipient is attempted regardless of earlier failures; the
/// returned list names every authenticated session exactly once with
/// its delivery result.
pub fn broadcast(clients: &WebSocketClients, message: &Frame) -> (o: Vec<(u128, bool)>)
    requires
        clients.wf(),
    ensures
        broadcast_outcome_ok(clients@, o@),
{
    let mut o: Vec<(u128, bool)> = Vec::new();
    let mut j: usize = 0;
    let n = clients.entries.len();
    while j < n
        invariant
            clients.wf(),
            n == clients.entries@.len(),
            j <= n,
            forall|k: int| 0 <= k < o@.len() ==> exists|j2: int|
                0 <= j2 < j && clients.entries@[j2].uuid == #[trigger] o@[k].0
                    && clients.entries@[j2]@.authenticated,
            forall|j2: int|
                0 <= j2 < j && clients.entries@[j2]@.authenticated ==> exists|k: int|
                    0 <= k < o@.len() && #[trigger] o@[k].0 == clients.entries@[j2].uuid,
            forall|k1: int, k2: int| 0 <= k1 < k2 < o@.len() ==> o@[k1].0 != o@[k2].0,
        decreases n - j,
    {
        let ws = &clients.entries[j];
        if ws.authenticated {
            let delivered = match ws.send(clone_frame(message)) {
                Ok(_) => true,
                Err(_) => false,
            };
            let ghost o0 = o@;
            o.push((ws.uuid, delivered));
            proof {
                assert forall|k1: int, k2: int|
                    0 <= k1 < k2 < o@.len() implies o@[k1].0 != o@[k2].0 by {
                    if k2 == o@.len() - 1 {
                        let j2 = choose|j2: int|
                            0 <= j2 < j && clients.entries@[j2].uuid == o0[k1].0
                                && clients.entries@[j2]@.authenticated;
                        assert(clients.entries@[j2].uuid != clients.entries@[j as int].uuid);
                    }
                }
                assert forall|j2: int|
                    0 <= j2 < j + 1 && clients.entries@[j2]@.authenticated implies exists|k: int|
                    0 <= k < o@.len() && #[trigger] o@[k].0 == clients.entries@[j2].uuid by {
                    if j2 == j {
                        assert(o@[o@.len() - 1].0 == clients.entries@[j2].uuid);
                    } else {
                        let k = choose|k: int|
                            0 <= k < o0.len() && #[trigger] o0[k].0 == clients.entries@[j2].uuid;
                        assert(o@[k].0 == clients.entries@[j2].uuid);
                    }
                }
            }
        }
        j = j + 1;
    }
    proof {
        assert forall|k: int|
            0 <= k < o@.len() implies clients@.contains_key(#[trigger] o@[k].0)
                && clients@[o@[k].0].authenticated by {
            let j2 = choose|j2: int|
                0 <= j2 < n && clients.entries@[j2].uuid == o@[k].0
                    && clients.entries@[j2]@.authenticated;
            lemma_clients_map_at(clients.entries@, j2);
        }
        assert forall|id: u128|
            clients@.contains_key(id) && clients@[id].authenticated implies exists|k: int|
            0 <= k < o@.len() && #[trigger] o@[k].0 == id by {
            lemma_clients_map_contains(clients.entries@, id);
            let j2 = choose|j2: int| 0 <= j2 < n && clients.entries@[j2].uuid == id;
            lemma_clients_map_at(clients.entries@, j2);
            assert(clients.entries@[j2]@.authenticated);
        }
    }
    o
}

/// Sends one literal text frame to the addressed session.
pub fn _send_text_to(clients: &WebSocketClients, uuid: u128, message: &str) -> (r: Result<
    (),
    SendFailure,
>)
    requires
        clients.wf(),
    ensures
        (r == Err::<(), SendFailure>(SendFailure::NotFound)) <==> !clients@.contains_key(uuid),
{
    send_to(clients, uuid, message_text(message))
}

/// An inbound or outbound event, addressed by session identifier.
pub struct ClientMessage {
    pub uuid: u128,
    pub event: EventPayload,
}

/// Mathematical model of an addressed event.
pub ghost struct ClientMessageView {
    pub uuid: u128,
    pub event: EnvelopeView,
}

impl View for ClientMessage {
    type V = ClientMessageView;

    open spec fn view(&self) -> ClientMessageView {
        ClientMessageView { uuid: self.uuid, event: self.event@ }
    }
}

impl ClientMessage {
    /// Addresses an envelope to a session.
    pub fn from_payload(uuid: u128, ev: EventPayload) -> (r: ClientMessage)
        ensures
            r@ == (ClientMessageView { uuid, event: ev@ }),
    {
        ClientMessage { uuid, event: ev }
    }
}

} // verus!
