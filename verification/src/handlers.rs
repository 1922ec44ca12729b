//! The event router and the per-frame logic of a connection's read
//! loop: authentication handling, outbound dispatch, broadcast or
//! rejection of free text, and the laws that govern them.

use vstd::prelude::*;
use crate::codec::{dec_digits, decode, encode, parse_envelope, u128_to_string};
use crate::events::{EventPayload, EventView, Frame, FrameView, XeonEvent, message_text};
use crate::network::{
    broadcast, broadcast_outcome_ok, get_client_state, is_client_authenticated,
    send_client_message, send_to, ClientMessage, SendFailure, WebSocket, WebSocketClients,
    WebSocketView,
};
use vstd::string::StringExecFns;

verus! {

/// The registry after one authenticate event for `id`: a live,
/// not-yet-authenticated session becomes authenticated under the given
/// name; anything else is left alone.
pub open spec fn auth_step(
    m: Map<u128, WebSocketView>,
    id: u128,
    username: Seq<char>,
) -> Map<u128, WebSocketView> {
    if m.contains_key(id) && !m[id].authenticated {
        m.insert(id, WebSocketView { authenticated: true, username: Some(username) })
    } else {
        m
    }
}

/// Whether one authenticate event for `id` emits a confirmation.
pub open spec fn auth_emits(m: Map<u128, WebSocketView>, id: u128) -> bool {
    m.contains_key(id) && !m[id].authenticated
}

/// The router's transition for one inbound client message. Only an
/// authenticate event for a live, unauthenticated session changes the
/// registry, and exactly then a confirmation addressed to that session
/// is returned; credentials are never verified.
pub fn handle_event(clients: &mut WebSocketClients, msg: &ClientMessage) -> (confirmation: Option<
    ClientMessage,
>)
    requires
        old(clients).wf(),
    ensures
        final (clients).wf(),
        match msg.event@.data {
            EventView::Authenticate { username, .. } => {
                &&& final (clients)@ == auth_step(old(clients)@, msg.uuid, username)
                &&& (confirmation is Some) == auth_emits(old(clients)@, msg.uuid)
                &&& match confirmation {
                    Some(c) => c.uuid == msg.uuid && c.event@.data == (EventView::Print {
                        text: "Successfully authenticated."@,
                    }),
                    None => true,
                }
            },
            _ => final (clients)@ == old(clients)@ && confirmation is None,
        },
{
    match &msg.event.data {
        XeonEvent::Authenticate(auth) => {
            if !is_client_authenticated(clients, msg.uuid) {
                match clients.remove(msg.uuid) {
                    Some(ws) => {
                        let updated = WebSocket {
                            uuid: ws.uuid,
                            outbound: ws.outbound,
                            authenticated: true,
                            username: Some(auth.username.clone()),
                        };
                        clients.insert(updated);
                        proof {
                            assert(clients@ =~= auth_step(
                                old(clients)@,
                                msg.uuid,
                                msg.event@.data->Authenticate_username,
                            ));
                        }
                        Some(
                            ClientMessage::from_payload(
                                msg.uuid,
                                EventPayload::print("Successfully authenticated."),
                            ),
                        )
                    },
                    None => {
                        proof {
                            assert(clients@ =~= old(clients)@);
                        }
                        None
                    },
                }
            } else {
                None
            }
        },
        XeonEvent::Hello(_) => None,
        XeonEvent::Print(_) => None,
    }
}

/// One full router step: applies the event to the registry and queues
/// the confirmation, if any, on the outgoing channel. Exactly one
/// confirmation is emitted per session, by the first authenticate.
pub fn route_client_message(
    clients: &mut WebSocketClients,
    msg: &ClientMessage,
    outgoing: &crossbeam_channel::Sender<ClientMessage>,
) -> (emitted: bool)
    requires
        old(clients).wf(),
    ensures
        final (clients).wf(),
        match msg.event@.data {
            EventView::Authenticate { username, .. } => {
                &&& final (clients)@ == auth_step(old(clients)@, msg.uuid, username)
                &&& emitted == auth_emits(old(clients)@, msg.uuid)
            },
            _ => final (clients)@ == old(clients)@ && !emitted,
        },
{
    match handle_event(clients, msg) {
        Some(c) => {
            let _ = send_client_message(outgoing, c);
            true
        },
        None => false,
    }
}

/// Delivers one outbound client message: encodes its envelope and sends
/// the text frame to the addressed session. `NotFound` exactly when the
/// session is gone; such deliveries are dropped by the caller.
pub fn dispatch_message(clients: &WebSocketClients, msg: ClientMessage) -> (r: Result<
    (),
    SendFailure,
>)
    requires
        clients.wf(),
    ensures
        (r == Err::<(), SendFailure>(SendFailure::NotFound)) <==> !clients@.contains_key(msg.uuid),
{
    let frame = Frame::Text(encode(&msg.event));
    send_to(clients, msg.uuid, frame)
}

/// The display name a broadcast uses: the session's username, or its
/// decimal session identifier before authentication.
pub open spec fn display_name(v: WebSocketView, uuid: u128) -> Seq<char> {
    match v.username {
        Some(u) => u,
        None => dec_digits(uuid as nat),
    }
}

/// The text relayed on broadcast: `[name]: text`.
pub open spec fn broadcast_text(name: Seq<char>, text: Seq<char>) -> Seq<char> {
    "["@ + name + "]: "@ + text
}

fn render_broadcast_text(ws: &WebSocket, text: &str) -> (r: String)
    ensures
        r@ == broadcast_text(display_name(ws@, ws.uuid), text@),
{
    let mut out = String::new();
    out.append("[");
    match &ws.username {
        Some(u) => out.append(u.as_str()),
        None => {
            let ds = u128_to_string(ws.uuid);
            out.append(ds.as_str());
        },
    }
    out.append("]: ");
    out.append(text);
    proof {
        assert(out@ =~= broadcast_text(display_name(ws@, ws.uuid), text@));
    }
    out
}

/// What handling one inbound frame did.
pub enum FrameOutcome {
    /// The frame decoded as an envelope and was queued for the router.
    Routed { queued: bool },
    /// Free text from an authenticated session, relayed to every
    /// authenticated session.
    Broadcast { outcomes: Vec<(u128, bool)>, text: String },
    /// Free text from an unauthenticated session, answered with a
    /// rejection notice to the sender alone.
    Rejected { result: Result<(), SendFailure> },
    /// A binary frame: logged by the caller, never routed.
    Ignored,
    /// A close frame: the caller ends the read loop and removes the
    /// session.
    Closed,
}

/// Classifies one inbound frame from a connection's read loop and acts
/// on it: a decodable text frame is queued for the router; other text
/// is broadcast when the sender is authenticated and rejected
/// otherwise; binary frames are ignored; a close frame ends the
/// session.
pub fn handle_frame(
    clients: &WebSocketClients,
    uuid: u128,
    frame: &Frame,
    incoming: &crossbeam_channel::Sender<ClientMessage>,
) -> (r: FrameOutcome)
    requires
        clients.wf(),
    ensures
        match frame@ {
            FrameView::Text(t) => match parse_envelope(t) {
                Some(env) => r matches FrameOutcome::Routed { .. },
                None => {
                    if clients@.contains_key(uuid) && clients@[uuid].authenticated {
                        &&& r matches FrameOutcome::Broadcast { outcomes, text }
                        &&& (r matches FrameOutcome::Broadcast { outcomes, text } ==> {
                            &&& broadcast_outcome_ok(clients@, outcomes@)
                            &&& text@ == broadcast_text(display_name(clients@[uuid], uuid), t)
                        })
                    } else {
                        &&& r matches FrameOutcome::Rejected { result }
                        &&& (r matches FrameOutcome::Rejected { result } ==> ((result == Err::<
                            (),
                            SendFailure,
                        >(SendFailure::NotFound)) <==> !clients@.contains_key(uuid)))
                    }
                },
            },
            FrameView::Binary(_) => r is Ignored,
            FrameView::Close => r is Closed,
        },
{
    match frame {
        Frame::Text(s) => {
            match decode(s.as_str()) {
                Ok(env) => {
                    let queued = send_client_message(
                        incoming,
                        ClientMessage::from_payload(uuid, env),
                    );
                    FrameOutcome::Routed { queued }
                },
                Err(_) => {
                    let snapshot = get_client_state(clients, uuid);
                    let authed = match &snapshot {
                        Some(ws) => ws.authenticated,
                        None => false,
                    };
                    if authed {
                        let ws = match snapshot {
                            Some(ws) => ws,
                            None => {
                                unreached()
                            },
                        };
                        let text = render_broadcast_text(&ws, s.as_str());
                        let outcomes = broadcast(clients, &Frame::Text(text.clone()));
                        FrameOutcome::Broadcast { outcomes, text }
                    } else {
                        let result = send_to(
                            clients,
                            uuid,
                            message_text("Please authenticate before sending messages."),
                        );
                        FrameOutcome::Rejected { result }
                    }
                },
            }
        },
        Frame::Binary(_) => FrameOutcome::Ignored,
        Frame::Close => FrameOutcome::Closed,
    }
}

// ------------------------------------------------------------------
// Laws
// ------------------------------------------------------------------

/// One registry mutation, as the accept loop performs them.
pub ghost enum RegistryOp {
    Insert { uuid: u128, state: WebSocketView },
    Remove { uuid: u128 },
}

pub open spec fn apply_op(
    m: Map<u128, WebSocketView>,
    op: RegistryOp,
) -> Map<u128, WebSocketView> {
    match op {
        RegistryOp::Insert { uuid, state } => m.insert(uuid, state),
        RegistryOp::Remove { uuid } => m.remove(uuid),
    }
}

pub open spec fn apply_ops(
    m: Map<u128, WebSocketView>,
    ops: Seq<RegistryOp>,
) -> Map<u128, WebSocketView>
    decreases ops.len(),
{
    if ops.len() == 0 {
        m
    } else {
        apply_op(apply_ops(m, ops.drop_last()), ops.last())
    }
}

pub open spec fn op_touches(op: RegistryOp, uuid: u128) -> bool {
    match op {
        RegistryOp::Insert { uuid: u, .. } => u == uuid,
        RegistryOp::Remove { uuid: u } => u == uuid,
    }
}

/// Whether, in this operation history, the last operation touching
/// `uuid` was an insert.
pub open spec fn inserted_not_removed(ops: Seq<RegistryOp>, uuid: u128) -> bool
    decreases ops.len(),
{
    if ops.len() == 0 {
        false
    } else if op_touches(ops.last(), uuid) {
        ops.last() is Insert
    } else {
        inserted_not_removed(ops.drop_last(), uuid)
    }
}

/// Registry invariant: after any interleaving of inserts and removals
/// starting from the empty registry, a session identifier is present —
/// so its snapshot succeeds and delivery to it finds it — exactly when
/// it was inserted and not removed since.
pub proof fn lemma_registry_tracks_ops(ops: Seq<RegistryOp>, uuid: u128)
    ensures
        apply_ops(Map::empty(), ops).contains_key(uuid) <==> inserted_not_removed(ops, uuid),
    decreases ops.len(),
{
    if ops.len() > 0 {
        lemma_registry_tracks_ops(ops.drop_last(), uuid);
    }
}

/// Authentication idempotence: the first authenticate event for a live
/// session authenticates it under the given name and emits the one
/// confirmation; a second authenticate, whatever name it carries,
/// changes nothing and emits none.
pub proof fn lemma_authenticate_idempotent(
    m: Map<u128, WebSocketView>,
    id: u128,
    u1: Seq<char>,
    u2: Seq<char>,
)
    requires
        m.contains_key(id),
        !m[id].authenticated,
    ensures
        auth_emits(m, id),
        auth_step(m, id, u1)[id] == (WebSocketView { authenticated: true, username: Some(u1) }),
        !auth_emits(auth_step(m, id, u1), id),
        auth_step(auth_step(m, id, u1), id, u2) == auth_step(m, id, u1),
{
}

} // verus!
