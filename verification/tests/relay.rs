use xeon_relay::events::{EventPayload, Frame, XeonEvent};
use xeon_relay::handlers::{dispatch_message, handle_event, handle_frame, FrameOutcome};
use xeon_relay::network::{
    empty_clients, get_client_state, ClientMessage, SendFailure, WebSocket, WebSocketClients,
};

type FrameRx = crossbeam_channel::Receiver<Frame>;
type MsgChannel = (
    crossbeam_channel::Sender<ClientMessage>,
    crossbeam_channel::Receiver<ClientMessage>,
);

fn add_session(clients: &mut WebSocketClients, uuid: u128) -> FrameRx {
    let (tx, rx) = crossbeam_channel::unbounded();
    clients.insert(WebSocket::new(uuid, tx));
    rx
}

fn authenticate(clients: &mut WebSocketClients, uuid: u128, name: &str) {
    let msg = ClientMessage::from_payload(
        uuid,
        EventPayload {
            timestamp: 0,
            data: XeonEvent::Authenticate(xeon_relay::events::AuthenticateEvent {
                username: name.to_string(),
                password: "pw".to_string(),
            }),
        },
    );
    handle_event(clients, &msg).expect("authentication must confirm");
}

fn expect_text(rx: &FrameRx, expected: &str) {
    match rx.try_recv().expect("a frame must have been delivered") {
        Frame::Text(s) => assert_eq!(s, expected),
        _ => panic!("expected a text frame"),
    }
}

#[test]
fn unauthenticated_text_is_rejected_once() {
    let mut clients = empty_clients();
    let rx_a = add_session(&mut clients, 1);
    let rx_b = add_session(&mut clients, 2);
    let (in_tx, in_rx): MsgChannel = crossbeam_channel::unbounded();

    let outcome = handle_frame(&clients, 1, &Frame::Text("hello room".to_string()), &in_tx);
    match outcome {
        FrameOutcome::Rejected { result } => assert_eq!(result, Ok(())),
        _ => panic!("an unauthenticated free-text frame must be rejected"),
    }
    expect_text(&rx_a, "Please authenticate before sending messages.");
    assert!(rx_a.try_recv().is_err(), "exactly one rejection notice");
    assert!(rx_b.try_recv().is_err(), "no broadcast may occur");
    assert!(in_rx.try_recv().is_err(), "nothing may be routed");
}

#[test]
fn authenticated_text_is_broadcast_with_display_name() {
    let mut clients = empty_clients();
    let rx_a = add_session(&mut clients, 1);
    let rx_b = add_session(&mut clients, 2);
    let rx_c = add_session(&mut clients, 3);
    authenticate(&mut clients, 1, "A");
    authenticate(&mut clients, 2, "B");
    let (in_tx, _in_rx): MsgChannel = crossbeam_channel::unbounded();

    // The confirmation frames are queued by the dispatcher, not here, so
    // the per-session queues are still empty.
    let outcome = handle_frame(&clients, 1, &Frame::Text("hi".to_string()), &in_tx);
    match outcome {
        FrameOutcome::Broadcast { outcomes, text } => {
            assert_eq!(text, "[A]: hi");
            assert_eq!(outcomes.len(), 2);
        }
        _ => panic!("authenticated free text must be broadcast"),
    }
    expect_text(&rx_a, "[A]: hi");
    expect_text(&rx_b, "[A]: hi");
    assert!(rx_c.try_recv().is_err(), "unauthenticated sessions receive nothing");
}

#[test]
fn broadcast_names_unnamed_senders_by_session_id() {
    let mut clients = empty_clients();
    let (tx, rx_a) = crossbeam_channel::unbounded();
    clients.insert(WebSocket {
        uuid: 42,
        outbound: tx,
        authenticated: true,
        username: None,
    });
    let (in_tx, _in_rx): MsgChannel = crossbeam_channel::unbounded();

    match handle_frame(&clients, 42, &Frame::Text("yo".to_string()), &in_tx) {
        FrameOutcome::Broadcast { text, .. } => assert_eq!(text, "[42]: yo"),
        _ => panic!("authenticated free text must be broadcast"),
    }
    expect_text(&rx_a, "[42]: yo");
}

#[test]
fn decodable_text_is_routed_not_broadcast() {
    let mut clients = empty_clients();
    let rx_a = add_session(&mut clients, 1);
    authenticate(&mut clients, 1, "A");
    let (in_tx, in_rx): MsgChannel = crossbeam_channel::unbounded();

    let frame = Frame::Text(
        "{\"timestamp\":3,\"data\":{\"Print\":\"x\"}}".to_string(),
    );
    match handle_frame(&clients, 1, &frame, &in_tx) {
        FrameOutcome::Routed { queued } => assert!(queued),
        _ => panic!("a decodable envelope must be routed"),
    }
    let routed = in_rx.try_recv().expect("the envelope must be on the incoming channel");
    assert_eq!(routed.uuid, 1);
    assert_eq!(routed.event.timestamp, 3);
    assert!(rx_a.try_recv().is_err(), "routing must not echo anything");
}

#[test]
fn binary_and_close_frames_are_not_routed() {
    let mut clients = empty_clients();
    let rx_a = add_session(&mut clients, 1);
    let (in_tx, in_rx): MsgChannel = crossbeam_channel::unbounded();

    assert!(matches!(
        handle_frame(&clients, 1, &Frame::Binary(vec![1, 2, 3]), &in_tx),
        FrameOutcome::Ignored
    ));
    assert!(matches!(
        handle_frame(&clients, 1, &Frame::Close, &in_tx),
        FrameOutcome::Closed
    ));
    assert!(in_rx.try_recv().is_err());
    assert!(rx_a.try_recv().is_err());
}

#[test]
fn disconnect_cleanup_makes_delivery_fail() {
    let mut clients = empty_clients();
    let _rx_a = add_session(&mut clients, 1);
    let (in_tx, _in_rx): MsgChannel = crossbeam_channel::unbounded();

    match handle_frame(&clients, 1, &Frame::Close, &in_tx) {
        FrameOutcome::Closed => {
            clients.remove(1);
        }
        _ => panic!("a close frame must end the session"),
    }
    assert!(get_client_state(&clients, 1).is_none());
    let msg = ClientMessage::from_payload(
        1,
        EventPayload {
            timestamp: 0,
            data: XeonEvent::Print("late".to_string()),
        },
    );
    assert_eq!(dispatch_message(&clients, msg), Err(SendFailure::NotFound));
}

#[test]
fn dispatch_encodes_and_delivers() {
    let mut clients = empty_clients();
    let rx_a = add_session(&mut clients, 1);
    let msg = ClientMessage::from_payload(
        1,
        EventPayload {
            timestamp: 8,
            data: XeonEvent::Print("ok".to_string()),
        },
    );
    assert_eq!(dispatch_message(&clients, msg), Ok(()));
    expect_text(&rx_a, "{\"timestamp\":8,\"data\":{\"Print\":\"ok\"}}");
}
