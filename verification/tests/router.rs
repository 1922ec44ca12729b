use xeon_relay::events::{AuthenticateEvent, EventPayload, HelloEvent, XeonEvent};
use xeon_relay::handlers::{handle_event, route_client_message};
use xeon_relay::network::{
    empty_clients, get_client_state, is_client_authenticated, ClientMessage, WebSocket,
    WebSocketClients,
};

fn registry_with_session(uuid: u128) -> WebSocketClients {
    let mut clients = empty_clients();
    let (tx, rx) = crossbeam_channel::unbounded();
    std::mem::forget(rx);
    clients.insert(WebSocket::new(uuid, tx));
    clients
}

fn authenticate_msg(uuid: u128, username: &str, password: &str) -> ClientMessage {
    ClientMessage::from_payload(
        uuid,
        EventPayload {
            timestamp: 1,
            data: XeonEvent::Authenticate(AuthenticateEvent {
                username: username.to_string(),
                password: password.to_string(),
            }),
        },
    )
}

#[test]
fn authenticate_twice_is_idempotent() {
    let mut clients = registry_with_session(1);
    let msg = authenticate_msg(1, "alice", "x");

    let first = handle_event(&mut clients, &msg).expect("first authenticate must confirm");
    assert_eq!(first.uuid, 1);
    match &first.event.data {
        XeonEvent::Print(t) => assert_eq!(t, "Successfully authenticated."),
        _ => panic!("confirmation must be a print event"),
    }
    let snap = get_client_state(&clients, 1).unwrap();
    assert!(snap.authenticated);
    assert_eq!(snap.username.as_deref(), Some("alice"));

    let second = handle_event(&mut clients, &authenticate_msg(1, "alice", "x"));
    assert!(second.is_none());
    let snap = get_client_state(&clients, 1).unwrap();
    assert!(snap.authenticated);
    assert_eq!(snap.username.as_deref(), Some("alice"));
}

#[test]
fn route_emits_exactly_one_confirmation() {
    let mut clients = registry_with_session(1);
    let (out_tx, out_rx) = crossbeam_channel::unbounded();

    assert!(route_client_message(&mut clients, &authenticate_msg(1, "alice", "x"), &out_tx));
    assert!(!route_client_message(&mut clients, &authenticate_msg(1, "alice", "x"), &out_tx));

    let confirmation = out_rx.try_recv().expect("one confirmation must be queued");
    assert_eq!(confirmation.uuid, 1);
    assert!(out_rx.try_recv().is_err());
}

#[test]
fn authenticate_absent_session_is_a_no_op() {
    let mut clients = empty_clients();
    assert!(handle_event(&mut clients, &authenticate_msg(5, "bob", "pw")).is_none());
    assert!(get_client_state(&clients, 5).is_none());
}

#[test]
fn non_authenticate_events_are_ignored() {
    let mut clients = registry_with_session(2);
    let hello = ClientMessage::from_payload(
        2,
        EventPayload {
            timestamp: 9,
            data: XeonEvent::Hello(HelloEvent {
                payload: "hi".to_string(),
            }),
        },
    );
    assert!(handle_event(&mut clients, &hello).is_none());
    assert!(!is_client_authenticated(&clients, 2));

    let print = ClientMessage::from_payload(
        2,
        EventPayload {
            timestamp: 9,
            data: XeonEvent::Print("hi".to_string()),
        },
    );
    assert!(handle_event(&mut clients, &print).is_none());
    assert!(!is_client_authenticated(&clients, 2));
}
