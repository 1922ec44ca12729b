use xeon_relay::events::Frame;
use xeon_relay::network::{
    broadcast, empty_clients, get_client_state, is_client_authenticated, register_session,
    send_to, SendFailure, WebSocket,
};

fn frame_channel() -> (
    crossbeam_channel::Sender<Frame>,
    crossbeam_channel::Receiver<Frame>,
) {
    crossbeam_channel::unbounded()
}

#[test]
fn insert_then_snapshot_then_remove() {
    let mut clients = empty_clients();
    let (tx, _rx) = frame_channel();
    clients.insert(WebSocket::new(7, tx));

    let snap = get_client_state(&clients, 7).expect("inserted session must be present");
    assert_eq!(snap.uuid, 7);
    assert!(!snap.authenticated);
    assert!(snap.username.is_none());

    let removed = clients.remove(7).expect("present session must be removed");
    assert_eq!(removed.uuid, 7);
    assert!(get_client_state(&clients, 7).is_none());
    assert!(clients.remove(7).is_none());
}

#[test]
fn snapshot_absent_is_none() {
    let clients = empty_clients();
    assert!(get_client_state(&clients, 1).is_none());
    assert!(!is_client_authenticated(&clients, 1));
}

#[test]
fn register_session_inserts_fresh_session() {
    let mut clients = empty_clients();
    let (tx, _rx) = frame_channel();
    let uuid = register_session(&mut clients, tx);
    let snap = get_client_state(&clients, uuid).expect("registered session must be present");
    assert!(!snap.authenticated);
    assert!(snap.username.is_none());
}

#[test]
fn send_to_absent_is_not_found() {
    let clients = empty_clients();
    assert_eq!(
        send_to(&clients, 9, Frame::Text("x".to_string())),
        Err(SendFailure::NotFound)
    );
}

#[test]
fn send_to_present_delivers() {
    let mut clients = empty_clients();
    let (tx, rx) = frame_channel();
    clients.insert(WebSocket::new(3, tx));
    assert_eq!(send_to(&clients, 3, Frame::Text("hi".to_string())), Ok(()));
    match rx.try_recv().unwrap() {
        Frame::Text(s) => assert_eq!(s, "hi"),
        _ => panic!("expected a text frame"),
    }
}

#[test]
fn send_to_dead_writer_is_transport_failure() {
    let mut clients = empty_clients();
    let (tx, rx) = frame_channel();
    drop(rx);
    clients.insert(WebSocket::new(3, tx));
    assert_eq!(
        send_to(&clients, 3, Frame::Text("hi".to_string())),
        Err(SendFailure::Transport)
    );
}

#[test]
fn broadcast_reaches_only_authenticated() {
    let mut clients = empty_clients();
    let (tx_a, rx_a) = frame_channel();
    let (tx_b, rx_b) = frame_channel();
    clients.insert(WebSocket {
        uuid: 1,
        outbound: tx_a,
        authenticated: true,
        username: Some("a".to_string()),
    });
    clients.insert(WebSocket::new(2, tx_b));

    let outcomes = broadcast(&clients, &Frame::Text("news".to_string()));
    assert_eq!(outcomes, vec![(1, true)]);
    match rx_a.try_recv().unwrap() {
        Frame::Text(s) => assert_eq!(s, "news"),
        _ => panic!("expected a text frame"),
    }
    assert!(rx_a.try_recv().is_err());
    assert!(rx_b.try_recv().is_err());
}

#[test]
fn broadcast_partial_failure_still_reaches_others() {
    let mut clients = empty_clients();
    let (tx_a, rx_a) = frame_channel();
    let (tx_b, rx_b) = frame_channel();
    let (tx_c, rx_c) = frame_channel();
    for (uuid, tx) in [(1u128, tx_a), (2, tx_b), (3, tx_c)] {
        clients.insert(WebSocket {
            uuid,
            outbound: tx,
            authenticated: true,
            username: None,
        });
    }
    drop(rx_b);

    let outcomes = broadcast(&clients, &Frame::Text("x".to_string()));
    assert_eq!(outcomes.len(), 3);
    for (uuid, delivered) in &outcomes {
        assert_eq!(*delivered, *uuid != 2);
    }
    match rx_a.try_recv().unwrap() {
        Frame::Text(s) => assert_eq!(s, "x"),
        _ => panic!("expected a text frame"),
    }
    match rx_c.try_recv().unwrap() {
        Frame::Text(s) => assert_eq!(s, "x"),
        _ => panic!("expected a text frame"),
    }
}
