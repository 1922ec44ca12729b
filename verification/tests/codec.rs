use xeon_relay::codec::{decode, encode, u128_to_string, DecodeError};
use xeon_relay::config::WebSocketConfig;
use xeon_relay::events::{AuthenticateEvent, EventPayload, HelloEvent, XeonEvent};

fn hello(timestamp: u64, payload: &str) -> EventPayload {
    EventPayload {
        timestamp,
        data: XeonEvent::Hello(HelloEvent {
            payload: payload.to_string(),
        }),
    }
}

fn auth(timestamp: u64, username: &str, password: &str) -> EventPayload {
    EventPayload {
        timestamp,
        data: XeonEvent::Authenticate(AuthenticateEvent {
            username: username.to_string(),
            password: password.to_string(),
        }),
    }
}

fn print(timestamp: u64, text: &str) -> EventPayload {
    EventPayload {
        timestamp,
        data: XeonEvent::Print(text.to_string()),
    }
}

fn assert_same(a: &EventPayload, b: &EventPayload) {
    assert_eq!(a.timestamp, b.timestamp);
    match (&a.data, &b.data) {
        (XeonEvent::Hello(x), XeonEvent::Hello(y)) => assert_eq!(x.payload, y.payload),
        (XeonEvent::Authenticate(x), XeonEvent::Authenticate(y)) => {
            assert_eq!(x.username, y.username);
            assert_eq!(x.password, y.password);
        }
        (XeonEvent::Print(x), XeonEvent::Print(y)) => assert_eq!(x, y),
        _ => panic!("variant mismatch"),
    }
}

#[test]
fn encode_hello_exact() {
    let e = hello(1234, "hi");
    assert_eq!(
        encode(&e),
        "{\"timestamp\":1234,\"data\":{\"Hello\":{\"payload\":\"hi\"}}}"
    );
}

#[test]
fn encode_authenticate_exact() {
    let e = auth(0, "alice", "x");
    assert_eq!(
        encode(&e),
        "{\"timestamp\":0,\"data\":{\"Authenticate\":{\"username\":\"alice\",\"password\":\"x\"}}}"
    );
}

#[test]
fn encode_print_exact() {
    let e = print(18446744073709551615, "done");
    assert_eq!(
        encode(&e),
        "{\"timestamp\":18446744073709551615,\"data\":{\"Print\":\"done\"}}"
    );
}

#[test]
fn encode_escapes_quotes_and_backslashes() {
    let e = print(7, "a\"b\\c");
    assert_eq!(
        encode(&e),
        "{\"timestamp\":7,\"data\":{\"Print\":\"a\\\"b\\\\c\"}}"
    );
}

#[test]
fn round_trip_hello() {
    let e = hello(42, "payload with spaces");
    let back = decode(&encode(&e)).unwrap();
    assert_same(&e, &back);
}

#[test]
fn round_trip_authenticate() {
    let e = auth(98765, "al\"ice", "p\\ss\"word");
    let back = decode(&encode(&e)).unwrap();
    assert_same(&e, &back);
}

#[test]
fn round_trip_print_empty_text() {
    let e = print(0, "");
    let back = decode(&encode(&e)).unwrap();
    assert_same(&e, &back);
}

#[test]
fn round_trip_max_timestamp() {
    let e = hello(u64::MAX, "");
    let back = decode(&encode(&e)).unwrap();
    assert_same(&e, &back);
}

#[test]
fn decode_plain_text_fails() {
    assert_eq!(decode("hello room").unwrap_err(), DecodeError::Malformed);
}

#[test]
fn decode_unknown_variant_fails() {
    assert_eq!(
        decode("{\"timestamp\":1,\"data\":{\"Nope\":\"x\"}}").unwrap_err(),
        DecodeError::Malformed
    );
}

#[test]
fn decode_missing_field_fails() {
    assert_eq!(
        decode("{\"timestamp\":1,\"data\":{\"Authenticate\":{\"username\":\"a\"}}}").unwrap_err(),
        DecodeError::Malformed
    );
}

#[test]
fn decode_timestamp_overflow_fails() {
    assert_eq!(
        decode("{\"timestamp\":18446744073709551616,\"data\":{\"Print\":\"x\"}}").unwrap_err(),
        DecodeError::Malformed
    );
}

#[test]
fn decode_trailing_garbage_fails() {
    assert_eq!(
        decode("{\"timestamp\":1,\"data\":{\"Print\":\"x\"}}garbage").unwrap_err(),
        DecodeError::Malformed
    );
}

#[test]
fn decode_valid_authenticate() {
    let back =
        decode("{\"timestamp\":5,\"data\":{\"Authenticate\":{\"username\":\"a\",\"password\":\"b\"}}}")
            .unwrap();
    assert_same(&auth(5, "a", "b"), &back);
}

#[test]
fn u128_rendering() {
    assert_eq!(u128_to_string(0), "0");
    assert_eq!(u128_to_string(10), "10");
    assert_eq!(
        u128_to_string(u128::MAX),
        "340282366920938463463374607431768211455"
    );
}

#[test]
fn decode_frame_rejects_non_text() {
    assert_eq!(
        xeon_relay::codec::decode_frame(&xeon_relay::events::Frame::Binary(vec![1, 2]))
            .unwrap_err(),
        DecodeError::NotText
    );
    assert_eq!(
        xeon_relay::codec::decode_frame(&xeon_relay::events::Frame::Close).unwrap_err(),
        DecodeError::NotText
    );
}

#[test]
fn decode_frame_round_trip_via_message() {
    let e = auth(11, "bob", "secret");
    match xeon_relay::codec::decode_frame(&e.into_message()) {
        Ok(back) => assert_same(&auth(11, "bob", "secret"), &back),
        Err(_) => panic!("an encoded frame must decode"),
    }
}

#[test]
fn make_message_carries_the_event() {
    let frame = EventPayload::make_message(XeonEvent::Print("x".to_string()));
    let back = xeon_relay::codec::decode_frame(&frame).unwrap();
    match back.data {
        XeonEvent::Print(t) => assert_eq!(t, "x"),
        _ => panic!("variant mismatch"),
    }
}

#[test]
fn bind_addr_defaults() {
    let c = WebSocketConfig { host: None, port: None };
    assert_eq!(c.bind_addr(), "127.0.0.1:3500");
    let d = WebSocketConfig::default();
    assert_eq!(d.bind_addr(), "127.0.0.1:3500");
}

#[test]
fn bind_addr_custom() {
    let c = WebSocketConfig {
        host: Some("0.0.0.0".to_string()),
        port: Some(81),
    };
    assert_eq!(c.bind_addr(), "0.0.0.0:81");
}
