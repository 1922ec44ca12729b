//! The event envelope: the timestamped, typed message unit exchanged
//! between the relay core and its clients, together with the frame
//! classification used by the transport.

use vstd::prelude::*;
use crate::codec::{encode, spec_encode};

verus! {

/// One transport frame, as the relay core sees it: a text frame carrying
/// characters, a binary frame carrying bytes, or a close frame.
#[derive(Debug)]
pub enum Frame {
    Text(String),
    Binary(Vec<u8>),
    Close,
}

/// Mathematical model of a frame.
pub ghost enum FrameView {
    Text(Seq<char>),
    Binary(Seq<u8>),
    Close,
}

impl View for Frame {
    type V = FrameView;

    open spec fn view(&self) -> FrameView {
        match self {
            Frame::Text(s) => FrameView::Text(s@),
            Frame::Binary(b) => FrameView::Binary(b@),
            Frame::Close => FrameView::Close,
        }
    }
}

/// A text frame with the given contents.
pub fn message_text(msg: &str) -> (r: Frame)
    ensures
        r@ == FrameView::Text(msg@),
{
    Frame::Text(msg.to_owned())
}

/// A greeting event carrying an opaque payload string.
#[derive(Debug)]
pub struct HelloEvent {
    pub payload: String,
}

/// A free-text event, used for server confirmations.
#[derive(Debug)]
pub struct PrintEvent {
    pub data: String,
}

/// A request to authenticate a connection under a display name.
/// The password is carried but never verified.
#[derive(Debug)]
pub struct AuthenticateEvent {
    pub username: String,
    pub password: String,
}

/// The typed payload of an envelope.
#[derive(Debug)]
pub enum XeonEvent {
    Hello(HelloEvent),
    Authenticate(AuthenticateEvent),
    Print(String),
}

/// The wire envelope: a timestamp in milliseconds since the Unix epoch,
/// assigned when the envelope is constructed, and the typed payload.
#[derive(Debug)]
pub struct EventPayload {
    pub timestamp: u64,
    pub data: XeonEvent,
}

/// Mathematical model of an event payload: every string is a `Seq<char>`.
pub ghost enum EventView {
    Hello { payload: Seq<char> },
    Authenticate { username: Seq<char>, password: Seq<char> },
    Print { text: Seq<char> },
}

/// Mathematical model of an envelope.
pub ghost struct EnvelopeView {
    pub timestamp: u64,
    pub data: EventView,
}

impl View for XeonEvent {
    type V = EventView;

    open spec fn view(&self) -> EventView {
        match self {
            XeonEvent::Hello(h) => EventView::Hello { payload: h.payload@ },
            XeonEvent::Authenticate(a) => EventView::Authenticate {
                username: a.username@,
                password: a.password@,
            },
            XeonEvent::Print(t) => EventView::Print { text: t@ },
        }
    }
}

impl View for EventPayload {
    type V = EnvelopeView;

    open spec fn view(&self) -> EnvelopeView {
        EnvelopeView { timestamp: self.timestamp, data: self.data@ }
    }
}

/// Milliseconds since the Unix epoch, read from the system clock.
/// Relies on `std::time::SystemTime::now` and `duration_since`; a clock
/// set before the epoch yields 0 rather than a panic. Nothing is promised
/// of the result: it depends on the machine's clock.
#[verifier::external_body]
pub fn unix_epoch() -> u64 {
    std::time::SystemTime::now()
        .duration_since(std::time::UNIX_EPOCH)
        .map(|d| d.as_millis() as u64)
        .unwrap_or(0)
}

impl EventPayload {
    /// Wraps an event in an envelope stamped with the current time.
    pub fn new(ev: XeonEvent) -> (r: EventPayload)
        ensures
            r@.data == ev@,
    {
        EventPayload { timestamp: unix_epoch(), data: ev }
    }

    /// An envelope carrying a free-text message, stamped with the current time.
    pub fn print(text: &str) -> (r: EventPayload)
        ensures
            r@.data == (EventView::Print { text: text@ }),
    {
        EventPayload::new(XeonEvent::Print(text.to_owned()))
    }

    /// Renders this envelope as the text frame that carries it.
    pub fn into_message(self) -> (r: Frame)
        ensures
            r@ == FrameView::Text(spec_encode(self@)),
    {
        Frame::Text(encode(&self))
    }

    /// Wraps an event in a fresh envelope and renders it as a text frame.
    pub fn make_message(ev: XeonEvent) -> (r: Frame)
        ensures
            exists|env: EnvelopeView| env.data == ev@ && r@ == FrameView::Text(spec_encode(env)),
    {
        let ghost evv = ev@;
        let e = EventPayload::new(ev);
        let ghost envv = e@;
        let r = e.into_message();
        proof {
            assert(envv.data == evv && r@ == FrameView::Text(spec_encode(envv)));
        }
        r
    }
}

} // verus!
