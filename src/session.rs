//! The decisions of a connection's two actors, and of the client's two actors, as
//! functions from the event that their loop met to the action that it performs next.
use vstd::prelude::*;
use crate::codec::{chars_of, decode_spec, encode_spec, string_of_chars};
use crate::hub::Delivery;
use crate::payload::{MessagePayload, PayloadView, is_blank};

verus! {

/// One frame read from a connection.
pub enum Frame {
    Text(String),
    Close,
    /// Any other frame (binary, ping, pong), with a description of it.
    Other(String),
}

/// What the inbound reader of a connection met while it waited.
pub enum InboundEvent {
    Frame(Frame),
    ReadFailed,
    Ended,
    Shutdown,
}

pub enum InboundAction {
    Publish(MessagePayload),
    Skip,
    Stop,
}

/// The inbound reader publishes each decoded payload whose content is not blank; it
/// drops malformed and non-text frames, and stops on a close frame, a read error, the
/// end of the stream or shutdown.
pub fn inbound_step(event: InboundEvent) -> (r: InboundAction)
    ensures
        match event {
            InboundEvent::Frame(Frame::Text(t)) => match decode_spec(t@) {
                Some(p) => if is_blank(p.content) {
                    r is Skip
                } else {
                    r matches InboundAction::Publish(q) && q@ == p
                },
                None => r is Skip,
            },
            InboundEvent::Frame(Frame::Other(_)) => r is Skip,
            _ => r is Stop,
        },
{
    match event {
        InboundEvent::Frame(Frame::Text(t)) => match MessagePayload::deserialize(t.as_str()) {
            Some(p) => {
                if p.has_blank_content() {
                    InboundAction::Skip
                } else {
                    InboundAction::Publish(p)
                }
            },
            None => InboundAction::Skip,
        },
        InboundEvent::Frame(Frame::Other(_)) => InboundAction::Skip,
        _ => InboundAction::Stop,
    }
}

/// What the outbound writer of a connection met while it waited.
pub enum OutboundEvent {
    Hub(Delivery),
    WriteFailed,
    Shutdown,
}

pub enum OutboundAction {
    /// Write this text frame.
    Send(String),
    /// Take the next delivery at once.
    Next,
    /// Wait until something is published.
    Wait,
    Stop,
}

/// The outbound writer encodes each delivered payload; told of a drop, it goes on at
/// once with the payloads still queued, and with none queued it waits. It stops when its subscription is gone, a write fails, or on
/// shutdown.
pub fn outbound_step(event: OutboundEvent) -> (r: OutboundAction)
    ensures
        match event {
            OutboundEvent::Hub(Delivery::Message(p)) => r matches OutboundAction::Send(f) && f@
                == encode_spec(p@),
            OutboundEvent::Hub(Delivery::Lagged(_)) => r is Next,
            OutboundEvent::Hub(Delivery::Empty) => r is Wait,
            _ => r is Stop,
        },
{
    match event {
        OutboundEvent::Hub(Delivery::Message(p)) => OutboundAction::Send(p.serialize()),
        OutboundEvent::Hub(Delivery::Lagged(_)) => OutboundAction::Next,
        OutboundEvent::Hub(Delivery::Empty) => OutboundAction::Wait,
        _ => OutboundAction::Stop,
    }
}

/// What the client's input side met: a line typed by its user, the end of input, or
/// shutdown.
pub enum InputEvent {
    Line(String),
    SendFailed,
    InputEnded,
    Shutdown,
}

pub enum InputAction {
    Send(String),
    Skip,
    Stop,
}

/// The client sends each line that is not blank as a payload from `user_name`; a failed
/// send is passed over.
pub fn input_step(user_name: &String, event: InputEvent) -> (r: InputAction)
    ensures
        match event {
            InputEvent::Line(l) => if is_blank(l@) {
                r is Skip
            } else {
                r matches InputAction::Send(f) && f@ == encode_spec(
                    PayloadView { sender: user_name@, content: l@ },
                )
            },
            InputEvent::SendFailed => r is Skip,
            _ => r is Stop,
        },
{
    match event {
        InputEvent::Line(l) => {
            let p = MessagePayload::new(user_name.clone(), l);
            if p.has_blank_content() {
                InputAction::Skip
            } else {
                InputAction::Send(p.serialize())
            }
        },
        InputEvent::SendFailed => InputAction::Skip,
        _ => InputAction::Stop,
    }
}

/// What the client's output side met.
pub enum OutputEvent {
    Frame(Frame),
    /// A read error, with its description.
    ReadFailed(String),
    Ended,
    Shutdown,
}

pub enum OutputAction {
    /// Print this line for the user.
    Print(String),
    /// Report this error line and stop.
    Fail(String),
    Stop,
}

pub open spec fn received_prefix() -> Seq<char> {
    seq!['R', 'e', 'c', 'e', 'i', 'v', 'e', 'd', ':', ' ']
}

pub open spec fn non_text_prefix() -> Seq<char> {
    seq![
        'R', 'e', 'c', 'e', 'i', 'v', 'e', 'd', ' ', 'n', 'o', 'n', '-', 't', 'e', 'x', 't', ' ',
        'm', 'e', 's', 's', 'a', 'g', 'e', ':', ' '
    ]
}

pub open spec fn error_prefix() -> Seq<char> {
    seq![
        'E', 'r', 'r', 'o', 'r', ' ', 'r', 'e', 'c', 'e', 'i', 'v', 'i', 'n', 'g', ' ', 'm', 'e', 's',
        's', 'a', 'g', 'e', ':', ' '
    ]
}

/// `prefix` followed by `s`.
fn prefixed(prefix: &str, s: &str) -> (r: String)
    ensures
        r@ == prefix@ + s@,
{
    let mut out = chars_of(prefix);
    let mut rest = chars_of(s);
    out.append(&mut rest);
    string_of_chars(out)
}

/// The client prints every text frame as it came and describes every other one; a read
/// error is reported and ends the output side, as do a close frame, the end of the
/// stream and shutdown.
pub fn output_step(event: OutputEvent) -> (r: OutputAction)
    ensures
        match event {
            OutputEvent::Frame(Frame::Text(t)) => r matches OutputAction::Print(line) && line@
                == received_prefix() + t@,
            OutputEvent::Frame(Frame::Other(d)) => r matches OutputAction::Print(line) && line@
                == non_text_prefix() + d@,
            OutputEvent::ReadFailed(e) => r matches OutputAction::Fail(line) && line@
                == error_prefix() + e@,
            _ => r is Stop,
        },
{
    match event {
        OutputEvent::Frame(Frame::Text(t)) => {
            proof {
                reveal_strlit("Received: ");
            }
            let line = prefixed("Received: ", t.as_str());
            assert(line@ =~= received_prefix() + t@);
            OutputAction::Print(line)
        },
        OutputEvent::Frame(Frame::Other(d)) => {
            proof {
                reveal_strlit("Received non-text message: ");
            }
            let line = prefixed("Received non-text message: ", d.as_str());
            assert(line@ =~= non_text_prefix() + d@);
            OutputAction::Print(line)
        },
        OutputEvent::ReadFailed(e) => {
            proof {
                reveal_strlit("Error receiving message: ");
            }
            let line = prefixed("Error receiving message: ", e.as_str());
            assert(line@ =~= error_prefix() + e@);
            OutputAction::Fail(line)
        },
        _ => OutputAction::Stop,
    }
}

} // verus!
