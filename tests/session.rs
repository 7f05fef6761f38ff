use chat_relay::hub::Delivery;
use chat_relay::payload::MessagePayload;
use chat_relay::session::{
    inbound_step, input_step, outbound_step, output_step, Frame, InboundAction, InboundEvent,
    InputAction, InputEvent, OutboundAction, OutboundEvent, OutputAction, OutputEvent,
};

fn text(s: &str) -> InboundEvent {
    InboundEvent::Frame(Frame::Text(s.to_string()))
}

#[test]
fn inbound_publishes_decoded_payloads() {
    match inbound_step(text("{\"sender\":\"A\",\"content\":\"hello\"}")) {
        InboundAction::Publish(p) => {
            assert_eq!(p, MessagePayload { sender: "A".to_string(), content: "hello".to_string() })
        }
        _ => panic!("expected a publish"),
    }
}

#[test]
fn inbound_skips_blank_malformed_and_other_frames() {
    assert!(matches!(inbound_step(text("{\"sender\":\"A\",\"content\":\"  \"}")), InboundAction::Skip));
    assert!(matches!(inbound_step(text("not a record")), InboundAction::Skip));
    assert!(matches!(
        inbound_step(InboundEvent::Frame(Frame::Other("Binary".to_string()))),
        InboundAction::Skip
    ));
}

#[test]
fn inbound_stops_on_close_error_end_and_shutdown() {
    assert!(matches!(inbound_step(InboundEvent::Frame(Frame::Close)), InboundAction::Stop));
    assert!(matches!(inbound_step(InboundEvent::ReadFailed), InboundAction::Stop));
    assert!(matches!(inbound_step(InboundEvent::Ended), InboundAction::Stop));
    assert!(matches!(inbound_step(InboundEvent::Shutdown), InboundAction::Stop));
}

#[test]
fn outbound_writes_the_wire_text() {
    let p = MessagePayload { sender: "A".to_string(), content: "hello".to_string() };
    match outbound_step(OutboundEvent::Hub(Delivery::Message(p))) {
        OutboundAction::Send(f) => assert_eq!(f, "{\"sender\":\"A\",\"content\":\"hello\"}"),
        _ => panic!("expected a send"),
    }
    assert!(matches!(outbound_step(OutboundEvent::Hub(Delivery::Lagged(3))), OutboundAction::Next));
    assert!(matches!(outbound_step(OutboundEvent::Hub(Delivery::Empty)), OutboundAction::Wait));
    assert!(matches!(outbound_step(OutboundEvent::Hub(Delivery::Unknown)), OutboundAction::Stop));
    assert!(matches!(outbound_step(OutboundEvent::WriteFailed), OutboundAction::Stop));
    assert!(matches!(outbound_step(OutboundEvent::Shutdown), OutboundAction::Stop));
}

#[test]
fn input_sends_lines_as_payloads() {
    let name = "Joe".to_string();
    match input_step(&name, InputEvent::Line("hi there".to_string())) {
        InputAction::Send(f) => assert_eq!(f, "{\"sender\":\"Joe\",\"content\":\"hi there\"}"),
        _ => panic!("expected a send"),
    }
    assert!(matches!(input_step(&name, InputEvent::Line(" ".to_string())), InputAction::Skip));
    assert!(matches!(input_step(&name, InputEvent::SendFailed), InputAction::Skip));
    assert!(matches!(input_step(&name, InputEvent::InputEnded), InputAction::Stop));
    assert!(matches!(input_step(&name, InputEvent::Shutdown), InputAction::Stop));
}

#[test]
fn output_prints_what_arrives() {
    match output_step(OutputEvent::Frame(Frame::Text("abc".to_string()))) {
        OutputAction::Print(l) => assert_eq!(l, "Received: abc"),
        _ => panic!("expected a print"),
    }
    match output_step(OutputEvent::Frame(Frame::Other("Ping([])".to_string()))) {
        OutputAction::Print(l) => assert_eq!(l, "Received non-text message: Ping([])"),
        _ => panic!("expected a print"),
    }
    match output_step(OutputEvent::ReadFailed("reset".to_string())) {
        OutputAction::Fail(l) => assert_eq!(l, "Error receiving message: reset"),
        _ => panic!("expected a failure"),
    }
    assert!(matches!(output_step(OutputEvent::Frame(Frame::Close)), OutputAction::Stop));
    assert!(matches!(output_step(OutputEvent::Ended), OutputAction::Stop));
    assert!(matches!(output_step(OutputEvent::Shutdown), OutputAction::Stop));
}
