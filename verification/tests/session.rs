use world_actor::session::{greeting, react, to_message, FrameKind, SessionAction, SessionEvent};
use world_actor::protocol::Request;
use world_actor::world::WorldMsg;

fn text(line: &str) -> SessionEvent {
    SessionEvent::Frame { kind: FrameKind::Text, payload: line.as_bytes().to_vec() }
}

fn assert_leaves(action: SessionAction, expected: u32) {
    match action {
        SessionAction::Leave { message: WorldMsg::Disconnect { id } } => assert_eq!(id, expected),
        _ => panic!("the session should leave with a disconnect"),
    }
}

#[test]
fn greeting_is_the_id_in_four_bytes() {
    assert_eq!(greeting(1), vec![0, 0, 0, 1]);
    assert_eq!(greeting(258), vec![0, 0, 1, 2]);
}

#[test]
fn request_becomes_a_message_under_the_sessions_id() {
    match to_message(9, Request::SetInterest { center: (1, 2, 3), radius: 4 }) {
        WorldMsg::SetInterest { id, center, radius } => {
            assert_eq!((id, center, radius), (9, (1, 2, 3), 4));
        },
        _ => panic!("wrong message"),
    }
    match to_message(9, Request::SetRotation { rotation: (1, 2, 3) }) {
        WorldMsg::SetRotation { id, rotation } => assert_eq!((id, rotation), (9, (1, 2, 3))),
        _ => panic!("wrong message"),
    }
}

#[test]
fn well_formed_text_is_submitted_and_acknowledged() {
    match react(7, text("SetPosition 1 2 3")) {
        SessionAction::Submit { message: WorldMsg::SetPosition { id, position }, reply } => {
            assert_eq!(id, 7);
            assert_eq!(position, (1, 2, 3));
            assert_eq!(reply, "SetPosition Ok");
        },
        _ => panic!("the command should go to the world"),
    }
    match react(3, text("SetInterest 0 0 0 10")) {
        SessionAction::Submit { message: WorldMsg::SetInterest { id, center, radius }, reply } => {
            assert_eq!((id, center, radius), (3, (0, 0, 0), 10));
            assert_eq!(reply, "SetInterest Ok");
        },
        _ => panic!("the command should go to the world"),
    }
}

#[test]
fn malformed_text_is_answered_and_goes_nowhere() {
    match react(7, text("SetInterest 1 2 3")) {
        SessionAction::Reject { reply } => assert_eq!(reply, "SetInterest Invalid"),
        _ => panic!("wrong arity should be rejected"),
    }
    match react(7, text("SetPosition 1 2 x")) {
        SessionAction::Reject { reply } => assert_eq!(reply, "SetPosition ParseError"),
        _ => panic!("a field that is no integer should be rejected"),
    }
    match react(7, text("Teleport 1 2 3")) {
        SessionAction::Reject { reply } => assert_eq!(reply, "Invalid"),
        _ => panic!("an unknown command should be rejected"),
    }
}

#[test]
fn binary_frames_carry_no_commands() {
    let event = SessionEvent::Frame {
        kind: FrameKind::Binary,
        payload: b"SetPosition 1 2 3".to_vec(),
    };
    match react(7, event) {
        SessionAction::Reject { reply } => assert_eq!(reply, "Invalid"),
        _ => panic!("a binary frame should be rejected"),
    }
}

#[test]
fn other_frames_are_ignored() {
    let event = SessionEvent::Frame { kind: FrameKind::Other, payload: vec![1, 2, 3] };
    assert!(matches!(react(7, event), SessionAction::Ignore));
}

#[test]
fn outbox_payload_is_delivered_unchanged() {
    match react(7, SessionEvent::Outbox { payload: vec![9, 8, 7] }) {
        SessionAction::Deliver { payload } => assert_eq!(payload, vec![9, 8, 7]),
        _ => panic!("the payload should go to the client"),
    }
    match react(7, SessionEvent::Outbox { payload: Vec::new() }) {
        SessionAction::Deliver { payload } => assert!(payload.is_empty()),
        _ => panic!("an empty payload is still a frame"),
    }
}

#[test]
fn close_error_and_closed_outbox_end_the_session() {
    assert_leaves(react(5, SessionEvent::Frame { kind: FrameKind::Close, payload: Vec::new() }), 5);
    assert_leaves(react(6, SessionEvent::TransportError), 6);
    assert_leaves(react(8, SessionEvent::OutboxClosed), 8);
}
