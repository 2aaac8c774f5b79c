use broadcaster::ids::format_id;
use broadcaster::messages::{Config, ConnectionType, Message, Personality};
use broadcaster::registry::Registry;
use broadcaster::session::{
    attach_controller, canvas_register, canvas_tick, controller_tick, disconnect_canvas,
    frame_outcome, handle_init, AttachOutcome, CanvasTick, ControllerTick, FrameEvent,
    FrameOutcome, InitOutcome, RegisterOutcome,
};

fn create_message(tag: u32) -> Message {
    Message::Create {
        position: vec![tag, 2 * tag, 3 * tag],
        color: vec![255, 0, tag],
        personality: Personality {
            openness: tag,
            conscientiousness: 1,
            extraversion: 2,
            agreeableness: 3,
            neuroticism: 4,
        },
    }
}

fn register_canvas(registry: &mut Registry, width: u32, height: u32) -> String {
    match canvas_register(registry, Message::Config(Config { width, height })) {
        RegisterOutcome::Registered { id, reply } => {
            assert_eq!(reply, Message::Id { id: id.clone() });
            id
        }
        RegisterOutcome::Rejected { reply } => panic!("registration refused: {reply:?}"),
    }
}

#[test]
fn message_error_builds_error_variant() {
    let m = Message::error("boom");
    assert_eq!(
        m,
        Message::Error {
            message: "boom".to_string()
        }
    );
}

#[test]
fn format_id_renders_decimal() {
    assert_eq!(format_id(0), "0");
    assert_eq!(format_id(7), "7");
    assert_eq!(format_id(10), "10");
    assert_eq!(format_id(12345), "12345");
    assert_eq!(format_id(u64::MAX), "18446744073709551615");
}

#[test]
fn init_establishes_role() {
    match handle_init(Message::Init(ConnectionType::Canvas)) {
        InitOutcome::Proceed(ConnectionType::Canvas) => {}
        other => panic!("unexpected outcome: {other:?}"),
    }
    match handle_init(Message::Init(ConnectionType::Controller {
        id: "3".to_string(),
    })) {
        InitOutcome::Proceed(ConnectionType::Controller { id }) => assert_eq!(id, "3"),
        other => panic!("unexpected outcome: {other:?}"),
    }
}

#[test]
fn non_init_first_message_is_rejected() {
    let m = Message::Config(Config {
        width: 1,
        height: 1,
    });
    assert!(matches!(handle_init(m), InitOutcome::Rejected));
    assert!(matches!(
        handle_init(create_message(1)),
        InitOutcome::Rejected
    ));
}

#[test]
fn registration_assigns_sequential_identifiers() {
    let mut registry = Registry::new();
    let id0 = register_canvas(&mut registry, 800, 600);
    let id1 = register_canvas(&mut registry, 640, 480);
    assert_eq!(id0, "0");
    assert_eq!(id1, "1");
    assert_eq!(registry.canvas_count(), 2);
}

#[test]
fn registration_requires_config() {
    let mut registry = Registry::new();
    match canvas_register(&mut registry, create_message(1)) {
        RegisterOutcome::Rejected { reply } => {
            assert_eq!(reply, Message::error("expected config"));
        }
        other => panic!("unexpected outcome: {other:?}"),
    }
    assert_eq!(registry.canvas_count(), 0);
}

#[test]
fn config_replayed_on_attach() {
    let mut registry = Registry::new();
    let id = register_canvas(&mut registry, 800, 600);
    match attach_controller(&registry, &id) {
        AttachOutcome::Attached { reply } => {
            assert_eq!(
                reply,
                Message::Config(Config {
                    width: 800,
                    height: 600
                })
            );
        }
        other => panic!("unexpected outcome: {other:?}"),
    }
}

#[test]
fn unknown_canvas_attach_errors() {
    let mut registry = Registry::new();
    let id = register_canvas(&mut registry, 800, 600);
    match attach_controller(&registry, &"7".to_string()) {
        AttachOutcome::NotFound { reply } => {
            assert_eq!(reply, Message::error("canvas '7' not found"));
        }
        other => panic!("unexpected outcome: {other:?}"),
    }
    // the registry is unchanged: the live canvas is still reachable
    assert_eq!(registry.canvas_count(), 1);
    assert!(matches!(
        attach_controller(&registry, &id),
        AttachOutcome::Attached { .. }
    ));
}

#[test]
fn attach_sees_updated_config() {
    let mut registry = Registry::new();
    let id = register_canvas(&mut registry, 800, 600);
    let update = Message::Config(Config {
        width: 1024,
        height: 768,
    });
    match canvas_tick(&mut registry, &id, Some(&update)) {
        CanvasTick::Continue { forward } => assert!(forward.is_none()),
        CanvasTick::Vanished => panic!("canvas vanished"),
    }
    match attach_controller(&registry, &id) {
        AttachOutcome::Attached { reply } => {
            assert_eq!(
                reply,
                Message::Config(Config {
                    width: 1024,
                    height: 768
                })
            );
        }
        other => panic!("unexpected outcome: {other:?}"),
    }
}

#[test]
fn create_routed_to_target_canvas_only() {
    let mut registry = Registry::new();
    let id0 = register_canvas(&mut registry, 800, 600);
    let id1 = register_canvas(&mut registry, 640, 480);
    let command = create_message(9);
    assert_eq!(
        controller_tick(&mut registry, &id0, Some(command.clone())),
        ControllerTick::Forwarded
    );
    // the other canvas has nothing pending
    match canvas_tick(&mut registry, &id1, None) {
        CanvasTick::Continue { forward } => assert!(forward.is_none()),
        CanvasTick::Vanished => panic!("canvas vanished"),
    }
    // the targeted canvas receives exactly the command
    match canvas_tick(&mut registry, &id0, None) {
        CanvasTick::Continue { forward } => assert_eq!(forward, Some(command)),
        CanvasTick::Vanished => panic!("canvas vanished"),
    }
}

#[test]
fn commands_forwarded_in_order() {
    let mut registry = Registry::new();
    let id = register_canvas(&mut registry, 800, 600);
    for tag in 0..3 {
        assert_eq!(
            controller_tick(&mut registry, &id, Some(create_message(tag))),
            ControllerTick::Forwarded
        );
    }
    for tag in 0..3 {
        match canvas_tick(&mut registry, &id, None) {
            CanvasTick::Continue { forward } => assert_eq!(forward, Some(create_message(tag))),
            CanvasTick::Vanished => panic!("canvas vanished"),
        }
    }
}

#[test]
fn controller_ignores_non_create_messages() {
    let mut registry = Registry::new();
    let id = register_canvas(&mut registry, 800, 600);
    assert_eq!(
        controller_tick(&mut registry, &id, None),
        ControllerTick::Ignored
    );
    let config = Message::Config(Config {
        width: 1,
        height: 1,
    });
    assert_eq!(
        controller_tick(&mut registry, &id, Some(config)),
        ControllerTick::Ignored
    );
    // nothing was queued
    match canvas_tick(&mut registry, &id, None) {
        CanvasTick::Continue { forward } => assert!(forward.is_none()),
        CanvasTick::Vanished => panic!("canvas vanished"),
    }
}

#[test]
fn flooded_queue_applies_backpressure() {
    let mut registry = Registry::new();
    let id = register_canvas(&mut registry, 800, 600);
    for tag in 0..10 {
        assert_eq!(
            controller_tick(&mut registry, &id, Some(create_message(tag))),
            ControllerTick::Forwarded
        );
    }
    // the queue is at capacity: further commands are refused, nothing breaks
    for tag in 10..12 {
        assert_eq!(
            controller_tick(&mut registry, &id, Some(create_message(tag))),
            ControllerTick::Busy
        );
    }
    // the canvas is still registered and drains the ten stored commands
    assert!(matches!(
        attach_controller(&registry, &id),
        AttachOutcome::Attached { .. }
    ));
    for tag in 0..10 {
        match canvas_tick(&mut registry, &id, None) {
            CanvasTick::Continue { forward } => assert_eq!(forward, Some(create_message(tag))),
            CanvasTick::Vanished => panic!("canvas vanished"),
        }
    }
    match canvas_tick(&mut registry, &id, None) {
        CanvasTick::Continue { forward } => assert!(forward.is_none()),
        CanvasTick::Vanished => panic!("canvas vanished"),
    }
}

#[test]
fn disconnect_removes_canvas_and_never_reuses_id() {
    let mut registry = Registry::new();
    let id0 = register_canvas(&mut registry, 800, 600);
    disconnect_canvas(&mut registry, &id0);
    assert_eq!(registry.canvas_count(), 0);
    match attach_controller(&registry, &id0) {
        AttachOutcome::NotFound { reply } => {
            assert_eq!(reply, Message::error("canvas '0' not found"));
        }
        other => panic!("unexpected outcome: {other:?}"),
    }
    // a later registration gets a fresh identifier, not the retired one
    let id1 = register_canvas(&mut registry, 320, 200);
    assert_ne!(id0, id1);
    assert_eq!(id1, "1");
}

#[test]
fn controller_of_vanished_canvas_terminates() {
    let mut registry = Registry::new();
    let id = register_canvas(&mut registry, 800, 600);
    disconnect_canvas(&mut registry, &id);
    assert_eq!(
        controller_tick(&mut registry, &id, Some(create_message(1))),
        ControllerTick::Vanished
    );
}

#[test]
fn canvas_tick_on_missing_slot_is_fatal() {
    let mut registry = Registry::new();
    assert!(matches!(
        canvas_tick(&mut registry, &"0".to_string(), None),
        CanvasTick::Vanished
    ));
}

#[test]
fn frame_policy_matches_protocol() {
    match frame_outcome(FrameEvent::Payload(create_message(1))) {
        FrameOutcome::Proceed(m) => assert_eq!(m, create_message(1)),
        other => panic!("unexpected outcome: {other:?}"),
    }
    match frame_outcome(FrameEvent::Malformed) {
        FrameOutcome::Reject { reply } => {
            assert_eq!(reply, Message::error("failed to parse message"));
        }
        other => panic!("unexpected outcome: {other:?}"),
    }
    match frame_outcome(FrameEvent::Binary) {
        FrameOutcome::Reject { reply } => {
            assert_eq!(reply, Message::error("invalid message data type"));
        }
        other => panic!("unexpected outcome: {other:?}"),
    }
    assert!(matches!(
        frame_outcome(FrameEvent::Closed),
        FrameOutcome::Disconnected
    ));
}
