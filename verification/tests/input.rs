use rustadmin_transport::transport::input::{
    decode_reliable_input, encode_mouse_movement, encode_reliable_input, InputProtocolError,
    MouseButton, MouseMovement, MouseMovementMode, MouseMovementReceiver, ReliableInputEvent,
    ReliableInputReceiver,
};

#[test]
fn newest_mouse_movement_wins() {
    let session = [5; 16];
    let movement = |sequence_number, x| MouseMovement {
        sequence_number,
        monotonic_timestamp_us: sequence_number * 10,
        mode: MouseMovementMode::Absolute,
        x,
        y: 20,
        display_id: 0,
        button_state_mask: 1,
    };
    let newer = encode_mouse_movement(session, movement(2, 200), 1200).unwrap();
    let older = encode_mouse_movement(session, movement(1, 100), 1200).unwrap();
    let mut receiver = MouseMovementReceiver::new(session);
    assert_eq!(receiver.apply(&newer).unwrap(), Some(movement(2, 200)));
    assert_eq!(receiver.apply(&older).unwrap(), None);
}

#[test]
fn reliable_events_round_trip() {
    let events = [
        ReliableInputEvent::Key {
            key_code: 42,
            pressed: true,
            modifiers: 3,
        },
        ReliableInputEvent::MouseButton {
            button: MouseButton::Right,
            pressed: true,
            x: 100,
            y: 200,
            display_id: 1,
        },
        ReliableInputEvent::Wheel {
            delta_x: -120,
            delta_y: 240,
            display_id: 1,
        },
    ];
    for event in events {
        assert_eq!(
            decode_reliable_input(&encode_reliable_input(event)),
            Ok(event)
        );
    }
}

#[test]
fn duplicate_state_changes_are_not_applied_twice() {
    let event = ReliableInputEvent::Key {
        key_code: 42,
        pressed: true,
        modifiers: 0,
    };
    let payload = encode_reliable_input(event);
    let mut receiver = ReliableInputReceiver::new();
    assert_eq!(receiver.apply(1, &payload).unwrap(), Some(event));
    assert_eq!(receiver.apply(2, &payload).unwrap(), None);
    assert!(matches!(
        receiver.apply(2, &payload),
        Err(InputProtocolError::InvalidSequence { .. })
    ));
}

#[test]
fn disconnect_releases_pressed_keys_and_buttons() {
    let mut receiver = ReliableInputReceiver::new();
    receiver
        .apply(
            1,
            &encode_reliable_input(ReliableInputEvent::Key {
                key_code: 7,
                pressed: true,
                modifiers: 0,
            }),
        )
        .unwrap();
    receiver
        .apply(
            2,
            &encode_reliable_input(ReliableInputEvent::MouseButton {
                button: MouseButton::Left,
                pressed: true,
                x: 10,
                y: 20,
                display_id: 0,
            }),
        )
        .unwrap();
    let releases = receiver.release_all();
    assert_eq!(releases.len(), 2);
    assert!(releases.iter().all(|event| matches!(
        event,
        ReliableInputEvent::Key { pressed: false, .. }
            | ReliableInputEvent::MouseButton { pressed: false, .. }
    )));
}

#[test]
fn malformed_coordinates_and_masks_are_rejected() {
    assert!(encode_mouse_movement(
        [1; 16],
        MouseMovement {
            sequence_number: 1,
            monotonic_timestamp_us: 1,
            mode: MouseMovementMode::Absolute,
            x: -1,
            y: 0,
            display_id: 0,
            button_state_mask: 0,
        },
        1200,
    )
    .is_err());
    assert!(encode_mouse_movement(
        [1; 16],
        MouseMovement {
            sequence_number: 1,
            monotonic_timestamp_us: 1,
            mode: MouseMovementMode::Relative,
            x: 0,
            y: 0,
            display_id: 0,
            button_state_mask: 0x8000,
        },
        1200,
    )
    .is_err());
}
