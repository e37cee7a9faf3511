use rustadmin_transport::time::Duration;
use rustadmin_transport::transport::input::{
    encode_reliable_input, ReliableInputEvent, ReliableInputReceiver,
};
use rustadmin_transport::transport::recovery::{ReconnectPolicy, ReconnectState, RecoveryError};

#[test]
fn backoff_is_bounded_and_exhausts() {
    let mut state = ReconnectState::new(ReconnectPolicy {
        initial_delay: Duration::from_millis(100),
        maximum_delay: Duration::from_millis(400),
        maximum_attempts: 4,
        jitter_percent: 0,
    })
    .unwrap();
    assert_eq!(state.next_delay(0).unwrap(), Duration::from_millis(100));
    assert_eq!(state.next_delay(0).unwrap(), Duration::from_millis(200));
    assert_eq!(state.next_delay(0).unwrap(), Duration::from_millis(400));
    assert_eq!(state.next_delay(0).unwrap(), Duration::from_millis(400));
    assert_eq!(state.next_delay(0), Err(RecoveryError::AttemptsExhausted));
}

#[test]
fn disconnect_releases_input_and_requires_fresh_media_state() {
    let mut input = ReliableInputReceiver::new();
    input
        .apply(
            1,
            &encode_reliable_input(ReliableInputEvent::Key {
                key_code: 10,
                pressed: true,
                modifiers: 0,
            }),
        )
        .unwrap();
    let mut state = ReconnectState::new(ReconnectPolicy::default()).unwrap();
    let actions = state.on_disconnect(&mut input);
    assert_eq!(actions.input_releases.len(), 1);
    assert!(actions.discard_video_and_audio);
    assert!(actions.request_fresh_keyframe);
    assert!(actions.reauthenticate);
    assert!(actions.renegotiate_capabilities);
}
