use rustadmin_transport::transport::clipboard::{
    decode_clipboard_text, encode_clipboard_text, ClipboardError, ClipboardPermission,
    ClipboardState, ClipboardText,
};

#[test]
fn utf8_clipboard_round_trip() {
    let payload = encode_clipboard_text([1; 16], 7, "hello", 1024).unwrap();
    assert_eq!(
        decode_clipboard_text(&payload, 1024).unwrap(),
        ClipboardText {
            origin_id: [1; 16],
            change_sequence: 7,
            text: "hello".to_owned(),
        }
    );
}

#[test]
fn loop_and_duplicate_changes_are_suppressed() {
    let mut state =
        ClipboardState::new(ClipboardPermission::Bidirectional, [1; 16], 1024).unwrap();
    let own = encode_clipboard_text([1; 16], 1, "own", 1024).unwrap();
    assert_eq!(state.receive(&own).unwrap(), None);
    let peer = encode_clipboard_text([2; 16], 4, "peer", 1024).unwrap();
    assert!(state.receive(&peer).unwrap().is_some());
    assert_eq!(state.receive(&peer).unwrap(), None);
    let stale = encode_clipboard_text([2; 16], 3, "stale", 1024).unwrap();
    assert_eq!(state.receive(&stale).unwrap(), None);
}

#[test]
fn directional_permissions_are_enforced() {
    let mut receive_only =
        ClipboardState::new(ClipboardPermission::ReceiveOnly, [1; 16], 1024).unwrap();
    assert_eq!(
        receive_only.prepare_local_text("blocked"),
        Err(ClipboardError::PermissionDenied)
    );
    let mut send_only =
        ClipboardState::new(ClipboardPermission::SendOnly, [1; 16], 1024).unwrap();
    let peer = encode_clipboard_text([2; 16], 1, "peer", 1024).unwrap();
    assert_eq!(
        send_only.receive(&peer),
        Err(ClipboardError::PermissionDenied)
    );
}

#[test]
fn malformed_and_oversized_payloads_are_rejected() {
    assert_eq!(
        encode_clipboard_text([1; 16], 1, "too large", 2),
        Err(ClipboardError::InvalidSize(9))
    );
    let mut payload = encode_clipboard_text([1; 16], 1, "ok", 1024).unwrap();
    payload[31] = 9;
    assert_eq!(
        decode_clipboard_text(&payload, 1024),
        Err(ClipboardError::InvalidSize(9))
    );
}
