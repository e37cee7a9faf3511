use rustadmin_transport::stream::{
    Dequeued, DuplexStream, OutboundMessage, OutboundQueue, OutboxError, ReadSource,
    StreamTransport,
};
use rustadmin_transport::tcp::FramedStream;

fn message(value: &'static [u8], kind: &'static str) -> OutboundMessage<u32> {
    OutboundMessage {
        bytes: value.to_vec(),
        kind,
        encrypt: true,
        completion: None,
    }
}

fn next(queue: &mut OutboundQueue<u32>) -> Vec<u8> {
    match queue.dequeue() {
        Dequeued::Message(message) => message.bytes,
        Dequeued::Empty => panic!("the outbox is empty"),
        Dequeued::Closed => panic!("the outbox is closed"),
    }
}

#[test]
fn latest_messages_replace_in_place_without_reordering_reliable_messages() {
    let mut queue = OutboundQueue::new(4);
    queue.enqueue(message(b"control-1", "control")).unwrap();
    queue
        .enqueue_latest(7, message(b"feedback-old", "feedback"))
        .unwrap();
    queue
        .enqueue_latest(7, message(b"feedback-new", "feedback"))
        .unwrap();
    queue.enqueue(message(b"control-2", "control")).unwrap();

    assert_eq!(next(&mut queue), &b"control-1"[..]);
    assert_eq!(next(&mut queue), &b"feedback-new"[..]);
    assert_eq!(next(&mut queue), &b"control-2"[..]);
}

#[test]
fn outbox_capacity_is_bounded() {
    let mut queue = OutboundQueue::new(2);
    queue.enqueue(message(b"one", "control")).unwrap();
    queue.enqueue(message(b"two", "control")).unwrap();
    assert!(queue.enqueue(message(b"three", "control")).is_err());
    assert!(queue
        .enqueue_latest(1, message(b"feedback", "feedback"))
        .is_err());
}

#[test]
fn writer_failure_notifies_pending_confirmed_send() {
    let mut queue = OutboundQueue::new(2);
    queue
        .enqueue(OutboundMessage {
            bytes: b"close".to_vec(),
            kind: "close",
            encrypt: true,
            completion: Some(31u32),
        })
        .unwrap();

    let failed = queue.fail_pending();

    assert_eq!(failed.len(), 1);
    assert_eq!(failed[0].completion, Some(31));
    assert!(matches!(queue.dequeue(), Dequeued::Closed));
    assert_eq!(
        queue.enqueue(message(b"late", "control")),
        Err(OutboxError::Closed)
    );
}

#[test]
fn outbox_has_room_for_one_at_least() {
    let mut queue = OutboundQueue::new(0);
    assert!(matches!(queue.dequeue(), Dequeued::Empty));
    queue.enqueue(message(b"one", "control")).unwrap();
    assert_eq!(
        queue.enqueue(message(b"two", "control")),
        Err(OutboxError::Full)
    );
    queue.close();
    assert_eq!(queue.len(), 1);
    assert_eq!(next(&mut queue), &b"one"[..]);
    assert!(matches!(queue.dequeue(), Dequeued::Closed));
}

#[test]
fn failed_write_hands_out_the_rest_with_unreplaceable_messages_first() {
    let mut queue = OutboundQueue::new(4);
    queue
        .enqueue_latest(1, message(b"feedback", "feedback"))
        .unwrap();
    queue.enqueue(message(b"control", "control")).unwrap();
    let report = queue.sent(Some(8), false);
    assert_eq!(report.waiting, Some(8));
    assert!(!report.goes_on);
    let failed: Vec<Vec<u8>> = report
        .abandoned
        .into_iter()
        .map(|message| message.bytes)
        .collect();
    assert_eq!(failed, vec![b"control".to_vec(), b"feedback".to_vec()]);
    assert_eq!(queue.len(), 0);
}

#[test]
fn duplex_preserves_plain_send_bytes_and_encrypted_send_raw_semantics() {
    let key = [11; 32];
    let mut local = FramedStream::new(false);
    local.set_key(key);
    let mut stream: DuplexStream<u32> =
        DuplexStream::into_duplex(StreamTransport::Tcp, local.is_secured(), 4);
    let (_, mut writer) = local.into_split();
    let mut remote = FramedStream::new(false);

    stream.send_bytes(b"plain".to_vec()).unwrap();
    let mut plain = match stream.dequeue() {
        Dequeued::Message(message) => {
            assert!(!message.encrypt);
            message.bytes
        }
        _ => panic!("nothing to send"),
    };
    remote.next(&mut plain).unwrap();
    assert_eq!(&plain[..], b"plain");

    remote.set_key(key);
    stream.send_raw(b"encrypted".to_vec()).unwrap();
    let mut sent = match stream.dequeue() {
        Dequeued::Message(message) => {
            assert!(message.encrypt);
            writer.send_raw(message.bytes)
        }
        _ => panic!("nothing to send"),
    };
    assert_ne!(&sent[..], b"encrypted");
    remote.next(&mut sent).unwrap();
    assert_eq!(&sent[..], b"encrypted");
}

#[test]
fn reader_stops_listening_for_a_closed_error_channel() {
    let mut stream: DuplexStream<u32> =
        DuplexStream::into_duplex(StreamTransport::WebSocket { tls: true }, false, 4);
    assert!(stream.has_secure_transport());
    assert!(!stream.is_secured());
    assert_eq!(stream.read_source(), ReadSource::ReaderOrWriterError);
    stream.writer_errors_closed();
    assert_eq!(stream.read_source(), ReadSource::Reader);
    assert!(StreamTransport::WebRtc.has_secure_transport());
    assert!(!StreamTransport::WebSocket { tls: false }.has_secure_transport());
}
