use rustadmin_transport::transport::protocol::{ChannelId, MessageType, SessionId};
use rustadmin_transport::transport::reliable::{
    check_length, decode_stream_preface, encode_stream_preface, ReliableChannel,
    ReliableChannelKind,
};

#[test]
fn stream_prefaces_round_trip() {
    for kind in [
        ReliableChannelKind::Control,
        ReliableChannelKind::Input,
        ReliableChannelKind::Clipboard,
        ReliableChannelKind::FileTransfer,
        ReliableChannelKind::Diagnostics,
        ReliableChannelKind::Video,
    ] {
        assert_eq!(
            decode_stream_preface(&encode_stream_preface(kind)).unwrap(),
            kind
        );
    }
}

#[test]
fn rejects_datagram_stream_prefaces() {
    for channel in [
        ChannelId::VideoDatagram,
        ChannelId::AudioDatagram,
        ChannelId::MouseDatagram,
    ] {
        let mut preface = encode_stream_preface(ReliableChannelKind::Input);
        preface[6] = channel.code();
        assert!(decode_stream_preface(&preface).is_err());
    }
}

fn session() -> SessionId {
    [6; 16]
}

#[test]
fn sent_messages_are_received_once_and_in_order() {
    let (mut sender, preface) = ReliableChannel::open(ReliableChannelKind::Clipboard, session());
    let mut receiver = ReliableChannel::accept(&preface, session()).unwrap();
    assert_eq!(receiver.kind(), ReliableChannelKind::Clipboard);
    let (first, bytes) = sender.send(MessageType::Clipboard, 0, 1, b"one").unwrap();
    assert_eq!(first, 1);
    let length = u32::from_be_bytes([bytes[0], bytes[1], bytes[2], bytes[3]]);
    assert_eq!(
        check_length(ReliableChannelKind::Clipboard, length),
        Ok(bytes.len() - 4)
    );
    let message = receiver.receive(&bytes[4..]).unwrap();
    assert_eq!(message.payload, b"one".to_vec());
    assert_eq!(message.header.sequence_number, 1);
    assert!(receiver.receive(&bytes[4..]).is_err());
    assert!(sender.send(MessageType::FileChunk, 0, 2, b"x").is_err());

    let (mut sender, _) = sender.into_split();
    let (_, mut receiver) = receiver.into_split();
    let (second, bytes) = sender.send(MessageType::Clipboard, 0, 3, b"two").unwrap();
    assert_eq!(second, 2);
    assert_eq!(
        receiver.receive(&bytes[4..]).unwrap().payload,
        b"two".to_vec()
    );
}

#[test]
fn lengths_beyond_the_channel_are_refused() {
    let kind = ReliableChannelKind::Input;
    let limit = kind.max_message_size();
    assert_eq!(check_length(kind, limit as u32), Ok(limit));
    assert!(check_length(kind, limit as u32 + 1).is_err());
    assert!(check_length(kind, 1).is_err());
    assert!(ReliableChannelKind::Control.priority() > ReliableChannelKind::FileTransfer.priority());
}
