use rustadmin_transport::tcp::{
    get_nonce, paced_delays, plan_write, tcp_write_pacing_enabled, DecryptionError, Encrypt,
    FramedStream, HandshakeError, LinuxTcpInfo, TcpInfoError, TcpInfoSnapshot, WindowsTcpInfo,
    WriteStep, LINUX_TCP_INFO_LEN, TCP_FRAMED_WRITE_CHUNK_LIMIT,
};
use sodiumoxide::crypto::{box_, secretbox};

fn lengths(steps: &[WriteStep]) -> Vec<usize> {
    steps.iter().map(|step| step.end - step.start).collect()
}

#[test]
fn framed_stream_splits_large_writes_into_path_safe_chunks() {
    let framed = FramedStream::new(false);
    let expected_payload_len = 64 * 1024 + 321;

    let steps = framed.plan(expected_payload_len, expected_payload_len + 4);

    let writes = lengths(&steps);
    assert!(writes.len() > 1);
    assert!(writes
        .iter()
        .all(|len| *len <= TCP_FRAMED_WRITE_CHUNK_LIMIT));
    assert!(writes.iter().sum::<usize>() >= expected_payload_len);
}

#[test]
fn split_writer_keeps_path_safe_chunks() {
    let framed = FramedStream::new(false);
    let (_reader, writer) = framed.into_split();

    let steps = writer.plan(64 * 1024 + 17, 64 * 1024 + 21);

    let writes = lengths(&steps);
    assert!(writes.len() > 1);
    assert!(writes
        .iter()
        .all(|len| *len <= TCP_FRAMED_WRITE_CHUNK_LIMIT));
}

#[test]
fn paced_writer_delays_after_each_four_chunks_except_the_last() {
    let steps = plan_write(TCP_FRAMED_WRITE_CHUNK_LIMIT * 10, true, true);
    assert_eq!(paced_delays(&steps), 2);
    assert_eq!(steps.len(), 10);
}

#[test]
fn split_preserves_independent_encryption_counters() {
    let key = [7; secretbox::KEYBYTES];
    let mut local = FramedStream::new(false);
    let mut remote = FramedStream::new(false);
    local.set_key(key);
    remote.set_key(key);

    let mut bytes = local.send_raw(b"before-split-left".to_vec());
    remote.next(&mut bytes).unwrap();
    assert_eq!(&bytes[..], b"before-split-left");
    let mut bytes = remote.send_raw(b"before-split-right".to_vec());
    local.next(&mut bytes).unwrap();
    assert_eq!(&bytes[..], b"before-split-right");

    let (mut reader, mut writer) = local.into_split();
    let mut bytes = writer.send_raw(b"after-split-left".to_vec());
    remote.next(&mut bytes).unwrap();
    assert_eq!(&bytes[..], b"after-split-left");
    let mut bytes = remote.send_raw(b"after-split-right".to_vec());
    reader.next(&mut bytes).unwrap();
    assert_eq!(&bytes[..], b"after-split-right");
}

#[test]
fn bounded_write_decision_excludes_small_and_raw_messages() {
    let mut framed = FramedStream::new(false);

    assert!(!framed.should_send_bounded(TCP_FRAMED_WRITE_CHUNK_LIMIT));
    assert!(framed.should_send_bounded(TCP_FRAMED_WRITE_CHUNK_LIMIT + 1));
    framed.set_raw();
    assert!(!framed.should_send_bounded(TCP_FRAMED_WRITE_CHUNK_LIMIT + 1));
}

#[test]
fn unbounded_write_is_one_piece() {
    let steps = plan_write(5_000, false, true);
    assert_eq!(lengths(&steps), vec![5_000]);
    assert_eq!(paced_delays(&steps), 0);
    let steps = plan_write(2_500, true, false);
    assert_eq!(lengths(&steps), vec![1_200, 1_200, 100]);
}

#[test]
fn pacing_is_on_only_where_asked_for() {
    assert!(!tcp_write_pacing_enabled("N"));
    assert!(!tcp_write_pacing_enabled(""));
    assert!(tcp_write_pacing_enabled("Y"));
}

#[test]
fn nonce_holds_the_counter_first() {
    let mut expected = [0u8; 24];
    expected[..8].copy_from_slice(&0x0102_0304_0506_0708u64.to_le_bytes());
    assert_eq!(get_nonce(0x0102_0304_0506_0708), expected);
}

#[test]
fn sealed_bytes_are_those_of_the_secret_box() {
    let mut encrypt = Encrypt::new([3; 32]);
    let sealed = encrypt.enc(b"message");
    assert_eq!(
        sealed,
        secretbox::seal(
            b"message",
            &secretbox::Nonce(get_nonce(1)),
            &secretbox::Key([3; 32])
        )
    );
    assert_eq!(encrypt.1, 1);
    assert_eq!(encrypt.2, 0);
}

#[test]
fn short_bytes_are_taken_when_the_count_is_full() {
    let mut encrypt = Encrypt([3; 32], 0, u64::MAX);
    let mut single = vec![9];
    assert_eq!(encrypt.dec(&mut single), Ok(()));
    assert_eq!(single, vec![9]);
    assert_eq!(encrypt.2, u64::MAX);
}

#[test]
fn foreign_or_short_bytes_do_not_decrypt() {
    let mut encrypt = Encrypt::new([3; 32]);
    let mut foreign = Encrypt::new([4; 32]).enc(b"message");
    let before = foreign.clone();
    assert_eq!(encrypt.dec(&mut foreign), Err(DecryptionError));
    assert_eq!(foreign, before);
    let mut single = vec![9];
    assert_eq!(encrypt.dec(&mut single), Ok(()));
    assert_eq!(single, vec![9]);
    assert_eq!(encrypt.2, 1);
}

#[test]
fn symmetric_key_comes_out_of_its_box() {
    sodiumoxide::init().unwrap();
    let (our_public, our_secret) = box_::gen_keypair();
    let (their_public, their_secret) = box_::gen_keypair();
    let nonce = box_::Nonce([0; box_::NONCEBYTES]);
    let boxed = box_::seal(&[5; 32], &nonce, &our_public, &their_secret);
    assert_eq!(
        Encrypt::decode(&boxed, &their_public.0, &our_secret.0),
        Ok([5; 32])
    );
    assert_eq!(
        Encrypt::decode(&boxed, &their_public.0[..31], &our_secret.0),
        Err(HandshakeError::PublicKeyLength(31))
    );
    assert!(Encrypt::decode(&boxed, &our_public.0, &our_secret.0).is_err());
    let short = box_::seal(&[5; 31], &nonce, &our_public, &their_secret);
    assert!(Encrypt::decode(&short, &their_public.0, &our_secret.0).is_err());
    assert!(Encrypt::key_in_box(None).is_err());
    assert_eq!(Encrypt::key_in_box(Some(vec![6; 32])), Ok([6; 32]));
}

#[test]
fn socket_information_is_scaled_to_bytes() {
    let info = LinuxTcpInfo {
        state: 1,
        retransmits: 2,
        snd_mss: 1_000,
        unacked: 3,
        lost: 4,
        pmtu: 1_500,
        rtt: 20,
        rtt_var: 5,
        snd_cwnd: 10,
        rcv_space: 6,
        total_retrans: 7,
    };
    let snapshot = TcpInfoSnapshot::from_linux(&info, LINUX_TCP_INFO_LEN).unwrap();
    assert_eq!(snapshot.state, 1);
    assert_eq!(snapshot.mss, 1_000);
    assert_eq!(snapshot.bytes_in_flight, 3_000);
    assert_eq!(snapshot.congestion_window_bytes, 10_000);
    assert_eq!(snapshot.path_mtu, 1_500);
    assert_eq!(
        TcpInfoSnapshot::from_linux(&info, LINUX_TCP_INFO_LEN - 1),
        Err(TcpInfoError::Truncated(LINUX_TCP_INFO_LEN - 1))
    );
    assert!(snapshot.describe().contains("state=1"));
}
