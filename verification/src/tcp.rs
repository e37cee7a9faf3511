//! Framed TCP streams: encryption, the cutting of large writes, and socket figures.
use crate::outside;
use crate::text;
use crate::wire;
use vstd::prelude::*;

verus! {

/// The longest piece in which a large frame is written, in bytes. It keeps a single write
/// below common tunnel MTUs.
pub const TCP_FRAMED_WRITE_CHUNK_LIMIT: usize = 1200;

/// The largest segment size that is asked for on a connection that is not local.
pub const TCP_FRAMED_WRITE_MSS_CAP: u32 = 1200;

/// After how many pieces a paced write waits.
pub const TCP_FRAMED_WRITE_PACING_INTERVAL: usize = 4;

/// How long a paced write waits, in milliseconds.
pub const TCP_FRAMED_WRITE_PACING_DELAY_MS: u64 = 1;

/// The figures of a TCP connection.
#[derive(Clone, Copy, Debug, Eq, PartialEq, Structural)]
pub struct TcpInfoSnapshot {
    pub state: i32,
    pub mss: u32,
    pub rtt_us: u32,
    pub rtt_var_us: u32,
    pub bytes_in_flight: u32,
    pub congestion_window_bytes: u32,
    pub send_window_bytes: u32,
    pub receive_window_bytes: u32,
    pub unacked_packets: u32,
    pub lost_packets: u32,
    pub retransmit_packets: u32,
    pub retransmitted_bytes: u64,
    pub timeout_episodes: u32,
    pub path_mtu: u32,
}

impl TcpInfoSnapshot {
    pub open spec fn zero() -> TcpInfoSnapshot {
        TcpInfoSnapshot {
            state: 0,
            mss: 0,
            rtt_us: 0,
            rtt_var_us: 0,
            bytes_in_flight: 0,
            congestion_window_bytes: 0,
            send_window_bytes: 0,
            receive_window_bytes: 0,
            unacked_packets: 0,
            lost_packets: 0,
            retransmit_packets: 0,
            retransmitted_bytes: 0,
            timeout_episodes: 0,
            path_mtu: 0,
        }
    }
}

impl Default for TcpInfoSnapshot {
    fn default() -> (snapshot: TcpInfoSnapshot)
        ensures
            snapshot == TcpInfoSnapshot::zero(),
    {
        TcpInfoSnapshot {
            state: 0,
            mss: 0,
            rtt_us: 0,
            rtt_var_us: 0,
            bytes_in_flight: 0,
            congestion_window_bytes: 0,
            send_window_bytes: 0,
            receive_window_bytes: 0,
            unacked_packets: 0,
            lost_packets: 0,
            retransmit_packets: 0,
            retransmitted_bytes: 0,
            timeout_episodes: 0,
            path_mtu: 0,
        }
    }
}

/// The fields that are read of what Linux reports of a connection.
#[derive(Clone, Copy, Debug, Eq, PartialEq, Structural)]
pub struct LinuxTcpInfo {
    pub state: u8,
    pub retransmits: u8,
    pub snd_mss: u32,
    pub unacked: u32,
    pub lost: u32,
    pub pmtu: u32,
    pub rtt: u32,
    pub rtt_var: u32,
    pub snd_cwnd: u32,
    pub rcv_space: u32,
    pub total_retrans: u32,
}

/// The bytes that Linux has to report for the fields to be there.
pub const LINUX_TCP_INFO_LEN: usize = 104;

/// The fields that are read of what Windows reports of a connection.
#[derive(Clone, Copy, Debug, Eq, PartialEq, Structural)]
pub struct WindowsTcpInfo {
    pub state: i32,
    pub mss: u32,
    pub rtt_us: u32,
    pub bytes_in_flight: u32,
    pub cwnd: u32,
    pub send_window: u32,
    pub receive_window: u32,
    pub fast_retransmit: u32,
    pub bytes_retransmitted: u32,
    pub timeout_episodes: u32,
}

/// Why there are no figures of a connection.
#[derive(Clone, Copy, Debug, Eq, PartialEq, Structural)]
pub enum TcpInfoError {
    /// So few bytes were reported.
    Truncated(usize),
}

/// A product that is cut off at the largest 32-bit number.
pub open spec fn capped_product(first: u32, second: u32) -> u32 {
    if first * second > u32::MAX {
        u32::MAX
    } else {
        (first * second) as u32
    }
}

fn multiply_capped(first: u32, second: u32) -> (product: u32)
    ensures
        product == capped_product(first, second),
{
    match first.checked_mul(second) {
        Some(product) => product,
        None => u32::MAX,
    }
}

impl TcpInfoSnapshot {
    /// The figures in what Linux reports. Windows and packets are counted there, and come to
    /// bytes by the segment size.
    pub open spec fn of_linux(info: LinuxTcpInfo) -> TcpInfoSnapshot {
        TcpInfoSnapshot {
            state: info.state as i32,
            mss: info.snd_mss,
            rtt_us: info.rtt,
            rtt_var_us: info.rtt_var,
            bytes_in_flight: capped_product(info.unacked, info.snd_mss),
            congestion_window_bytes: capped_product(info.snd_cwnd, info.snd_mss),
            send_window_bytes: 0,
            receive_window_bytes: info.rcv_space,
            unacked_packets: info.unacked,
            lost_packets: info.lost,
            retransmit_packets: info.total_retrans,
            retransmitted_bytes: 0,
            timeout_episodes: info.retransmits as u32,
            path_mtu: info.pmtu,
        }
    }

    /// The figures in what Linux reports, if it reports enough bytes.
    pub fn from_linux(info: &LinuxTcpInfo, reported_len: usize) -> (result: Result<
        TcpInfoSnapshot,
        TcpInfoError,
    >)
        ensures
            result == if reported_len < LINUX_TCP_INFO_LEN {
                Err::<TcpInfoSnapshot, _>(TcpInfoError::Truncated(reported_len))
            } else {
                Ok::<_, TcpInfoError>(TcpInfoSnapshot::of_linux(*info))
            },
    {
        if reported_len < LINUX_TCP_INFO_LEN {
            return Err(TcpInfoError::Truncated(reported_len));
        }
        Ok(
            TcpInfoSnapshot {
                state: info.state as i32,
                mss: info.snd_mss,
                rtt_us: info.rtt,
                rtt_var_us: info.rtt_var,
                bytes_in_flight: multiply_capped(info.unacked, info.snd_mss),
                congestion_window_bytes: multiply_capped(info.snd_cwnd, info.snd_mss),
                send_window_bytes: 0,
                receive_window_bytes: info.rcv_space,
                unacked_packets: info.unacked,
                lost_packets: info.lost,
                retransmit_packets: info.total_retrans,
                retransmitted_bytes: 0,
                timeout_episodes: info.retransmits as u32,
                path_mtu: info.pmtu,
            },
        )
    }

    /// The figures in what Windows reports.
    pub fn from_windows(info: &WindowsTcpInfo) -> (snapshot: TcpInfoSnapshot)
        ensures
            snapshot == (TcpInfoSnapshot {
                state: info.state,
                mss: info.mss,
                rtt_us: info.rtt_us,
                bytes_in_flight: info.bytes_in_flight,
                congestion_window_bytes: info.cwnd,
                send_window_bytes: info.send_window,
                receive_window_bytes: info.receive_window,
                retransmit_packets: info.fast_retransmit,
                retransmitted_bytes: info.bytes_retransmitted as u64,
                timeout_episodes: info.timeout_episodes,
                ..TcpInfoSnapshot::zero()
            }),
    {
        TcpInfoSnapshot {
            state: info.state,
            mss: info.mss,
            rtt_us: info.rtt_us,
            rtt_var_us: 0,
            bytes_in_flight: info.bytes_in_flight,
            congestion_window_bytes: info.cwnd,
            send_window_bytes: info.send_window,
            receive_window_bytes: info.receive_window,
            unacked_packets: 0,
            lost_packets: 0,
            retransmit_packets: info.fast_retransmit,
            retransmitted_bytes: info.bytes_retransmitted as u64,
            timeout_episodes: info.timeout_episodes,
            path_mtu: 0,
        }
    }

    /// The figures in words.
    pub open spec fn description(self) -> Seq<char> {
        "state="@ + text::signed_text(self.state as int) + ", mss="@ + text::decimal_text(
            self.mss as nat,
        ) + ", rtt_us="@ + text::decimal_text(self.rtt_us as nat) + ", rtt_var_us="@
            + text::decimal_text(self.rtt_var_us as nat) + ", bytes_in_flight="@
            + text::decimal_text(self.bytes_in_flight as nat) + ", cwnd_bytes="@
            + text::decimal_text(self.congestion_window_bytes as nat) + ", send_window_bytes="@
            + text::decimal_text(self.send_window_bytes as nat) + ", receive_window_bytes="@
            + text::decimal_text(self.receive_window_bytes as nat) + ", unacked_packets="@
            + text::decimal_text(self.unacked_packets as nat) + ", lost_packets="@
            + text::decimal_text(self.lost_packets as nat) + ", retransmit_packets="@
            + text::decimal_text(self.retransmit_packets as nat) + ", retransmitted_bytes="@
            + text::decimal_text(self.retransmitted_bytes as nat) + ", timeout_episodes="@
            + text::decimal_text(self.timeout_episodes as nat) + ", path_mtu="@
            + text::decimal_text(self.path_mtu as nat)
    }

    /// The figures in words.
    pub fn describe(&self) -> (words: String)
        ensures
            words@ == self.description(),
    {
        let mut words = text::copy_text("state=");
        outside::push_text(&mut words, text::signed(self.state as i64).as_str());
        push_figure(&mut words, ", mss=", self.mss as u64);
        push_figure(&mut words, ", rtt_us=", self.rtt_us as u64);
        push_figure(&mut words, ", rtt_var_us=", self.rtt_var_us as u64);
        push_figure(&mut words, ", bytes_in_flight=", self.bytes_in_flight as u64);
        push_figure(&mut words, ", cwnd_bytes=", self.congestion_window_bytes as u64);
        push_figure(&mut words, ", send_window_bytes=", self.send_window_bytes as u64);
        push_figure(&mut words, ", receive_window_bytes=", self.receive_window_bytes as u64);
        push_figure(&mut words, ", unacked_packets=", self.unacked_packets as u64);
        push_figure(&mut words, ", lost_packets=", self.lost_packets as u64);
        push_figure(&mut words, ", retransmit_packets=", self.retransmit_packets as u64);
        push_figure(&mut words, ", retransmitted_bytes=", self.retransmitted_bytes);
        push_figure(&mut words, ", timeout_episodes=", self.timeout_episodes as u64);
        push_figure(&mut words, ", path_mtu=", self.path_mtu as u64);
        words
    }
}

fn push_figure(words: &mut String, name: &str, value: u64)
    ensures
        final(words)@ == old(words)@ + name@ + text::decimal_text(value as nat),
{
    outside::push_text(words, name);
    outside::push_text(words, text::decimal(value).as_str());
}

/// The nonce of the message with the given number: the number's eight bytes, least
/// significant first, then zeros.
pub open spec fn nonce_of(number: u64) -> Seq<u8> {
    wire::be64(number).reverse() + Seq::new(16, |index: int| 0u8)
}

/// The nonce of the message with the given number.
pub fn get_nonce(number: u64) -> (nonce: [u8; 24])
    ensures
        nonce@ == nonce_of(number),
{
    let mut nonce: [u8; 24] = [0u8; 24];
    let low: u32 = (number % 0x1_0000_0000) as u32;
    let high: u32 = (number / 0x1_0000_0000) as u32;
    let low_low: u16 = (low % 0x1_0000) as u16;
    let low_high: u16 = (low / 0x1_0000) as u16;
    let high_low: u16 = (high % 0x1_0000) as u16;
    let high_high: u16 = (high / 0x1_0000) as u16;
    nonce[0] = (low_low % 256) as u8;
    nonce[1] = (low_low / 256) as u8;
    nonce[2] = (low_high % 256) as u8;
    nonce[3] = (low_high / 256) as u8;
    nonce[4] = (high_low % 256) as u8;
    nonce[5] = (high_low / 256) as u8;
    nonce[6] = (high_high % 256) as u8;
    nonce[7] = (high_high / 256) as u8;
    assert(nonce@ =~= nonce_of(number));
    nonce
}

/// Messages with different numbers have different nonces.
pub proof fn lemma_nonces_differ(first: u64, second: u64)
    requires
        first != second,
    ensures
        nonce_of(first) != nonce_of(second),
{
    if nonce_of(first) == nonce_of(second) {
        assert(wire::be64(first) =~= nonce_of(first).subrange(0, 8).reverse());
        assert(wire::be64(second) =~= nonce_of(second).subrange(0, 8).reverse());
        assert(wire::be64(first).subrange(0, 8) =~= wire::be64(first));
        assert(wire::be64(second).subrange(0, 8) =~= wire::be64(second));
        wire::lemma_u64_round_trip(wire::be64(first), 0, first);
        wire::lemma_u64_round_trip(wire::be64(second), 0, second);
    }
}

/// A message could not be decrypted.
#[derive(Clone, Copy, Debug, Eq, PartialEq, Structural)]
pub struct DecryptionError;

/// Why no key comes out of a handshake.
#[derive(Clone, Copy, Debug, Eq, PartialEq, Structural)]
pub enum HandshakeError {
    PublicKeyLength(usize),
    BoxDecryption,
    SecretKeyLength,
}

/// A key, and how many messages were encrypted and decrypted with it.
#[derive(Debug, Eq, PartialEq)]
pub struct Encrypt(pub [u8; 32], pub u64, pub u64);

/// The key in what the other side put in a box, if it put one there.
pub open spec fn boxed_key(opened: Option<Seq<u8>>) -> Result<Seq<u8>, HandshakeError> {
    match opened {
        None => Err(HandshakeError::BoxDecryption),
        Some(key) => if key.len() != 32 {
            Err(HandshakeError::SecretKeyLength)
        } else {
            Ok(key)
        },
    }
}

impl Encrypt {
    pub fn new(key: [u8; 32]) -> (encrypt: Encrypt)
        ensures
            encrypt == Encrypt(key, 0, 0),
    {
        Encrypt(key, 0, 0)
    }

    /// Another one with the same key and counts.
    pub fn duplicate(&self) -> (copy: Encrypt)
        ensures
            copy == *self,
    {
        Encrypt(self.0, self.1, self.2)
    }

    /// Encrypts the next message.
    pub fn enc(&mut self, data: &[u8]) -> (encrypted: Vec<u8>)
        requires
            old(self).1 < u64::MAX,
            data@.len() + outside::SEAL_OVERHEAD <= isize::MAX,
        ensures
            *final(self) == Encrypt(old(self).0, (old(self).1 + 1) as u64, old(self).2),
            encrypted@ == outside::sealed(data@, nonce_of(final(self).1), old(self).0@),
            encrypted@.len() == data@.len() + outside::SEAL_OVERHEAD,
    {
        self.1 = self.1 + 1;
        let nonce = get_nonce(self.1);
        outside::seal(data, &nonce, &self.0)
    }

    /// Decrypts the next message in place. What has no more than one byte is not encrypted,
    /// stays as it is and is not counted.
    pub fn dec(&mut self, bytes: &mut Vec<u8>) -> (result: Result<(), DecryptionError>)
        requires
            old(bytes)@.len() > 1 ==> old(self).2 < u64::MAX,
        ensures
            if old(bytes)@.len() <= 1 {
                &&& result is Ok
                &&& *final(self) == *old(self)
                &&& final(bytes)@ == old(bytes)@
            } else {
                let nonce = nonce_of(final(self).2);
                &&& *final(self) == Encrypt(old(self).0, old(self).1, (old(self).2 + 1) as u64)
                &&& match result {
                    Ok(()) => old(bytes)@ == outside::sealed(final(bytes)@, nonce, old(self).0@),
                    Err(_) => final(bytes)@ == old(bytes)@,
                }
                &&& forall|message: Seq<u8>|
                    old(bytes)@ == #[trigger] outside::sealed(message, nonce, old(self).0@)
                        ==> result is Ok && final(bytes)@ == message
            },
    {
        if bytes.len() <= 1 {
            return Ok(());
        }
        self.2 = self.2 + 1;
        let nonce = get_nonce(self.2);
        match outside::open(bytes, &nonce, &self.0) {
            Some(message) => {
                *bytes = message;
                Ok(())
            },
            None => Err(DecryptionError),
        }
    }

    /// The key that the other side put in a box for us.
    pub fn decode(symmetric_data: &[u8], their_public_key: &[u8], our_secret_key: &[u8; 32]) -> (result:
        Result<[u8; 32], HandshakeError>)
        ensures
            if their_public_key@.len() != 32 {
                result == Err::<[u8; 32], _>(
                    HandshakeError::PublicKeyLength(their_public_key@.len() as usize),
                )
            } else {
                match boxed_key(
                    outside::box_opened(
                        symmetric_data@,
                        Seq::new(24, |index: int| 0u8),
                        their_public_key@,
                        our_secret_key@,
                    ),
                ) {
                    Ok(key) => result matches Ok(bytes) && bytes@ == key,
                    Err(error) => result == Err::<[u8; 32], _>(error),
                }
            },
    {
        if their_public_key.len() != 32 {
            return Err(HandshakeError::PublicKeyLength(their_public_key.len()));
        }
        let nonce: [u8; 24] = [0u8; 24];
        assert(nonce@ =~= Seq::new(24, |index: int| 0u8));
        let public_key: [u8; 32] = wire::read_array(their_public_key, 0);
        assert(public_key@ =~= their_public_key@);
        Encrypt::key_in_box(outside::open_box(symmetric_data, &nonce, &public_key, our_secret_key))
    }

    /// The key in what came out of a box, none where the box could not be opened.
    pub fn key_in_box(opened: Option<Vec<u8>>) -> (result: Result<[u8; 32], HandshakeError>)
        ensures
            match boxed_key(
                match opened {
                    Some(bytes) => Some(bytes@),
                    None => None,
                },
            ) {
                Ok(key) => result matches Ok(bytes) && bytes@ == key,
                Err(error) => result == Err::<[u8; 32], _>(error),
            },
    {
        match opened {
            None => Err(HandshakeError::BoxDecryption),
            Some(bytes) => {
                if bytes.len() != 32 {
                    return Err(HandshakeError::SecretKeyLength);
                }
                let key: [u8; 32] = wire::read_array(&bytes, 0);
                assert(key@ =~= bytes@);
                Ok(key)
            },
        }
    }
}

/// One write of a frame: a range of its bytes, and whether to wait afterwards.
#[derive(Clone, Copy, Debug, Eq, PartialEq, Structural)]
pub struct WriteStep {
    pub start: usize,
    pub end: usize,
    pub delay_after: bool,
}

/// The number of pieces in which bytes are written.
pub open spec fn piece_count(length: int) -> int {
    (length + TCP_FRAMED_WRITE_CHUNK_LIMIT - 1) / TCP_FRAMED_WRITE_CHUNK_LIMIT as int
}

/// The piece with the given index, of so many. A paced write waits after every fourth piece,
/// but not after the last one.
pub open spec fn piece(length: int, index: int, pacing_enabled: bool) -> WriteStep {
    let end = (index + 1) * TCP_FRAMED_WRITE_CHUNK_LIMIT;
    WriteStep {
        start: (index * TCP_FRAMED_WRITE_CHUNK_LIMIT) as usize,
        end: (if end < length {
            end
        } else {
            length
        }) as usize,
        delay_after: pacing_enabled && index + 1 < piece_count(length) && (index + 1)
            % TCP_FRAMED_WRITE_PACING_INTERVAL as int == 0,
    }
}

/// The writes of bytes of the given length.
pub open spec fn write_steps(length: int, bounded: bool, pacing_enabled: bool) -> Seq<WriteStep> {
    if bounded {
        Seq::new(piece_count(length) as nat, |index: int| piece(length, index, pacing_enabled))
    } else {
        seq![WriteStep { start: 0, end: length as usize, delay_after: false }]
    }
}

/// The writes of bytes of the given length.
pub fn plan_write(length: usize, bounded: bool, pacing_enabled: bool) -> (steps: Vec<WriteStep>)
    ensures
        steps@ == write_steps(length as int, bounded, pacing_enabled),
{
    let mut steps: Vec<WriteStep> = Vec::new();
    if !bounded {
        steps.push(WriteStep { start: 0, end: length, delay_after: false });
        assert(steps@ =~= write_steps(length as int, bounded, pacing_enabled));
        return steps;
    }
    let mut start: usize = 0;
    let mut done: usize = 0;
    while start < length
        invariant
            bounded,
            start <= length,
            done <= start,
            start == length || start == done * TCP_FRAMED_WRITE_CHUNK_LIMIT,
            start == length ==> done == piece_count(length as int),
            start < length ==> done < piece_count(length as int),
            steps@ == write_steps(length as int, bounded, pacing_enabled).take(done as int),
        decreases length - start,
    {
        let ghost planned = write_steps(length as int, bounded, pacing_enabled);
        let last = length - start <= TCP_FRAMED_WRITE_CHUNK_LIMIT;
        let end: usize = if last {
            length
        } else {
            start + TCP_FRAMED_WRITE_CHUNK_LIMIT
        };
        steps.push(
            WriteStep {
                start,
                end,
                delay_after: pacing_enabled && !last && (done + 1)
                    % TCP_FRAMED_WRITE_PACING_INTERVAL == 0,
            },
        );
        assert(planned[done as int] == steps@[done as int]);
        start = end;
        done = done + 1;
        assert(steps@ =~= planned.take(done as int));
    }
    assert(steps@ =~= write_steps(length as int, bounded, pacing_enabled));
    steps
}

/// How often the writes wait.
pub open spec fn delay_count(steps: Seq<WriteStep>) -> nat
    decreases steps.len(),
{
    if steps.len() == 0 {
        0
    } else if steps.last().delay_after {
        delay_count(steps.drop_last()) + 1
    } else {
        delay_count(steps.drop_last())
    }
}

/// How often the writes wait.
pub fn paced_delays(steps: &Vec<WriteStep>) -> (delays: usize)
    ensures
        delays == delay_count(steps@),
{
    let mut delays: usize = 0;
    let mut index: usize = 0;
    while index < steps.len()
        invariant
            index <= steps@.len(),
            delays <= index,
            delays == delay_count(steps@.take(index as int)),
        decreases steps@.len() - index,
    {
        assert(steps@.take(index + 1).drop_last() =~= steps@.take(index as int));
        if steps[index].delay_after {
            delays = delays + 1;
        }
        index = index + 1;
    }
    assert(steps@.take(index as int) =~= steps@);
    delays
}

/// Whether a frame is written in pieces.
pub open spec fn is_bounded(length: usize, raw: bool) -> bool {
    length > TCP_FRAMED_WRITE_CHUNK_LIMIT && !raw
}

/// Whether a setting's text asks for paced writes.
pub fn tcp_write_pacing_enabled(option: &str) -> (enabled: bool)
    ensures
        enabled == (option@ == "Y"@),
{
    text::same_text(option, "Y")
}

/// The state of a framed stream: whether it is raw, and how it is encrypted and written.
pub struct FramedStream {
    raw: bool,
    encrypt: Option<Encrypt>,
    send_timeout: u64,
    write_pacing_enabled: bool,
}

/// The state of the reading half of a framed stream.
pub struct FramedReadHalf {
    decrypt: Option<Encrypt>,
}

/// The state of the writing half of a framed stream.
pub struct FramedWriteHalf {
    raw: bool,
    encrypt: Option<Encrypt>,
    send_timeout: u64,
    write_pacing_enabled: bool,
}

/// What a stream that can be written holds.
pub struct WriterView {
    pub raw: bool,
    pub encrypt: Option<Encrypt>,
    pub send_timeout: u64,
    pub write_pacing_enabled: bool,
}

impl View for FramedStream {
    type V = WriterView;

    closed spec fn view(&self) -> WriterView {
        WriterView {
            raw: self.raw,
            encrypt: self.encrypt,
            send_timeout: self.send_timeout,
            write_pacing_enabled: self.write_pacing_enabled,
        }
    }
}

impl View for FramedWriteHalf {
    type V = WriterView;

    closed spec fn view(&self) -> WriterView {
        WriterView {
            raw: self.raw,
            encrypt: self.encrypt,
            send_timeout: self.send_timeout,
            write_pacing_enabled: self.write_pacing_enabled,
        }
    }
}

impl FramedReadHalf {
    pub closed spec fn decryption(&self) -> Option<Encrypt> {
        self.decrypt
    }
}

/// Whether a message can still be counted and encrypted.
pub open spec fn can_encrypt(encrypt: Option<Encrypt>, length: nat) -> bool {
    encrypt matches Some(encrypt) ==> encrypt.1 < u64::MAX && length + outside::SEAL_OVERHEAD
        <= isize::MAX
}

/// Whether a message of the given length can be taken: one of no more than one byte always,
/// and a longer one while it can still be counted.
pub open spec fn can_decrypt(encrypt: Option<Encrypt>, length: nat) -> bool {
    encrypt matches Some(encrypt) ==> length > 1 ==> encrypt.2 < u64::MAX
}

/// The encryption after one more message was encrypted.
pub open spec fn after_encrypting(encrypt: Option<Encrypt>) -> Option<Encrypt> {
    match encrypt {
        Some(encrypt) => Some(Encrypt(encrypt.0, (encrypt.1 + 1) as u64, encrypt.2)),
        None => None,
    }
}

/// The encryption after a message of the given length came.
pub open spec fn after_decrypting(encrypt: Option<Encrypt>, length: nat) -> Option<Encrypt> {
    match encrypt {
        Some(encrypt) => if length <= 1 {
            Some(encrypt)
        } else {
            Some(Encrypt(encrypt.0, encrypt.1, (encrypt.2 + 1) as u64))
        },
        None => None,
    }
}

/// The bytes that are sent for a message.
pub open spec fn encrypted_bytes(encrypt: Option<Encrypt>, message: Seq<u8>) -> Seq<u8> {
    match encrypt {
        Some(encrypt) => outside::sealed(message, nonce_of((encrypt.1 + 1) as u64), encrypt.0@),
        None => message,
    }
}

/// Whether bytes that came are taken as the given message: as they are where there is no
/// encryption or no more than one byte, and otherwise if they are the encrypted message.
pub open spec fn is_taken_as(encrypt: Option<Encrypt>, bytes: Seq<u8>, message: Seq<u8>) -> bool {
    match encrypt {
        Some(encrypt) => if bytes.len() <= 1 {
            message == bytes
        } else {
            bytes == outside::sealed(message, nonce_of((encrypt.2 + 1) as u64), encrypt.0@)
        },
        None => message == bytes,
    }
}

fn can_encrypt_length(encrypt: &Option<Encrypt>, length: usize) -> (possible: bool)
    ensures
        possible == can_encrypt(*encrypt, length as nat),
{
    match encrypt {
        Some(encrypt) => encrypt.1 < u64::MAX && length <= isize::MAX as usize
            - outside::SEAL_OVERHEAD,
        None => true,
    }
}

fn can_decrypt_length(encrypt: &Option<Encrypt>, length: usize) -> (possible: bool)
    ensures
        possible == can_decrypt(*encrypt, length as nat),
{
    match encrypt {
        Some(encrypt) => length <= 1 || encrypt.2 < u64::MAX,
        None => true,
    }
}

fn encrypt_message(encrypt: &mut Option<Encrypt>, message: Vec<u8>) -> (bytes: Vec<u8>)
    requires
        can_encrypt(*old(encrypt), message@.len()),
    ensures
        *final(encrypt) == after_encrypting(*old(encrypt)),
        bytes@ == encrypted_bytes(*old(encrypt), message@),
{
    match encrypt.take() {
        Some(mut key) => {
            let bytes = key.enc(&message);
            *encrypt = Some(key);
            bytes
        },
        None => message,
    }
}

fn decrypt_bytes(encrypt: &mut Option<Encrypt>, bytes: &mut Vec<u8>) -> (result: Result<
    (),
    DecryptionError,
>)
    requires
        can_decrypt(*old(encrypt), old(bytes)@.len()),
    ensures
        *final(encrypt) == after_decrypting(*old(encrypt), old(bytes)@.len()),
        result is Ok ==> is_taken_as(*old(encrypt), old(bytes)@, final(bytes)@),
        result is Err ==> final(bytes)@ == old(bytes)@,
        forall|message: Seq<u8>|
            #[trigger] is_taken_as(*old(encrypt), old(bytes)@, message) ==> result is Ok
                && final(bytes)@ == message,
{
    match encrypt.take() {
        Some(mut key) => {
            let ghost before = key;
            let ghost received = bytes@;
            let result = key.dec(bytes);
            proof {
                assert forall|message: Seq<u8>|
                    is_taken_as(Some(before), received, message) implies result is Ok && bytes@
                    == message by {
                    if received.len() > 1 {
                        assert(received == outside::sealed(message, nonce_of(key.2), before.0@));
                    }
                }
            }
            *encrypt = Some(key);
            result
        },
        None => Ok(()),
    }
}

impl FramedStream {
    /// A stream without encryption.
    pub fn new(write_pacing_enabled: bool) -> (stream: FramedStream)
        ensures
            stream@ == (WriterView {
                raw: false,
                encrypt: None,
                send_timeout: 0,
                write_pacing_enabled,
            }),
    {
        FramedStream { raw: false, encrypt: None, send_timeout: 0, write_pacing_enabled }
    }

    /// The two halves, each of which goes on where the stream stands.
    pub fn into_split(self) -> (halves: (FramedReadHalf, FramedWriteHalf))
        ensures
            halves.0.decryption() == self@.encrypt,
            halves.1@ == self@,
    {
        let decrypt = match &self.encrypt {
            Some(encrypt) => Some(encrypt.duplicate()),
            None => None,
        };
        (
            FramedReadHalf { decrypt },
            FramedWriteHalf {
                raw: self.raw,
                encrypt: self.encrypt,
                send_timeout: self.send_timeout,
                write_pacing_enabled: self.write_pacing_enabled,
            },
        )
    }

    pub fn set_send_timeout(&mut self, ms: u64)
        ensures
            final(self)@ == (WriterView { send_timeout: ms, ..old(self)@ }),
    {
        self.send_timeout = ms;
    }

    /// How long a write may take in milliseconds, zero where it may take any time.
    pub fn send_timeout(&self) -> (ms: u64)
        ensures
            ms == self@.send_timeout,
    {
        self.send_timeout
    }

    /// From now on bytes are neither framed nor encrypted.
    pub fn set_raw(&mut self)
        ensures
            final(self)@ == (WriterView { raw: true, encrypt: None, ..old(self)@ }),
    {
        self.raw = true;
        self.encrypt = None;
    }

    pub fn is_raw(&self) -> (raw: bool)
        ensures
            raw == self@.raw,
    {
        self.raw
    }

    pub fn is_secured(&self) -> (secured: bool)
        ensures
            secured == self@.encrypt is Some,
    {
        self.encrypt.is_some()
    }

    /// From now on messages are encrypted with `key`.
    pub fn set_key(&mut self, key: [u8; 32])
        ensures
            final(self)@ == (WriterView { encrypt: Some(Encrypt(key, 0, 0)), ..old(self)@ }),
    {
        self.encrypt = Some(Encrypt::new(key));
    }

    /// Whether a frame of the given length is written in pieces.
    pub fn should_send_bounded(&self, length: usize) -> (bounded: bool)
        ensures
            bounded == is_bounded(length, self@.raw),
    {
        length > TCP_FRAMED_WRITE_CHUNK_LIMIT && !self.raw
    }

    /// The bytes that are sent for a message.
    pub fn send_raw(&mut self, message: Vec<u8>) -> (bytes: Vec<u8>)
        requires
            can_encrypt(old(self)@.encrypt, message@.len()),
        ensures
            final(self)@ == (WriterView {
                encrypt: after_encrypting(old(self)@.encrypt),
                ..old(self)@
            }),
            bytes@ == encrypted_bytes(old(self)@.encrypt, message@),
    {
        encrypt_message(&mut self.encrypt, message)
    }

    /// The writes of a frame of `framed_length` bytes around a message of `length` bytes.
    pub fn plan(&self, length: usize, framed_length: usize) -> (steps: Vec<WriteStep>)
        ensures
            steps@ == write_steps(
                framed_length as int,
                is_bounded(length, self@.raw),
                is_bounded(length, self@.raw) && self@.write_pacing_enabled,
            ),
    {
        let bounded = self.should_send_bounded(length);
        plan_write(framed_length, bounded, bounded && self.write_pacing_enabled)
    }

    /// Whether a message of the given length can still be counted and encrypted.
    pub fn can_send(&self, length: usize) -> (possible: bool)
        ensures
            possible == can_encrypt(self@.encrypt, length as nat),
    {
        can_encrypt_length(&self.encrypt, length)
    }

    /// Whether a message of the given length can be taken.
    pub fn can_take(&self, length: usize) -> (possible: bool)
        ensures
            possible == can_decrypt(self@.encrypt, length as nat),
    {
        can_decrypt_length(&self.encrypt, length)
    }

    /// Decrypts bytes that came, in place.
    pub fn next(&mut self, bytes: &mut Vec<u8>) -> (result: Result<(), DecryptionError>)
        requires
            can_decrypt(old(self)@.encrypt, old(bytes)@.len()),
        ensures
            final(self)@ == (WriterView {
                encrypt: after_decrypting(old(self)@.encrypt, old(bytes)@.len()),
                ..old(self)@
            }),
            result is Ok ==> is_taken_as(old(self)@.encrypt, old(bytes)@, final(bytes)@),
            result is Err ==> final(bytes)@ == old(bytes)@,
            forall|message: Seq<u8>|
                #[trigger] is_taken_as(old(self)@.encrypt, old(bytes)@, message) ==> result is Ok
                    && final(bytes)@ == message,
    {
        decrypt_bytes(&mut self.encrypt, bytes)
    }
}

impl FramedReadHalf {
    /// Whether a message of the given length can be taken.
    pub fn can_take(&self, length: usize) -> (possible: bool)
        ensures
            possible == can_decrypt(self.decryption(), length as nat),
    {
        can_decrypt_length(&self.decrypt, length)
    }

    /// Decrypts bytes that came, in place.
    pub fn next(&mut self, bytes: &mut Vec<u8>) -> (result: Result<(), DecryptionError>)
        requires
            can_decrypt(old(self).decryption(), old(bytes)@.len()),
        ensures
            final(self).decryption() == after_decrypting(
                old(self).decryption(),
                old(bytes)@.len(),
            ),
            result is Ok ==> is_taken_as(old(self).decryption(), old(bytes)@, final(bytes)@),
            result is Err ==> final(bytes)@ == old(bytes)@,
            forall|message: Seq<u8>|
                #[trigger] is_taken_as(old(self).decryption(), old(bytes)@, message) ==> result
                    is Ok && final(bytes)@ == message,
    {
        decrypt_bytes(&mut self.decrypt, bytes)
    }
}

impl FramedWriteHalf {
    /// Whether a message of the given length can still be counted and encrypted.
    pub fn can_send(&self, length: usize) -> (possible: bool)
        ensures
            possible == can_encrypt(self@.encrypt, length as nat),
    {
        can_encrypt_length(&self.encrypt, length)
    }

    pub fn send_timeout(&self) -> (ms: u64)
        ensures
            ms == self@.send_timeout,
    {
        self.send_timeout
    }

    pub fn is_raw(&self) -> (raw: bool)
        ensures
            raw == self@.raw,
    {
        self.raw
    }

    /// The bytes that are sent for a message.
    pub fn send_raw(&mut self, message: Vec<u8>) -> (bytes: Vec<u8>)
        requires
            can_encrypt(old(self)@.encrypt, message@.len()),
        ensures
            final(self)@ == (WriterView {
                encrypt: after_encrypting(old(self)@.encrypt),
                ..old(self)@
            }),
            bytes@ == encrypted_bytes(old(self)@.encrypt, message@),
    {
        encrypt_message(&mut self.encrypt, message)
    }

    /// The writes of what was framed before the stream was split and is still unwritten.
    pub fn plan_pending(&self, length: usize) -> (steps: Vec<WriteStep>)
        ensures
            steps@ == write_steps(
                length as int,
                !self@.raw,
                !self@.raw && self@.write_pacing_enabled,
            ),
    {
        plan_write(length, !self.raw, !self.raw && self.write_pacing_enabled)
    }

    /// The writes of a frame of `framed_length` bytes around a message of `length` bytes.
    pub fn plan(&self, length: usize, framed_length: usize) -> (steps: Vec<WriteStep>)
        ensures
            steps@ == write_steps(
                framed_length as int,
                is_bounded(length, self@.raw),
                is_bounded(length, self@.raw) && self@.write_pacing_enabled,
            ),
    {
        let bounded = length > TCP_FRAMED_WRITE_CHUNK_LIMIT && !self.raw;
        plan_write(framed_length, bounded, bounded && self.write_pacing_enabled)
    }
}

/// The pieces of a bounded write follow each other without gap from the first byte to the
/// last, and none is empty or longer than the limit.
pub proof fn lemma_pieces_cover_the_frame(length: int, pacing_enabled: bool, index: int)
    requires
        0 <= length <= usize::MAX,
        0 <= index < piece_count(length),
    ensures
        ({
            let step = piece(length, index, pacing_enabled);
            &&& step.start < step.end <= step.start + TCP_FRAMED_WRITE_CHUNK_LIMIT
            &&& step.end <= length
            &&& index == 0 ==> step.start == 0
            &&& index + 1 < piece_count(length) ==> step.end == piece(
                length,
                index + 1,
                pacing_enabled,
            ).start
            &&& index + 1 == piece_count(length) ==> step.end == length
        }),
{
}

/// A paced write waits after every fourth piece but the last.
pub proof fn lemma_pacing_waits(length: int)
    requires
        0 < length <= usize::MAX,
    ensures
        delay_count(write_steps(length, true, true)) == (piece_count(length) - 1) / 4,
        delay_count(write_steps(length, true, false)) == 0,
{
    lemma_waits_so_far(length, piece_count(length) as nat);
    assert(write_steps(length, true, true).take(piece_count(length)) =~= write_steps(
        length,
        true,
        true,
    ));
    assert(write_steps(length, true, false).take(piece_count(length)) =~= write_steps(
        length,
        true,
        false,
    ));
}

proof fn lemma_waits_so_far(length: int, done: nat)
    requires
        0 < length <= usize::MAX,
        done <= piece_count(length),
    ensures
        delay_count(write_steps(length, true, true).take(done as int)) == if done == piece_count(
            length,
        ) {
            (piece_count(length) - 1) / 4
        } else {
            done as int / 4
        },
        delay_count(write_steps(length, true, false).take(done as int)) == 0,
    decreases done,
{
    if done > 0 {
        lemma_waits_so_far(length, (done - 1) as nat);
        let paced = write_steps(length, true, true);
        let unpaced = write_steps(length, true, false);
        assert(paced.take(done as int).drop_last() =~= paced.take(done - 1));
        assert(unpaced.take(done as int).drop_last() =~= unpaced.take(done - 1));
        assert(paced.take(done as int).last() == piece(length, done - 1, true));
        assert(unpaced.take(done as int).last() == piece(length, done - 1, false));
    }
}

/// What one side encrypts, the other side takes as it was, if both have the same key and have
/// counted alike, and both then have counted alike again. The length is the one that `enc`
/// gives to what it encrypts.
pub proof fn lemma_encryption_round_trip(sender: Encrypt, receiver: Encrypt, message: Seq<u8>)
    requires
        sender.0 == receiver.0,
        sender.1 == receiver.2,
        encrypted_bytes(Some(sender), message).len() == message.len() + outside::SEAL_OVERHEAD,
    ensures
        ({
            let bytes = encrypted_bytes(Some(sender), message);
            &&& is_taken_as(Some(receiver), bytes, message)
            &&& after_encrypting(Some(sender))->Some_0.1 == after_decrypting(
                Some(receiver),
                bytes.len(),
            )->Some_0.2
        }),
{
}


/// The nonce of a message is its number, least significant byte first, and zeros up to 24
/// bytes.
pub proof fn lemma_nonce_bytes(number: u64)
    ensures
        nonce_of(number).len() == 24,
        number == nonce_of(number)[0] + nonce_of(number)[1] * 0x100 + nonce_of(number)[2]
            * 0x1_0000 + nonce_of(number)[3] * 0x100_0000 + nonce_of(number)[4] * 0x1_0000_0000
            + nonce_of(number)[5] * 0x100_0000_0000 + nonce_of(number)[6] * 0x1_0000_0000_0000
            + nonce_of(number)[7] * 0x100_0000_0000_0000,
        forall|index: int| 8 <= index < 24 ==> #[trigger] nonce_of(number)[index] == 0,
{
    let bytes = wire::be64(number);
    assert(bytes.subrange(0, 8) =~= bytes);
    wire::lemma_u64_round_trip(bytes, 0, number);
    wire::lemma_fields_are_big_endian(bytes, 0);
    assert forall|index: int| 0 <= index < 8 implies #[trigger] nonce_of(number)[index]
        == bytes[7 - index] by {}
    assert(nonce_of(number)[0] == bytes[7] && nonce_of(number)[1] == bytes[6]);
    assert(nonce_of(number)[2] == bytes[5] && nonce_of(number)[3] == bytes[4]);
    assert(nonce_of(number)[4] == bytes[3] && nonce_of(number)[5] == bytes[2]);
    assert(nonce_of(number)[6] == bytes[1] && nonce_of(number)[7] == bytes[0]);
}

/// What Linux reports is taken over field by field. The bytes in flight and the window come
/// from packets and the segment size, and are cut off at the largest 32-bit number.
pub proof fn lemma_linux_figures(info: LinuxTcpInfo)
    ensures
        ({
            let snapshot = TcpInfoSnapshot::of_linux(info);
            let in_flight = info.unacked * info.snd_mss;
            let window = info.snd_cwnd * info.snd_mss;
            &&& snapshot.state == info.state
            &&& snapshot.mss == info.snd_mss
            &&& snapshot.rtt_us == info.rtt
            &&& snapshot.rtt_var_us == info.rtt_var
            &&& in_flight <= 0xffff_ffff ==> snapshot.bytes_in_flight == in_flight
            &&& in_flight > 0xffff_ffff ==> snapshot.bytes_in_flight == 0xffff_ffff
            &&& window <= 0xffff_ffff ==> snapshot.congestion_window_bytes == window
            &&& window > 0xffff_ffff ==> snapshot.congestion_window_bytes == 0xffff_ffff
            &&& snapshot.send_window_bytes == 0
            &&& snapshot.receive_window_bytes == info.rcv_space
            &&& snapshot.unacked_packets == info.unacked
            &&& snapshot.lost_packets == info.lost
            &&& snapshot.retransmit_packets == info.total_retrans
            &&& snapshot.retransmitted_bytes == 0
            &&& snapshot.timeout_episodes == info.retransmits
            &&& snapshot.path_mtu == info.pmtu
            &&& LINUX_TCP_INFO_LEN == 104
        }),
{
    assert(0 <= info.unacked * info.snd_mss) by (nonlinear_arith)
        requires
            0 <= info.unacked,
            0 <= info.snd_mss,
    ;
    assert(0 <= info.snd_cwnd * info.snd_mss) by (nonlinear_arith)
        requires
            0 <= info.snd_cwnd,
            0 <= info.snd_mss,
    ;
}

/// Whether a name with a figure behind it stands at a place of a text.
pub open spec fn is_named_at(words: Seq<char>, name: Seq<char>, figure: Seq<char>, at: int) -> bool {
    &&& 0 <= at
    &&& at + name.len() + figure.len() <= words.len()
    &&& words.subrange(at, at + name.len()) == name
    &&& words.subrange(at + name.len(), at + name.len() + figure.len()) == figure
}

/// Whether a text says a figure behind its name.
pub open spec fn is_named(words: Seq<char>, name: Seq<char>, figure: Seq<char>) -> bool {
    exists|at: int| #[trigger] is_named_at(words, name, figure, at)
}

/// A text that goes on says what it said before, and what it goes on with.
proof fn lemma_next_figure(words: Seq<char>, name: Seq<char>, figure: Seq<char>)
    ensures
        is_named(words + name + figure, name, figure),
        forall|other: Seq<char>, value: Seq<char>| #[trigger]
            is_named(words, other, value) ==> is_named(words + name + figure, other, value),
{
    let longer = words + name + figure;
    let at = words.len() as int;
    assert(longer.subrange(at, at + name.len()) =~= name);
    assert(longer.subrange(at + name.len(), at + name.len() + figure.len()) =~= figure);
    assert(is_named_at(longer, name, figure, at));
    assert forall|other: Seq<char>, value: Seq<char>| #[trigger]
        is_named(words, other, value) implies is_named(longer, other, value) by {
        let place = choose|place: int| #[trigger] is_named_at(words, other, value, place);
        assert(longer.subrange(place, place + other.len()) =~= words.subrange(
            place,
            place + other.len(),
        ));
        assert(longer.subrange(place + other.len(), place + other.len() + value.len())
            =~= words.subrange(place + other.len(), place + other.len() + value.len()));
        assert(is_named_at(longer, other, value, place));
    }
}

/// The description says every figure behind its name.
#[verifier::spinoff_prover]
#[verifier::rlimit(60)]
pub proof fn lemma_description_says_every_figure(snapshot: TcpInfoSnapshot)
    ensures
        ({
            let words = snapshot.description();
            &&& is_named(words, "state="@, text::signed_text(snapshot.state as int))
            &&& is_named(words, ", mss="@, text::decimal_text(snapshot.mss as nat))
            &&& is_named(words, ", rtt_us="@, text::decimal_text(snapshot.rtt_us as nat))
            &&& is_named(words, ", rtt_var_us="@, text::decimal_text(snapshot.rtt_var_us as nat))
            &&& is_named(
                words,
                ", bytes_in_flight="@,
                text::decimal_text(snapshot.bytes_in_flight as nat),
            )
            &&& is_named(
                words,
                ", cwnd_bytes="@,
                text::decimal_text(snapshot.congestion_window_bytes as nat),
            )
            &&& is_named(
                words,
                ", send_window_bytes="@,
                text::decimal_text(snapshot.send_window_bytes as nat),
            )
            &&& is_named(
                words,
                ", receive_window_bytes="@,
                text::decimal_text(snapshot.receive_window_bytes as nat),
            )
            &&& is_named(
                words,
                ", unacked_packets="@,
                text::decimal_text(snapshot.unacked_packets as nat),
            )
            &&& is_named(
                words,
                ", lost_packets="@,
                text::decimal_text(snapshot.lost_packets as nat),
            )
            &&& is_named(
                words,
                ", retransmit_packets="@,
                text::decimal_text(snapshot.retransmit_packets as nat),
            )
            &&& is_named(
                words,
                ", retransmitted_bytes="@,
                text::decimal_text(snapshot.retransmitted_bytes as nat),
            )
            &&& is_named(
                words,
                ", timeout_episodes="@,
                text::decimal_text(snapshot.timeout_episodes as nat),
            )
            &&& is_named(words, ", path_mtu="@, text::decimal_text(snapshot.path_mtu as nat))
        }),
{
    let state = text::signed_text(snapshot.state as int);
    let mss = text::decimal_text(snapshot.mss as nat);
    let rtt = text::decimal_text(snapshot.rtt_us as nat);
    let rtt_var = text::decimal_text(snapshot.rtt_var_us as nat);
    let in_flight = text::decimal_text(snapshot.bytes_in_flight as nat);
    let window = text::decimal_text(snapshot.congestion_window_bytes as nat);
    let send_window = text::decimal_text(snapshot.send_window_bytes as nat);
    let receive_window = text::decimal_text(snapshot.receive_window_bytes as nat);
    let unacked = text::decimal_text(snapshot.unacked_packets as nat);
    let lost = text::decimal_text(snapshot.lost_packets as nat);
    let retransmitted = text::decimal_text(snapshot.retransmit_packets as nat);
    let retransmitted_bytes = text::decimal_text(snapshot.retransmitted_bytes as nat);
    let timeouts = text::decimal_text(snapshot.timeout_episodes as nat);
    let mtu = text::decimal_text(snapshot.path_mtu as nat);
    let words = "state="@ + state;
    lemma_next_figure(Seq::empty(), "state="@, state);
    assert(words =~= Seq::empty() + "state="@ + state);
    lemma_next_figure(words, ", mss="@, mss);
    let words = words + ", mss="@ + mss;
    lemma_next_figure(words, ", rtt_us="@, rtt);
    let words = words + ", rtt_us="@ + rtt;
    lemma_next_figure(words, ", rtt_var_us="@, rtt_var);
    let words = words + ", rtt_var_us="@ + rtt_var;
    lemma_next_figure(words, ", bytes_in_flight="@, in_flight);
    let words = words + ", bytes_in_flight="@ + in_flight;
    lemma_next_figure(words, ", cwnd_bytes="@, window);
    let words = words + ", cwnd_bytes="@ + window;
    lemma_next_figure(words, ", send_window_bytes="@, send_window);
    let words = words + ", send_window_bytes="@ + send_window;
    lemma_next_figure(words, ", receive_window_bytes="@, receive_window);
    let words = words + ", receive_window_bytes="@ + receive_window;
    lemma_next_figure(words, ", unacked_packets="@, unacked);
    let words = words + ", unacked_packets="@ + unacked;
    lemma_next_figure(words, ", lost_packets="@, lost);
    let words = words + ", lost_packets="@ + lost;
    lemma_next_figure(words, ", retransmit_packets="@, retransmitted);
    let words = words + ", retransmit_packets="@ + retransmitted;
    lemma_next_figure(words, ", retransmitted_bytes="@, retransmitted_bytes);
    let words = words + ", retransmitted_bytes="@ + retransmitted_bytes;
    lemma_next_figure(words, ", timeout_episodes="@, timeouts);
    let words = words + ", timeout_episodes="@ + timeouts;
    lemma_next_figure(words, ", path_mtu="@, mtu);
    let words = words + ", path_mtu="@ + mtu;
    assert(words == snapshot.description());
}

/// A frame is written in pieces of 1200 bytes exactly where it is framed and longer than that.
/// A paced write waits behind each fourth piece that is not the last. Everything else is
/// written at once.
pub proof fn lemma_long_frames_are_written_in_pieces(
    length: usize,
    raw: bool,
    framed_length: int,
    pacing_enabled: bool,
    index: int,
)
    requires
        0 <= framed_length <= usize::MAX,
    ensures
        is_bounded(length, raw) <==> !raw && length > 1_200,
        ({
            let pieces = write_steps(framed_length, true, pacing_enabled);
            let whole = write_steps(framed_length, false, pacing_enabled);
            let count = (framed_length + 1_199) / 1_200;
            &&& whole.len() == 1
            &&& whole[0].start == 0 && whole[0].end == framed_length && !whole[0].delay_after
            &&& pieces.len() == count
            &&& 0 <= index < count ==> {
                &&& pieces[index].start == index * 1_200
                &&& index + 1 < count ==> pieces[index].end == index * 1_200 + 1_200
                &&& index + 1 == count ==> pieces[index].end == framed_length
                &&& pieces[index].delay_after <==> pacing_enabled && index + 1 < count && (index
                    + 1) % 4 == 0
            }
        }),
{
}

/// The waits of a write are counted one by one.
pub proof fn lemma_waits_are_counted(steps: Seq<WriteStep>, step: WriteStep)
    ensures
        delay_count(Seq::empty()) == 0,
        delay_count(steps.push(step)) == delay_count(steps) + if step.delay_after {
            1int
        } else {
            0
        },
{
    assert(steps.push(step).drop_last() =~= steps);
}

/// A key comes out of a box exactly where the box could be opened and holds 32 bytes.
pub proof fn lemma_keys_in_boxes(opened: Option<Seq<u8>>)
    ensures
        boxed_key(opened) is Ok <==> opened is Some && opened->Some_0.len() == 32,
        boxed_key(opened) is Ok ==> boxed_key(opened)->Ok_0 == opened->Some_0,
        opened is None ==> boxed_key(opened)->Err_0 == HandshakeError::BoxDecryption,
        opened is Some && opened->Some_0.len() != 32 ==> boxed_key(opened)->Err_0
            == HandshakeError::SecretKeyLength,
{
}

/// Encrypting counts each message once and under its own number, and leaves the key and the
/// count of decrypted messages alone. Without a key a message is sent as it is.
pub proof fn lemma_encrypted_messages_are_counted(encrypt: Encrypt, message: Seq<u8>)
    requires
        encrypt.1 < u64::MAX,
    ensures
        after_encrypting(Some(encrypt)) == Some(
            Encrypt(encrypt.0, (encrypt.1 + 1) as u64, encrypt.2),
        ),
        forall|number: u64|
            number == encrypt.1 + 1 ==> encrypted_bytes(Some(encrypt), message)
                == outside::sealed(message, #[trigger] nonce_of(number), encrypt.0@),
        encrypted_bytes(None, message) == message,
        after_encrypting(None) is None,
        can_encrypt(None, message.len()),
        can_encrypt(Some(encrypt), message.len()) <==> message.len() + 16 <= isize::MAX,
        !can_encrypt(Some(Encrypt(encrypt.0, u64::MAX, encrypt.2)), message.len()),
{
}

/// Decrypting counts each message of more than one byte once and under its own number, and
/// leaves the key and the count of encrypted messages alone. A shorter one, and every one
/// where there is no key, is taken as it is.
pub proof fn lemma_decrypted_messages_are_counted(
    encrypt: Encrypt,
    bytes: Seq<u8>,
    message: Seq<u8>,
)
    requires
        encrypt.2 < u64::MAX,
    ensures
        bytes.len() <= 1 ==> after_decrypting(Some(encrypt), bytes.len()) == Some(encrypt),
        bytes.len() > 1 ==> after_decrypting(Some(encrypt), bytes.len()) == Some(
            Encrypt(encrypt.0, encrypt.1, (encrypt.2 + 1) as u64),
        ),
        bytes.len() <= 1 ==> (is_taken_as(Some(encrypt), bytes, message) <==> message == bytes),
        forall|number: u64|
            #![trigger nonce_of(number)]
            bytes.len() > 1 && number == encrypt.2 + 1 ==> (is_taken_as(
                Some(encrypt),
                bytes,
                message,
            ) <==> bytes == outside::sealed(message, nonce_of(number), encrypt.0@)),
        is_taken_as(None, bytes, message) <==> message == bytes,
        after_decrypting(None, bytes.len()) is None,
        can_decrypt(None, bytes.len()),
        can_decrypt(Some(encrypt), bytes.len()),
        can_decrypt(Some(Encrypt(encrypt.0, encrypt.1, u64::MAX)), bytes.len()) <==> bytes.len()
            <= 1,
{
}

} // verus!
