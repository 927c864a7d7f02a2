//! The state-synchronisation transport.
//!
//! The transport keeps two documents in step with the peer: the log of
//! user input, which it sends, and the state of the remote terminal, which
//! it receives. It decides when to send and what, and what to make of each
//! datagram that arrives. It does no I/O and reads no clock: the caller
//! hands it the time, in milliseconds on a clock that does not go back, and
//! the datagrams that have arrived, and sends the datagrams it is given.
//!
//! The fields of the transport and of its parts are public so that
//! contracts can speak of them.

use crate::bytes::clone_bytes;
use crate::crypto::{
    make_nonce, max_message_len, ocb3_opened, ocb3_sealed, spec_make_nonce, spec_wire_to_nonce,
    Base64Key, CryptoError, Direction, Session, MIN_DATAGRAM_LEN,
};
use crate::network::{
    spec_assembly_accepts, spec_assembly_add, spec_fragment_bytes, spec_fragment_views,
    spec_fragmenter_next, spec_fragments, spec_packet_bytes, spec_parse_fragment,
    spec_parse_packet, AssemblyView, Fragment, FragmentAssembly, FragmentView, Fragmenter,
    FragmenterView, Packet, PacketView, MAX_FRAG_PAYLOAD,
};
use crate::terminal::{Framebuffer, TerminalEvent};
use crate::transport::proto::hostinput;
use crate::transport::proto::transportinstruction::{
    spec_instruction_bytes, spec_instruction_decode, Instruction, InstructionView,
};
use crate::userstream::{spec_diff, spec_is_prefix, UserEvent, UserStream};
use vstd::prelude::*;

pub mod proto;

verus! {

/// The version of the protocol spoken.
pub const MOSH_PROTOCOL_VERSION: u32 = 2;

/// Least time between two frames, in milliseconds.
pub const SEND_INTERVAL_MIN: u64 = 20;

/// Most time between two frames while there is something to send.
pub const SEND_INTERVAL_MAX: u64 = 250;

/// Time between two acknowledgements while there is nothing to send.
pub const ACK_INTERVAL: u64 = 3000;

/// Time that an acknowledgement of data may wait for data to go with.
pub const ACK_DELAY: u64 = 100;

/// Times the goodbye is sent before the peer is given up.
pub const SHUTDOWN_RETRIES: u32 = 16;

/// Time without word from the peer after which resending stops.
pub const ACTIVE_RETRY_TIMEOUT: u64 = 10000;

/// Time that input is collected before it is sent.
pub const SEND_MINDELAY: u64 = 8;

/// Length of the queue of received states from which arrivals are quenched.
pub const RECEIVED_QUEUE_LIMIT: usize = 1024;

/// Time that arrivals are quenched for.
pub const RECEIVER_QUENCH_MS: u64 = 15000;

/// Most octets of chaff in an instruction.
pub const CHAFF_MAX_LEN: usize = 16;

/// Most states kept in the queue of sent states.
pub const SENT_QUEUE_LIMIT: usize = 32;

/// Least retransmission timeout.
pub const RTO_MIN_MS: u64 = 50;

/// Most retransmission timeout.
pub const RTO_MAX_MS: u64 = 1000;

/// Round-trip times from this on are taken for stale and not counted.
pub const RTT_SAMPLE_LIMIT_MS: u64 = 10000;

/// The number of the goodbye state.
pub const GOODBYE: u64 = 0xFFFF_FFFF_FFFF_FFFF;

/// The timestamp reply that says nothing was received yet.
pub const NO_TIMESTAMP: u16 = 0xFFFF;

/// One past the largest sequence number: a sequence number has 63 bits.
pub const SEQUENCE_END: u64 = 0x8000_0000_0000_0000;

/// Why the transport gives up a datagram or the session.
#[derive(Debug, Clone, Copy, PartialEq, Eq, Structural)]
pub enum TransportError {
    /// The datagram is too short to be one.
    TooShort,
    /// The datagram's tag does not match.
    Integrity,
    /// The datagram is longer than the cipher takes.
    TooLong,
    /// The cleartext is too short for the timestamps.
    ShortPacket,
    /// The payload is too short for a fragment header.
    ShortFragment,
    /// A fragment contradicts one that came before it.
    FragmentMismatch,
    /// The assembled instruction does not decompress.
    Decompress,
    /// The instruction could not be compressed.
    Compress,
    /// The cipher has refused to seal a datagram.
    Encrypt,
    /// The 63 bits of the sequence number are used up.
    SequenceExhausted,
    /// The instruction is malformed.
    BadInstruction,
    /// The peer speaks another version of the protocol.
    VersionMismatch,
    /// The diff from the host is malformed.
    BadHostDiff,
    /// The host's echo acknowledgement has gone back.
    EchoAckRegression,
    /// Throwing away what the peer allows would leave no received state.
    QueueUnderflow,
}

/// What is done about an error of the transport.
#[derive(Debug, Clone, Copy, PartialEq, Eq, Structural)]
pub enum Disposition {
    /// The datagram is dropped without a word, and the session goes on.
    DropDatagram,
    /// The session fails.
    Fatal,
}

/// What is done about an error: a datagram that does not open or is cut
/// short is dropped; anything else breaks the protocol and fails the
/// session.
pub open spec fn spec_disposition(e: TransportError) -> Disposition {
    match e {
        TransportError::TooShort => Disposition::DropDatagram,
        TransportError::Integrity => Disposition::DropDatagram,
        TransportError::TooLong => Disposition::DropDatagram,
        TransportError::ShortPacket => Disposition::DropDatagram,
        TransportError::ShortFragment => Disposition::DropDatagram,
        _ => Disposition::Fatal,
    }
}

impl TransportError {
    /// What is done about the error.
    pub fn disposition(&self) -> (d: Disposition)
        ensures
            d == spec_disposition(*self),
    {
        match self {
            TransportError::TooShort => Disposition::DropDatagram,
            TransportError::Integrity => Disposition::DropDatagram,
            TransportError::TooLong => Disposition::DropDatagram,
            TransportError::ShortPacket => Disposition::DropDatagram,
            TransportError::ShortFragment => Disposition::DropDatagram,
            _ => Disposition::Fatal,
        }
    }
}

/// What zlib, at its default level, makes of `data`; `None` where it
/// fails.
pub uninterp spec fn zlib_compressed(data: Seq<u8>) -> Option<Seq<u8>>;

/// What `data` inflates to as a zlib stream; `None` where it is none.
pub uninterp spec fn zlib_decompressed(data: Seq<u8>) -> Option<Seq<u8>>;

/// Calls `flate2::write::ZlibEncoder::new` with the default level, writes
/// the data and calls `finish`. The contract claims only that the outcome
/// is a function of the data: it names it.
#[verifier::external_body]
fn zlib_compress(data: &[u8]) -> (out: Option<Vec<u8>>)
    ensures
        match out {
            Some(v) => zlib_compressed(data@) == Some(v@),
            None => zlib_compressed(data@).is_none(),
        },
{
    let mut encoder = flate2::write::ZlibEncoder::new(Vec::new(), flate2::Compression::default());
    match std::io::Write::write_all(&mut encoder, data) {
        Ok(()) => encoder.finish().ok(),
        Err(_) => None,
    }
}

/// Calls `flate2::read::ZlibDecoder::new` and reads the stream to its end.
/// The contract claims only that the outcome is a function of the data: it
/// names it.
#[verifier::external_body]
fn zlib_decompress(data: &[u8]) -> (out: Option<Vec<u8>>)
    ensures
        match out {
            Some(v) => zlib_decompressed(data@) == Some(v@),
            None => zlib_decompressed(data@).is_none(),
        },
{
    let mut decoder = flate2::read::ZlibDecoder::new(data);
    let mut decompressed = Vec::new();
    match std::io::Read::read_to_end(&mut decoder, &mut decompressed) {
        Ok(_) => Some(decompressed),
        Err(_) => None,
    }
}

/// Calls `rand::thread_rng` and `rand::RngCore::next_u32`. Nothing is
/// claimed of the result: it is random.
#[verifier::external_body]
fn random_u32() -> (r: u32) {
    rand::RngCore::next_u32(&mut rand::thread_rng())
}

/// Calls `rand::thread_rng` and `rand::RngCore::fill_bytes` on a buffer of
/// `len` octets. The contract claims only the length of the result.
#[verifier::external_body]
fn random_bytes(len: usize) -> (out: Vec<u8>)
    ensures
        out@.len() == len,
{
    let mut out = vec![0u8; len];
    rand::RngCore::fill_bytes(&mut rand::thread_rng(), &mut out);
    out
}

/// Up to sixteen random octets.
pub fn make_chaff() -> (chaff: Vec<u8>)
    ensures
        chaff@.len() <= CHAFF_MAX_LEN,
{
    let len = chaff_len(random_u32());
    if len > 0 {
        random_bytes(len)
    } else {
        Vec::new()
    }
}

/// `a + b`, or the largest time where that is past it.
pub open spec fn spec_later(a: u64, b: u64) -> u64 {
    if a + b > u64::MAX {
        u64::MAX
    } else {
        (a + b) as u64
    }
}

/// `a + b`, or the largest time where that is past it.
pub fn later(a: u64, b: u64) -> (t: u64)
    ensures
        t == spec_later(a, b),
{
    if a > u64::MAX - b {
        u64::MAX
    } else {
        a + b
    }
}

/// A value brought into a range.
pub open spec fn spec_clamp(v: u64, low: u64, high: u64) -> u64 {
    if v < low {
        low
    } else if v > high {
        high
    } else {
        v
    }
}

/// What the transport needs of the round-trip-time estimate: the smoothed
/// time plus four times its variance, and half the smoothed time rounded
/// up, both in whole milliseconds.
#[derive(Debug, Clone, Copy, PartialEq, Eq, Structural)]
pub struct RttSummary {
    pub srtt_plus_four_rttvar: u64,
    pub half_srtt_ceil: u64,
}

impl RttSummary {
    /// The summary before any sample: a smoothed time of 100 ms with a
    /// variance of 50 ms.
    pub fn new() -> (s: RttSummary)
        ensures
            s == (RttSummary { srtt_plus_four_rttvar: 300, half_srtt_ceil: 50 }),
    {
        RttSummary { srtt_plus_four_rttvar: 300, half_srtt_ceil: 50 }
    }

    /// The retransmission timeout: between 50 and 1000 ms.
    pub open spec fn spec_rto_ms(self) -> u64 {
        spec_clamp(self.srtt_plus_four_rttvar, RTO_MIN_MS, RTO_MAX_MS)
    }

    /// The time between two frames: between 20 and 250 ms.
    pub open spec fn spec_send_interval(self) -> u64 {
        spec_clamp(self.half_srtt_ceil, SEND_INTERVAL_MIN, SEND_INTERVAL_MAX)
    }

    /// The retransmission timeout.
    pub fn rto_ms(&self) -> (rto: u64)
        ensures
            rto == self.spec_rto_ms(),
            RTO_MIN_MS <= rto <= RTO_MAX_MS,
    {
        if self.srtt_plus_four_rttvar < RTO_MIN_MS {
            RTO_MIN_MS
        } else if self.srtt_plus_four_rttvar > RTO_MAX_MS {
            RTO_MAX_MS
        } else {
            self.srtt_plus_four_rttvar
        }
    }

    /// The time between two frames.
    pub fn send_interval(&self) -> (interval: u64)
        ensures
            interval == self.spec_send_interval(),
            SEND_INTERVAL_MIN <= interval <= SEND_INTERVAL_MAX,
    {
        if self.half_srtt_ceil < SEND_INTERVAL_MIN {
            SEND_INTERVAL_MIN
        } else if self.half_srtt_ceil > SEND_INTERVAL_MAX {
            SEND_INTERVAL_MAX
        } else {
            self.half_srtt_ceil
        }
    }
}

/// The round-trip time that a timestamp reply shows at a given timestamp:
/// their difference modulo 2^16, where the reply is one and the difference
/// is below ten seconds.
pub open spec fn spec_rtt_sample(now_ts: u16, reply: u16) -> Option<u64> {
    if reply == NO_TIMESTAMP {
        None
    } else {
        let rtt = if now_ts >= reply {
            now_ts - reply
        } else {
            0x1_0000 + now_ts - reply
        };
        if rtt < RTT_SAMPLE_LIMIT_MS {
            Some(rtt as u64)
        } else {
            None
        }
    }
}

/// The round-trip time that a timestamp reply shows at a given timestamp.
pub fn rtt_sample(now_ts: u16, reply: u16) -> (sample: Option<u64>)
    ensures
        sample == spec_rtt_sample(now_ts, reply),
{
    if reply == NO_TIMESTAMP {
        return None;
    }
    let rtt: u64 = if now_ts >= reply {
        (now_ts - reply) as u64
    } else {
        0x1_0000 + now_ts as u64 - reply as u64
    };
    if rtt < RTT_SAMPLE_LIMIT_MS {
        Some(rtt)
    } else {
        None
    }
}

/// What a socket error says of the peer.
#[derive(Debug, Clone, Copy, PartialEq, Eq, Structural)]
pub enum SocketErrorKind {
    HostUnreachable,
    ConnectionReset,
    ConnectionAborted,
    ConnectionRefused,
    BrokenPipe,
    WouldBlock,
    Other,
}

#[verifier::external_type_specification]
#[verifier::external_body]
pub struct ExIoError(std::io::Error);

/// Calls `std::io::Error::kind` and tells the kinds apart that matter
/// here. The contract claims nothing.
#[verifier::external_body]
fn socket_error_kind(err: &std::io::Error) -> (kind: SocketErrorKind) {
    match err.kind() {
        std::io::ErrorKind::HostUnreachable => SocketErrorKind::HostUnreachable,
        std::io::ErrorKind::ConnectionReset => SocketErrorKind::ConnectionReset,
        std::io::ErrorKind::ConnectionAborted => SocketErrorKind::ConnectionAborted,
        std::io::ErrorKind::ConnectionRefused => SocketErrorKind::ConnectionRefused,
        std::io::ErrorKind::BrokenPipe => SocketErrorKind::BrokenPipe,
        std::io::ErrorKind::WouldBlock => SocketErrorKind::WouldBlock,
        _ => SocketErrorKind::Other,
    }
}

/// Whether a kind of socket error means that the peer has closed the
/// session.
pub open spec fn spec_is_remote_close(kind: SocketErrorKind) -> bool {
    kind is HostUnreachable || kind is ConnectionReset || kind is ConnectionRefused
        || kind is ConnectionAborted || kind is BrokenPipe
}

/// Whether a kind of socket error means that the peer has closed the
/// session.
pub fn is_remote_close_kind(kind: SocketErrorKind) -> (closed: bool)
    ensures
        closed == spec_is_remote_close(kind),
{
    match kind {
        SocketErrorKind::HostUnreachable => true,
        SocketErrorKind::ConnectionReset => true,
        SocketErrorKind::ConnectionAborted => true,
        SocketErrorKind::ConnectionRefused => true,
        SocketErrorKind::BrokenPipe => true,
        _ => false,
    }
}

/// Whether a socket error means that the peer has closed the session.
pub fn is_remote_close_error(err: &std::io::Error) -> (closed: bool) {
    is_remote_close_kind(socket_error_kind(err))
}

/// The length of the chaff that a random number asks for: the number
/// modulo seventeen, so that no length from none to sixteen octets is
/// left out.
pub open spec fn spec_chaff_len(r: u32) -> usize {
    (r % 17) as usize
}

/// The length of the chaff that a random number asks for.
pub fn chaff_len(r: u32) -> (len: usize)
    ensures
        len == spec_chaff_len(r),
        len <= CHAFF_MAX_LEN,
{
    (r % 17) as usize
}

/// A state of the user's input with its number and the time it was last
/// sent.
#[derive(Debug)]
pub struct TimestampedState {
    pub timestamp: u64,
    pub num: u64,
    pub state: UserStream,
}

/// A sent state as a mathematical value.
pub struct SentStateView {
    pub timestamp: u64,
    pub num: u64,
    pub state: Seq<UserEvent>,
}

impl View for TimestampedState {
    type V = SentStateView;

    open spec fn view(&self) -> SentStateView {
        SentStateView { timestamp: self.timestamp, num: self.num, state: self.state@ }
    }
}

impl Clone for TimestampedState {
    fn clone(&self) -> (copy: Self)
        ensures
            copy@ == self@,
    {
        TimestampedState { timestamp: self.timestamp, num: self.num, state: self.state.clone() }
    }
}

/// The values of a queue of sent states.
pub open spec fn spec_sent_views(queue: Seq<TimestampedState>) -> Seq<SentStateView> {
    Seq::new(queue.len(), |i: int| queue[i]@)
}

/// The state of the remote terminal: its screen, and the latest state of
/// user input whose effect the screen shows.
#[derive(Debug)]
pub struct RemoteState {
    pub fb: Framebuffer,
    pub echo_ack: u64,
}

impl Clone for RemoteState {
    fn clone(&self) -> (copy: Self)
        ensures
            copy.fb.same_as(&self.fb),
            copy.echo_ack == self.echo_ack,
            self.fb.wf() ==> copy.fb.wf(),
    {
        RemoteState { fb: self.fb.clone(), echo_ack: self.echo_ack }
    }
}

/// A state of the remote terminal with its number and the time it was
/// received.
#[derive(Debug)]
pub struct TimestampedRemoteState {
    pub timestamp: u64,
    pub num: u64,
    pub state: RemoteState,
}

impl Clone for TimestampedRemoteState {
    fn clone(&self) -> (copy: Self)
        ensures
            copy.timestamp == self.timestamp,
            copy.num == self.num,
            copy.state.fb.same_as(&self.state.fb),
            copy.state.echo_ack == self.state.echo_ack,
            self.state.fb.wf() ==> copy.state.fb.wf(),
    {
        TimestampedRemoteState {
            timestamp: self.timestamp,
            num: self.num,
            state: self.state.clone(),
        }
    }
}

/// A received state as a mathematical value, without its screen.
pub struct ReceivedStateView {
    pub timestamp: u64,
    pub num: u64,
    pub echo_ack: u64,
}

impl View for TimestampedRemoteState {
    type V = ReceivedStateView;

    open spec fn view(&self) -> ReceivedStateView {
        ReceivedStateView {
            timestamp: self.timestamp,
            num: self.num,
            echo_ack: self.state.echo_ack,
        }
    }
}

/// The values of a queue of received states.
pub open spec fn spec_received_views(queue: Seq<TimestampedRemoteState>) -> Seq<
    ReceivedStateView,
> {
    Seq::new(queue.len(), |i: int| queue[i]@)
}

/// The transport as a mathematical value, without the screens of the
/// received states.
pub struct TransportView {
    pub key: Seq<u8>,
    pub direction: Direction,
    pub next_seq: u64,
    pub fragmenter: FragmenterView,
    pub assembly: AssemblyView,
    pub rtt: RttSummary,
    pub current_state: Seq<UserEvent>,
    pub sent_states: Seq<SentStateView>,
    pub assumed_receiver_state: usize,
    pub next_ack_time: u64,
    pub next_send_time: Option<u64>,
    pub ack_num: u64,
    pub pending_data_ack: bool,
    pub mindelay_clock: Option<u64>,
    pub last_heard: u64,
    pub shutdown_in_progress: bool,
    pub shutdown_tries: u32,
    pub shutdown_start: Option<u64>,
    pub counterparty_shutdown_ack_sent: bool,
    pub received_states: Seq<ReceivedStateView>,
    pub receiver_quench_until: Option<u64>,
    pub remote_state_changed: bool,
    pub last_recv_timestamp: u16,
    pub last_recv_time: u64,
    pub remote_closed: Option<Seq<char>>,
}

/// The later of two times.
pub open spec fn spec_max(a: u64, b: u64) -> u64 {
    if a >= b {
        a
    } else {
        b
    }
}

/// The datagram that carries fragment `i` of the given fragments: the
/// fragment in a packet with the two timestamps, sealed under sequence
/// number `next_seq + i`; `None` where the cipher refuses it.
pub open spec fn spec_datagram_at(
    key: Seq<u8>,
    direction: Direction,
    next_seq: u64,
    timestamp: u16,
    timestamp_reply: u16,
    frags: Seq<FragmentView>,
    i: int,
) -> Option<Seq<u8>> {
    let nonce = spec_make_nonce(direction, (next_seq + i) as u64);
    let packet = spec_packet_bytes(
        PacketView { timestamp, timestamp_reply, payload: spec_fragment_bytes(frags[i]) },
    );
    match ocb3_sealed(key, nonce, packet) {
        Some(sealed) => Some(nonce.subrange(4, 12) + sealed),
        None => None,
    }
}

/// The datagrams that carry the given fragments, each sealed under the
/// next sequence number; `None` where the cipher refuses one of them.
pub open spec fn spec_datagrams(
    key: Seq<u8>,
    direction: Direction,
    next_seq: u64,
    timestamp: u16,
    timestamp_reply: u16,
    frags: Seq<FragmentView>,
) -> Option<Seq<Seq<u8>>> {
    if forall|i: int|
        0 <= i < frags.len() ==> (#[trigger] spec_datagram_at(
            key,
            direction,
            next_seq,
            timestamp,
            timestamp_reply,
            frags,
            i,
        )) is Some {
        Some(
            Seq::new(
                frags.len(),
                |i: int|
                    spec_datagram_at(
                        key,
                        direction,
                        next_seq,
                        timestamp,
                        timestamp_reply,
                        frags,
                        i,
                    )->Some_0,
            ),
        )
    } else {
        None
    }
}

/// The octets of a list of datagrams.
pub open spec fn spec_datagram_views(list: Seq<Vec<u8>>) -> Seq<Seq<u8>> {
    Seq::new(list.len(), |i: int| list[i]@)
}

impl TransportView {
    /// What the transport keeps true of its queue of sent states: between
    /// one and 32 states; the assumed state among them; numbers that go up
    /// along the queue, except that the goodbye may be repeated at its end;
    /// and each state the beginning of the next and of the current one.
    pub open spec fn sender_wf(self) -> bool {
        &&& 1 <= self.sent_states.len() <= SENT_QUEUE_LIMIT
        &&& self.assumed_receiver_state < self.sent_states.len()
        &&& forall|i: int, j: int|
            0 <= i < j < self.sent_states.len() ==> (#[trigger] self.sent_states[i]).num < (
            #[trigger] self.sent_states[j]).num || self.sent_states[j].num == GOODBYE
        &&& forall|i: int, j: int|
            0 <= i <= j < self.sent_states.len() ==> spec_is_prefix(
                (#[trigger] self.sent_states[i]).state,
                (#[trigger] self.sent_states[j]).state,
            )
        &&& forall|i: int|
            0 <= i < self.sent_states.len() ==> spec_is_prefix(
                (#[trigger] self.sent_states[i]).state,
                self.current_state,
            )
    }

    /// What the transport keeps true of its queue of received states: at
    /// least one state, and numbers that go up along the queue.
    pub open spec fn receiver_wf(self) -> bool {
        &&& self.received_states.len() >= 1
        &&& forall|i: int, j: int|
            0 <= i < j < self.received_states.len() ==> (#[trigger] self.received_states[i]).num < (
            #[trigger] self.received_states[j]).num
    }

    /// Whether the transport has the numbers left that sending takes: an
    /// instruction id, and, outside shutdown, a state number.
    pub open spec fn can_send(self) -> bool {
        &&& self.fragmenter.instruction_id < u64::MAX
        &&& self.shutdown_in_progress || self.sent_states.last().num < GOODBYE - 1
    }

    /// How long a sent state is taken to be on its way: the retransmission
    /// timeout and the delay of an acknowledgement.
    pub open spec fn window(self) -> u64 {
        (self.rtt.spec_rto_ms() + ACK_DELAY) as u64
    }

    /// The last state from `i` on that may still be on its way at `now`,
    /// with all between `i` and it.
    pub open spec fn assumed_from(self, now: u64, i: int) -> int
        decreases self.sent_states.len() - i,
    {
        if 0 <= i && i + 1 < self.sent_states.len() && now - self.sent_states[i + 1].timestamp
            < self.window() {
            self.assumed_from(now, i + 1)
        } else {
            i
        }
    }

    /// The transport once the assumed receiver state is brought up to
    /// `now`: the farthest state that the peer plausibly has.
    pub open spec fn update_assumed_receiver_state(self, now: u64) -> TransportView {
        TransportView { assumed_receiver_state: self.assumed_from(now, 0) as usize, ..self }
    }

    /// The transport once the acknowledged state is taken off the current
    /// state and off every sent state.
    pub open spec fn rationalize_states(self) -> TransportView {
        let known = self.sent_states[0].state.len() as int;
        TransportView {
            current_state: self.current_state.skip(known),
            sent_states: Seq::new(
                self.sent_states.len(),
                |i: int|
                    SentStateView {
                        state: self.sent_states[i].state.skip(known),
                        ..self.sent_states[i]
                    },
            ),
            ..self
        }
    }

    /// Whether the peer has been heard from within the last ten seconds.
    pub open spec fn recently_heard(self, now: u64) -> bool {
        spec_later(self.last_heard, ACTIVE_RETRY_TIMEOUT) > now
    }

    /// The transport once its timers are set at `now`.
    ///
    /// The assumed receiver state is updated and the states rationalised. A
    /// pending acknowledgement of data is due in 100 ms at the latest. New
    /// data is sent once input has been collected for 8 ms and a send
    /// interval has passed since the last frame; data that the peer is not
    /// assumed to have is sent again at the send interval, data that it is
    /// assumed but not known to have after the retransmission timeout and
    /// 100 ms, both only while the peer has been heard from within ten
    /// seconds. During shutdown, and once the peer's goodbye is
    /// acknowledged, the next acknowledgement is due a send interval after
    /// the last frame.
    #[verifier::opaque]
    pub open spec fn calculate_timers(self, now: u64) -> TransportView {
        let s1 = self.update_assumed_receiver_state(now).rationalize_states();
        let s2 = if s1.pending_data_ack && s1.next_ack_time > spec_later(now, ACK_DELAY) {
            TransportView { next_ack_time: spec_later(now, ACK_DELAY), ..s1 }
        } else {
            s1
        };
        let interval = s2.rtt.spec_send_interval();
        let back = s2.sent_states.last();
        let assumed = s2.sent_states[s2.assumed_receiver_state as int];
        let s3 = if s2.current_state != back.state {
            let clock = match s2.mindelay_clock {
                Some(c) => c,
                None => now,
            };
            TransportView {
                mindelay_clock: Some(clock),
                next_send_time: Some(
                    spec_max(
                        spec_later(clock, SEND_MINDELAY),
                        spec_later(back.timestamp, interval),
                    ),
                ),
                ..s2
            }
        } else if s2.current_state != assumed.state && s2.recently_heard(now) {
            let at = spec_later(back.timestamp, interval);
            TransportView {
                next_send_time: Some(
                    match s2.mindelay_clock {
                        Some(c) => spec_max(at, spec_later(c, SEND_MINDELAY)),
                        None => at,
                    },
                ),
                ..s2
            }
        } else if s2.current_state != s2.sent_states[0].state && s2.recently_heard(now) {
            TransportView {
                next_send_time: Some(
                    spec_later(spec_later(back.timestamp, s2.rtt.spec_rto_ms()), ACK_DELAY),
                ),
                ..s2
            }
        } else {
            TransportView { next_send_time: None, ..s2 }
        };
        if s3.shutdown_in_progress || s3.ack_num == GOODBYE {
            TransportView { next_ack_time: spec_later(back.timestamp, interval), ..s3 }
        } else {
            s3
        }
    }

    /// The diff to send and the state it starts from: the diff from the
    /// acknowledged state where that is no longer than `proposed`, or
    /// shorter than 1000 octets and less than 100 longer; else `proposed`,
    /// from the assumed state.
    pub open spec fn prospective_resend(self, proposed: Seq<u8>) -> (TransportView, Seq<u8>) {
        let resend = spec_diff(self.current_state, self.sent_states[0].state);
        if self.assumed_receiver_state != 0 && (resend.len() <= proposed.len() || (resend.len()
            < 1000 && resend.len() - proposed.len() < 100)) {
            (TransportView { assumed_receiver_state: 0, ..self }, resend)
        } else {
            (self, proposed)
        }
    }

    /// The transport with one more sent state: the current state under
    /// number `num`. A queue of more than 32 states loses its sixteenth
    /// from the end.
    pub open spec fn add_sent_state(self, timestamp: u64, num: u64) -> TransportView {
        let pushed = self.sent_states.push(
            SentStateView { timestamp, num, state: self.current_state },
        );
        if pushed.len() > SENT_QUEUE_LIMIT {
            let mid = pushed.len() - 16;
            TransportView {
                sent_states: pushed.remove(mid),
                assumed_receiver_state: if self.assumed_receiver_state >= mid {
                    (self.assumed_receiver_state - 1) as usize
                } else {
                    self.assumed_receiver_state
                },
                ..self
            }
        } else {
            TransportView { sent_states: pushed, ..self }
        }
    }

    /// The transport with the time of its last sent state set.
    pub open spec fn refresh_tail(self, now: u64) -> TransportView {
        TransportView {
            sent_states: self.sent_states.update(
                self.sent_states.len() - 1,
                SentStateView { timestamp: now, ..self.sent_states.last() },
            ),
            ..self
        }
    }

    /// The instruction that carries `diff` from state `old_num` to state
    /// `new_num`.
    pub open spec fn instruction(
        self,
        diff: Seq<u8>,
        new_num: u64,
        old_num: u64,
        chaff: Seq<u8>,
    ) -> InstructionView {
        InstructionView {
            protocol_version: Some(MOSH_PROTOCOL_VERSION),
            old_num: Some(old_num),
            new_num: Some(new_num),
            ack_num: Some(self.ack_num),
            throwaway_num: Some(self.sent_states[0].num),
            diff: Some(diff),
            chaff: Some(chaff),
        }
    }

    /// The transport after an instruction is sent, and the datagrams that
    /// carry it, or the reason it could not be sent. A goodbye counts as a
    /// try at shutdown; an acknowledgement of the peer's goodbye is noted.
    #[verifier::opaque]
    pub open spec fn send_in_fragments(
        self,
        diff: Seq<u8>,
        new_num: u64,
        old_num: u64,
        timestamp: u16,
        chaff: Seq<u8>,
    ) -> (TransportView, Result<Seq<Seq<u8>>, TransportError>) {
        let s1 = TransportView {
            shutdown_tries: if new_num == GOODBYE && self.shutdown_tries < u32::MAX {
                (self.shutdown_tries + 1) as u32
            } else {
                self.shutdown_tries
            },
            counterparty_shutdown_ack_sent: self.counterparty_shutdown_ack_sent || self.ack_num
                == GOODBYE,
            ..self
        };
        match zlib_compressed(
            spec_instruction_bytes(self.instruction(diff, new_num, old_num, chaff)),
        ) {
            None => (s1, Err(TransportError::Compress)),
            Some(compressed) => {
                let fragmenter = spec_fragmenter_next(s1.fragmenter, compressed, MAX_FRAG_PAYLOAD);
                let frags = spec_fragments(
                    fragmenter.instruction_id,
                    compressed,
                    MAX_FRAG_PAYLOAD as nat,
                );
                let s2 = TransportView { fragmenter, ..s1 };
                if s1.next_seq + frags.len() > SEQUENCE_END {
                    (s2, Err(TransportError::SequenceExhausted))
                } else {
                    match spec_datagrams(
                        s1.key,
                        s1.direction,
                        s1.next_seq,
                        timestamp,
                        s1.last_recv_timestamp,
                        frags,
                    ) {
                        None => (s2, Err(TransportError::Encrypt)),
                        Some(datagrams) => (
                            TransportView {
                                next_seq: (s1.next_seq + frags.len()) as u64,
                                pending_data_ack: false,
                                ..s2
                            },
                            Ok(datagrams),
                        ),
                    }
                }
            },
        }
    }

    /// The number that the next frame carries, and the transport with the
    /// state of that number at the end of its queue: the goodbye during
    /// shutdown; else the last number where nothing has changed since, and
    /// the next number where something has.
    pub open spec fn next_state(self, now: u64) -> (TransportView, u64) {
        let back = self.sent_states.last();
        if self.shutdown_in_progress {
            if back.num == GOODBYE {
                (self.refresh_tail(now), GOODBYE)
            } else {
                (self.add_sent_state(now, GOODBYE), GOODBYE)
            }
        } else if self.current_state == back.state {
            (self.refresh_tail(now), back.num)
        } else {
            (self.add_sent_state(now, (back.num + 1) as u64), (back.num + 1) as u64)
        }
    }

    /// The transport after `diff` is sent to the receiver, and the
    /// datagrams that carry it.
    #[verifier::opaque]
    pub open spec fn send_to_receiver(
        self,
        diff: Seq<u8>,
        now: u64,
        timestamp: u16,
        chaff: Seq<u8>,
    ) -> (TransportView, Result<Seq<Seq<u8>>, TransportError>) {
        let (s1, new_num) = self.next_state(now);
        let assumed_num = s1.sent_states[s1.assumed_receiver_state as int].num;
        let (s2, sent) = s1.send_in_fragments(diff, new_num, assumed_num, timestamp, chaff);
        if sent is Ok {
            (
                TransportView {
                    assumed_receiver_state: (s2.sent_states.len() - 1) as usize,
                    next_ack_time: spec_later(now, ACK_INTERVAL),
                    next_send_time: None,
                    ..s2
                },
                sent,
            )
        } else {
            (s2, sent)
        }
    }

    /// The transport after an acknowledgement without data is sent, and the
    /// datagrams that carry it. The acknowledgement has a state of its own:
    /// the current state under the next number, or the goodbye during
    /// shutdown.
    #[verifier::opaque]
    pub open spec fn send_empty_ack(self, now: u64, timestamp: u16, chaff: Seq<u8>) -> (
        TransportView,
        Result<Seq<Seq<u8>>, TransportError>,
    ) {
        let new_num = if self.shutdown_in_progress {
            GOODBYE
        } else {
            (self.sent_states.last().num + 1) as u64
        };
        let s1 = self.add_sent_state(now, new_num);
        let assumed_num = s1.sent_states[s1.assumed_receiver_state as int].num;
        let (s2, sent) = s1.send_in_fragments(
            Seq::empty(),
            new_num,
            assumed_num,
            timestamp,
            chaff,
        );
        if sent is Ok {
            (
                TransportView {
                    next_ack_time: spec_later(now, ACK_INTERVAL),
                    next_send_time: None,
                    ..s2
                },
                sent,
            )
        } else {
            (s2, sent)
        }
    }

    /// The transport after an acknowledgement is sent if one is due, where
    /// there is no data to send.
    #[verifier::opaque]
    pub open spec fn due_without_data(
        self,
        ack_due: bool,
        send_due: bool,
        now: u64,
        timestamp: u16,
        chaff: Seq<u8>,
    ) -> (TransportView, Result<Seq<Seq<u8>>, TransportError>) {
        let (s3, sent) = if ack_due {
            let (a, r) = self.send_empty_ack(now, timestamp, chaff);
            if r is Ok {
                (TransportView { mindelay_clock: None, ..a }, r)
            } else {
                (a, r)
            }
        } else {
            (self, Ok(Seq::empty()))
        };
        if sent is Ok && send_due {
            (TransportView { next_send_time: None, mindelay_clock: None, ..s3 }, sent)
        } else {
            (s3, sent)
        }
    }

    /// The transport after data is sent.
    #[verifier::opaque]
    pub open spec fn due_with_data(
        self,
        diff: Seq<u8>,
        now: u64,
        timestamp: u16,
        chaff: Seq<u8>,
    ) -> (TransportView, Result<Seq<Seq<u8>>, TransportError>) {
        let (s3, sent) = self.send_to_receiver(diff, now, timestamp, chaff);
        if sent is Ok {
            (TransportView { mindelay_clock: None, ..s3 }, sent)
        } else {
            (s3, sent)
        }
    }

    /// The transport after what is due is sent, and the datagrams that
    /// carry it: the diff from the assumed state, or from the acknowledged
    /// one where that costs little; where the diff is empty, an
    /// acknowledgement if one is due.
    #[verifier::opaque]
    pub open spec fn send_what_is_due(
        self,
        ack_due: bool,
        send_due: bool,
        now: u64,
        timestamp: u16,
        chaff: Seq<u8>,
    ) -> (TransportView, Result<Seq<Seq<u8>>, TransportError>) {
        let (s2, diff) = self.prospective_resend(
            spec_diff(
                self.current_state,
                self.sent_states[self.assumed_receiver_state as int].state,
            ),
        );
        if diff.len() == 0 {
            s2.due_without_data(ack_due, send_due, now, timestamp, chaff)
        } else {
            s2.due_with_data(diff, now, timestamp, chaff)
        }
    }

    /// The transport after a tick at `now`, and the datagrams to send.
    ///
    /// Nothing happens once the peer has closed the session. Else the
    /// timers are set; if neither an acknowledgement nor data is due,
    /// nothing is sent; else what is due is sent.
    pub open spec fn tick(self, now: u64, timestamp: u16, chaff: Seq<u8>) -> (
        TransportView,
        Result<Seq<Seq<u8>>, TransportError>,
    ) {
        if self.remote_closed is Some {
            (self, Ok(Seq::empty()))
        } else {
            let s1 = self.calculate_timers(now);
            let ack_due = now >= s1.next_ack_time;
            let send_due = s1.next_send_time is Some && now >= s1.next_send_time->Some_0;
            if !ack_due && !send_due {
                (s1, Ok(Seq::empty()))
            } else {
                s1.send_what_is_due(ack_due, send_due, now, timestamp, chaff)
            }
        }
    }
}

/// The transport.
pub struct Transport {
    pub session: Session,
    /// The direction of the datagrams sent.
    pub direction: Direction,
    /// The sequence number of the next datagram.
    pub next_seq: u64,
    pub fragmenter: Fragmenter,
    pub assembly: FragmentAssembly,
    /// The round-trip-time estimate, as far as the timers need it.
    pub rtt: RttSummary,
    /// The user's input, without what the peer has acknowledged.
    pub current_state: UserStream,
    /// The states sent: first the latest that the peer has acknowledged,
    /// last the latest sent.
    pub sent_states: Vec<TimestampedState>,
    /// The index of the sent state that the peer is assumed to have.
    pub assumed_receiver_state: usize,
    pub next_ack_time: u64,
    /// When data is due; `None` for never.
    pub next_send_time: Option<u64>,
    /// The latest state received from the peer.
    pub ack_num: u64,
    pub pending_data_ack: bool,
    /// When input that has not been sent was first seen.
    pub mindelay_clock: Option<u64>,
    pub last_heard: u64,
    pub shutdown_in_progress: bool,
    pub shutdown_tries: u32,
    pub shutdown_start: Option<u64>,
    pub counterparty_shutdown_ack_sent: bool,
    /// The states received, by number.
    pub received_states: Vec<TimestampedRemoteState>,
    pub receiver_quench_until: Option<u64>,
    /// Whether a state later than all before it has come since last asked.
    pub remote_state_changed: bool,
    pub last_recv_timestamp: u16,
    pub last_recv_time: u64,
    /// Why the peer is taken to have closed the session, if it is.
    pub remote_closed: Option<String>,
}

impl View for Transport {
    type V = TransportView;

    open spec fn view(&self) -> TransportView {
        TransportView {
            key: self.session.spec_key(),
            direction: self.direction,
            next_seq: self.next_seq,
            fragmenter: self.fragmenter@,
            assembly: self.assembly@,
            rtt: self.rtt,
            current_state: self.current_state@,
            sent_states: spec_sent_views(self.sent_states@),
            assumed_receiver_state: self.assumed_receiver_state,
            next_ack_time: self.next_ack_time,
            next_send_time: self.next_send_time,
            ack_num: self.ack_num,
            pending_data_ack: self.pending_data_ack,
            mindelay_clock: self.mindelay_clock,
            last_heard: self.last_heard,
            shutdown_in_progress: self.shutdown_in_progress,
            shutdown_tries: self.shutdown_tries,
            shutdown_start: self.shutdown_start,
            counterparty_shutdown_ack_sent: self.counterparty_shutdown_ack_sent,
            received_states: spec_received_views(self.received_states@),
            receiver_quench_until: self.receiver_quench_until,
            remote_state_changed: self.remote_state_changed,
            last_recv_timestamp: self.last_recv_timestamp,
            last_recv_time: self.last_recv_time,
            remote_closed: match self.remote_closed {
                Some(reason) => Some(reason@),
                None => None,
            },
        }
    }
}

/// Taking a common beginning off two logs keeps one the beginning of the
/// other.
pub proof fn lemma_prefix_skip(a: Seq<UserEvent>, b: Seq<UserEvent>, k: int)
    requires
        spec_is_prefix(a, b),
        0 <= k <= a.len(),
    ensures
        spec_is_prefix(a.skip(k), b.skip(k)),
{
    assert(b.skip(k).take(a.len() - k) =~= b.take(a.len() as int).skip(k));
}

impl Transport {
    /// What the transport keeps true of itself: its two queues are as
    /// `sender_wf` and `receiver_wf` say, its reassembler is in order, and
    /// every received screen is well-formed.
    pub open spec fn wf(&self) -> bool {
        &&& self@.sender_wf()
        &&& self@.receiver_wf()
        &&& self.assembly.wf()
        &&& forall|i: int|
            0 <= i < self.received_states@.len() ==> (#[trigger] self.received_states@[i]).state.fb.wf()
    }

    /// Whether the screens of the received states are those of `other`.
    pub open spec fn same_screens(&self, other: &Transport) -> bool {
        self.received_states@ == other.received_states@ && self.assembly == other.assembly
    }

    /// A transport at time `now` that has sent and received nothing: state
    /// zero of the user's input is empty, state zero of the remote terminal
    /// an empty screen of the given size.
    pub fn new(key: &Base64Key, direction: Direction, width: usize, height: usize, now: u64) -> (t:
        Transport)
        ensures
            t.wf(),
            t@.can_send(),
            t@ == (TransportView {
                key: key@,
                direction,
                next_seq: 0,
                fragmenter: FragmenterView { instruction_id: 0, last: None },
                assembly: crate::network::spec_assembly_empty(),
                rtt: RttSummary { srtt_plus_four_rttvar: 300, half_srtt_ceil: 50 },
                current_state: Seq::empty(),
                sent_states: seq![SentStateView { timestamp: now, num: 0, state: Seq::empty() }],
                assumed_receiver_state: 0,
                next_ack_time: now,
                next_send_time: None,
                ack_num: 0,
                pending_data_ack: false,
                mindelay_clock: None,
                last_heard: now,
                shutdown_in_progress: false,
                shutdown_tries: 0,
                shutdown_start: None,
                counterparty_shutdown_ack_sent: false,
                received_states: seq![ReceivedStateView { timestamp: now, num: 0, echo_ack: 0 }],
                receiver_quench_until: None,
                remote_state_changed: false,
                last_recv_timestamp: NO_TIMESTAMP,
                last_recv_time: now,
                remote_closed: None,
            }),
            t.received_states@[0].state.fb.width == width,
            t.received_states@[0].state.fb.height == height,
    {
        let session = Session::from_key(key);
        let mut sent_states: Vec<TimestampedState> = Vec::new();
        sent_states.push(TimestampedState { timestamp: now, num: 0, state: UserStream::new() });
        let mut received_states: Vec<TimestampedRemoteState> = Vec::new();
        received_states.push(
            TimestampedRemoteState {
                timestamp: now,
                num: 0,
                state: RemoteState { fb: Framebuffer::new(width, height), echo_ack: 0 },
            },
        );
        let t = Transport {
            session,
            direction,
            next_seq: 0,
            fragmenter: Fragmenter::new(),
            assembly: FragmentAssembly::new(),
            rtt: RttSummary::new(),
            current_state: UserStream::new(),
            sent_states,
            assumed_receiver_state: 0,
            next_ack_time: now,
            next_send_time: None,
            ack_num: 0,
            pending_data_ack: false,
            mindelay_clock: None,
            last_heard: now,
            shutdown_in_progress: false,
            shutdown_tries: 0,
            shutdown_start: None,
            counterparty_shutdown_ack_sent: false,
            received_states,
            receiver_quench_until: None,
            remote_state_changed: false,
            last_recv_timestamp: NO_TIMESTAMP,
            last_recv_time: now,
            remote_closed: None,
        };
        proof {
            assert(t@.sent_states =~= seq![
                SentStateView { timestamp: now, num: 0, state: Seq::empty() },
            ]);
            assert(t@.received_states =~= seq![
                ReceivedStateView { timestamp: now, num: 0, echo_ack: 0 },
            ]);
            assert(Seq::<UserEvent>::empty().take(0) =~= Seq::<UserEvent>::empty());
        }
        t
    }

    /// Takes the round-trip-time estimate that the timers go by.
    pub fn set_rtt(&mut self, rtt: RttSummary)
        ensures
            final(self)@ == (TransportView { rtt, ..old(self)@ }),
            final(self).same_screens(old(self)),
            final(self)@.sent_states[0].num == old(self)@.sent_states[0].num,
            final(self)@.shutdown_in_progress == old(self)@.shutdown_in_progress,
            old(self).wf() ==> final(self).wf(),
    {
        self.rtt = rtt;
    }

    /// The time since a datagram was last received.
    pub fn time_since_last_recv(&self, now: u64) -> (ms: u64)
        ensures
            ms == if now >= self@.last_recv_time {
                now - self@.last_recv_time
            } else {
                0
            },
    {
        if now >= self.last_recv_time {
            now - self.last_recv_time
        } else {
            0
        }
    }

    /// Whether the address of the peer is known: always.
    pub fn has_remote_addr(&self) -> (known: bool)
        ensures
            known,
    {
        true
    }

    /// Whether anything has been received from the peer.
    pub fn has_received_data(&self) -> (any: bool)
        requires
            self.wf(),
        ensures
            any == (self@.received_states.last().num > 0 || self@.last_recv_timestamp
                != NO_TIMESTAMP),
    {
        self.received_states[self.received_states.len() - 1].num > 0 || self.last_recv_timestamp
            != NO_TIMESTAMP
    }

    /// Why the peer is taken to have closed the session, if it is.
    pub fn remote_close_reason(&self) -> (reason: Option<&str>)
        ensures
            match reason {
                Some(r) => self@.remote_closed == Some(r@),
                None => self@.remote_closed.is_none(),
            },
    {
        match &self.remote_closed {
            Some(reason) => Some(reason.as_str()),
            None => None,
        }
    }

    /// Begins the shutdown at `now`, unless it has begun.
    pub fn start_shutdown(&mut self, now: u64)
        ensures
            final(self)@ == if old(self)@.shutdown_in_progress {
                old(self)@
            } else {
                TransportView { shutdown_in_progress: true, shutdown_start: Some(now), ..old(self)@ }
            },
            final(self).same_screens(old(self)),
            final(self)@.sent_states[0].num == old(self)@.sent_states[0].num,
            old(self).wf() ==> final(self).wf(),
            old(self)@.can_send() ==> final(self)@.can_send(),
    {
        if !self.shutdown_in_progress {
            self.shutdown_in_progress = true;
            self.shutdown_start = Some(now);
        }
    }

    /// Whether the shutdown has begun.
    pub fn shutdown_in_progress(&self) -> (yes: bool)
        ensures
            yes == self@.shutdown_in_progress,
    {
        self.shutdown_in_progress
    }

    /// Whether the peer has acknowledged the goodbye.
    pub fn shutdown_acknowledged(&self) -> (yes: bool)
        requires
            self.wf(),
        ensures
            yes == (self@.sent_states[0].num == GOODBYE),
    {
        self.sent_states[0].num == GOODBYE
    }

    /// Whether the peer is given up: the goodbye was sent sixteen times, or
    /// the shutdown began ten seconds ago.
    pub fn shutdown_ack_timed_out(&self, now: u64) -> (yes: bool)
        ensures
            yes == (self@.shutdown_in_progress && (self@.shutdown_tries >= SHUTDOWN_RETRIES || (
            self@.shutdown_start is Some && now - self@.shutdown_start->Some_0
                >= ACTIVE_RETRY_TIMEOUT))),
    {
        if !self.shutdown_in_progress {
            return false;
        }
        if self.shutdown_tries >= SHUTDOWN_RETRIES {
            return true;
        }
        match self.shutdown_start {
            Some(start) => now >= start && now - start >= ACTIVE_RETRY_TIMEOUT,
            None => false,
        }
    }

    /// Whether the peer's goodbye has been acknowledged to it.
    pub fn counterparty_shutdown_ack_sent(&self) -> (yes: bool)
        ensures
            yes == self@.counterparty_shutdown_ack_sent,
    {
        self.counterparty_shutdown_ack_sent
    }

    /// The screen of the latest state received.
    pub fn latest_remote_framebuffer(&self) -> (fb: &Framebuffer)
        requires
            self.wf(),
        ensures
            fb == &self.received_states@.last().state.fb,
            fb.wf(),
    {
        &self.received_states[self.received_states.len() - 1].state.fb
    }

    /// The echo acknowledgement of the latest state received.
    pub fn latest_remote_echo_ack(&self) -> (ack: u64)
        requires
            self.wf(),
        ensures
            ack == self@.received_states.last().echo_ack,
    {
        self.received_states[self.received_states.len() - 1].state.echo_ack
    }

    /// Whether a state later than all before it has come since this was
    /// last asked.
    pub fn take_remote_state_changed(&mut self) -> (changed: bool)
        ensures
            changed == old(self)@.remote_state_changed,
            final(self)@ == (TransportView { remote_state_changed: false, ..old(self)@ }),
            final(self).same_screens(old(self)),
            final(self)@.sent_states[0].num == old(self)@.sent_states[0].num,
            final(self)@.shutdown_in_progress == old(self)@.shutdown_in_progress,
            old(self).wf() ==> final(self).wf(),
    {
        let changed = self.remote_state_changed;
        self.remote_state_changed = false;
        changed
    }

    /// Adds keystrokes to the user's input at `now`. Input is not taken
    /// during shutdown.
    pub fn push_user_input(&mut self, keys: &[u8], now: u64)
        requires
            old(self).wf(),
            !old(self)@.shutdown_in_progress,
        ensures
            final(self).wf(),
            final(self)@ == (TransportView {
                current_state: old(self)@.current_state + crate::userstream::spec_key_events(
                    keys@,
                ),
                mindelay_clock: match old(self)@.mindelay_clock {
                    Some(c) => Some(c),
                    None => Some(now),
                },
                ..old(self)@
            }),
            final(self).same_screens(old(self)),
            final(self)@.sent_states[0].num == old(self)@.sent_states[0].num,
            final(self)@.shutdown_in_progress == old(self)@.shutdown_in_progress,
            old(self)@.can_send() ==> final(self)@.can_send(),
    {
        self.current_state.push_keystrokes(keys);
        if self.mindelay_clock.is_none() {
            self.mindelay_clock = Some(now);
        }
        proof {
            let a = old(self)@.current_state;
            assert((a + crate::userstream::spec_key_events(keys@)).take(a.len() as int) =~= a);
            self.lemma_current_grown(old(self));
        }
    }

    /// Adds a window size to the user's input at `now`. Input is not taken
    /// during shutdown.
    pub fn push_resize(&mut self, width: i32, height: i32, now: u64)
        requires
            old(self).wf(),
            !old(self)@.shutdown_in_progress,
        ensures
            final(self).wf(),
            final(self)@ == (TransportView {
                current_state: old(self)@.current_state.push(UserEvent::Resize { width, height }),
                mindelay_clock: match old(self)@.mindelay_clock {
                    Some(c) => Some(c),
                    None => Some(now),
                },
                ..old(self)@
            }),
            final(self).same_screens(old(self)),
            final(self)@.sent_states[0].num == old(self)@.sent_states[0].num,
            final(self)@.shutdown_in_progress == old(self)@.shutdown_in_progress,
            old(self)@.can_send() ==> final(self)@.can_send(),
    {
        self.current_state.push_resize(width, height);
        if self.mindelay_clock.is_none() {
            self.mindelay_clock = Some(now);
        }
        proof {
            let a = old(self)@.current_state;
            assert(a.push(UserEvent::Resize { width, height }).take(a.len() as int) =~= a);
            self.lemma_current_grown(old(self));
        }
    }

    /// A transport whose current state has grown, and whose queues are as
    /// they were, is well-formed as it was.
    proof fn lemma_current_grown(&self, before: &Transport)
        requires
            before.wf(),
            spec_is_prefix(before@.current_state, self@.current_state),
            self@.sent_states == before@.sent_states,
            self@.assumed_receiver_state == before@.assumed_receiver_state,
            self@.received_states == before@.received_states,
            self.received_states@ == before.received_states@,
            self.assembly == before.assembly,
        ensures
            self.wf(),
    {
        let a = before@.current_state;
        let b = self@.current_state;
        assert forall|i: int| 0 <= i < self@.sent_states.len() implies spec_is_prefix(
            (#[trigger] self@.sent_states[i]).state,
            b,
        ) by {
            let p = self@.sent_states[i].state;
            assert(spec_is_prefix(before@.sent_states[i].state, a));
            assert(b.take(p.len() as int) =~= b.take(a.len() as int).take(p.len() as int));
        }
    }

    /// The number of the state that the peer has acknowledged.
    pub fn acked_state_num(&self) -> (num: u64)
        requires
            self.wf(),
        ensures
            num == self@.sent_states[0].num,
    {
        self.sent_states[0].num
    }

    /// The number of the state last sent.
    pub fn sent_state_last_num(&self) -> (num: u64)
        requires
            self.wf(),
        ensures
            num == self@.sent_states.last().num,
    {
        self.sent_states[self.sent_states.len() - 1].num
    }

    /// The time between two frames, in milliseconds.
    pub fn send_interval_ms(&self) -> (interval: u64)
        ensures
            interval == self@.rtt.spec_send_interval(),
    {
        self.rtt.send_interval()
    }

    /// Whether the transport has the numbers left that a tick takes.
    pub fn can_send(&self) -> (ok: bool)
        requires
            self.wf(),
        ensures
            ok == self@.can_send(),
    {
        self.fragmenter.has_headroom() && (
        self.shutdown_in_progress || self.sent_states[self.sent_states.len() - 1].num < GOODBYE
            - 1)
    }
}

/// A queue of sent states stays in order, and its states stay beginnings
/// of one another, when one of them is taken out.
pub proof fn lemma_sender_wf_remove(s: TransportView, mid: int)
    requires
        1 <= s.sent_states.len(),
        0 <= mid < s.sent_states.len(),
        forall|i: int, j: int|
            0 <= i < j < s.sent_states.len() ==> (#[trigger] s.sent_states[i]).num < (
            #[trigger] s.sent_states[j]).num || s.sent_states[j].num == GOODBYE,
        forall|i: int, j: int|
            0 <= i <= j < s.sent_states.len() ==> spec_is_prefix(
                (#[trigger] s.sent_states[i]).state,
                (#[trigger] s.sent_states[j]).state,
            ),
        forall|i: int|
            0 <= i < s.sent_states.len() ==> spec_is_prefix(
                (#[trigger] s.sent_states[i]).state,
                s.current_state,
            ),
    ensures
        ({
            let r = s.sent_states.remove(mid);
            &&& forall|i: int, j: int|
                0 <= i < j < r.len() ==> (#[trigger] r[i]).num < (#[trigger] r[j]).num || r[j].num
                    == GOODBYE
            &&& forall|i: int, j: int|
                0 <= i <= j < r.len() ==> spec_is_prefix(
                    (#[trigger] r[i]).state,
                    (#[trigger] r[j]).state,
                )
            &&& forall|i: int|
                0 <= i < r.len() ==> spec_is_prefix((#[trigger] r[i]).state, s.current_state)
        }),
{
    let q = s.sent_states;
    let r = q.remove(mid);
    assert forall|i: int, j: int| 0 <= i < j < r.len() implies (#[trigger] r[i]).num < (
    #[trigger] r[j]).num || r[j].num == GOODBYE by {
        let a = if i < mid {
            i
        } else {
            i + 1
        };
        let b = if j < mid {
            j
        } else {
            j + 1
        };
        assert(r[i] == q[a] && r[j] == q[b]);
        assert(q[a].num < q[b].num || q[b].num == GOODBYE);
    }
    assert forall|i: int, j: int| 0 <= i <= j < r.len() implies spec_is_prefix(
        (#[trigger] r[i]).state,
        (#[trigger] r[j]).state,
    ) by {
        let a = if i < mid {
            i
        } else {
            i + 1
        };
        let b = if j < mid {
            j
        } else {
            j + 1
        };
        assert(r[i] == q[a] && r[j] == q[b]);
        assert(spec_is_prefix(q[a].state, q[b].state));
    }
    assert forall|i: int| 0 <= i < r.len() implies spec_is_prefix(
        (#[trigger] r[i]).state,
        s.current_state,
    ) by {
        let a = if i < mid {
            i
        } else {
            i + 1
        };
        assert(r[i] == q[a]);
        assert(spec_is_prefix(q[a].state, s.current_state));
    }
}

impl Transport {
    /// Brings the assumed receiver state up to `now`: the farthest sent
    /// state that, with all before it, was sent within the retransmission
    /// timeout and the delay of an acknowledgement.
    pub fn update_assumed_receiver_state(&mut self, now: u64)
        requires
            old(self).wf(),
        ensures
            final(self).wf(),
            final(self)@ == old(self)@.update_assumed_receiver_state(now),
            final(self).same_screens(old(self)),
            final(self)@.sent_states[0].num == old(self)@.sent_states[0].num,
            final(self)@.shutdown_in_progress == old(self)@.shutdown_in_progress,
    {
        let window = self.rtt.rto_ms() + ACK_DELAY;
        let n = self.sent_states.len();
        let mut assumed: usize = 0;
        let mut i: usize = 1;
        let mut go = true;
        while go && i < n
            invariant
                n == self@.sent_states.len(),
                window == self@.window(),
                1 <= i <= n,
                assumed < n,
                go ==> assumed == i - 1,
                go ==> self@.assumed_from(now, 0) == self@.assumed_from(now, assumed as int),
                !go ==> self@.assumed_from(now, 0) == assumed,
            decreases
                    n - i + if go {
                        1int
                    } else {
                        0int
                    },
        {
            let ts = self.sent_states[i].timestamp;
            assert(self@.sent_states[i as int].timestamp == ts);
            if now < ts || now - ts < window {
                assumed = i;
                i = i + 1;
            } else {
                go = false;
            }
        }
        self.assumed_receiver_state = assumed;
    }

    /// Takes the acknowledged state off the current state and off every
    /// sent state.
    pub fn rationalize_states(&mut self)
        requires
            old(self).wf(),
        ensures
            final(self).wf(),
            final(self)@ == old(self)@.rationalize_states(),
            final(self).same_screens(old(self)),
            final(self)@.sent_states[0].num == old(self)@.sent_states[0].num,
            final(self)@.shutdown_in_progress == old(self)@.shutdown_in_progress,
    {
        let ghost before = self@;
        let ghost want = before.rationalize_states();
        let known = self.sent_states[0].state.clone();
        let ghost k = known@.len() as int;
        assert(before.sent_states[0].state == known@);
        self.current_state.subtract(&known);
        let n = self.sent_states.len();
        let mut i: usize = 0;
        while i < n
            invariant
                n == self.sent_states@.len(),
                n == before.sent_states.len(),
                i <= n,
                before == old(self)@,
                old(self).wf(),
                known@ == before.sent_states[0].state,
                k == known@.len(),
                want == before.rationalize_states(),
                self@ == (TransportView {
                    current_state: want.current_state,
                    sent_states: self@.sent_states,
                    ..before
                }),
                self.received_states@ == old(self).received_states@,
                self.assembly == old(self).assembly,
                forall|j: int| 0 <= j < i ==> (#[trigger] self.sent_states@[j])@ == want.sent_states[j],
                forall|j: int|
                    i <= j < n ==> (#[trigger] self.sent_states@[j])@ == before.sent_states[j],
            decreases n - i,
        {
            assert(spec_is_prefix(
                before.sent_states[0].state,
                before.sent_states[i as int].state,
            ));
            self.sent_states[i].state.subtract(&known);
            i = i + 1;
        }
        proof {
            assert(self@.sent_states =~= want.sent_states);
            assert forall|a: int, b: int| 0 <= a <= b < n implies spec_is_prefix(
                (#[trigger] want.sent_states[a]).state,
                (#[trigger] want.sent_states[b]).state,
            ) by {
                assert(spec_is_prefix(before.sent_states[0].state, before.sent_states[a].state));
                assert(spec_is_prefix(before.sent_states[a].state, before.sent_states[b].state));
                lemma_prefix_skip(before.sent_states[a].state, before.sent_states[b].state, k);
            }
            assert forall|a: int| 0 <= a < n implies spec_is_prefix(
                (#[trigger] want.sent_states[a]).state,
                want.current_state,
            ) by {
                assert(spec_is_prefix(before.sent_states[0].state, before.sent_states[a].state));
                assert(spec_is_prefix(before.sent_states[a].state, before.current_state));
                lemma_prefix_skip(before.sent_states[a].state, before.current_state, k);
            }
            assert forall|a: int, b: int| 0 <= a < b < n implies (
            #[trigger] want.sent_states[a]).num < (#[trigger] want.sent_states[b]).num
                || want.sent_states[b].num == GOODBYE by {
                assert(before.sent_states[a].num < before.sent_states[b].num
                    || before.sent_states[b].num == GOODBYE);
            }
        }
    }

    /// Sets the timers at `now`.
    #[verifier::rlimit(50)]
    pub fn calculate_timers(&mut self, now: u64)
        requires
            old(self).wf(),
        ensures
            final(self).wf(),
            final(self)@ == old(self)@.calculate_timers(now),
            final(self).same_screens(old(self)),
            final(self)@.sent_states[0].num == old(self)@.sent_states[0].num,
            final(self)@.shutdown_in_progress == old(self)@.shutdown_in_progress,
            old(self)@.can_send() ==> final(self)@.can_send(),
            final(self)@.remote_closed == old(self)@.remote_closed,
    {
        reveal(TransportView::calculate_timers);
        self.update_assumed_receiver_state(now);
        self.rationalize_states();
        if self.pending_data_ack && self.next_ack_time > later(now, ACK_DELAY) {
            self.next_ack_time = later(now, ACK_DELAY);
        }
        let interval = self.rtt.send_interval();
        let last = self.sent_states.len() - 1;
        let back_timestamp = self.sent_states[last].timestamp;
        let heard = later(self.last_heard, ACTIVE_RETRY_TIMEOUT) > now;
        assert(self@.sent_states.last() == self.sent_states@[last as int]@);
        assert(self@.sent_states[self.assumed_receiver_state as int]
            == self.sent_states@[self.assumed_receiver_state as int]@);
        assert(self@.sent_states[0] == self.sent_states@[0]@);
        if !(self.current_state == self.sent_states[last].state) {
            let clock = match self.mindelay_clock {
                Some(c) => c,
                None => now,
            };
            self.mindelay_clock = Some(clock);
            let mindelay_at = later(clock, SEND_MINDELAY);
            let interval_at = later(back_timestamp, interval);
            self.next_send_time = Some(
                if mindelay_at >= interval_at {
                    mindelay_at
                } else {
                    interval_at
                },
            );
        } else if !(self.current_state == self.sent_states[self.assumed_receiver_state].state)
            && heard {
            let at = later(back_timestamp, interval);
            self.next_send_time = Some(
                match self.mindelay_clock {
                    Some(c) => {
                        let other = later(c, SEND_MINDELAY);
                        if at >= other {
                            at
                        } else {
                            other
                        }
                    },
                    None => at,
                },
            );
        } else if !(self.current_state == self.sent_states[0].state) && heard {
            let rto = self.rtt.rto_ms();
            self.next_send_time = Some(later(later(back_timestamp, rto), ACK_DELAY));
        } else {
            self.next_send_time = None;
        }
        if self.shutdown_in_progress || self.ack_num == GOODBYE {
            self.next_ack_time = later(back_timestamp, interval);
        }
    }

    /// Chooses between the proposed diff from the assumed state and the
    /// diff from the acknowledged state: the latter where it is no longer,
    /// or shorter than 1000 octets and less than 100 longer.
    pub fn attempt_prospective_resend_optimization(&mut self, proposed_diff: &mut Vec<u8>)
        requires
            old(self).wf(),
        ensures
            final(self).wf(),
            old(self)@.can_send() ==> final(self)@.can_send(),
            (final(self)@, final(proposed_diff)@) == old(self)@.prospective_resend(
                old(proposed_diff)@,
            ),
            final(self).same_screens(old(self)),
            final(self)@.sent_states[0].num == old(self)@.sent_states[0].num,
            final(self)@.shutdown_in_progress == old(self)@.shutdown_in_progress,
    {
        if self.assumed_receiver_state == 0 {
            return ;
        }
        assert(self@.sent_states[0] == self.sent_states@[0]@);
        let resend_diff = self.current_state.diff_from(&self.sent_states[0].state);
        if resend_diff.len() <= proposed_diff.len() || (resend_diff.len() < 1000
            && resend_diff.len() - proposed_diff.len() < 100) {
            self.assumed_receiver_state = 0;
            *proposed_diff = resend_diff;
        }
    }

    /// Adds the current state to the queue of sent states under number
    /// `num`, which is past all in the queue or the goodbye. A queue of
    /// more than 32 states loses its sixteenth from the end.
    pub fn add_sent_state(&mut self, timestamp: u64, num: u64)
        requires
            old(self).wf(),
            num > old(self)@.sent_states.last().num || num == GOODBYE,
        ensures
            final(self).wf(),
            final(self)@ == old(self)@.add_sent_state(timestamp, num),
            final(self).same_screens(old(self)),
            final(self)@.sent_states[0].num == old(self)@.sent_states[0].num,
            final(self)@.shutdown_in_progress == old(self)@.shutdown_in_progress,
            final(self)@.sent_states.last() == (SentStateView {
                timestamp,
                num,
                state: old(self)@.current_state,
            }),
    {
        let ghost before = self@;
        let ghost entry = SentStateView { timestamp, num, state: before.current_state };
        let ghost pushed = before.sent_states.push(entry);
        let state = self.current_state.clone();
        self.sent_states.push(TimestampedState { timestamp, num, state });
        assert(self@.sent_states =~= pushed);
        proof {
            let cur = before.current_state;
            assert(cur.take(cur.len() as int) =~= cur);
            assert forall|i: int, j: int| 0 <= i < j < pushed.len() implies (
            #[trigger] pushed[i]).num < (#[trigger] pushed[j]).num || pushed[j].num
                == GOODBYE by {
                if j == pushed.len() - 1 {
                    if i < j - 1 {
                        assert(before.sent_states[i].num < before.sent_states[j - 1].num
                            || before.sent_states[j - 1].num == GOODBYE);
                    }
                } else {
                    assert(before.sent_states[i].num < before.sent_states[j].num
                        || before.sent_states[j].num == GOODBYE);
                }
            }
            assert forall|i: int, j: int| 0 <= i <= j < pushed.len() implies spec_is_prefix(
                (#[trigger] pushed[i]).state,
                (#[trigger] pushed[j]).state,
            ) by {
                if j == pushed.len() - 1 {
                    if i < j {
                        assert(spec_is_prefix(before.sent_states[i].state, cur));
                    }
                } else {
                    assert(spec_is_prefix(
                        before.sent_states[i].state,
                        before.sent_states[j].state,
                    ));
                }
            }
            assert forall|i: int| 0 <= i < pushed.len() implies spec_is_prefix(
                (#[trigger] pushed[i]).state,
                cur,
            ) by {
                if i < pushed.len() - 1 {
                    assert(spec_is_prefix(before.sent_states[i].state, cur));
                }
            }
        }
        if self.sent_states.len() > SENT_QUEUE_LIMIT {
            let mid = self.sent_states.len() - 16;
            proof {
                lemma_sender_wf_remove(self@, mid as int);
            }
            self.sent_states.remove(mid);
            assert(self@.sent_states =~= pushed.remove(mid as int));
            if self.assumed_receiver_state >= mid {
                self.assumed_receiver_state = self.assumed_receiver_state - 1;
            } else if self.assumed_receiver_state > self.sent_states.len() - 1 {
                self.assumed_receiver_state = self.sent_states.len() - 1;
            }
        }
    }
}

/// A payload cut into fragments of at most 1242 octets makes fewer than
/// 2^54 fragments, none longer than 1242 octets.
pub proof fn lemma_fragment_sizes(id: u64, payload: Seq<u8>, i: int)
    requires
        payload.len() <= usize::MAX,
        0 <= i < spec_fragments(id, payload, MAX_FRAG_PAYLOAD as nat).len(),
    ensures
        spec_fragments(id, payload, MAX_FRAG_PAYLOAD as nat).len() < 0x40_0000_0000_0000,
        spec_fragments(id, payload, MAX_FRAG_PAYLOAD as nat)[i].contents.len() <= MAX_FRAG_PAYLOAD,
{
    if payload.len() > 0 {
        crate::network::lemma_fragment_bounds(payload.len(), MAX_FRAG_PAYLOAD as nat, i);
    }
}

impl Transport {
    /// Sends an instruction that carries `diff` from state `old_num` to
    /// state `new_num`: gives the datagrams that carry it.
    #[verifier::rlimit(50)]
    pub fn send_in_fragments(
        &mut self,
        diff: &[u8],
        new_num: u64,
        old_num: u64,
        timestamp: u16,
        chaff: &[u8],
    ) -> (sent: Result<Vec<Vec<u8>>, TransportError>)
        requires
            old(self).wf(),
            old(self)@.fragmenter.instruction_id < u64::MAX,
        ensures
            final(self).wf(),
            final(self).same_screens(old(self)),
            final(self)@.sent_states[0].num == old(self)@.sent_states[0].num,
            final(self)@.shutdown_in_progress == old(self)@.shutdown_in_progress,
            final(self)@ == old(self)@.send_in_fragments(
                diff@,
                new_num,
                old_num,
                timestamp,
                chaff@,
            ).0,
            match sent {
                Ok(datagrams) => old(self)@.send_in_fragments(
                    diff@,
                    new_num,
                    old_num,
                    timestamp,
                    chaff@,
                ).1 == Ok::<Seq<Seq<u8>>, TransportError>(spec_datagram_views(datagrams@)),
                Err(e) => old(self)@.send_in_fragments(
                    diff@,
                    new_num,
                    old_num,
                    timestamp,
                    chaff@,
                ).1 == Err::<Seq<Seq<u8>>, TransportError>(e),
            },
            final(self)@.sent_states == old(self)@.sent_states,
            final(self)@.assumed_receiver_state == old(self)@.assumed_receiver_state,
            final(self)@.next_seq <= old(self)@.next_seq + 0x40_0000_0000_0000,
    {
        reveal(TransportView::send_in_fragments);
        let ghost before = self@;
        assert(before.sent_states[0] == self.sent_states@[0]@);
        let instruction = Instruction {
            protocol_version: Some(MOSH_PROTOCOL_VERSION),
            old_num: Some(old_num),
            new_num: Some(new_num),
            ack_num: Some(self.ack_num),
            throwaway_num: Some(self.sent_states[0].num),
            diff: Some(clone_bytes(diff)),
            chaff: Some(clone_bytes(chaff)),
        };
        assert(instruction@ == before.instruction(diff@, new_num, old_num, chaff@));
        if new_num == GOODBYE && self.shutdown_tries < u32::MAX {
            self.shutdown_tries = self.shutdown_tries + 1;
        }
        if self.ack_num == GOODBYE {
            self.counterparty_shutdown_ack_sent = true;
        }
        let encoded = instruction.encode_to_vec();
        let compressed = match zlib_compress(encoded.as_slice()) {
            Some(c) => c,
            None => {
                return Err(TransportError::Compress);
            },
        };
        let compressed_len = compressed.len();
        let fragments = self.fragmenter.make_fragments(compressed.as_slice(), MAX_FRAG_PAYLOAD);
        let ghost frags = spec_fragments(
            self.fragmenter@.instruction_id,
            compressed@,
            MAX_FRAG_PAYLOAD as nat,
        );
        let n = fragments.len();
        proof {
            lemma_fragment_sizes(self.fragmenter@.instruction_id, compressed@, 0);
        }
        if self.next_seq > SEQUENCE_END || n as u64 > SEQUENCE_END - self.next_seq {
            return Err(TransportError::SequenceExhausted);
        }
        proof {
            assert forall|k: int| 0 <= k < fragments@.len() implies (
            #[trigger] fragments@[k])@.contents.len() <= MAX_FRAG_PAYLOAD by {
                lemma_fragment_sizes(self.fragmenter@.instruction_id, compressed@, k);
                assert(frags[k] == fragments@[k]@);
            }
        }
        let datagrams = match self.seal_fragments(&fragments, timestamp) {
            Some(datagrams) => datagrams,
            None => {
                return Err(TransportError::Encrypt);
            },
        };
        self.next_seq = self.next_seq + n as u64;
        self.pending_data_ack = false;
        Ok(datagrams)
    }

    /// Seals each of the fragments in a packet with the two timestamps,
    /// under the sequence numbers from the next one on: gives the
    /// datagrams, or nothing where the cipher refuses one.
    fn seal_fragments(&self, fragments: &Vec<Fragment>, timestamp: u16) -> (sealed: Option<
        Vec<Vec<u8>>,
    >)
        requires
            self@.next_seq + fragments@.len() <= SEQUENCE_END,
            forall|i: int|
                0 <= i < fragments@.len() ==> (#[trigger] fragments@[i])@.contents.len()
                    <= MAX_FRAG_PAYLOAD,
        ensures
            match sealed {
                Some(datagrams) => spec_datagrams(
                    self@.key,
                    self@.direction,
                    self@.next_seq,
                    timestamp,
                    self@.last_recv_timestamp,
                    spec_fragment_views(fragments@),
                ) == Some(spec_datagram_views(datagrams@)),
                None => spec_datagrams(
                    self@.key,
                    self@.direction,
                    self@.next_seq,
                    timestamp,
                    self@.last_recv_timestamp,
                    spec_fragment_views(fragments@),
                ).is_none(),
            },
    {
        let ghost frags = spec_fragment_views(fragments@);
        let n = fragments.len();
        let mut datagrams: Vec<Vec<u8>> = Vec::new();
        let mut i: usize = 0;
        while i < n
            invariant
                n == fragments@.len(),
                frags == spec_fragment_views(fragments@),
                i <= n,
                self@.next_seq + n <= SEQUENCE_END,
                forall|k: int|
                    0 <= k < fragments@.len() ==> (#[trigger] fragments@[k])@.contents.len()
                        <= MAX_FRAG_PAYLOAD,
                datagrams@.len() == i,
                forall|k: int|
                    0 <= k < i ==> #[trigger] spec_datagram_at(
                        self@.key,
                        self@.direction,
                        self@.next_seq,
                        timestamp,
                        self@.last_recv_timestamp,
                        frags,
                        k,
                    ) == Some(datagrams@[k]@),
            decreases n - i,
        {
            assert(frags[i as int] == fragments@[i as int]@);
            let nonce = make_nonce(self.direction, self.next_seq + i as u64);
            let packet = Packet {
                timestamp,
                timestamp_reply: self.last_recv_timestamp,
                payload: fragments[i].to_bytes(),
            };
            let cleartext = packet.to_bytes();
            match self.session.encrypt(&nonce, cleartext.as_slice()) {
                Ok(datagram) => {
                    datagrams.push(datagram);
                },
                Err(_) => {
                    assert(spec_datagram_at(
                        self@.key,
                        self@.direction,
                        self@.next_seq,
                        timestamp,
                        self@.last_recv_timestamp,
                        frags,
                        i as int,
                    ) is None);
                    return None;
                },
            }
            i = i + 1;
        }
        proof {
            let want = spec_datagrams(
                self@.key,
                self@.direction,
                self@.next_seq,
                timestamp,
                self@.last_recv_timestamp,
                frags,
            );
            assert(want is Some);
            assert(spec_datagram_views(datagrams@) =~= want->Some_0);
        }
        Some(datagrams)
    }

    /// Brings the queue of sent states to the state that the next frame
    /// carries, and gives its number.
    pub fn next_state(&mut self, now: u64) -> (new_num: u64)
        requires
            old(self).wf(),
            old(self)@.shutdown_in_progress || old(self)@.sent_states.last().num < GOODBYE - 1,
        ensures
            final(self).wf(),
            final(self).same_screens(old(self)),
            final(self)@.sent_states[0].num == old(self)@.sent_states[0].num,
            final(self)@.shutdown_in_progress == old(self)@.shutdown_in_progress,
            (final(self)@, new_num) == old(self)@.next_state(now),
            final(self)@.next_seq == old(self)@.next_seq,
            final(self)@.fragmenter == old(self)@.fragmenter,
            final(self)@.shutdown_in_progress == old(self)@.shutdown_in_progress,
            final(self)@.sent_states.last().num == new_num,
    {
        let last = self.sent_states.len() - 1;
        let back_num = self.sent_states[last].num;
        assert(self@.sent_states.last() == self.sent_states@[last as int]@);
        if self.shutdown_in_progress {
            if back_num == GOODBYE {
                self.refresh_tail(now);
            } else {
                self.add_sent_state(now, GOODBYE);
            }
            GOODBYE
        } else if self.current_state == self.sent_states[last].state {
            self.refresh_tail(now);
            back_num
        } else {
            self.add_sent_state(now, back_num + 1);
            back_num + 1
        }
    }

    /// Sets the time of the last sent state.
    pub fn refresh_tail(&mut self, now: u64)
        requires
            old(self).wf(),
        ensures
            final(self).wf(),
            final(self).same_screens(old(self)),
            final(self)@.sent_states[0].num == old(self)@.sent_states[0].num,
            final(self)@.shutdown_in_progress == old(self)@.shutdown_in_progress,
            final(self)@ == old(self)@.refresh_tail(now),
    {
        let ghost before = self@;
        let last = self.sent_states.len() - 1;
        self.sent_states[last].timestamp = now;
        proof {
            let want = before.refresh_tail(now);
            assert(self@.sent_states =~= want.sent_states);
            assert forall|i: int, j: int| 0 <= i < j < want.sent_states.len() implies (
            #[trigger] want.sent_states[i]).num < (#[trigger] want.sent_states[j]).num
                || want.sent_states[j].num == GOODBYE by {
                assert(before.sent_states[i].num < before.sent_states[j].num
                    || before.sent_states[j].num == GOODBYE);
            }
            assert forall|i: int, j: int| 0 <= i <= j < want.sent_states.len() implies spec_is_prefix(
                (#[trigger] want.sent_states[i]).state,
                (#[trigger] want.sent_states[j]).state,
            ) by {
                assert(spec_is_prefix(before.sent_states[i].state, before.sent_states[j].state));
            }
            assert forall|i: int| 0 <= i < want.sent_states.len() implies spec_is_prefix(
                (#[trigger] want.sent_states[i]).state,
                want.current_state,
            ) by {
                assert(spec_is_prefix(before.sent_states[i].state, before.current_state));
            }
        }
    }

    /// Sends `diff` to the receiver: gives the datagrams that carry it.
    pub fn send_to_receiver(&mut self, diff: &[u8], now: u64, timestamp: u16, chaff: &[u8]) -> (sent:
        Result<Vec<Vec<u8>>, TransportError>)
        requires
            old(self).wf(),
            old(self)@.can_send(),
        ensures
            final(self).wf(),
            final(self).same_screens(old(self)),
            final(self)@.sent_states[0].num == old(self)@.sent_states[0].num,
            final(self)@.shutdown_in_progress == old(self)@.shutdown_in_progress,
            final(self)@ == old(self)@.send_to_receiver(diff@, now, timestamp, chaff@).0,
            match sent {
                Ok(datagrams) => old(self)@.send_to_receiver(diff@, now, timestamp, chaff@).1
                    == Ok::<Seq<Seq<u8>>, TransportError>(spec_datagram_views(datagrams@)),
                Err(e) => old(self)@.send_to_receiver(diff@, now, timestamp, chaff@).1 == Err::<
                    Seq<Seq<u8>>,
                    TransportError,
                >(e),
            },
    {
        reveal(TransportView::send_to_receiver);
        let new_num = self.next_state(now);
        assert(self@.sent_states[self.assumed_receiver_state as int]
            == self.sent_states@[self.assumed_receiver_state as int]@);
        let assumed_num = self.sent_states[self.assumed_receiver_state].num;
        let sent = self.send_in_fragments(diff, new_num, assumed_num, timestamp, chaff);
        match sent {
            Ok(datagrams) => {
                self.assumed_receiver_state = self.sent_states.len() - 1;
                self.next_ack_time = later(now, ACK_INTERVAL);
                self.next_send_time = None;
                Ok(datagrams)
            },
            Err(e) => Err(e),
        }
    }

    /// Sends an acknowledgement without data: gives the datagrams that
    /// carry it.
    pub fn send_empty_ack(&mut self, now: u64, timestamp: u16, chaff: &[u8]) -> (sent: Result<
        Vec<Vec<u8>>,
        TransportError,
    >)
        requires
            old(self).wf(),
            old(self)@.can_send(),
        ensures
            final(self).wf(),
            final(self).same_screens(old(self)),
            final(self)@.sent_states[0].num == old(self)@.sent_states[0].num,
            final(self)@.shutdown_in_progress == old(self)@.shutdown_in_progress,
            final(self)@ == old(self)@.send_empty_ack(now, timestamp, chaff@).0,
            match sent {
                Ok(datagrams) => old(self)@.send_empty_ack(now, timestamp, chaff@).1 == Ok::<
                    Seq<Seq<u8>>,
                    TransportError,
                >(spec_datagram_views(datagrams@)),
                Err(e) => old(self)@.send_empty_ack(now, timestamp, chaff@).1 == Err::<
                    Seq<Seq<u8>>,
                    TransportError,
                >(e),
            },
    {
        reveal(TransportView::send_empty_ack);
        let last = self.sent_states.len() - 1;
        assert(self@.sent_states.last() == self.sent_states@[last as int]@);
        let new_num = if self.shutdown_in_progress {
            GOODBYE
        } else {
            self.sent_states[last].num + 1
        };
        self.add_sent_state(now, new_num);
        assert(self@.sent_states[self.assumed_receiver_state as int]
            == self.sent_states@[self.assumed_receiver_state as int]@);
        let assumed_num = self.sent_states[self.assumed_receiver_state].num;
        let empty: Vec<u8> = Vec::new();
        assert(empty@ =~= Seq::<u8>::empty());
        let sent = self.send_in_fragments(empty.as_slice(), new_num, assumed_num, timestamp, chaff);
        match sent {
            Ok(datagrams) => {
                self.next_ack_time = later(now, ACK_INTERVAL);
                self.next_send_time = None;
                Ok(datagrams)
            },
            Err(e) => Err(e),
        }
    }

    /// Sends an acknowledgement if one is due, where there is no data to
    /// send.
    pub fn due_without_data(
        &mut self,
        ack_due: bool,
        send_due: bool,
        now: u64,
        timestamp: u16,
        chaff: &[u8],
    ) -> (sent: Result<Vec<Vec<u8>>, TransportError>)
        requires
            old(self).wf(),
            old(self)@.can_send(),
        ensures
            final(self).wf(),
            final(self).same_screens(old(self)),
            final(self)@.sent_states[0].num == old(self)@.sent_states[0].num,
            final(self)@.shutdown_in_progress == old(self)@.shutdown_in_progress,
            final(self)@ == old(self)@.due_without_data(ack_due, send_due, now, timestamp, chaff@).0,
            match sent {
                Ok(datagrams) => old(self)@.due_without_data(ack_due, send_due, now, timestamp, chaff@).1 == Ok::<Seq<Seq<u8>>, TransportError>(
                    spec_datagram_views(datagrams@),
                ),
                Err(e) => old(self)@.due_without_data(ack_due, send_due, now, timestamp, chaff@).1 == Err::<Seq<Seq<u8>>, TransportError>(e),
            },
    {
        reveal(TransportView::due_without_data);
        let mut out: Vec<Vec<u8>> = Vec::new();
        assert(spec_datagram_views(out@) =~= Seq::empty());
        if ack_due {
            match self.send_empty_ack(now, timestamp, chaff) {
                Ok(datagrams) => {
                    out = datagrams;
                },
                Err(e) => {
                    return Err(e);
                },
            }
            self.mindelay_clock = None;
        }
        if send_due {
            self.next_send_time = None;
            self.mindelay_clock = None;
        }
        Ok(out)
    }

    /// Sends data.
    pub fn due_with_data(&mut self, diff: &[u8], now: u64, timestamp: u16, chaff: &[u8]) -> (sent:
        Result<Vec<Vec<u8>>, TransportError>)
        requires
            old(self).wf(),
            old(self)@.can_send(),
        ensures
            final(self).wf(),
            final(self).same_screens(old(self)),
            final(self)@.sent_states[0].num == old(self)@.sent_states[0].num,
            final(self)@.shutdown_in_progress == old(self)@.shutdown_in_progress,
            final(self)@ == old(self)@.due_with_data(diff@, now, timestamp, chaff@).0,
            match sent {
                Ok(datagrams) => old(self)@.due_with_data(diff@, now, timestamp, chaff@).1 == Ok::<Seq<Seq<u8>>, TransportError>(
                    spec_datagram_views(datagrams@),
                ),
                Err(e) => old(self)@.due_with_data(diff@, now, timestamp, chaff@).1 == Err::<Seq<Seq<u8>>, TransportError>(e),
            },
    {
        reveal(TransportView::due_with_data);
        match self.send_to_receiver(diff, now, timestamp, chaff) {
            Ok(datagrams) => {
                self.mindelay_clock = None;
                Ok(datagrams)
            },
            Err(e) => Err(e),
        }
    }

    /// Sends what is due: gives the datagrams that carry it.
    pub fn send_what_is_due(
        &mut self,
        ack_due: bool,
        send_due: bool,
        now: u64,
        timestamp: u16,
        chaff: &[u8],
    ) -> (sent: Result<Vec<Vec<u8>>, TransportError>)
        requires
            old(self).wf(),
            old(self)@.can_send(),
        ensures
            final(self).wf(),
            final(self).same_screens(old(self)),
            final(self)@.sent_states[0].num == old(self)@.sent_states[0].num,
            final(self)@.shutdown_in_progress == old(self)@.shutdown_in_progress,
            final(self)@ == old(self)@.send_what_is_due(ack_due, send_due, now, timestamp, chaff@).0,
            match sent {
                Ok(datagrams) => old(self)@.send_what_is_due(ack_due, send_due, now, timestamp, chaff@).1 == Ok::<Seq<Seq<u8>>, TransportError>(
                    spec_datagram_views(datagrams@),
                ),
                Err(e) => old(self)@.send_what_is_due(ack_due, send_due, now, timestamp, chaff@).1 == Err::<Seq<Seq<u8>>, TransportError>(e),
            },
    {
        reveal(TransportView::send_what_is_due);
        assert(self@.sent_states[self.assumed_receiver_state as int]
            == self.sent_states@[self.assumed_receiver_state as int]@);
        let mut diff = self.current_state.diff_from(
            &self.sent_states[self.assumed_receiver_state].state,
        );
        self.attempt_prospective_resend_optimization(&mut diff);
        if diff.len() == 0 {
            self.due_without_data(ack_due, send_due, now, timestamp, chaff)
        } else {
            self.due_with_data(diff.as_slice(), now, timestamp, chaff)
        }
    }

    /// Does what is due at `now` with the given chaff: gives the datagrams
    /// to send, each of which the caller sends as it is.
    pub fn tick_with(&mut self, now: u64, timestamp: u16, chaff: &[u8]) -> (sent: Result<
        Vec<Vec<u8>>,
        TransportError,
    >)
        requires
            old(self).wf(),
            old(self)@.can_send(),
        ensures
            final(self).wf(),
            final(self).same_screens(old(self)),
            final(self)@.sent_states[0].num == old(self)@.sent_states[0].num,
            final(self)@.shutdown_in_progress == old(self)@.shutdown_in_progress,
            final(self)@ == old(self)@.tick(now, timestamp, chaff@).0,
            match sent {
                Ok(datagrams) => old(self)@.tick(now, timestamp, chaff@).1 == Ok::<
                    Seq<Seq<u8>>,
                    TransportError,
                >(spec_datagram_views(datagrams@)),
                Err(e) => old(self)@.tick(now, timestamp, chaff@).1 == Err::<
                    Seq<Seq<u8>>,
                    TransportError,
                >(e),
            },
    {
        if self.remote_closed.is_some() {
            let none: Vec<Vec<u8>> = Vec::new();
            assert(spec_datagram_views(none@) =~= Seq::empty());
            return Ok(none);
        }
        self.calculate_timers(now);
        let ack_due = now >= self.next_ack_time;
        let send_due = match self.next_send_time {
            Some(t) => now >= t,
            None => false,
        };
        if !ack_due && !send_due {
            let none: Vec<Vec<u8>> = Vec::new();
            assert(spec_datagram_views(none@) =~= Seq::empty());
            return Ok(none);
        }
        self.send_what_is_due(ack_due, send_due, now, timestamp, chaff)
    }

    /// Does what is due at `now`: draws the chaff and does what `tick_with`
    /// does with it.
    pub fn tick(&mut self, now: u64, timestamp: u16) -> (sent: Result<Vec<Vec<u8>>, TransportError>)
        requires
            old(self).wf(),
            old(self)@.can_send(),
        ensures
            final(self).wf(),
            final(self).same_screens(old(self)),
            final(self)@.sent_states[0].num == old(self)@.sent_states[0].num,
            final(self)@.shutdown_in_progress == old(self)@.shutdown_in_progress,
            exists|chaff: Seq<u8>|
                chaff.len() <= CHAFF_MAX_LEN && final(self)@ == (#[trigger] old(self)@.tick(
                    now,
                    timestamp,
                    chaff,
                )).0 && match sent {
                    Ok(datagrams) => old(self)@.tick(now, timestamp, chaff).1 == Ok::<
                        Seq<Seq<u8>>,
                        TransportError,
                    >(spec_datagram_views(datagrams@)),
                    Err(e) => old(self)@.tick(now, timestamp, chaff).1 == Err::<
                        Seq<Seq<u8>>,
                        TransportError,
                    >(e),
                },
    {
        let chaff = make_chaff();
        let sent = self.tick_with(now, timestamp, chaff.as_slice());
        proof {
            let c = chaff@;
            assert(c.len() <= CHAFF_MAX_LEN && self@ == old(self)@.tick(now, timestamp, c).0);
        }
        sent
    }
}

/// The index of the first sent state from `i` on whose number is not
/// below `bound`; the length of the queue where there is none.
pub open spec fn spec_first_sent_at_least(queue: Seq<SentStateView>, bound: u64, i: int) -> int
    decreases queue.len() - i,
{
    if 0 <= i < queue.len() && queue[i].num < bound {
        spec_first_sent_at_least(queue, bound, i + 1)
    } else {
        i
    }
}

/// The index of the first received state from `i` on whose number is not
/// below `bound`; the length of the queue where there is none.
pub open spec fn spec_first_received_at_least(
    queue: Seq<ReceivedStateView>,
    bound: u64,
    i: int,
) -> int
    decreases queue.len() - i,
{
    if 0 <= i < queue.len() && queue[i].num < bound {
        spec_first_received_at_least(queue, bound, i + 1)
    } else {
        i
    }
}

/// What a datagram has brought: the round-trip time it shows, and the
/// instruction that it has completed.
#[derive(Debug)]
pub struct ReceivedDatagram {
    pub rtt_sample: Option<u64>,
    pub instruction: Option<Instruction>,
}

/// What a datagram has brought, as a mathematical value.
pub struct ReceivedDatagramView {
    pub rtt_sample: Option<u64>,
    pub instruction: Option<InstructionView>,
}

impl View for ReceivedDatagram {
    type V = ReceivedDatagramView;

    open spec fn view(&self) -> ReceivedDatagramView {
        ReceivedDatagramView {
            rtt_sample: self.rtt_sample,
            instruction: match self.instruction {
                Some(i) => Some(i@),
                None => None,
            },
        }
    }
}

impl TransportView {
    /// Whether a state of this number is in the queue of sent states.
    pub open spec fn has_sent(self, num: u64) -> bool {
        exists|i: int| 0 <= i < self.sent_states.len() && (#[trigger] self.sent_states[i]).num == num
    }

    /// The transport after the peer has acknowledged state `ack_num`: where
    /// that is a sent state, the sent states before the first whose number
    /// is not below it are dropped, and the index of the assumed state goes
    /// down by their number, or to zero.
    pub open spec fn process_acknowledgment_through(self, ack_num: u64) -> TransportView {
        if self.has_sent(ack_num) {
            let k = spec_first_sent_at_least(self.sent_states, ack_num, 0);
            TransportView {
                sent_states: self.sent_states.skip(k),
                assumed_receiver_state: if self.assumed_receiver_state >= k {
                    (self.assumed_receiver_state - k) as usize
                } else {
                    0
                },
                ..self
            }
        } else {
            self
        }
    }

    /// The transport after a datagram has arrived at `now`, and what the
    /// datagram has brought or why it is given up.
    ///
    /// A datagram that does not open, or is too short for the timestamps,
    /// changes nothing. Else the times of the last word from the peer are
    /// set and the timestamp is kept for the reply. An empty payload is a
    /// heartbeat. Else the fragment goes to the reassembler, and an
    /// instruction that it completes is inflated and read; it must be of
    /// version 2.
    pub open spec fn receive_datagram(self, datagram: Seq<u8>, now: u64, now_ts: u16) -> (
        TransportView,
        Result<ReceivedDatagramView, TransportError>,
    ) {
        if datagram.len() < MIN_DATAGRAM_LEN {
            (self, Err(TransportError::TooShort))
        } else if datagram.len() > max_message_len() + MIN_DATAGRAM_LEN {
            (self, Err(TransportError::TooLong))
        } else {
            match ocb3_opened(
                self.key,
                spec_wire_to_nonce(datagram.subrange(0, 8)),
                datagram.subrange(8, datagram.len() as int),
            ) {
                None => (self, Err(TransportError::Integrity)),
                Some(cleartext) => match spec_parse_packet(cleartext) {
                    Err(_) => (self, Err(TransportError::ShortPacket)),
                    Ok(packet) => {
                        let s1 = TransportView {
                            last_recv_time: now,
                            last_recv_timestamp: packet.timestamp,
                            last_heard: now,
                            ..self
                        };
                        let rtt_sample = spec_rtt_sample(now_ts, packet.timestamp_reply);
                        if packet.payload.len() == 0 {
                            (s1, Ok(ReceivedDatagramView { rtt_sample, instruction: None }))
                        } else {
                            match spec_parse_fragment(packet.payload) {
                                Err(_) => (s1, Err(TransportError::ShortFragment)),
                                Ok(fragment) => if !spec_assembly_accepts(s1.assembly, fragment) {
                                    (s1, Err(TransportError::FragmentMismatch))
                                } else {
                                    let (assembly, done) = spec_assembly_add(s1.assembly, fragment);
                                    let s2 = TransportView { assembly, ..s1 };
                                    match done {
                                        None => (
                                            s2,
                                            Ok(ReceivedDatagramView { rtt_sample, instruction: None }),
                                        ),
                                        Some(compressed) => match zlib_decompressed(compressed) {
                                            None => (s2, Err(TransportError::Decompress)),
                                            Some(bytes) => match spec_instruction_decode(bytes) {
                                                None => (s2, Err(TransportError::BadInstruction)),
                                                Some(ti) => if ti.protocol_version != Some(
                                                    MOSH_PROTOCOL_VERSION,
                                                ) {
                                                    (s2, Err(TransportError::VersionMismatch))
                                                } else {
                                                    (
                                                        s2,
                                                        Ok(
                                                            ReceivedDatagramView {
                                                                rtt_sample,
                                                                instruction: Some(ti),
                                                            },
                                                        ),
                                                    )
                                                },
                                            },
                                        },
                                    }
                                },
                            }
                        }
                    },
                },
            }
        }
    }
}

/// In a queue in order, the states before the first whose number is not
/// below `bound` are exactly those whose number is below it.
pub proof fn lemma_first_sent_at_least(queue: Seq<SentStateView>, bound: u64, i: int)
    requires
        0 <= i <= queue.len(),
        forall|a: int, b: int|
            0 <= a < b < queue.len() ==> (#[trigger] queue[a]).num < (#[trigger] queue[b]).num
                || queue[b].num == GOODBYE,
        forall|a: int| 0 <= a < i ==> (#[trigger] queue[a]).num < bound,
    ensures
        i <= spec_first_sent_at_least(queue, bound, i) <= queue.len(),
        forall|a: int|
            0 <= a < spec_first_sent_at_least(queue, bound, i) ==> (#[trigger] queue[a]).num
                < bound,
        forall|a: int|
            spec_first_sent_at_least(queue, bound, i) <= a < queue.len() ==> (
            #[trigger] queue[a]).num >= bound,
    decreases queue.len() - i,
{
    if i < queue.len() && queue[i].num < bound {
        lemma_first_sent_at_least(queue, bound, i + 1);
    } else {
        assert forall|a: int| i <= a < queue.len() implies (#[trigger] queue[a]).num >= bound by {
            if a > i {
                assert(queue[i].num < queue[a].num || queue[a].num == GOODBYE);
            }
        }
    }
}

/// Acknowledging a sent state drops the states with smaller numbers and no
/// others, keeps the acknowledged state, and leaves the assumed state
/// where it was or at the first state left.
pub proof fn lemma_acknowledgment_drops_smaller(s: TransportView, ack_num: u64)
    requires
        s.sender_wf(),
        s.has_sent(ack_num),
    ensures
        ({
            let t = s.process_acknowledgment_through(ack_num);
            let k = spec_first_sent_at_least(s.sent_states, ack_num, 0);
            &&& t.sender_wf()
            &&& t.has_sent(ack_num)
            &&& t.sent_states == s.sent_states.skip(k)
            &&& forall|i: int|
                0 <= i < s.sent_states.len() ==> ((#[trigger] s.sent_states[i]).num < ack_num
                    <==> i < k)
            &&& forall|i: int| 0 <= i < t.sent_states.len() ==> (#[trigger] t.sent_states[i]).num >= ack_num
            &&& t.assumed_receiver_state == if s.assumed_receiver_state >= k {
                s.assumed_receiver_state - k
            } else {
                0
            }
        }),
{
    let q = s.sent_states;
    let t = s.process_acknowledgment_through(ack_num);
    lemma_first_sent_at_least(q, ack_num, 0);
    let k = spec_first_sent_at_least(q, ack_num, 0);
    let hit = choose|i: int| 0 <= i < q.len() && (#[trigger] q[i]).num == ack_num;
    assert(hit >= k);
    assert(t.sent_states[hit - k] == q[hit]);
    assert forall|i: int, j: int| 0 <= i < j < t.sent_states.len() implies (
    #[trigger] t.sent_states[i]).num < (#[trigger] t.sent_states[j]).num || t.sent_states[j].num
        == GOODBYE by {
        assert(q[i + k].num < q[j + k].num || q[j + k].num == GOODBYE);
    }
    assert forall|i: int, j: int| 0 <= i <= j < t.sent_states.len() implies spec_is_prefix(
        (#[trigger] t.sent_states[i]).state,
        (#[trigger] t.sent_states[j]).state,
    ) by {
        assert(spec_is_prefix(q[i + k].state, q[j + k].state));
    }
    assert forall|i: int| 0 <= i < t.sent_states.len() implies spec_is_prefix(
        (#[trigger] t.sent_states[i]).state,
        t.current_state,
    ) by {
        assert(spec_is_prefix(q[i + k].state, s.current_state));
    }
}

impl Transport {
    /// Takes the peer's acknowledgement of state `ack_num`. Where that is a
    /// sent state, the sent states with smaller numbers are dropped and the
    /// index of the assumed state is corrected; else nothing changes.
    pub fn process_acknowledgment_through(&mut self, ack_num: u64)
        requires
            old(self).wf(),
        ensures
            final(self).wf(),
            final(self).same_screens(old(self)),
            final(self)@ == old(self)@.process_acknowledgment_through(ack_num),
            old(self)@.has_sent(ack_num) ==> forall|i: int|
                0 <= i < final(self)@.sent_states.len() ==> (
                #[trigger] final(self)@.sent_states[i]).num >= ack_num,
            old(self)@.can_send() && final(self)@.sent_states.last() == old(self)@.sent_states.last() ==> final(self)@.can_send(),
            final(self)@.sent_states.last() == old(self)@.sent_states.last(),
    {
        let ghost before = self@;
        let n = self.sent_states.len();
        let mut found = false;
        let mut i: usize = 0;
        while i < n
            invariant
                n == self.sent_states@.len(),
                i <= n,
                self@ == before,
                found ==> before.has_sent(ack_num),
                !found ==> forall|j: int| 0 <= j < i ==> (#[trigger] before.sent_states[j]).num != ack_num,
            decreases n - i,
        {
            assert(before.sent_states[i as int] == self.sent_states@[i as int]@);
            if self.sent_states[i].num == ack_num {
                found = true;
            }
            i = i + 1;
        }
        if !found {
            return ;
        }
        proof {
            lemma_acknowledgment_drops_smaller(before, ack_num);
        }
        let mut k: usize = 0;
        while k < n && self.sent_states[k].num < ack_num
            invariant
                n == self.sent_states@.len(),
                k <= n,
                self@ == before,
                spec_first_sent_at_least(before.sent_states, ack_num, 0)
                    == spec_first_sent_at_least(before.sent_states, ack_num, k as int),
            decreases n - k,
        {
            assert(before.sent_states[k as int] == self.sent_states@[k as int]@);
            k = k + 1;
        }
        proof {
            if k < n {
                assert(before.sent_states[k as int] == self.sent_states@[k as int]@);
            }
            assert(spec_first_sent_at_least(before.sent_states, ack_num, 0) == k);
        }
        let mut kept: Vec<TimestampedState> = Vec::new();
        let mut j: usize = k;
        while j < n
            invariant
                n == self.sent_states@.len(),
                k <= j <= n,
                self@ == before,
                spec_sent_views(kept@) == before.sent_states.subrange(k as int, j as int),
            decreases n - j,
        {
            let ghost so_far = spec_sent_views(kept@);
            let entry = self.sent_states[j].clone();
            let ghost ev = entry@;
            assert(ev == before.sent_states[j as int]);
            kept.push(entry);
            assert(spec_sent_views(kept@) =~= so_far.push(ev));
            j = j + 1;
            assert(spec_sent_views(kept@) =~= before.sent_states.subrange(k as int, j as int));
        }
        assert(before.sent_states.subrange(k as int, n as int) =~= before.sent_states.skip(
            k as int,
        ));
        self.sent_states = kept;
        self.assumed_receiver_state = if self.assumed_receiver_state >= k {
            self.assumed_receiver_state - k
        } else {
            0
        };
    }
}

impl Transport {
    /// Takes a datagram that has arrived at `now`: gives the round-trip
    /// time it shows and the instruction it has completed, or the reason
    /// it is given up. A datagram that is given up as too short, not
    /// authentic or without timestamps has changed nothing.
    pub fn receive_datagram(&mut self, datagram: &[u8], now: u64, now_ts: u16) -> (got: Result<
        ReceivedDatagram,
        TransportError,
    >)
        requires
            old(self).wf(),
        ensures
            final(self).wf(),
            final(self).received_states@ == old(self).received_states@,
            final(self)@ == old(self)@.receive_datagram(datagram@, now, now_ts).0,
            match got {
                Ok(r) => old(self)@.receive_datagram(datagram@, now, now_ts).1 == Ok::<
                    ReceivedDatagramView,
                    TransportError,
                >(r@),
                Err(e) => old(self)@.receive_datagram(datagram@, now, now_ts).1 == Err::<
                    ReceivedDatagramView,
                    TransportError,
                >(e),
            },
            old(self)@.can_send() ==> final(self)@.can_send(),
            final(self)@.shutdown_in_progress == old(self)@.shutdown_in_progress,
    {
        let ghost before = self@;
        let (nonce, cleartext) = match self.session.decrypt(datagram) {
            Ok(opened) => opened,
            Err(CryptoError::TooShort) => {
                return Err(TransportError::TooShort);
            },
            Err(CryptoError::TooLong) => {
                return Err(TransportError::TooLong);
            },
            Err(_) => {
                return Err(TransportError::Integrity);
            },
        };
        let packet = match Packet::from_bytes(cleartext.as_slice()) {
            Ok(p) => p,
            Err(_) => {
                return Err(TransportError::ShortPacket);
            },
        };
        self.last_recv_time = now;
        self.last_recv_timestamp = packet.timestamp;
        self.last_heard = now;
        let sample = rtt_sample(now_ts, packet.timestamp_reply);
        if packet.payload.len() == 0 {
            return Ok(ReceivedDatagram { rtt_sample: sample, instruction: None });
        }
        let fragment = match Fragment::from_bytes(packet.payload.as_slice()) {
            Ok(f) => f,
            Err(_) => {
                return Err(TransportError::ShortFragment);
            },
        };
        if !self.assembly.accepts(&fragment) {
            return Err(TransportError::FragmentMismatch);
        }
        let compressed = match self.assembly.add_fragment(fragment) {
            Some(c) => c,
            None => {
                return Ok(ReceivedDatagram { rtt_sample: sample, instruction: None });
            },
        };
        let bytes = match zlib_decompress(compressed.as_slice()) {
            Some(b) => b,
            None => {
                return Err(TransportError::Decompress);
            },
        };
        let ti = match Instruction::decode(bytes.as_slice()) {
            Ok(ti) => ti,
            Err(_) => {
                return Err(TransportError::BadInstruction);
            },
        };
        let version_ok = match ti.protocol_version {
            Some(v) => v == MOSH_PROTOCOL_VERSION,
            None => false,
        };
        if !version_ok {
            return Err(TransportError::VersionMismatch);
        }
        Ok(ReceivedDatagram { rtt_sample: sample, instruction: Some(ti) })
    }
}

/// What became of an instruction.
#[derive(Debug, Clone, Copy, PartialEq, Eq, Structural)]
pub enum Accepted {
    /// Its state is the latest received now.
    Latest,
    /// Its state is in the queue, before a later one.
    OutOfOrder,
    /// Its state was in the queue already.
    Duplicate,
    /// The state it starts from is not in the queue.
    ReferenceMissing,
    /// The queue is too long, and arrivals are quenched.
    Quenched,
}

/// Whether an instruction has led to a new state in the queue.
pub open spec fn spec_enqueued(done: Result<Accepted, TransportError>) -> bool {
    done == Ok::<Accepted, TransportError>(Accepted::Latest) || done == Ok::<
        Accepted,
        TransportError,
    >(Accepted::OutOfOrder)
}

/// The echo acknowledgement and the number of chunks of host octets used
/// after one more instruction of the host, or the reason the instruction
/// cannot be applied: host octets without a parsed chunk left for them, a
/// window size without width or height, or an echo acknowledgement that
/// goes back.
pub open spec fn spec_host_step(
    state: (u64, nat),
    inst: hostinput::InstructionView,
    chunks: nat,
) -> Result<(u64, nat), TransportError> {
    let (echo_ack, used) = state;
    let takes_chunk = inst.hostbytes is Some && inst.hostbytes->Some_0.hoststring is Some;
    if takes_chunk && used >= chunks {
        Err(TransportError::BadHostDiff)
    } else if inst.resize is Some && (inst.resize->Some_0.width is None
        || inst.resize->Some_0.height is None) {
        Err(TransportError::BadHostDiff)
    } else if inst.echoack is Some && inst.echoack->Some_0.echo_ack_num is Some
        && inst.echoack->Some_0.echo_ack_num->Some_0 < echo_ack {
        Err(TransportError::EchoAckRegression)
    } else {
        Ok(
            (
                if inst.echoack is Some && inst.echoack->Some_0.echo_ack_num is Some {
                    inst.echoack->Some_0.echo_ack_num->Some_0
                } else {
                    echo_ack
                },
                if takes_chunk {
                    used + 1
                } else {
                    used
                },
            ),
        )
    }
}

/// The echo acknowledgement and the number of chunks used after the first
/// `n` instructions of the host.
pub open spec fn spec_host_steps(
    echo_ack: u64,
    list: Seq<hostinput::InstructionView>,
    n: nat,
    chunks: nat,
) -> Result<(u64, nat), TransportError>
    decreases n,
{
    if n == 0 {
        Ok((echo_ack, 0nat))
    } else {
        match spec_host_steps(echo_ack, list, (n - 1) as nat, chunks) {
            Ok(state) => spec_host_step(state, list[n - 1], chunks),
            Err(e) => Err(e),
        }
    }
}

/// An instruction of the host that cannot be applied stops all after it.
pub proof fn lemma_host_steps_error(
    echo_ack: u64,
    list: Seq<hostinput::InstructionView>,
    n: nat,
    m: nat,
    chunks: nat,
)
    requires
        n <= m,
        spec_host_steps(echo_ack, list, n, chunks) is Err,
    ensures
        spec_host_steps(echo_ack, list, m, chunks) == spec_host_steps(echo_ack, list, n, chunks),
    decreases m - n,
{
    if n < m {
        lemma_host_steps_error(echo_ack, list, n, (m - 1) as nat, chunks);
    }
}

/// The echo acknowledgement after a diff of the host is applied, given the
/// number of parsed chunks of host octets; or the reason it cannot be.
pub open spec fn spec_host_apply(echo_ack: u64, diff: Seq<u8>, chunks: nat) -> Result<
    u64,
    TransportError,
> {
    match hostinput::spec_host_message_decode(diff) {
        None => Err(TransportError::BadHostDiff),
        Some(m) => match spec_host_steps(echo_ack, m.instruction, m.instruction.len(), chunks) {
            Ok(state) => Ok(state.0),
            Err(e) => Err(e),
        },
    }
}

/// The chunks of host octets in the first `n` instructions, in order.
pub open spec fn spec_host_chunks(list: Seq<hostinput::InstructionView>, n: nat) -> Seq<Seq<u8>>
    decreases n,
{
    if n == 0 {
        Seq::empty()
    } else {
        let before = spec_host_chunks(list, (n - 1) as nat);
        let inst = list[n - 1];
        if inst.hostbytes is Some && inst.hostbytes->Some_0.hoststring is Some {
            before.push(inst.hostbytes->Some_0.hoststring->Some_0)
        } else {
            before
        }
    }
}

/// The octets of a list of chunks.
pub open spec fn spec_chunk_views(list: Seq<Vec<u8>>) -> Seq<Seq<u8>> {
    Seq::new(list.len(), |i: int| list[i]@)
}

/// The chunks of host octets that a diff of the host holds, in order: what
/// a VT parser is to be fed, chunk by chunk, before the diff is applied.
pub fn host_strings(diff: &[u8]) -> (chunks: Result<Vec<Vec<u8>>, TransportError>)
    ensures
        match chunks {
            Ok(list) => hostinput::spec_host_message_decode(diff@) is Some && spec_chunk_views(
                list@,
            ) == spec_host_chunks(
                hostinput::spec_host_message_decode(diff@)->Some_0.instruction,
                hostinput::spec_host_message_decode(diff@)->Some_0.instruction.len(),
            ),
            Err(e) => e == TransportError::BadHostDiff && hostinput::spec_host_message_decode(
                diff@,
            ) is None,
        },
{
    let message = match hostinput::HostMessage::decode(diff) {
        Ok(m) => m,
        Err(_) => {
            return Err(TransportError::BadHostDiff);
        },
    };
    let ghost list = message@.instruction;
    let mut out: Vec<Vec<u8>> = Vec::new();
    let mut i: usize = 0;
    assert(spec_chunk_views(out@) =~= Seq::empty());
    while i < message.instruction.len()
        invariant
            i <= message.instruction@.len(),
            list == message@.instruction,
            spec_chunk_views(out@) == spec_host_chunks(list, i as nat),
        decreases message.instruction@.len() - i,
    {
        let inst = &message.instruction[i];
        assert(list[i as int] == inst@);
        let ghost before = spec_chunk_views(out@);
        match &inst.hostbytes {
            Some(h) => match &h.hoststring {
                Some(b) => {
                    let copy = clone_bytes(b.as_slice());
                    out.push(copy);
                    assert(spec_chunk_views(out@) =~= before.push(b@));
                },
                None => {},
            },
            None => {},
        }
        i = i + 1;
    }
    Ok(out)
}

/// Whether an instruction of the host carries host octets.
pub open spec fn spec_takes_chunk(inst: hostinput::InstructionView) -> bool {
    inst.hostbytes is Some && inst.hostbytes->Some_0.hoststring is Some
}

/// What a VT parser has made of the host octets of instruction `k`:
/// the parsed chunks go with the instructions that carry host octets, in
/// order.
pub open spec fn spec_chunk_for(
    list: Seq<hostinput::InstructionView>,
    events: Seq<Vec<TerminalEvent>>,
    k: int,
) -> Seq<TerminalEvent> {
    let used = spec_host_chunks(list, k as nat).len();
    if spec_takes_chunk(list[k]) && used < events.len() {
        events[used as int]@
    } else {
        Seq::empty()
    }
}

/// Whether `drawn` is the screen `before` with the host octets of an
/// instruction applied, as the parser has reported them.
pub open spec fn spec_chunk_drawn(
    before: &Framebuffer,
    drawn: &Framebuffer,
    inst: hostinput::InstructionView,
    chunk: Seq<TerminalEvent>,
) -> bool {
    if spec_takes_chunk(inst) {
        before.spec_events_effect(drawn, chunk)
    } else {
        *drawn == *before
    }
}

/// Whether `after` is the screen `drawn` in the window size of an
/// instruction, where it has one with a width and a height above zero.
pub open spec fn spec_size_taken(
    drawn: &Framebuffer,
    after: &Framebuffer,
    inst: hostinput::InstructionView,
) -> bool {
    if inst.resize is Some && inst.resize->Some_0.width is Some && inst.resize->Some_0.height
        is Some && inst.resize->Some_0.width->Some_0 > 0 && inst.resize->Some_0.height->Some_0
        > 0 {
        drawn.spec_resized(
            after,
            inst.resize->Some_0.width->Some_0 as usize,
            inst.resize->Some_0.height->Some_0 as usize,
        )
    } else {
        *after == *drawn
    }
}

/// Whether `after` is the screen that one instruction of the host makes
/// of `before`: its host octets are applied, then its window size is
/// taken.
pub open spec fn spec_host_screen_step(
    before: &Framebuffer,
    after: &Framebuffer,
    inst: hostinput::InstructionView,
    chunk: Seq<TerminalEvent>,
) -> bool {
    exists|drawn: Framebuffer| #[trigger]
        spec_chunk_drawn(before, &drawn, inst, chunk) && spec_size_taken(&drawn, after, inst)
}

/// Whether `states` are the screens before, between and after the first
/// `n` instructions of the host.
pub open spec fn spec_host_screens(
    states: Seq<Framebuffer>,
    list: Seq<hostinput::InstructionView>,
    events: Seq<Vec<TerminalEvent>>,
    n: nat,
) -> bool {
    &&& states.len() == n + 1
    &&& forall|k: int|
        0 <= k < n ==> spec_host_screen_step(
            &#[trigger] states[k],
            &states[k + 1],
            list[k],
            spec_chunk_for(list, events, k),
        )
}

/// Whether `after` is the screen that the instructions of the host make
/// of `before`, one after the other.
pub open spec fn spec_host_screen(
    before: &Framebuffer,
    after: &Framebuffer,
    list: Seq<hostinput::InstructionView>,
    events: Seq<Vec<TerminalEvent>>,
) -> bool {
    exists|states: Seq<Framebuffer>| #[trigger]
        spec_host_screens(states, list, events, list.len()) && states[0] == *before
            && states.last() == *after
}

/// Whether `after` is the screen that a diff of the host makes of a copy
/// of `reference`.
pub open spec fn spec_leads_to(
    reference: &Framebuffer,
    after: &Framebuffer,
    diff: Option<Seq<u8>>,
    events: Seq<Vec<TerminalEvent>>,
) -> bool {
    exists|start: Framebuffer| #[trigger]
        start.same_as(reference) && spec_diff_screen(&start, after, diff, events)
}

/// Whether `after` is the screen that a diff of the host makes of
/// `before`: the same where there is none, or an empty one.
pub open spec fn spec_diff_screen(
    before: &Framebuffer,
    after: &Framebuffer,
    diff: Option<Seq<u8>>,
    events: Seq<Vec<TerminalEvent>>,
) -> bool {
    if diff is Some && diff->Some_0.len() > 0 {
        match hostinput::spec_host_message_decode(diff->Some_0) {
            Some(m) => spec_host_screen(before, after, m.instruction, events),
            None => false,
        }
    } else {
        *after == *before
    }
}

impl RemoteState {
    /// The state of a terminal that has shown nothing: an empty screen of
    /// the given size, and no input echoed.
    pub fn new(width: usize, height: usize) -> (state: RemoteState)
        ensures
            state.fb.wf(),
            state.fb.width == width,
            state.fb.height == height,
            state.echo_ack == 0,
    {
        RemoteState { fb: Framebuffer::new(width, height), echo_ack: 0 }
    }

    /// Applies a diff of the host. `events` holds, for each chunk of host
    /// octets in the diff, what a VT parser makes of it. The instructions
    /// are taken in order, and of each first the host octets, then the
    /// window size, then the echo acknowledgement, which must not go back.
    pub fn apply_string(&mut self, diff: &[u8], events: &Vec<Vec<TerminalEvent>>) -> (applied:
        Result<(), TransportError>)
        requires
            old(self).fb.wf(),
        ensures
            final(self).fb.wf(),
            applied is Ok ==> spec_host_screen(
                &old(self).fb,
                &final(self).fb,
                hostinput::spec_host_message_decode(diff@)->Some_0.instruction,
                events@,
            ),
            match applied {
                Ok(()) => spec_host_apply(old(self).echo_ack, diff@, events@.len()) == Ok::<
                    u64,
                    TransportError,
                >(final(self).echo_ack),
                Err(e) => spec_host_apply(old(self).echo_ack, diff@, events@.len()) == Err::<
                    u64,
                    TransportError,
                >(e),
            },
    {
        let message = match hostinput::HostMessage::decode(diff) {
            Ok(m) => m,
            Err(_) => {
                return Err(TransportError::BadHostDiff);
            },
        };
        let ghost list = message@.instruction;
        let ghost start = self.echo_ack;
        let ghost chunks = events@.len();
        let mut used: usize = 0;
        let mut i: usize = 0;
        let ghost mut states: Seq<Framebuffer> = seq![self.fb];
        while i < message.instruction.len()
            invariant
                i <= message.instruction@.len(),
                list == message@.instruction,
                chunks == events@.len(),
                hostinput::spec_host_message_decode(diff@) == Some(message@),
                start == old(self).echo_ack,
                self.fb.wf(),
                used <= chunks,
                used == spec_host_chunks(list, i as nat).len(),
                spec_host_screens(states, list, events@, i as nat),
                states[0] == old(self).fb,
                states.last() == self.fb,
                spec_host_steps(start, list, i as nat, chunks) == Ok::<(u64, nat), TransportError>(
                    (self.echo_ack, used as nat),
                ),
            decreases message.instruction@.len() - i,
        {
            let inst = &message.instruction[i];
            assert(list[i as int] == inst@);
            let ghost earlier = states;
            proof {
                if spec_host_steps(start, list, (i + 1) as nat, chunks) is Err {
                    lemma_host_steps_error(start, list, (i + 1) as nat, list.len(), chunks);
                }
            }
            used = match self.apply_instruction(inst, events, used) {
                Ok(next) => next,
                Err(e) => {
                    return Err(e);
                },
            };
            proof {
                states = earlier.push(self.fb);
                assert forall|k: int| 0 <= k < i + 1 implies spec_host_screen_step(
                    &#[trigger] states[k],
                    &states[k + 1],
                    list[k],
                    spec_chunk_for(list, events@, k),
                ) by {
                    if k < i {
                        assert(spec_host_screen_step(
                            &earlier[k],
                            &earlier[k + 1],
                            list[k],
                            spec_chunk_for(list, events@, k),
                        ));
                    }
                }
            }
            i = i + 1;
        }
        Ok(())
    }

    /// Applies one instruction of the host, `used` of the parsed chunks
    /// having gone with the instructions before it: gives the number of
    /// chunks used after it, or the reason the instruction cannot be
    /// applied. The host octets are taken first, then the window size,
    /// then the echo acknowledgement.
    pub fn apply_instruction(
        &mut self,
        inst: &hostinput::Instruction,
        events: &Vec<Vec<TerminalEvent>>,
        used: usize,
    ) -> (done: Result<usize, TransportError>)
        requires
            old(self).fb.wf(),
            used <= events@.len(),
        ensures
            final(self).fb.wf(),
            match done {
                Ok(next) => spec_host_step((old(self).echo_ack, used as nat), inst@, events@.len())
                    == Ok::<(u64, nat), TransportError>((final(self).echo_ack, next as nat))
                    && next <= events@.len() && spec_host_screen_step(
                    &old(self).fb,
                    &final(self).fb,
                    inst@,
                    if spec_takes_chunk(inst@) && used < events@.len() {
                        events@[used as int]@
                    } else {
                        Seq::empty()
                    },
                ),
                Err(e) => spec_host_step((old(self).echo_ack, used as nat), inst@, events@.len())
                    == Err::<(u64, nat), TransportError>(e),
            },
    {
        let takes_chunk = match &inst.hostbytes {
            Some(h) => h.hoststring.is_some(),
            None => false,
        };
        if takes_chunk && used >= events.len() {
            return Err(TransportError::BadHostDiff);
        }
        let size: Option<(i32, i32)> = match &inst.resize {
            Some(r) => match (r.width, r.height) {
                (Some(w), Some(h)) => Some((w, h)),
                _ => {
                    return Err(TransportError::BadHostDiff);
                },
            },
            None => None,
        };
        let ack: Option<u64> = match &inst.echoack {
            Some(e) => e.echo_ack_num,
            None => None,
        };
        match ack {
            Some(n) => {
                if n < self.echo_ack {
                    return Err(TransportError::EchoAckRegression);
                }
            },
            None => {},
        }
        let ghost chunk = if spec_takes_chunk(inst@) && used < events@.len() {
            events@[used as int]@
        } else {
            Seq::empty()
        };
        let mut next = used;
        if takes_chunk {
            self.fb.apply_events(&events[used]);
            next = used + 1;
        }
        let ghost drawn = self.fb;
        match size {
            Some((w, h)) => {
                if w > 0 && h > 0 {
                    self.fb.resize(w as usize, h as usize);
                }
            },
            None => {},
        }
        assert(spec_chunk_drawn(&old(self).fb, &drawn, inst@, chunk) && spec_size_taken(
            &drawn,
            &self.fb,
            inst@,
        ));
        match ack {
            Some(n) => {
                self.echo_ack = n;
            },
            None => {},
        }
        Ok(next)
    }
}

/// The index of the first received state from `i` on whose number is above
/// `bound`; the length of the queue where there is none.
pub open spec fn spec_first_received_above(
    queue: Seq<ReceivedStateView>,
    bound: u64,
    i: int,
) -> int
    decreases queue.len() - i,
{
    if 0 <= i < queue.len() && queue[i].num <= bound {
        spec_first_received_above(queue, bound, i + 1)
    } else {
        i
    }
}

/// The index of the first received state from `i` on with the given
/// number; the length of the queue where there is none.
pub open spec fn spec_find_received(queue: Seq<ReceivedStateView>, num: u64, i: int) -> int
    decreases queue.len() - i,
{
    if 0 <= i < queue.len() && queue[i].num != num {
        spec_find_received(queue, num, i + 1)
    } else {
        i
    }
}

/// The number that an instruction leaves out stands for zero.
pub open spec fn spec_or_zero(n: Option<u64>) -> u64 {
    match n {
        Some(v) => v,
        None => 0,
    }
}

impl TransportView {
    /// The transport with one more received state, put in the queue by its
    /// number, and what became of it. The latest state in the queue is
    /// acknowledged from now on, at once if the new state brought data; a
    /// new state that is the latest is noted as a change.
    #[verifier::opaque]
    pub open spec fn insert_state(self, entry: ReceivedStateView, had_diff: bool) -> (
        TransportView,
        Accepted,
    ) {
        let q = self.received_states;
        let at = spec_first_received_above(q, entry.num, 0);
        let queue = q.insert(at, entry);
        (
            TransportView {
                received_states: queue,
                ack_num: queue.last().num,
                pending_data_ack: self.pending_data_ack || had_diff,
                remote_state_changed: self.remote_state_changed || queue.last().num
                    > q.last().num,
                ..self
            },
            if at < q.len() {
                Accepted::OutOfOrder
            } else {
                Accepted::Latest
            },
        )
    }

    /// The transport after the diff of an instruction is applied to a
    /// starting state with the given echo acknowledgement and the state
    /// that it leads to is put in the queue, and what became of it.
    #[verifier::opaque]
    pub open spec fn place_state(
        self,
        reference_echo_ack: u64,
        ti: InstructionView,
        chunks: nat,
        now: u64,
    ) -> (TransportView, Result<Accepted, TransportError>) {
        let diff = match ti.diff {
            Some(d) => d,
            None => Seq::empty(),
        };
        let had_diff = diff.len() > 0;
        let applied = if had_diff {
            spec_host_apply(reference_echo_ack, diff, chunks)
        } else {
            Ok(reference_echo_ack)
        };
        match applied {
            Err(e) => (self, Err(e)),
            Ok(echo_ack) => {
                let (s4, done) = self.insert_state(
                    ReceivedStateView {
                        timestamp: now,
                        num: spec_or_zero(ti.new_num),
                        echo_ack,
                    },
                    had_diff,
                );
                (s4, Ok(done))
            },
        }
    }

    /// The transport after the state that an instruction leads to is made
    /// from a starting state with the given echo acknowledgement, and what
    /// became of it. The received states below the throwaway number are
    /// dropped, of which one at least must stay; a queue of more than 1024
    /// states quenches arrivals for fifteen seconds; the diff is applied,
    /// and the new state is put in the queue.
    #[verifier::opaque]
    pub open spec fn enqueue_from(
        self,
        reference_echo_ack: u64,
        ti: InstructionView,
        chunks: nat,
        now: u64,
    ) -> (TransportView, Result<Accepted, TransportError>) {
        let q1 = self.received_states;
        let new_num = spec_or_zero(ti.new_num);
        let k = spec_first_received_at_least(q1, spec_or_zero(ti.throwaway_num), 0);
        if k >= q1.len() {
            (self, Err(TransportError::QueueUnderflow))
        } else {
            let s2 = TransportView { received_states: q1.skip(k), ..self };
            let quenched = s2.received_states.len() > RECEIVED_QUEUE_LIMIT;
            if quenched && s2.receiver_quench_until is Some && now
                < s2.receiver_quench_until->Some_0 {
                (s2, Ok(Accepted::Quenched))
            } else {
                let s3 = if quenched {
                    TransportView {
                        receiver_quench_until: Some(spec_later(now, RECEIVER_QUENCH_MS)),
                        ..s2
                    }
                } else {
                    s2
                };
                s3.place_state(reference_echo_ack, ti, chunks, now)
            }
        }
    }

    /// The transport after an instruction of the peer is taken at `now`,
    /// and what became of the instruction. `chunks` is the number of
    /// parsed chunks of host octets that go with its diff.
    ///
    /// The acknowledgement is processed. An instruction whose state is in
    /// the queue, or whose starting state is not, changes nothing more.
    /// Else the new state is made from the starting state and put in the
    /// queue, as `enqueue_from` says.
    pub open spec fn accept_instruction(self, ti: InstructionView, chunks: nat, now: u64) -> (
        TransportView,
        Result<Accepted, TransportError>,
    ) {
        let s1 = self.process_acknowledgment_through(spec_or_zero(ti.ack_num));
        let q1 = s1.received_states;
        let reference = spec_find_received(q1, spec_or_zero(ti.old_num), 0);
        if spec_find_received(q1, spec_or_zero(ti.new_num), 0) < q1.len() {
            (s1, Ok(Accepted::Duplicate))
        } else if reference >= q1.len() {
            (s1, Ok(Accepted::ReferenceMissing))
        } else {
            s1.enqueue_from(q1[reference].echo_ack, ti, chunks, now)
        }
    }
}

/// Where a number is first found in a queue of received states, no state
/// before has it; where it is not found, no state has it.
pub proof fn lemma_find_received(queue: Seq<ReceivedStateView>, num: u64, i: int)
    requires
        0 <= i <= queue.len(),
    ensures
        i <= spec_find_received(queue, num, i) <= queue.len(),
        forall|a: int| i <= a < spec_find_received(queue, num, i) ==> (#[trigger] queue[a]).num != num,
        spec_find_received(queue, num, i) < queue.len() ==> queue[spec_find_received(
            queue,
            num,
            i,
        )].num == num,
    decreases queue.len() - i,
{
    if i < queue.len() && queue[i].num != num {
        lemma_find_received(queue, num, i + 1);
    }
}

/// In a queue in order, the states before the first whose number is not
/// below `bound` are exactly those whose number is below it.
pub proof fn lemma_first_received_at_least(queue: Seq<ReceivedStateView>, bound: u64, i: int)
    requires
        0 <= i <= queue.len(),
        forall|a: int, b: int|
            0 <= a < b < queue.len() ==> (#[trigger] queue[a]).num < (#[trigger] queue[b]).num,
    ensures
        i <= spec_first_received_at_least(queue, bound, i) <= queue.len(),
        forall|a: int|
            i <= a < spec_first_received_at_least(queue, bound, i) ==> (#[trigger] queue[a]).num
                < bound,
        forall|a: int|
            spec_first_received_at_least(queue, bound, i) <= a < queue.len() ==> (
            #[trigger] queue[a]).num >= bound,
    decreases queue.len() - i,
{
    if i < queue.len() && queue[i].num < bound {
        lemma_first_received_at_least(queue, bound, i + 1);
    } else {
        assert forall|a: int| i <= a < queue.len() implies (#[trigger] queue[a]).num >= bound by {
            if a > i {
                assert(queue[i].num < queue[a].num);
            }
        }
    }
}

/// In a queue in order, the states before the first whose number is above
/// `bound` are exactly those whose number is not above it.
pub proof fn lemma_first_received_above(queue: Seq<ReceivedStateView>, bound: u64, i: int)
    requires
        0 <= i <= queue.len(),
        forall|a: int, b: int|
            0 <= a < b < queue.len() ==> (#[trigger] queue[a]).num < (#[trigger] queue[b]).num,
    ensures
        i <= spec_first_received_above(queue, bound, i) <= queue.len(),
        forall|a: int|
            i <= a < spec_first_received_above(queue, bound, i) ==> (#[trigger] queue[a]).num
                <= bound,
        forall|a: int|
            spec_first_received_above(queue, bound, i) <= a < queue.len() ==> (
            #[trigger] queue[a]).num > bound,
    decreases queue.len() - i,
{
    if i < queue.len() && queue[i].num <= bound {
        lemma_first_received_above(queue, bound, i + 1);
    } else {
        assert forall|a: int| i <= a < queue.len() implies (#[trigger] queue[a]).num > bound by {
            if a > i {
                assert(queue[i].num < queue[a].num);
            }
        }
    }
}

/// A queue of received states in order stays in order when a state is put
/// in where its number belongs, if no state has that number yet.
pub proof fn lemma_received_insert(queue: Seq<ReceivedStateView>, entry: ReceivedStateView)
    requires
        forall|a: int, b: int|
            0 <= a < b < queue.len() ==> (#[trigger] queue[a]).num < (#[trigger] queue[b]).num,
        forall|a: int| 0 <= a < queue.len() ==> (#[trigger] queue[a]).num != entry.num,
    ensures
        ({
            let at = spec_first_received_above(queue, entry.num, 0);
            let r = queue.insert(at, entry);
            &&& 0 <= at <= queue.len()
            &&& forall|a: int, b: int|
                0 <= a < b < r.len() ==> (#[trigger] r[a]).num < (#[trigger] r[b]).num
        }),
{
    lemma_first_received_above(queue, entry.num, 0);
    let at = spec_first_received_above(queue, entry.num, 0);
    let r = queue.insert(at, entry);
    assert forall|a: int, b: int| 0 <= a < b < r.len() implies (#[trigger] r[a]).num < (
    #[trigger] r[b]).num by {
        let x = if a < at {
            a
        } else {
            a - 1
        };
        let y = if b < at {
            b
        } else {
            b - 1
        };
        if a == at {
            assert(r[b] == queue[y]);
            assert(queue[y].num > entry.num);
        } else if b == at {
            assert(r[a] == queue[x]);
            assert(queue[x].num <= entry.num);
            assert(queue[x].num != entry.num);
        } else {
            assert(r[a] == queue[x] && r[b] == queue[y]);
            assert(queue[x].num < queue[y].num);
        }
    }
}

impl Transport {
    /// The index of the first received state with the given number; the
    /// length of the queue where there is none.
    pub fn find_received(&self, num: u64) -> (at: usize)
        ensures
            at == spec_find_received(self@.received_states, num, 0),
            at <= self.received_states@.len(),
    {
        let n = self.received_states.len();
        let mut i: usize = 0;
        while i < n && self.received_states[i].num != num
            invariant
                n == self.received_states@.len(),
                i <= n,
                spec_find_received(self@.received_states, num, 0) == spec_find_received(
                    self@.received_states,
                    num,
                    i as int,
                ),
            decreases n - i,
        {
            assert(self@.received_states[i as int] == self.received_states@[i as int]@);
            i = i + 1;
        }
        proof {
            if i < n {
                assert(self@.received_states[i as int] == self.received_states@[i as int]@);
            }
        }
        i
    }

    /// The index of the first received state whose number is not below
    /// `bound`; the length of the queue where there is none.
    pub fn first_received_at_least(&self, bound: u64) -> (at: usize)
        ensures
            at == spec_first_received_at_least(self@.received_states, bound, 0),
            at <= self.received_states@.len(),
    {
        let n = self.received_states.len();
        let mut i: usize = 0;
        while i < n && self.received_states[i].num < bound
            invariant
                n == self.received_states@.len(),
                i <= n,
                spec_first_received_at_least(self@.received_states, bound, 0)
                    == spec_first_received_at_least(self@.received_states, bound, i as int),
            decreases n - i,
        {
            assert(self@.received_states[i as int] == self.received_states@[i as int]@);
            i = i + 1;
        }
        proof {
            if i < n {
                assert(self@.received_states[i as int] == self.received_states@[i as int]@);
            }
        }
        i
    }

    /// The index of the first received state whose number is above
    /// `bound`; the length of the queue where there is none.
    pub fn first_received_above(&self, bound: u64) -> (at: usize)
        ensures
            at == spec_first_received_above(self@.received_states, bound, 0),
            at <= self.received_states@.len(),
    {
        let n = self.received_states.len();
        let mut i: usize = 0;
        while i < n && self.received_states[i].num <= bound
            invariant
                n == self.received_states@.len(),
                i <= n,
                spec_first_received_above(self@.received_states, bound, 0)
                    == spec_first_received_above(self@.received_states, bound, i as int),
            decreases n - i,
        {
            assert(self@.received_states[i as int] == self.received_states@[i as int]@);
            i = i + 1;
        }
        proof {
            if i < n {
                assert(self@.received_states[i as int] == self.received_states@[i as int]@);
            }
        }
        i
    }

    /// Whether the transport differs from `other` in nothing but the queue
    /// of received states.
    pub open spec fn only_received(&self, other: &Transport) -> bool {
        self@ == (TransportView { received_states: self@.received_states, ..other@ })
            && self.assembly == other.assembly
    }

    /// Whether every received state was in the queue of `before` as it is
    /// now, with its number, its time and its screen, but for a new one
    /// numbered `new_num`.
    pub open spec fn received_from(&self, before: &Transport, new_num: Option<u64>) -> bool {
        forall|i: int|
            0 <= i < self.received_states@.len() ==> before.received_states@.contains(
                #[trigger] self.received_states@[i],
            ) || new_num == Some(self.received_states@[i].num)
    }

    /// Whether the received state numbered `num`, if there is one, has the
    /// screen `fb`.
    pub open spec fn shows_at(&self, num: u64, fb: &Framebuffer) -> bool {
        forall|i: int|
            0 <= i < self.received_states@.len() && (#[trigger] self.received_states@[i]).num
                == num ==> self.received_states@[i].state.fb == *fb
    }

    /// Whether the received state numbered `num`, if there is one, has
    /// the screen that a diff of the host makes of `start`.
    pub open spec fn shows_from(
        &self,
        num: u64,
        start: &Framebuffer,
        diff: Option<Seq<u8>>,
        events: Seq<Vec<TerminalEvent>>,
    ) -> bool {
        forall|i: int|
            0 <= i < self.received_states@.len() && (#[trigger] self.received_states@[i]).num
                == num ==> spec_diff_screen(start, &self.received_states@[i].state.fb, diff, events)
    }

    /// Throws away the received states below `throwaway_num`, as the peer
    /// allows. One state at least must stay: where none would, nothing is
    /// thrown away and `QueueUnderflow` is given.
    pub fn process_throwaway_until(&mut self, throwaway_num: u64) -> (thrown: Result<
        (),
        TransportError,
    >)
        requires
            old(self).wf(),
        ensures
            final(self).wf(),
            final(self).only_received(old(self)),
            ({
                let k = spec_first_received_at_least(old(self)@.received_states, throwaway_num, 0);
                if k >= old(self)@.received_states.len() {
                    thrown == Err::<(), TransportError>(TransportError::QueueUnderflow) && final(self).received_states@ == old(self).received_states@
                } else {
                    thrown is Ok && final(self).received_states@ == old(self).received_states@.skip(
                        k,
                    )
                }
            }),
            forall|i: int|
                0 <= i < final(self)@.received_states.len() ==> (
                #[trigger] final(self)@.received_states[i]).num >= throwaway_num || thrown is Err,
    {
        let ghost before = self@;
        let ghost orig = self.received_states@;
        proof {
            lemma_first_received_at_least(before.received_states, throwaway_num, 0);
        }
        let k = self.first_received_at_least(throwaway_num);
        if k >= self.received_states.len() {
            return Err(TransportError::QueueUnderflow);
        }
        let mut dropped: usize = 0;
        assert(orig.skip(0) =~= orig);
        while dropped < k
            invariant
                dropped <= k < orig.len(),
                orig == old(self).received_states@,
                self.received_states@ == orig.skip(dropped as int),
                self@ == (TransportView { received_states: self@.received_states, ..before }),
                self.assembly == old(self).assembly,
            decreases k - dropped,
        {
            self.received_states.remove(0);
            dropped = dropped + 1;
            assert(self.received_states@ =~= orig.skip(dropped as int));
        }
        proof {
            let q = self@.received_states;
            assert(q =~= before.received_states.skip(k as int));
            assert forall|a: int, b: int| 0 <= a < b < q.len() implies (#[trigger] q[a]).num < (
            #[trigger] q[b]).num by {
                assert(before.received_states[a + k].num < before.received_states[b + k].num);
            }
            assert forall|i: int| 0 <= i < self.received_states@.len() implies (
            #[trigger] self.received_states@[i]).state.fb.wf() by {
                assert(self.received_states@[i] == orig[i + k]);
            }
            assert forall|i: int| 0 <= i < q.len() implies (#[trigger] q[i]).num
                >= throwaway_num by {
                assert(q[i] == before.received_states[i + k]);
            }
        }
        Ok(())
    }

    /// Puts a received state in the queue by its number, which no state in
    /// the queue has.
    pub fn insert_state(&mut self, new_state: TimestampedRemoteState, had_diff: bool) -> (done:
        Accepted)
        requires
            old(self).wf(),
            new_state.state.fb.wf(),
            forall|a: int|
                0 <= a < old(self)@.received_states.len() ==> (
                #[trigger] old(self)@.received_states[a]).num != new_state.num,
        ensures
            final(self).wf(),
            final(self).assembly == old(self).assembly,
            (final(self)@, done) == old(self)@.insert_state(new_state@, had_diff),
            spec_enqueued(Ok(done)),
            final(self).received_from(old(self), Some(new_state.num)),
            final(self).shows_at(new_state.num, &new_state.state.fb),
            final(self)@.sent_states == old(self)@.sent_states,
            final(self)@.next_seq == old(self)@.next_seq,
            final(self)@.fragmenter == old(self)@.fragmenter,
            final(self)@.shutdown_in_progress == old(self)@.shutdown_in_progress,
    {
        reveal(TransportView::insert_state);
        let ghost q3 = self@.received_states;
        let ghost entry = new_state@;
        let new_num = new_state.num;
        proof {
            lemma_received_insert(q3, entry);
        }
        let at = self.first_received_above(new_num);
        let len = self.received_states.len();
        let prev_latest = self.received_states[len - 1].num;
        assert(q3.last() == self.received_states@[len - 1]@);
        let ghost rows = self.received_states@;
        let ghost placed = new_state;
        self.received_states.insert(at, new_state);
        proof {
            assert(self@.received_states =~= q3.insert(at as int, entry));
            assert forall|i: int| 0 <= i < self.received_states@.len() implies rows.contains(
                #[trigger] self.received_states@[i],
            ) || self.received_states@[i].num == placed.num by {
                if i < at {
                    assert(self.received_states@[i] == rows[i]);
                } else if i > at {
                    assert(self.received_states@[i] == rows[i - 1]);
                }
            }
            assert forall|i: int|
                0 <= i < self.received_states@.len() && (#[trigger] self.received_states@[i]).num
                    == placed.num implies self.received_states@[i].state.fb
                == placed.state.fb by {
                if i < at {
                    assert(self.received_states@[i] == rows[i]);
                    assert(q3[i] == rows[i]@);
                } else if i > at {
                    assert(self.received_states@[i] == rows[i - 1]);
                    assert(q3[i - 1] == rows[i - 1]@);
                }
            }
            assert forall|i: int| 0 <= i < self.received_states@.len() implies (
            #[trigger] self.received_states@[i]).state.fb.wf() by {
                if i < at {
                    assert(self.received_states@[i] == rows[i]);
                } else if i > at {
                    assert(self.received_states@[i] == rows[i - 1]);
                }
            }
        }
        let latest = self.received_states[len].num;
        assert(self@.received_states.last() == self.received_states@[len as int]@);
        self.ack_num = latest;
        if had_diff {
            self.pending_data_ack = true;
        }
        if latest > prev_latest {
            self.remote_state_changed = true;
        }
        if at < len {
            Accepted::OutOfOrder
        } else {
            Accepted::Latest
        }
    }

    /// Makes the state that an instruction leads to from a copy of its
    /// starting state, and puts it in the queue.
    pub fn enqueue_from(
        &mut self,
        reference: TimestampedRemoteState,
        ti: &Instruction,
        events: &Vec<Vec<TerminalEvent>>,
        now: u64,
    ) -> (done: Result<Accepted, TransportError>)
        requires
            old(self).wf(),
            reference.state.fb.wf(),
            forall|a: int|
                0 <= a < old(self)@.received_states.len() ==> (
                #[trigger] old(self)@.received_states[a]).num != spec_or_zero(ti@.new_num),
        ensures
            final(self).wf(),
            final(self).assembly == old(self).assembly,
            final(self)@ == old(self)@.enqueue_from(
                reference.state.echo_ack,
                ti@,
                events@.len() as nat,
                now,
            ).0,
            done == old(self)@.enqueue_from(
                reference.state.echo_ack,
                ti@,
                events@.len() as nat,
                now,
            ).1,
            final(self).received_from(
                old(self),
                if spec_enqueued(done) {
                    Some(spec_or_zero(ti@.new_num))
                } else {
                    None
                },
            ),
            spec_enqueued(done) ==> final(self).shows_from(
                spec_or_zero(ti@.new_num),
                &reference.state.fb,
                ti@.diff,
                events@,
            ),
            final(self)@.sent_states == old(self)@.sent_states,
            final(self)@.next_seq == old(self)@.next_seq,
            final(self)@.fragmenter == old(self)@.fragmenter,
            final(self)@.shutdown_in_progress == old(self)@.shutdown_in_progress,
    {
        reveal(TransportView::enqueue_from);
        let ghost q1 = self@.received_states;
        let new_num = match ti.new_num {
            Some(v) => v,
            None => 0,
        };
        let throwaway = match ti.throwaway_num {
            Some(v) => v,
            None => 0,
        };
        match self.process_throwaway_until(throwaway) {
            Ok(()) => {},
            Err(e) => {
                return Err(e);
            },
        }
        let ghost k = spec_first_received_at_least(q1, throwaway, 0);
        proof {
            lemma_first_received_at_least(q1, throwaway, 0);
            assert(self@.received_states =~= q1.skip(k));
        }
        if self.received_states.len() > RECEIVED_QUEUE_LIMIT {
            match self.receiver_quench_until {
                Some(until) => {
                    if now < until {
                        return Ok(Accepted::Quenched);
                    }
                },
                None => {},
            }
            self.receiver_quench_until = Some(later(now, RECEIVER_QUENCH_MS));
        }
        proof {
            let q3 = self@.received_states;
            assert forall|a: int| 0 <= a < q3.len() implies (#[trigger] q3[a]).num != new_num by {
                assert(q3[a] == q1[a + k]);
            }
        }
        self.place_state(reference, ti, events, now)
    }

    /// Applies the diff of an instruction to a copy of its starting state
    /// and puts the state that it leads to in the queue.
    pub fn place_state(
        &mut self,
        reference: TimestampedRemoteState,
        ti: &Instruction,
        events: &Vec<Vec<TerminalEvent>>,
        now: u64,
    ) -> (done: Result<Accepted, TransportError>)
        requires
            old(self).wf(),
            reference.state.fb.wf(),
            forall|a: int|
                0 <= a < old(self)@.received_states.len() ==> (
                #[trigger] old(self)@.received_states[a]).num != spec_or_zero(ti@.new_num),
        ensures
            final(self).wf(),
            final(self).assembly == old(self).assembly,
            final(self)@ == old(self)@.place_state(
                reference.state.echo_ack,
                ti@,
                events@.len() as nat,
                now,
            ).0,
            done == old(self)@.place_state(
                reference.state.echo_ack,
                ti@,
                events@.len() as nat,
                now,
            ).1,
            done is Err ==> final(self).received_states@ == old(self).received_states@,
            done is Ok ==> spec_enqueued(done) && final(self).received_from(
                old(self),
                Some(spec_or_zero(ti@.new_num)),
            ),
            done is Ok ==> final(self).shows_from(
                spec_or_zero(ti@.new_num),
                &reference.state.fb,
                ti@.diff,
                events@,
            ),
            final(self)@.sent_states == old(self)@.sent_states,
            final(self)@.next_seq == old(self)@.next_seq,
            final(self)@.fragmenter == old(self)@.fragmenter,
            final(self)@.shutdown_in_progress == old(self)@.shutdown_in_progress,
    {
        reveal(TransportView::place_state);
        let new_num = match ti.new_num {
            Some(v) => v,
            None => 0,
        };
        let ghost start = reference.state.fb;
        let mut new_state = reference;
        new_state.timestamp = now;
        new_state.num = new_num;
        let had_diff = match &ti.diff {
            Some(d) => d.len() > 0,
            None => false,
        };
        if had_diff {
            match &ti.diff {
                Some(d) => {
                    match new_state.state.apply_string(d.as_slice(), events) {
                        Ok(()) => {},
                        Err(e) => {
                            return Err(e);
                        },
                    }
                },
                None => {},
            }
        }
        assert(spec_diff_screen(&start, &new_state.state.fb, ti@.diff, events@));
        Ok(self.insert_state(new_state, had_diff))
    }

    /// Takes an instruction of the peer at `now`. `events` holds, for each
    /// chunk of host octets in its diff, what a VT parser makes of it.
    pub fn accept_instruction(
        &mut self,
        ti: &Instruction,
        events: &Vec<Vec<TerminalEvent>>,
        now: u64,
    ) -> (done: Result<Accepted, TransportError>)
        requires
            old(self).wf(),
        ensures
            final(self).wf(),
            final(self).assembly == old(self).assembly,
            final(self)@ == old(self)@.accept_instruction(ti@, events@.len() as nat, now).0,
            done == old(self)@.accept_instruction(ti@, events@.len() as nat, now).1,
            old(self)@.can_send() ==> final(self)@.can_send(),
            final(self).received_from(
                old(self),
                if spec_enqueued(done) {
                    Some(spec_or_zero(ti@.new_num))
                } else {
                    None
                },
            ),
            spec_enqueued(done) ==> forall|i: int, m: int|
                0 <= i < final(self).received_states@.len() && 0 <= m < old(self).received_states@.len() && (
                #[trigger] final(self).received_states@[i]).num == spec_or_zero(ti@.new_num) && (
                #[trigger] old(self).received_states@[m]).num == spec_or_zero(ti@.old_num)
                    ==> spec_leads_to(
                    &old(self).received_states@[m].state.fb,
                    &final(self).received_states@[i].state.fb,
                    ti@.diff,
                    events@,
                ),
    {
        let ack = match ti.ack_num {
            Some(v) => v,
            None => 0,
        };
        let new_num = match ti.new_num {
            Some(v) => v,
            None => 0,
        };
        let old_num = match ti.old_num {
            Some(v) => v,
            None => 0,
        };
        self.process_acknowledgment_through(ack);
        let ghost q1 = self@.received_states;
        proof {
            lemma_find_received(q1, new_num, 0);
            lemma_find_received(q1, old_num, 0);
        }
        let n = self.received_states.len();
        if self.find_received(new_num) < n {
            return Ok(Accepted::Duplicate);
        }
        let reference = self.find_received(old_num);
        if reference >= n {
            return Ok(Accepted::ReferenceMissing);
        }
        let copy = self.received_states[reference].clone();
        assert(q1[reference as int] == self.received_states@[reference as int]@);
        let ghost rows = self.received_states@;
        let ghost shown = copy.state.fb;
        let done = self.enqueue_from(copy, ti, events, now);
        proof {
            assert forall|m: int|
                0 <= m < rows.len() && (#[trigger] rows[m]).num == old_num implies m
                == reference by {
                assert(q1[m] == rows[m]@);
                if m < reference {
                    assert(q1[m].num < q1[reference as int].num);
                } else if m > reference {
                    assert(q1[reference as int].num < q1[m].num);
                }
            }
            assert(shown.same_as(&rows[reference as int].state.fb));
            if spec_enqueued(done) {
                assert forall|i: int, m: int|
                    0 <= i < self.received_states@.len() && 0 <= m < rows.len() && (
                    #[trigger] self.received_states@[i]).num == new_num && (#[trigger] rows[m]).num
                        == old_num implies spec_leads_to(
                    &rows[m].state.fb,
                    &self.received_states@[i].state.fb,
                    ti@.diff,
                    events@,
                ) by {
                    assert(shown.same_as(&rows[m].state.fb) && spec_diff_screen(
                        &shown,
                        &self.received_states@[i].state.fb,
                        ti@.diff,
                        events@,
                    ));
                }
            }
        }
        done
    }
}

/// Whether the transport, during a shutdown, has had its goodbye
/// acknowledged.
pub open spec fn spec_shutdown_acknowledged(s: TransportView) -> bool {
    s.shutdown_in_progress && s.sent_states[0].num == GOODBYE
}

/// The queue of sent states keeps to its limit, whatever the number of the
/// state that is added: a queue of at most 32 states has at most 32
/// afterwards, the acknowledged state first and the new state last. A
/// queue of fewer than 32 states loses none; a full one loses the state at
/// index 17 and no other, and the others keep their order.
pub proof fn lemma_sent_queue_cap(s: TransportView, timestamp: u64, num: u64)
    requires
        1 <= s.sent_states.len() <= SENT_QUEUE_LIMIT,
    ensures
        ({
            let q = s.sent_states;
            let r = s.add_sent_state(timestamp, num).sent_states;
            let entry = SentStateView { timestamp, num, state: s.current_state };
            &&& 1 <= r.len() <= SENT_QUEUE_LIMIT
            &&& r[0] == q[0]
            &&& r.last() == entry
            &&& q.len() < SENT_QUEUE_LIMIT ==> r == q.push(entry)
            &&& q.len() == SENT_QUEUE_LIMIT ==> {
                &&& r.len() == SENT_QUEUE_LIMIT
                &&& forall|i: int| 0 <= i < 17 ==> #[trigger] r[i] == q[i]
                &&& forall|i: int| 17 <= i < 31 ==> #[trigger] r[i] == q[i + 1]
            }
        }),
{
}

/// The queue of sent states is in order: the number of the acknowledged
/// state is at most that of the assumed state, which is at most that of the
/// state last sent; the numbers go up along the queue, strictly below the
/// goodbye, which alone may be repeated at the end; and the queue holds at
/// most 32 states.
pub proof fn lemma_sender_queue_order(s: TransportView)
    requires
        s.sender_wf(),
    ensures
        s.sent_states[0].num <= s.sent_states[s.assumed_receiver_state as int].num,
        s.sent_states[s.assumed_receiver_state as int].num <= s.sent_states.last().num,
        forall|i: int, j: int|
            0 <= i < j < s.sent_states.len() ==> (#[trigger] s.sent_states[i]).num <= (
            #[trigger] s.sent_states[j]).num,
        forall|i: int, j: int|
            0 <= i < j < s.sent_states.len() && (#[trigger] s.sent_states[j]).num < GOODBYE ==> (
            #[trigger] s.sent_states[i]).num < s.sent_states[j].num,
        s.sent_states.last().num < GOODBYE ==> forall|i: int, j: int|
            0 <= i < j < s.sent_states.len() ==> (#[trigger] s.sent_states[i]).num < (
            #[trigger] s.sent_states[j]).num,
        s.sent_states.len() <= SENT_QUEUE_LIMIT,
{
    let q = s.sent_states;
    let a = s.assumed_receiver_state as int;
    let last = q.len() - 1;
    if 0 < a {
        assert(q[0].num < q[a].num || q[a].num == GOODBYE);
    }
    if a < last {
        assert(q[a].num < q[last].num || q[last].num == GOODBYE);
    }
    assert forall|i: int, j: int| 0 <= i < j < q.len() implies (#[trigger] q[i]).num <= (
    #[trigger] q[j]).num by {
        assert(q[i].num < q[j].num || q[j].num == GOODBYE);
    }
    if q[last].num < GOODBYE {
        assert forall|i: int, j: int| 0 <= i < j < q.len() implies (#[trigger] q[i]).num < (
        #[trigger] q[j]).num by {
            assert(q[i].num < q[j].num || q[j].num == GOODBYE);
            if j < last {
                assert(q[j].num < q[last].num || q[last].num == GOODBYE);
            }
        }
    }
}

/// The queue of received states is never empty, is in order of the
/// numbers, and holds no number twice.
pub proof fn lemma_receiver_queue_order(s: TransportView)
    requires
        s.receiver_wf(),
    ensures
        s.received_states.len() >= 1,
        forall|i: int, j: int|
            0 <= i < j < s.received_states.len() ==> (#[trigger] s.received_states[i]).num < (
            #[trigger] s.received_states[j]).num,
        forall|i: int, j: int|
            0 <= i < s.received_states.len() && 0 <= j < s.received_states.len() && i != j ==> (
            #[trigger] s.received_states[i]).num != (#[trigger] s.received_states[j]).num,
{
    let q = s.received_states;
    assert forall|i: int, j: int| 0 <= i < q.len() && 0 <= j < q.len() && i != j implies (
    #[trigger] q[i]).num != (#[trigger] q[j]).num by {
        if i < j {
            assert(q[i].num < q[j].num);
        } else {
            assert(q[j].num < q[i].num);
        }
    }
}

/// A shutdown ends once the peer acknowledges the goodbye: where the
/// goodbye is among the sent states, its acknowledgement makes it the
/// acknowledged state, and the shutdown counts as acknowledged.
pub proof fn lemma_goodbye_acknowledged(s: TransportView)
    requires
        s.sender_wf(),
        s.shutdown_in_progress,
        s.has_sent(GOODBYE),
    ensures
        spec_shutdown_acknowledged(s.process_acknowledgment_through(GOODBYE)),
{
    lemma_acknowledgment_drops_smaller(s, GOODBYE);
    let t = s.process_acknowledgment_through(GOODBYE);
    assert(t.sent_states[0].num >= GOODBYE);
}

/// Calls `format!` to get the text that a `std::io::Error` displays.
/// Nothing is claimed of the result.
#[verifier::external_body]
fn socket_error_text(err: &std::io::Error) -> (text: String) {
    format!("{}", err)
}

/// The reason given where the peer has closed the session unexpectedly:
/// the text of the socket error, in brackets after a few words.
pub open spec fn spec_close_reason(text: Seq<char>) -> Seq<char> {
    "remote host closed session ("@ + text + ")"@
}

impl TransportView {
    /// Whether a close of the session by the peer is expected: the shutdown
    /// is in progress, or the peer has said goodbye.
    pub open spec fn graceful(self) -> bool {
        self.shutdown_in_progress || self.ack_num == GOODBYE
    }

    /// The transport after the peer has closed the session on a socket
    /// error with the given text. The reason noted is that the server
    /// closed the session, where that was expected, and else the text of
    /// the error. A reason noted before stays.
    pub open spec fn remote_closed_on(self, text: Seq<char>) -> TransportView {
        TransportView {
            remote_closed: if self.remote_closed is Some {
                self.remote_closed
            } else if self.graceful() {
                Some("server closed the session"@)
            } else {
                Some(spec_close_reason(text))
            },
            ..self
        }
    }
}

impl Transport {
    /// Notes that the peer has closed the session on a socket error with
    /// the given text.
    pub fn note_remote_closed(&mut self, text: &str)
        ensures
            final(self)@ == old(self)@.remote_closed_on(text@),
            final(self).same_screens(old(self)),
            old(self).wf() ==> final(self).wf(),
    {
        if self.remote_closed.is_none() {
            let graceful = self.shutdown_in_progress || self.ack_num == GOODBYE;
            if graceful {
                self.remote_closed = Some("server closed the session".to_owned());
            } else {
                let mut reason = "remote host closed session (".to_owned();
                reason.append(text);
                reason.append(")");
                self.remote_closed = Some(reason);
            }
        }
    }

    /// Notes that the peer has closed the session on the given socket
    /// error: does what `note_remote_closed` does with the text of the
    /// error.
    pub fn mark_remote_closed(&mut self, err: &std::io::Error)
        ensures
            exists|text: Seq<char>| final(self)@ == #[trigger] old(self)@.remote_closed_on(text),
            final(self).same_screens(old(self)),
            old(self).wf() ==> final(self).wf(),
    {
        let text = socket_error_text(err);
        self.note_remote_closed(text.as_str());
    }
}

} // verus!
