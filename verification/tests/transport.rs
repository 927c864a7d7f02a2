use mosh_client::crypto::{make_nonce, Base64Key, Direction, Session};
use mosh_client::network::{Fragment, Packet};
use mosh_client::terminal::TerminalEvent;
use mosh_client::transport::proto::hostinput;
use mosh_client::transport::proto::transportinstruction::Instruction;
use mosh_client::transport::{
    host_strings, is_remote_close_error, is_remote_close_kind, make_chaff, rtt_sample, Accepted,
    RttSummary, SocketErrorKind, Transport, TransportError, MOSH_PROTOCOL_VERSION,
    SHUTDOWN_RETRIES,
};
use std::io::{Read, Write};

struct Recorder {
    events: Vec<TerminalEvent>,
}

impl vte::Perform for Recorder {
    fn print(&mut self, c: char) {
        self.events.push(TerminalEvent::Print(c));
    }

    fn execute(&mut self, byte: u8) {
        self.events.push(TerminalEvent::Execute(byte));
    }

    fn osc_dispatch(&mut self, params: &[&[u8]], _bell_terminated: bool) {
        self.events.push(TerminalEvent::Osc {
            strings: params.iter().map(|p| p.to_vec()).collect(),
        });
    }

    fn csi_dispatch(
        &mut self,
        params: &vte::Params,
        intermediates: &[u8],
        _ignore: bool,
        action: char,
    ) {
        self.events.push(TerminalEvent::Csi {
            params: params.iter().flat_map(|sub| sub.iter().copied()).collect(),
            intermediates: intermediates.to_vec(),
            action,
        });
    }

    fn esc_dispatch(&mut self, intermediates: &[u8], _ignore: bool, byte: u8) {
        self.events.push(TerminalEvent::Esc { intermediates: intermediates.to_vec(), byte });
    }
}

fn parse_chunks(chunks: &[Vec<u8>]) -> Vec<Vec<TerminalEvent>> {
    let mut parser = vte::Parser::new();
    let mut out = Vec::new();
    for chunk in chunks {
        let mut recorder = Recorder { events: Vec::new() };
        for &byte in chunk {
            parser.advance(&mut recorder, byte);
        }
        out.push(recorder.events);
    }
    out
}

const START: u64 = 1_000;

fn test_transport() -> (Transport, Base64Key) {
    let key = Base64Key::from_str("AAAAAAAAAAAAAAAAAAAAAA").unwrap();
    let transport = Transport::new(&key, Direction::ToServer, 80, 24, START);
    (transport, key)
}

fn zlib(data: &[u8]) -> Vec<u8> {
    let mut encoder =
        flate2::write::ZlibEncoder::new(Vec::new(), flate2::Compression::default());
    encoder.write_all(data).unwrap();
    encoder.finish().unwrap()
}

fn unzlib(data: &[u8]) -> Vec<u8> {
    let mut out = Vec::new();
    flate2::read::ZlibDecoder::new(data).read_to_end(&mut out).unwrap();
    out
}

fn build_server_datagram(key: &Base64Key, seq: u64, instruction: Instruction) -> Vec<u8> {
    let encoded = instruction.encode_to_vec();
    let compressed = zlib(&encoded);
    let fragment = Fragment { id: 1 + seq, fragment_num: 0, is_final: true, contents: compressed };
    let packet = Packet { timestamp: 1234, timestamp_reply: u16::MAX, payload: fragment.to_bytes() };
    let session = Session::new(key).unwrap();
    let nonce = make_nonce(Direction::ToClient, seq);
    session.encrypt(&nonce, &packet.to_bytes()).unwrap()
}

fn host_diff(bytes: &[u8]) -> Vec<u8> {
    let msg = hostinput::HostMessage {
        instruction: vec![hostinput::Instruction {
            hostbytes: Some(hostinput::HostBytes { hoststring: Some(bytes.to_vec()) }),
            resize: None,
            echoack: None,
        }],
    };
    msg.encode_to_vec()
}

fn instruction(old: u64, new: u64, ack: u64, throwaway: u64, diff: Vec<u8>) -> Instruction {
    Instruction {
        protocol_version: Some(MOSH_PROTOCOL_VERSION),
        old_num: Some(old),
        new_num: Some(new),
        ack_num: Some(ack),
        throwaway_num: Some(throwaway),
        diff: Some(diff),
        chaff: None,
    }
}

fn process_datagram(
    transport: &mut Transport,
    datagram: &[u8],
    now: u64,
) -> Result<Option<Accepted>, TransportError> {
    let got = transport.receive_datagram(datagram, now, 1300)?;
    match got.instruction {
        None => Ok(None),
        Some(ti) => {
            let diff = ti.diff.clone().unwrap_or_default();
            let chunks = if diff.is_empty() { Vec::new() } else { host_strings(&diff)? };
            let events = parse_chunks(&chunks);
            transport.accept_instruction(&ti, &events, now).map(Some)
        }
    }
}

/// Opens the datagrams of one instruction as the server would.
fn read_client_datagrams(key: &Base64Key, datagrams: &[Vec<u8>]) -> (Vec<u64>, Instruction) {
    let session = Session::new(key).unwrap();
    let mut seqs = Vec::new();
    let mut assembly = mosh_client::network::FragmentAssembly::new();
    let mut done = None;
    for d in datagrams {
        let (nonce, cleartext) = session.decrypt(d).unwrap();
        let wire: [u8; 8] = nonce[4..].try_into().unwrap();
        let (direction, seq) = mosh_client::crypto::parse_nonce(&wire);
        assert_eq!(direction, Direction::ToServer);
        seqs.push(seq);
        let packet = Packet::from_bytes(&cleartext).unwrap();
        let fragment = Fragment::from_bytes(&packet.payload).unwrap();
        done = assembly.add_fragment(fragment);
    }
    let ti = Instruction::decode(&unzlib(&done.unwrap())).unwrap();
    (seqs, ti)
}

#[test]
fn empty_ack_creates_new_state_number() {
    let (mut transport, key) = test_transport();
    assert_eq!(transport.sent_states.len(), 1);

    let datagrams = transport.tick(START, 7).unwrap();

    assert_eq!(transport.sent_states.len(), 2);
    assert_eq!(transport.sent_states.last().unwrap().num, 1);
    assert_eq!(datagrams.len(), 1);
    let (seqs, ti) = read_client_datagrams(&key, &datagrams);
    assert_eq!(seqs, vec![0]);
    assert_eq!(ti.protocol_version, Some(2));
    assert_eq!(ti.new_num, Some(1));
    assert_eq!(ti.old_num, Some(0));
    assert_eq!(ti.ack_num, Some(0));
    assert_eq!(ti.throwaway_num, Some(0));
    assert_eq!(ti.diff, Some(Vec::new()));
    assert!(ti.chaff.unwrap().len() <= 16);
    assert_eq!(transport.next_ack_time, START + 3000);
    assert_eq!(transport.next_send_time, None);
    assert_eq!(transport.next_seq, 1);
}

#[test]
fn latest_received_state_updates_ack_num() {
    let (mut transport, key) = test_transport();
    let ti = instruction(0, 1, 0, 0, Vec::new());
    let datagram = build_server_datagram(&key, 0, ti);
    process_datagram(&mut transport, &datagram, START + 1).unwrap();

    assert_eq!(transport.ack_num, 1);
}

#[test]
fn accepts_state_from_older_base_when_reference_exists() {
    let (mut transport, key) = test_transport();

    let first = instruction(0, 1, 0, 0, host_diff(b"a"));
    let first_dgram = build_server_datagram(&key, 0, first);
    process_datagram(&mut transport, &first_dgram, START + 1).unwrap();

    let from_older_base = instruction(0, 2, 1, 0, host_diff(b"ab"));
    let second_dgram = build_server_datagram(&key, 1, from_older_base);
    process_datagram(&mut transport, &second_dgram, START + 2).unwrap();

    assert_eq!(transport.ack_num, 2);
    let fb = transport.latest_remote_framebuffer();
    assert_eq!(fb.cells[0][0].character, 'a');
    assert_eq!(fb.cells[0][1].character, 'b');
}

#[test]
fn drops_state_when_reference_missing() {
    let (mut transport, key) = test_transport();

    // Advance to state 1.
    let first = instruction(0, 1, 0, 0, host_diff(b"a"));
    let first_dgram = build_server_datagram(&key, 0, first);
    process_datagram(&mut transport, &first_dgram, START + 1).unwrap();

    // Advance to state 2 and discard state 0 via throwaway=1.
    let second = instruction(1, 2, 1, 1, host_diff(b"ab"));
    let second_dgram = build_server_datagram(&key, 1, second);
    process_datagram(&mut transport, &second_dgram, START + 2).unwrap();

    // Now reference to discarded state 0 should be ignored.
    let missing_ref = instruction(0, 3, 2, 1, host_diff(b"abc"));
    let third_dgram = build_server_datagram(&key, 2, missing_ref);
    let done = process_datagram(&mut transport, &third_dgram, START + 3).unwrap();

    assert_eq!(transport.ack_num, 2);
    assert_eq!(done, Some(Accepted::ReferenceMissing));
}

#[test]
fn inserts_out_of_order_states_without_rewinding_latest() {
    let (mut transport, key) = test_transport();

    let newer = instruction(0, 2, 0, 0, host_diff(b"ab"));
    let newer_dgram = build_server_datagram(&key, 0, newer);
    let done = process_datagram(&mut transport, &newer_dgram, START + 1).unwrap();
    assert_eq!(transport.ack_num, 2);
    assert_eq!(done, Some(Accepted::Latest));
    assert!(transport.take_remote_state_changed());
    assert!(!transport.take_remote_state_changed());

    let older = instruction(0, 1, 0, 0, host_diff(b"a"));
    let older_dgram = build_server_datagram(&key, 1, older);
    let done = process_datagram(&mut transport, &older_dgram, START + 2).unwrap();
    assert_eq!(done, Some(Accepted::OutOfOrder));

    assert_eq!(transport.ack_num, 2);
    assert_eq!(transport.received_states.len(), 3);
    assert_eq!(transport.received_states[0].num, 0);
    assert_eq!(transport.received_states[1].num, 1);
    assert_eq!(transport.received_states[2].num, 2);
    assert!(!transport.take_remote_state_changed());
    let fb = transport.latest_remote_framebuffer();
    assert_eq!(fb.cells[0][0].character, 'a');
    assert_eq!(fb.cells[0][1].character, 'b');
    assert_eq!(transport.received_states[1].state.fb.cells[0][1].character, ' ');
}

#[test]
fn start_shutdown_sends_terminal_state_number_max() {
    let (mut transport, _key) = test_transport();
    transport.start_shutdown(START);
    let send_iv = transport.send_interval_ms();
    transport.tick(START + send_iv + 1, 0).unwrap();

    assert!(transport.shutdown_in_progress());
    assert_eq!(transport.sent_states.last().unwrap().num, u64::MAX);
    assert_eq!(transport.shutdown_tries, 1);
}

#[test]
fn shutdown_timeout_after_retry_budget() {
    let (mut transport, _key) = test_transport();
    transport.start_shutdown(START);
    assert!(!transport.shutdown_ack_timed_out(START));
    transport.shutdown_tries = SHUTDOWN_RETRIES;
    assert!(transport.shutdown_ack_timed_out(START));
}

#[test]
fn remote_shutdown_sets_ack_and_sends_counterparty_ack() {
    let (mut transport, key) = test_transport();

    let first = instruction(0, 1, 0, 0, host_diff(b"a"));
    let first_dgram = build_server_datagram(&key, 0, first);
    process_datagram(&mut transport, &first_dgram, START + 1).unwrap();

    let shutdown = instruction(1, u64::MAX, 0, 0, Vec::new());
    let shutdown_dgram = build_server_datagram(&key, 1, shutdown);
    process_datagram(&mut transport, &shutdown_dgram, START + 2).unwrap();
    assert_eq!(transport.ack_num, u64::MAX);
    assert!(!transport.counterparty_shutdown_ack_sent());

    let send_iv = transport.send_interval_ms();
    transport.tick(START + 2 + send_iv + 1, 0).unwrap();
    assert!(transport.counterparty_shutdown_ack_sent());
}

#[test]
fn connection_reset_is_treated_as_remote_close() {
    let err = std::io::Error::new(std::io::ErrorKind::ConnectionReset, "reset");
    assert!(is_remote_close_error(&err));
}

#[test]
fn other_socket_errors_are_not_a_close() {
    for kind in [
        std::io::ErrorKind::HostUnreachable,
        std::io::ErrorKind::ConnectionAborted,
        std::io::ErrorKind::ConnectionRefused,
        std::io::ErrorKind::BrokenPipe,
    ] {
        assert!(is_remote_close_error(&std::io::Error::new(kind, "x")));
    }
    for kind in [
        std::io::ErrorKind::NotConnected,
        std::io::ErrorKind::WouldBlock,
        std::io::ErrorKind::TimedOut,
        std::io::ErrorKind::PermissionDenied,
    ] {
        assert!(!is_remote_close_error(&std::io::Error::new(kind, "x")));
    }
    assert!(is_remote_close_kind(SocketErrorKind::BrokenPipe));
    assert!(is_remote_close_kind(SocketErrorKind::HostUnreachable));
    assert!(!is_remote_close_kind(SocketErrorKind::WouldBlock));
    assert!(!is_remote_close_kind(SocketErrorKind::Other));
}

#[test]
fn remote_close_reason() {
    let (mut transport, _key) = test_transport();
    assert_eq!(transport.remote_close_reason(), None);
    let err = std::io::Error::new(std::io::ErrorKind::ConnectionReset, "reset");
    transport.mark_remote_closed(&err);
    assert_eq!(transport.remote_close_reason(), Some("remote host closed session (reset)"));
    // The first reason stays, and ticks do nothing from now on.
    transport.start_shutdown(START);
    transport.mark_remote_closed(&err);
    assert_eq!(transport.remote_close_reason(), Some("remote host closed session (reset)"));
    let before = transport.sent_states.len();
    assert!(transport.tick(START + 10_000, 0).unwrap().is_empty());
    assert_eq!(transport.sent_states.len(), before);

    let (mut graceful, _key) = test_transport();
    graceful.start_shutdown(START);
    graceful.mark_remote_closed(&err);
    assert_eq!(graceful.remote_close_reason(), Some("server closed the session"));
}

#[test]
fn rto_and_send_interval_are_clamped() {
    let summary = |a, b| RttSummary { srtt_plus_four_rttvar: a, half_srtt_ceil: b };
    assert_eq!(RttSummary::new().rto_ms(), 300);
    assert_eq!(RttSummary::new().send_interval(), 50);
    assert_eq!(summary(0, 0).rto_ms(), 50);
    assert_eq!(summary(49, 19).send_interval(), 20);
    assert_eq!(summary(50, 20).rto_ms(), 50);
    assert_eq!(summary(777, 123).rto_ms(), 777);
    assert_eq!(summary(777, 123).send_interval(), 123);
    assert_eq!(summary(1001, 251).rto_ms(), 1000);
    assert_eq!(summary(1001, 251).send_interval(), 250);
}

#[test]
fn rtt_sample_is_taken_modulo_65536() {
    assert_eq!(rtt_sample(100, 0xFFFF), None);
    assert_eq!(rtt_sample(1300, 1234), Some(66));
    assert_eq!(rtt_sample(5, 65530), Some(11));
    assert_eq!(rtt_sample(10_000, 1), Some(9_999));
    assert_eq!(rtt_sample(10_001, 1), None);
    assert_eq!(rtt_sample(0, 1), None);
}

#[test]
fn chaff_is_short() {
    let mut longest = 0;
    for _ in 0..200 {
        let chaff = make_chaff();
        assert!(chaff.len() <= 16);
        longest = longest.max(chaff.len());
    }
    assert!(longest > 0);
}

#[test]
fn input_is_sent_after_the_minimum_delay() {
    let (mut transport, key) = test_transport();
    // The first acknowledgement goes out at once.
    assert_eq!(transport.tick(START, 0).unwrap().len(), 1);
    transport.push_user_input(b"ls", START + 1);
    transport.push_resize(80, 24, START + 2);
    assert_eq!(transport.mindelay_clock, Some(START + 1));
    // Not before a send interval has passed since the last frame.
    assert!(transport.tick(START + 9, 0).unwrap().is_empty());
    assert_eq!(transport.next_send_time, Some(START + 50));
    assert!(transport.tick(START + 49, 0).unwrap().is_empty());
    let datagrams = transport.tick(START + 50, 77).unwrap();
    assert_eq!(datagrams.len(), 1);
    let (seqs, ti) = read_client_datagrams(&key, &datagrams);
    assert_eq!(seqs, vec![1]);
    assert_eq!(ti.new_num, Some(2));
    let mut want = mosh_client::userstream::UserStream::new();
    want.push_keystrokes(b"ls");
    want.push_resize(80, 24);
    assert_eq!(ti.diff, Some(want.init_diff()));
    assert_eq!(transport.mindelay_clock, None);
    assert_eq!(transport.sent_state_last_num(), 2);
    assert_eq!(transport.acked_state_num(), 0);
    assert_eq!(transport.assumed_receiver_state, 2);
    // The same payload sent again keeps its instruction id.
    assert!(transport.can_send());
}

#[test]
fn acknowledgement_drops_older_sent_states() {
    let (mut transport, key) = test_transport();
    transport.tick(START, 0).unwrap();
    transport.push_user_input(b"a", START);
    transport.tick(START + 60, 0).unwrap();
    transport.push_user_input(b"b", START + 60);
    transport.tick(START + 120, 0).unwrap();
    let nums: Vec<u64> = transport.sent_states.iter().map(|s| s.num).collect();
    assert_eq!(nums, vec![0, 1, 2, 3]);
    assert_eq!(transport.assumed_receiver_state, 3);

    // An acknowledgement of a state that was never sent changes nothing.
    transport.process_acknowledgment_through(9);
    assert_eq!(transport.sent_states.len(), 4);

    let ack = instruction(0, 1, 2, 0, Vec::new());
    process_datagram(&mut transport, &build_server_datagram(&key, 0, ack), START + 130).unwrap();
    let nums: Vec<u64> = transport.sent_states.iter().map(|s| s.num).collect();
    assert_eq!(nums, vec![2, 3]);
    assert_eq!(transport.assumed_receiver_state, 1);
    assert_eq!(transport.acked_state_num(), 2);

    // The next tick takes the acknowledged input off every state.
    transport.tick(START + 131, 0).unwrap();
    assert_eq!(transport.sent_states[0].state.len(), 0);
    assert_eq!(transport.current_state.len(), 1);
}

#[test]
fn sent_queue_stays_within_its_limit() {
    let (mut transport, _key) = test_transport();
    let mut now = START;
    for i in 0..100u64 {
        transport.push_user_input(&[b'a' + (i % 26) as u8], now);
        now += 300;
        transport.tick(now, 0).unwrap();
        assert!(transport.sent_states.len() <= 32);
        assert!(transport.assumed_receiver_state < transport.sent_states.len());
        let nums: Vec<u64> = transport.sent_states.iter().map(|s| s.num).collect();
        assert!(nums.windows(2).all(|w| w[0] < w[1]));
        assert_eq!(nums[0], 0);
    }
    assert_eq!(transport.sent_states.len(), 32);
}

#[test]
fn shutdown_is_acknowledged_by_the_goodbye() {
    let (mut transport, key) = test_transport();
    transport.tick(START, 0).unwrap();
    transport.start_shutdown(START + 1);
    transport.tick(START + 100, 0).unwrap();
    assert!(!transport.shutdown_acknowledged());
    let reply = instruction(0, 1, u64::MAX, 0, Vec::new());
    process_datagram(&mut transport, &build_server_datagram(&key, 0, reply), START + 101).unwrap();
    assert!(transport.shutdown_acknowledged());
    transport.tick(START + 102, 0).unwrap();
    assert!(transport.shutdown_in_progress() && transport.shutdown_acknowledged());
    assert!(!transport.shutdown_ack_timed_out(START + 102));
    assert!(transport.shutdown_ack_timed_out(START + 1 + 10_000));
}

#[test]
fn datagrams_that_do_not_open_change_nothing() {
    let (mut transport, key) = test_transport();
    assert_eq!(
        transport.receive_datagram(&[0u8; 10], START + 5, 0).err(),
        Some(TransportError::TooShort)
    );
    let mut forged = build_server_datagram(&key, 0, instruction(0, 1, 0, 0, Vec::new()));
    forged[12] ^= 1;
    assert_eq!(
        transport.receive_datagram(&forged, START + 5, 0).err(),
        Some(TransportError::Integrity)
    );
    assert_eq!(transport.last_recv_time, START);
    assert_eq!(transport.last_recv_timestamp, 0xFFFF);
    assert!(!transport.has_received_data());
    assert_eq!(transport.time_since_last_recv(START + 5), 5);
}

#[test]
fn heartbeat_sets_the_times() {
    let (mut transport, key) = test_transport();
    let session = Session::new(&key).unwrap();
    let packet = Packet { timestamp: 42, timestamp_reply: 1000, payload: Vec::new() };
    let datagram = session.encrypt(&make_nonce(Direction::ToClient, 0), &packet.to_bytes()).unwrap();
    let got = transport.receive_datagram(&datagram, START + 9, 1066).unwrap();
    assert!(got.instruction.is_none());
    assert_eq!(got.rtt_sample, Some(66));
    assert_eq!(transport.last_recv_time, START + 9);
    assert_eq!(transport.last_heard, START + 9);
    assert_eq!(transport.last_recv_timestamp, 42);
    assert!(transport.has_received_data());
    assert!(transport.has_remote_addr());
}

#[test]
fn version_mismatch_is_fatal() {
    let (mut transport, key) = test_transport();
    let mut ti = instruction(0, 1, 0, 0, Vec::new());
    ti.protocol_version = Some(3);
    assert_eq!(
        process_datagram(&mut transport, &build_server_datagram(&key, 0, ti), START).err(),
        Some(TransportError::VersionMismatch)
    );
    let mut none = instruction(0, 1, 0, 0, Vec::new());
    none.protocol_version = None;
    assert_eq!(
        process_datagram(&mut transport, &build_server_datagram(&key, 1, none), START).err(),
        Some(TransportError::VersionMismatch)
    );
}

#[test]
fn duplicate_state_is_dropped() {
    let (mut transport, key) = test_transport();
    let first = instruction(0, 1, 0, 0, host_diff(b"a"));
    process_datagram(&mut transport, &build_server_datagram(&key, 0, first), START).unwrap();
    let again = instruction(0, 1, 0, 0, host_diff(b"zzz"));
    let done = process_datagram(&mut transport, &build_server_datagram(&key, 1, again), START);
    assert_eq!(done, Ok(Some(Accepted::Duplicate)));
    assert_eq!(transport.received_states.len(), 2);
    assert_eq!(transport.latest_remote_framebuffer().cells[0][0].character, 'a');
}

#[test]
fn throwaway_must_leave_a_state() {
    let (mut transport, key) = test_transport();
    let ti = instruction(0, 1, 0, 5, Vec::new());
    let done = process_datagram(&mut transport, &build_server_datagram(&key, 0, ti), START);
    assert_eq!(done, Err(TransportError::QueueUnderflow));
    assert_eq!(transport.received_states.len(), 1);
}

#[test]
fn echo_ack_and_resize_are_applied() {
    let (mut transport, key) = test_transport();
    let msg = hostinput::HostMessage {
        instruction: vec![
            hostinput::Instruction {
                hostbytes: Some(hostinput::HostBytes { hoststring: Some(b"hi".to_vec()) }),
                resize: Some(hostinput::ResizeMessage { width: Some(40), height: Some(10) }),
                echoack: Some(hostinput::EchoAck { echo_ack_num: Some(7) }),
            },
            hostinput::Instruction {
                hostbytes: Some(hostinput::HostBytes { hoststring: Some(b"!".to_vec()) }),
                resize: None,
                echoack: None,
            },
        ],
    };
    let ti = instruction(0, 1, 0, 0, msg.encode_to_vec());
    process_datagram(&mut transport, &build_server_datagram(&key, 0, ti), START).unwrap();
    assert_eq!(transport.latest_remote_echo_ack(), 7);
    let fb = transport.latest_remote_framebuffer();
    assert_eq!((fb.width, fb.height), (40, 10));
    assert_eq!(fb.cells[0][0].character, 'h');
    assert_eq!(fb.cells[0][2].character, '!');
    assert!(transport.pending_data_ack);

    // An echo acknowledgement that goes back is a violation.
    let back = hostinput::HostMessage {
        instruction: vec![hostinput::Instruction {
            hostbytes: None,
            resize: None,
            echoack: Some(hostinput::EchoAck { echo_ack_num: Some(6) }),
        }],
    };
    let ti = instruction(1, 2, 0, 0, back.encode_to_vec());
    let done = process_datagram(&mut transport, &build_server_datagram(&key, 1, ti), START);
    assert_eq!(done, Err(TransportError::EchoAckRegression));

    // A malformed diff, and a window size without height.
    let ti = instruction(1, 3, 0, 0, vec![0x0A, 0x09]);
    let done = process_datagram(&mut transport, &build_server_datagram(&key, 2, ti), START);
    assert_eq!(done, Err(TransportError::BadHostDiff));
    let half = hostinput::HostMessage {
        instruction: vec![hostinput::Instruction {
            hostbytes: None,
            resize: Some(hostinput::ResizeMessage { width: Some(1), height: None }),
            echoack: None,
        }],
    };
    let ti = instruction(1, 4, 0, 0, half.encode_to_vec());
    let got = transport.receive_datagram(&build_server_datagram(&key, 3, ti), START, 0).unwrap();
    let done = transport.accept_instruction(&got.instruction.unwrap(), &Vec::new(), START);
    assert_eq!(done, Err(TransportError::BadHostDiff));
}

#[test]
fn fragments_of_a_long_instruction_are_reassembled() {
    let (mut transport, key) = test_transport();
    // Octets that do not compress: more than one fragment.
    let mut noise = Vec::new();
    let mut x: u32 = 12345;
    for _ in 0..4000 {
        x = x.wrapping_mul(1_103_515_245).wrapping_add(12345);
        noise.push((x >> 16) as u8);
    }
    transport.push_user_input(&noise, START);
    let datagrams = transport.tick(START + 100, 5).unwrap();
    assert!(datagrams.len() > 1);
    assert!(datagrams.iter().all(|d| d.len() <= 1280));
    let (seqs, ti) = read_client_datagrams(&key, &datagrams);
    assert_eq!(seqs, (0..datagrams.len() as u64).collect::<Vec<_>>());
    let mut echoed = mosh_client::userstream::UserStream::new();
    echoed.apply_string(&ti.diff.unwrap()).unwrap();
    assert_eq!(echoed.len(), 4000);
    assert_eq!(transport.next_seq, datagrams.len() as u64);
}

#[test]
fn note_remote_closed_gives_the_text_in_brackets() {
    let (mut transport, _key) = test_transport();
    transport.note_remote_closed("network down");
    assert_eq!(
        transport.remote_close_reason(),
        Some("remote host closed session (network down)")
    );
    transport.note_remote_closed("other");
    assert_eq!(
        transport.remote_close_reason(),
        Some("remote host closed session (network down)")
    );
}

#[test]
fn errors_of_a_datagram_are_dropped_and_the_others_fatal() {
    for e in [
        TransportError::TooShort,
        TransportError::Integrity,
        TransportError::TooLong,
        TransportError::ShortPacket,
        TransportError::ShortFragment,
    ] {
        assert_eq!(e.disposition(), mosh_client::transport::Disposition::DropDatagram);
    }
    for e in [
        TransportError::FragmentMismatch,
        TransportError::Decompress,
        TransportError::Compress,
        TransportError::Encrypt,
        TransportError::SequenceExhausted,
        TransportError::BadInstruction,
        TransportError::VersionMismatch,
        TransportError::BadHostDiff,
        TransportError::EchoAckRegression,
        TransportError::QueueUnderflow,
    ] {
        assert_eq!(e.disposition(), mosh_client::transport::Disposition::Fatal);
    }
}

#[test]
fn chaff_length_is_the_random_number_modulo_seventeen() {
    assert_eq!(mosh_client::transport::chaff_len(0), 0);
    assert_eq!(mosh_client::transport::chaff_len(16), 16);
    assert_eq!(mosh_client::transport::chaff_len(17), 0);
    assert_eq!(mosh_client::transport::chaff_len(40), 6);
    assert_eq!(mosh_client::transport::chaff_len(u32::MAX), (u32::MAX % 17) as usize);
}

#[test]
fn out_of_order_state_with_data_is_acknowledged_at_once() {
    let (mut transport, key) = test_transport();
    let newer = instruction(0, 2, 0, 0, host_diff(b"ab"));
    let done =
        process_datagram(&mut transport, &build_server_datagram(&key, 0, newer), START + 1).unwrap();
    assert_eq!(done, Some(Accepted::Latest));
    assert!(transport.pending_data_ack);
    transport.pending_data_ack = false;
    transport.remote_state_changed = false;

    let older = instruction(0, 1, 0, 0, host_diff(b"a"));
    let done =
        process_datagram(&mut transport, &build_server_datagram(&key, 1, older), START + 2).unwrap();
    assert_eq!(done, Some(Accepted::OutOfOrder));
    assert!(transport.pending_data_ack);
    assert_eq!(transport.ack_num, 2);
    assert!(!transport.remote_state_changed);
}

#[test]
fn out_of_order_state_without_data_leaves_the_acknowledgement() {
    let (mut transport, key) = test_transport();
    let newer = instruction(0, 2, 0, 0, Vec::new());
    process_datagram(&mut transport, &build_server_datagram(&key, 0, newer), START + 1).unwrap();
    assert!(!transport.pending_data_ack);
    let older = instruction(0, 1, 0, 0, Vec::new());
    let done =
        process_datagram(&mut transport, &build_server_datagram(&key, 1, older), START + 2).unwrap();
    assert_eq!(done, Some(Accepted::OutOfOrder));
    assert!(!transport.pending_data_ack);
    assert_eq!(transport.ack_num, 2);
}

#[test]
fn sequence_numbers_end_after_63_bits() {
    let (mut transport, key) = test_transport();
    transport.push_user_input(b"x", START);
    transport.next_seq = 0x7FFF_FFFF_FFFF_FFFF;
    let datagrams = transport.tick(START + 1_000, 0).unwrap();
    assert_eq!(datagrams.len(), 1);
    assert_eq!(transport.next_seq, 0x8000_0000_0000_0000);
    let session = Session::new(&key).unwrap();
    let (nonce, _) = session.decrypt(&datagrams[0]).unwrap();
    assert_eq!(nonce, make_nonce(Direction::ToServer, 0x7FFF_FFFF_FFFF_FFFF));

    transport.push_user_input(b"y", START + 1_000);
    assert!(transport.can_send());
    assert_eq!(
        transport.tick(START + 5_000, 0).err(),
        Some(TransportError::SequenceExhausted)
    );
    assert_eq!(transport.next_seq, 0x8000_0000_0000_0000);
}
