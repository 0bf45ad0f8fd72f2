use trust::TcpError;
use trust::tcp::Connection;
use trust::wire::{Ipv4HeaderInfo, TcpHeaderInfo};
use trust::{is_between_wrapped, wrapping_lt, ConnectionManager, Quad, ReadOutcome, State};

const PEER: [u8; 4] = [192, 168, 0, 1];
const US: [u8; 4] = [192, 168, 0, 2];
const PEER_PORT: u16 = 40000;
const OUR_PORT: u16 = 9000;

const FIN: u8 = 0x01;
const SYN: u8 = 0x02;
const ACK: u8 = 0x10;

/// An IPv4 packet carrying a TCP segment from the peer to us.
fn packet(seq: u32, ack: u32, flags: u8, data: &[u8]) -> Vec<u8> {
    packet_with_window(seq, ack, flags, 64240, data)
}

fn packet_with_window(seq: u32, ack: u32, flags: u8, window: u16, data: &[u8]) -> Vec<u8> {
    let total = (40 + data.len()) as u16;
    let mut p = vec![0x45, 0];
    p.extend_from_slice(&total.to_be_bytes());
    p.extend_from_slice(&[0, 0, 0x40, 0, 64, 6, 0, 0]);
    p.extend_from_slice(&PEER);
    p.extend_from_slice(&US);
    p.extend_from_slice(&PEER_PORT.to_be_bytes());
    p.extend_from_slice(&OUR_PORT.to_be_bytes());
    p.extend_from_slice(&seq.to_be_bytes());
    p.extend_from_slice(&ack.to_be_bytes());
    p.push(0x50);
    p.push(flags);
    p.extend_from_slice(&window.to_be_bytes());
    p.extend_from_slice(&[0, 0, 0, 0]);
    p.extend_from_slice(data);
    p
}

fn quad() -> Quad {
    Quad {
        src_addr: u32::from_be_bytes(PEER),
        src_port: PEER_PORT,
        dst_addr: u32::from_be_bytes(US),
        dst_port: OUR_PORT,
    }
}

/// The TCP fields of a segment we sent: (seq, ack, flags, window, payload).
fn fields(bytes: &[u8]) -> (u32, u32, u8, u16, Vec<u8>) {
    let t = &bytes[20..];
    (
        u32::from_be_bytes([t[4], t[5], t[6], t[7]]),
        u32::from_be_bytes([t[8], t[9], t[10], t[11]]),
        t[13],
        u16::from_be_bytes([t[14], t[15]]),
        bytes[40..].to_vec(),
    )
}

fn handle(cm: &mut ConnectionManager, p: &[u8]) -> trust::PacketEffect {
    assert!(!cm.packet_would_fault(p));
    cm.handle_packet(p)
}

/// A manager with port 9000 bound and a connection that completed its
/// handshake (peer ISS 1000, ours 0).
fn established() -> ConnectionManager {
    let mut cm = ConnectionManager::new();
    cm.bind(OUR_PORT).unwrap();
    handle(&mut cm, &packet(1000, 0, SYN, &[]));
    assert_eq!(cm.pop_pending(OUR_PORT), Some(quad()));
    handle(&mut cm, &packet(1001, 1, ACK, &[]));
    assert_eq!(cm.connection_state(&quad()), Some(State::Estab));
    cm
}

#[test]
fn wrapping_lt_orders_within_half_the_space() {
    assert!(wrapping_lt(1, 2));
    assert!(!wrapping_lt(2, 1));
    assert!(!wrapping_lt(5, 5));
    assert!(wrapping_lt(0, 100));
    assert!(!wrapping_lt(100, 0));
    assert!(wrapping_lt(0, 0x7FFF_FFFF));
    assert!(!wrapping_lt(0, 0x8000_0000));
    assert!(!wrapping_lt(0x8000_0000, 0));
    assert!(wrapping_lt(u32::MAX, 0));
}

#[test]
fn between_wrapped_needs_both_sides() {
    assert!(is_between_wrapped(0, 1, 2));
    assert!(is_between_wrapped(u32::MAX, 1, 2));
    assert!(!is_between_wrapped(1, 1, 2));
    assert!(!is_between_wrapped(0, 2, 2));
    assert!(!is_between_wrapped(0, 100, 10));
}

#[test]
fn state_predicates() {
    assert!(State::SynRcvd.is_non_synchronized());
    assert!(!State::Estab.is_non_synchronized());
    assert!(!State::FinWait1.is_non_synchronized());
    assert!(!State::TimeWait.is_non_synchronized());
    assert!(!State::SynRcvd.hava_sent_fin());
    assert!(!State::Estab.hava_sent_fin());
    assert!(State::FinWait1.hava_sent_fin());
    assert!(State::FinWait2.hava_sent_fin());
    assert!(State::TimeWait.hava_sent_fin());
}

#[test]
fn malformed_packets_are_ignored() {
    let mut cm = ConnectionManager::new();
    cm.bind(OUR_PORT).unwrap();
    let p = packet(1000, 0, SYN, &[]);
    // too short for an IPv4 header
    assert!(handle(&mut cm, &p[..19]).segments.is_empty());
    // not IPv4
    let mut v6 = p.clone();
    v6[0] = 0x65;
    assert!(handle(&mut cm, &v6).segments.is_empty());
    // header length under five words
    let mut short_ihl = p.clone();
    short_ihl[0] = 0x44;
    assert!(handle(&mut cm, &short_ihl).segments.is_empty());
    // TCP header cut short
    assert!(handle(&mut cm, &p[..39]).segments.is_empty());
    // TCP data offset under five words
    let mut short_offset = p.clone();
    short_offset[32] = 0x40;
    assert!(handle(&mut cm, &short_offset).segments.is_empty());
    assert_eq!(cm.pending_count(OUR_PORT), Some(0));
    // the well-formed one opens a connection
    assert_eq!(handle(&mut cm, &p).segments.len(), 1);
}

#[test]
fn ip_options_and_payload_offsets_are_honoured() {
    let mut cm = established();
    // an IPv4 header with one word of options
    let p = packet(1001, 1, ACK, b"opt");
    let mut q = vec![0x46, 0];
    q.extend_from_slice(&((p.len() + 4) as u16).to_be_bytes());
    q.extend_from_slice(&p[4..20]);
    q.extend_from_slice(&[1, 1, 1, 1]);
    q.extend_from_slice(&p[20..]);
    let eff = handle(&mut cm, &q);
    assert!(eff.wake_readers);
    match cm.stream_read(&quad(), 10).unwrap() {
        ReadOutcome::Data(v) => assert_eq!(v, b"opt".to_vec()),
        _ => panic!("expected data"),
    }
}

#[test]
fn bind_twice_is_refused() {
    let mut cm = ConnectionManager::new();
    assert_eq!(cm.bind(OUR_PORT), Ok(()));
    assert_eq!(cm.bind(OUR_PORT), Err(TcpError::AddrInUse));
    assert_eq!(cm.bind(80), Ok(()));
    assert_eq!(cm.pending_count(OUR_PORT), Some(0));
    cm.unbind(OUR_PORT);
    assert_eq!(cm.pending_count(OUR_PORT), None);
    assert_eq!(cm.bind(OUR_PORT), Ok(()));
}

#[test]
fn syn_to_bound_port_is_answered_with_syn_ack() {
    let mut cm = ConnectionManager::new();
    cm.bind(OUR_PORT).unwrap();
    let eff = handle(&mut cm, &packet(1000, 0, SYN, &[]));
    assert_eq!(eff.connection, Some(quad()));
    assert!(eff.wake_acceptors);
    assert_eq!(eff.segments.len(), 1);
    let seg = &eff.segments[0];
    assert_eq!(seg.bytes.len(), 40);
    assert_eq!(&seg.bytes[2..4], &[0, 40]);
    assert_eq!(seg.bytes[8], 64);
    assert_eq!(seg.bytes[9], 6);
    assert_eq!(&seg.bytes[12..16], &US);
    assert_eq!(&seg.bytes[16..20], &PEER);
    assert_eq!(&seg.bytes[20..22], &OUR_PORT.to_be_bytes());
    assert_eq!(&seg.bytes[22..24], &PEER_PORT.to_be_bytes());
    assert_eq!(fields(&seg.bytes), (0, 1001, SYN | ACK, 10, vec![]));
    assert_eq!(cm.connection_state(&quad()), Some(State::SynRcvd));
    assert_eq!(cm.pending_count(OUR_PORT), Some(1));
}

#[test]
fn syn_to_unbound_port_is_ignored() {
    let mut cm = ConnectionManager::new();
    let eff = handle(&mut cm, &packet(1000, 0, SYN, &[]));
    assert!(eff.connection.is_none());
    assert!(eff.segments.is_empty());
    assert_eq!(cm.connection_state(&quad()), None);
}

#[test]
fn segment_without_syn_opens_nothing() {
    let mut cm = ConnectionManager::new();
    cm.bind(OUR_PORT).unwrap();
    let eff = handle(&mut cm, &packet(1000, 0, ACK, &[]));
    assert!(eff.segments.is_empty());
    assert_eq!(cm.pending_count(OUR_PORT), Some(0));
    let ip = Ipv4HeaderInfo { header_len: 20, protocol: 6, source: 1, destination: 2 };
    let tcp = TcpHeaderInfo {
        header_len: 20,
        source_port: 5,
        destination_port: 6,
        sequence_number: 7,
        acknowledgment_number: 0,
        window_size: 100,
        syn: false,
        ack: true,
        fin: false,
        rst: false,
    };
    assert!(Connection::accept(&ip, &tcp, &[]).is_none());
}

#[test]
fn non_tcp_packet_is_ignored() {
    let mut cm = ConnectionManager::new();
    cm.bind(OUR_PORT).unwrap();
    let mut p = packet(1000, 0, SYN, &[]);
    p[9] = 17;
    let eff = handle(&mut cm, &p);
    assert!(eff.connection.is_none());
    assert_eq!(cm.pending_count(OUR_PORT), Some(0));
    let eff = handle(&mut cm, &[1, 2, 3]);
    assert!(eff.segments.is_empty());
}

#[test]
fn ack_of_syn_completes_handshake() {
    let mut cm = ConnectionManager::new();
    cm.bind(OUR_PORT).unwrap();
    handle(&mut cm, &packet(1000, 0, SYN, &[]));
    let eff = handle(&mut cm, &packet(1001, 1, ACK, &[]));
    assert_eq!(cm.connection_state(&quad()), Some(State::Estab));
    assert_eq!(eff.segments.len(), 1);
    assert_eq!(fields(&eff.segments[0].bytes), (1, 1001, ACK, 10, vec![]));
    assert_eq!(cm.send_unacknowledged(&quad()), Some(1));
    assert!(eff.acked.is_none());
}

#[test]
fn received_data_is_read_in_order() {
    let mut cm = established();
    let eff = handle(&mut cm, &packet(1001, 1, ACK, b"hello"));
    assert!(eff.wake_readers);
    assert_eq!(fields(&eff.segments[0].bytes), (1, 1006, ACK, 10, vec![]));
    handle(&mut cm, &packet(1006, 1, ACK, b" world"));
    match cm.stream_read(&quad(), 3).unwrap() {
        ReadOutcome::Data(v) => assert_eq!(v, b"hel".to_vec()),
        _ => panic!("expected data"),
    }
    match cm.stream_read(&quad(), 512).unwrap() {
        ReadOutcome::Data(v) => assert_eq!(v, b"lo world".to_vec()),
        _ => panic!("expected data"),
    }
    assert!(matches!(cm.stream_read(&quad(), 512), Ok(ReadOutcome::Empty)));
}

#[test]
fn unacceptable_segment_is_answered_with_ack() {
    let mut cm = established();
    // before RCV.NXT
    let eff = handle(&mut cm, &packet(991, 1, ACK, &[]));
    assert_eq!(eff.segments.len(), 1);
    assert_eq!(fields(&eff.segments[0].bytes), (1, 1001, ACK, 10, vec![]));
    assert!(matches!(cm.stream_read(&quad(), 512), Ok(ReadOutcome::Empty)));
}

#[test]
fn written_data_goes_out_on_tick_and_leaves_on_ack() {
    let mut cm = established();
    assert_eq!(cm.stream_write(&quad(), b"hi there"), Ok(8));
    assert_eq!(cm.stream_flush(&quad()), Err(TcpError::WouldBlock));
    assert!(!cm.tick_would_fault(&quad(), false));
    let seg = cm.tick_connection(&quad(), false).unwrap();
    assert_eq!(seg.seq, 1);
    assert_eq!(seg.payload_len, 8);
    assert_eq!(&seg.bytes[2..4], &[0, 48]);
    assert_eq!(fields(&seg.bytes), (1, 1001, ACK, 10, b"hi there".to_vec()));
    // with nothing new to send, a tick writes an empty segment at SND.NXT
    let empty = cm.tick_connection(&quad(), false).unwrap();
    assert_eq!(empty.seq, 9);
    assert_eq!(empty.payload_len, 0);
    let eff = handle(&mut cm, &packet(1001, 9, ACK, &[]));
    assert_eq!(eff.acked, Some((1, 9)));
    assert_eq!(cm.send_unacknowledged(&quad()), Some(9));
    assert_eq!(cm.stream_flush(&quad()), Ok(()));
}

#[test]
fn retransmission_resends_from_unacknowledged() {
    let mut cm = established();
    cm.stream_write(&quad(), b"abc").unwrap();
    cm.tick_connection(&quad(), false).unwrap();
    let seg = cm.tick_connection(&quad(), true).unwrap();
    assert_eq!(seg.seq, 1);
    assert_eq!(fields(&seg.bytes).4, b"abc".to_vec());
}

#[test]
fn write_is_capped_by_send_queue() {
    let mut cm = established();
    let big = vec![7u8; 1000];
    assert_eq!(cm.stream_write(&quad(), &big), Ok(1000));
    assert_eq!(cm.stream_write(&quad(), &big), Ok(24));
    assert_eq!(cm.stream_write(&quad(), &big), Ok(0));
}

#[test]
fn close_handshake_reaches_time_wait() {
    let mut cm = established();
    assert_eq!(cm.stream_shutdown(&quad()), Ok(()));
    assert_eq!(cm.connection_state(&quad()), Some(State::FinWait1));
    // a second shutdown is accepted
    assert_eq!(cm.stream_shutdown(&quad()), Ok(()));
    let fin = cm.tick_connection(&quad(), false).unwrap();
    assert_eq!(fields(&fin.bytes), (1, 1001, ACK | FIN, 10, vec![]));
    handle(&mut cm, &packet(1001, 2, ACK, &[]));
    assert_eq!(cm.connection_state(&quad()), Some(State::FinWait2));
    let eff = handle(&mut cm, &packet(1001, 2, ACK | FIN, &[]));
    assert_eq!(cm.connection_state(&quad()), Some(State::TimeWait));
    assert_eq!(eff.segments.len(), 2);
    assert_eq!(fields(&eff.segments[1].bytes), (2, 1002, ACK, 10, vec![]));
    assert!(eff.wake_readers);
    assert!(matches!(cm.stream_read(&quad(), 512), Ok(ReadOutcome::Eof)));
    assert_eq!(cm.stream_shutdown(&quad()), Err(TcpError::AlreadyClosing));
}

#[test]
fn fin_while_established_would_fault() {
    let cm = established();
    assert!(cm.packet_would_fault(&packet(1001, 1, ACK | FIN, &[])));
    assert!(!cm.packet_would_fault(&packet(1001, 1, ACK, &[])));
}

#[test]
fn out_of_order_data_would_fault() {
    let cm = established();
    assert!(cm.packet_would_fault(&packet(1011, 1, ACK, b"late")));
}

#[test]
fn unknown_stream_is_aborted() {
    let mut cm = ConnectionManager::new();
    assert!(matches!(cm.stream_read(&quad(), 10), Err(TcpError::ConnectionAborted)));
    assert_eq!(cm.stream_write(&quad(), b"x"), Err(TcpError::ConnectionAborted));
    assert_eq!(cm.stream_flush(&quad()), Err(TcpError::ConnectionAborted));
    assert_eq!(cm.stream_shutdown(&quad()), Err(TcpError::ConnectionAborted));
    assert!(cm.tick_connection(&quad(), false).is_none());
}

#[test]
fn accepted_connections_come_out_in_order() {
    let mut cm = ConnectionManager::new();
    cm.bind(OUR_PORT).unwrap();
    handle(&mut cm, &packet(1000, 0, SYN, &[]));
    let mut second = packet(5000, 0, SYN, &[]);
    second[20..22].copy_from_slice(&40001u16.to_be_bytes());
    handle(&mut cm, &second);
    assert_eq!(cm.pop_pending(OUR_PORT), Some(quad()));
    assert_eq!(cm.pop_pending(OUR_PORT).map(|q| q.src_port), Some(40001));
    assert_eq!(cm.pop_pending(OUR_PORT), None);
}

#[test]
fn accept_builds_reply_from_headers() {
    let ip = Ipv4HeaderInfo { header_len: 20, protocol: 6, source: 1, destination: 2 };
    let tcp = TcpHeaderInfo {
        header_len: 20,
        source_port: 5,
        destination_port: 6,
        sequence_number: u32::MAX,
        acknowledgment_number: 0,
        window_size: 100,
        syn: true,
        ack: false,
        fin: false,
        rst: false,
    };
    let (conn, seg) = Connection::accept(&ip, &tcp, &[]).unwrap();
    assert_eq!(conn.state(), State::SynRcvd);
    assert_eq!(conn.send_unacknowledged(), 0);
    // the peer's sequence number wraps around
    assert_eq!(fields(&seg.bytes), (0, 0, SYN | ACK, 10, vec![]));
    assert_eq!(&seg.bytes[12..16], &2u32.to_be_bytes());
    assert_eq!(&seg.bytes[16..20], &1u32.to_be_bytes());
}

#[test]
fn written_segment_carries_etherparse_checksums() {
    let mut cm = ConnectionManager::new();
    cm.bind(OUR_PORT).unwrap();
    let eff = handle(&mut cm, &packet(1000, 0, SYN, &[]));
    let bytes = &eff.segments[0].bytes;
    let ip = etherparse::Ipv4HeaderSlice::from_slice(bytes).unwrap();
    assert_eq!(ip.to_header().calc_header_checksum().unwrap(), ip.header_checksum());
    assert_ne!(ip.header_checksum(), 0);
    let tcp = etherparse::TcpHeaderSlice::from_slice(&bytes[20..]).unwrap();
    assert_eq!(tcp.calc_checksum_ipv4_raw(&US, &PEER, &[]).unwrap(), tcp.checksum());
    assert_ne!(tcp.checksum(), 0);
}

#[test]
fn written_segment_reads_back_reversed() {
    let mut cm = established();
    cm.stream_write(&quad(), b"data").unwrap();
    let seg = cm.tick_connection(&quad(), false).unwrap();
    let ip = etherparse::Ipv4HeaderSlice::from_slice(&seg.bytes).unwrap();
    assert_eq!(ip.slice().len(), 20);
    assert_eq!(ip.protocol(), 6);
    assert_eq!(ip.source(), &US);
    assert_eq!(ip.destination(), &PEER);
    assert_eq!(ip.total_len(), 44);
    let tcp = etherparse::TcpHeaderSlice::from_slice(&seg.bytes[20..]).unwrap();
    assert_eq!(tcp.slice().len(), 20);
    assert_eq!(tcp.source_port(), OUR_PORT);
    assert_eq!(tcp.destination_port(), PEER_PORT);
    assert_eq!(tcp.sequence_number(), 1);
    assert_eq!(tcp.acknowledgment_number(), 1001);
    assert!(tcp.ack() && !tcp.syn() && !tcp.fin() && !tcp.rst());
    assert_eq!(&seg.bytes[40..], b"data");
}

#[test]
fn partial_ack_drops_only_the_acknowledged_prefix() {
    let mut cm = established();
    cm.stream_write(&quad(), b"hi there").unwrap();
    cm.tick_connection(&quad(), false).unwrap();
    let eff = handle(&mut cm, &packet(1001, 5, ACK, &[]));
    assert_eq!(eff.acked, Some((1, 5)));
    assert_eq!(cm.send_unacknowledged(&quad()), Some(5));
    assert_eq!(cm.stream_flush(&quad()), Err(TcpError::WouldBlock));
    let seg = cm.tick_connection(&quad(), true).unwrap();
    assert_eq!(seg.seq, 5);
    assert_eq!(fields(&seg.bytes).4, b"here".to_vec());
}

#[test]
fn second_close_keeps_state() {
    let mut cm = established();
    cm.stream_shutdown(&quad()).unwrap();
    cm.stream_shutdown(&quad()).unwrap();
    assert_eq!(cm.connection_state(&quad()), Some(State::FinWait1));
}

#[test]
fn zero_window_takes_no_data() {
    let mut cm = ConnectionManager::new();
    cm.bind(OUR_PORT).unwrap();
    handle(&mut cm, &packet_with_window(1000, 0, SYN, 0, &[]));
    // an empty segment exactly at RCV.NXT is acceptable
    handle(&mut cm, &packet_with_window(1001, 1, ACK, 0, &[]));
    assert_eq!(cm.connection_state(&quad()), Some(State::Estab));
    // data is not, and is answered with an acknowledgment
    let eff = handle(&mut cm, &packet_with_window(1001, 1, ACK, 0, b"x"));
    assert_eq!(eff.segments.len(), 1);
    assert_eq!(fields(&eff.segments[0].bytes), (1, 1001, ACK, 10, vec![]));
    assert!(!eff.wake_readers);
    assert!(matches!(cm.stream_read(&quad(), 10), Ok(ReadOutcome::Empty)));
}

#[test]
fn syn_without_ack_on_a_connection_moves_rcv_nxt() {
    let mut cm = established();
    let eff = handle(&mut cm, &packet(1001, 0, SYN, &[]));
    assert!(eff.segments.is_empty());
    // the next in-order data is expected after the repeated SYN
    let eff = handle(&mut cm, &packet(1002, 1, ACK, b"z"));
    assert_eq!(fields(&eff.segments[0].bytes), (1, 1003, ACK, 10, vec![]));
    assert!(cm.packet_would_fault(&packet(1003, 0, SYN, b"data")));
}

#[test]
fn segment_beyond_window_is_answered_with_ack() {
    let mut cm = established();
    let eff = handle(&mut cm, &packet(1001 + 100_000, 1, ACK, b"x"));
    assert_eq!(eff.segments.len(), 1);
    assert_eq!(fields(&eff.segments[0].bytes), (1, 1001, ACK, 10, vec![]));
    assert!(matches!(cm.stream_read(&quad(), 512), Ok(ReadOutcome::Empty)));
}

#[test]
fn ack_of_nothing_keeps_syn_received() {
    let mut cm = ConnectionManager::new();
    cm.bind(OUR_PORT).unwrap();
    handle(&mut cm, &packet(1000, 0, SYN, &[]));
    // acknowledges SND.UNA, so not our SYN
    handle(&mut cm, &packet(1001, 0, ACK, &[]));
    assert_eq!(cm.connection_state(&quad()), Some(State::SynRcvd));
}

#[test]
fn fin_after_data_reaches_fin_wait_2() {
    let mut cm = established();
    cm.stream_write(&quad(), b"abc").unwrap();
    cm.stream_shutdown(&quad()).unwrap();
    let seg = cm.tick_connection(&quad(), false).unwrap();
    // the data and our FIN go out together
    assert_eq!(fields(&seg.bytes), (1, 1001, ACK | FIN, 10, b"abc".to_vec()));
    // with the FIN out and nothing unsent, a tick sends nothing
    assert!(!cm.tick_would_fault(&quad(), false));
    assert!(cm.tick_connection(&quad(), false).is_none());
    handle(&mut cm, &packet(1001, 5, ACK, &[]));
    assert_eq!(cm.connection_state(&quad()), Some(State::FinWait2));
}

#[test]
fn retransmission_keeps_send_next() {
    let mut cm = established();
    cm.stream_write(&quad(), b"abcde").unwrap();
    cm.tick_connection(&quad(), false).unwrap();
    handle(&mut cm, &packet(1001, 3, ACK, &[]));
    let seg = cm.tick_connection(&quad(), true).unwrap();
    assert_eq!(seg.seq, 3);
    assert_eq!(fields(&seg.bytes).4, b"cde".to_vec());
    // SND.NXT stayed after the last byte sent: nothing new goes out
    let next = cm.tick_connection(&quad(), false).unwrap();
    assert_eq!(next.seq, 6);
    assert_eq!(next.payload_len, 0);
}
