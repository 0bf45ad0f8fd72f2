//! Properties of the stack that span its operations.
use vstd::prelude::*;
use crate::tcp::{
    State, ConnectionView, SendSequenceSpace, spec_wrapping_lt, has_sent_fin, is_synchronized, after_close,
    after_write, syn_received, after_segment, segment_faults, seq_add, seq_sub, OUR_ISS,
    write_payload_len, segment_acceptable, segment_len, handshake_step, acks_new_data, after_ack,
    unread_at, after_receive, can_write, is_data_state, flag, ack_step, written_segment,
    write_offset, outgoing_tcp, outgoing_ip, tick_plan, after_acked_segment,
    spec_is_between_wrapped, min_int, write_follows_fin, MAX_SEGMENT_PAYLOAD,
};
use crate::wire::{
    Ipv4HeaderInfo, TcpHeaderInfo, TcpFields, Ipv4Fields, TCP_HEADER_LEN, IPV4_HEADER_LEN,
    IP_PROTOCOL_TCP, tcp_header_of, ipv4_header_of, tcp_header_bytes, ipv4_header_bytes,
    ipv4_header_checksum, be16_at, be32_at, be16_bytes, be32_bytes, tcp_flag_byte,
};
use crate::manager::{tcp_segment_of, quad_of, Quad};

verus! {

/// No sequence number comes before itself.
pub proof fn law_wrapping_lt_irreflexive(x: u32)
    ensures
        !spec_wrapping_lt(x, x),
{
}

/// A state in which our FIN has gone out is a synchronized one.
pub proof fn law_fin_states_are_synchronized(s: State)
    ensures
        has_sent_fin(s) ==> is_synchronized(s),
{
}

/// Closing a connection a second time changes nothing more.
pub proof fn law_close_is_idempotent(c: ConnectionView)
    ensures
        after_close(after_close(c)) == after_close(c),
{
}

/// Writing a segment never moves `SND.NXT` backwards in sequence space, and
/// leaves the queued and the received bytes alone.
pub proof fn law_write_keeps_queues(c: ConnectionView, seq: u32, limit: int)
    ensures
        after_write(c, seq, limit).send.nxt == c.send.nxt || spec_wrapping_lt(
            c.send.nxt,
            after_write(c, seq, limit).send.nxt,
        ),
        after_write(c, seq, limit).unacked == c.unacked,
        after_write(c, seq, limit).incoming == c.incoming,
        after_write(c, seq, limit).send.una == c.send.una,
{
}

/// The three-way handshake: the connection opened for a SYN, once it has sent
/// its SYN-ACK, moves to ESTABLISHED on the peer's acknowledgment of our SYN,
/// with `SND.UNA` past the SYN and nothing received.
pub proof fn law_handshake_completes(ip: Ipv4HeaderInfo, syn: TcpHeaderInfo, ack: TcpHeaderInfo)
    requires
        syn.syn,
        ack.ack,
        !ack.syn,
        !ack.fin,
        ack.sequence_number == seq_add(syn.sequence_number, 1),
        ack.acknowledgment_number == seq_add(OUR_ISS, 1),
    ensures
        ({
            let c = after_write(syn_received(ip, syn), OUR_ISS, 0);
            let next = after_segment(c, ack, Seq::empty()).0;
            &&& c.state is SynRcvd
            &&& !segment_faults(c, ack, Seq::empty())
            &&& next.state is Estab
            &&& next.send.una == seq_add(OUR_ISS, 1)
            &&& next.incoming.len() == 0
        }),
{
    let c0 = syn_received(ip, syn);
    let c = after_write(c0, OUR_ISS, 0);
    assert(write_payload_len(c0, OUR_ISS, 0) == 0);
    assert(c.send.nxt == 1);
    assert(c.send.una == 0);
    let e = Seq::<u8>::empty();
    assert(segment_acceptable(c, ack, segment_len(ack, 0) as u32));
    assert(handshake_step(c, 1).state is Estab);
    assert(acks_new_data(handshake_step(c, 1), 1));
    let c1 = after_ack(c, 1);
    assert(c1.state is Estab && c1.send.una == 1 && c1.unacked.len() == 0);
    assert(unread_at(c1, ack) == 0);
    let r = after_receive(c1, ack, e);
    assert(r.incoming =~= Seq::<u8>::empty());
    assert(can_write(r, r.send.nxt));
}

/// Data that arrives in order, at `RCV.NXT`, is appended whole to the bytes
/// waiting to be read, and `RCV.NXT` moves past it.
pub proof fn law_in_order_data_is_delivered(c: ConnectionView, h: TcpHeaderInfo, data: Seq<u8>)
    requires
        is_data_state(c.state),
        h.ack,
        h.sequence_number == c.recv.nxt,
        segment_acceptable(c, h, segment_len(h, data.len() as int) as u32),
        !segment_faults(c, h, data),
    ensures
        after_segment(c, h, data).0.incoming == c.incoming + data,
        after_segment(c, h, data).0.recv.nxt == seq_add(
            seq_add(h.sequence_number, data.len() as u32),
            flag(h.fin),
        ),
{
    let c1 = after_ack(c, h.acknowledgment_number);
    assert(is_data_state(c1.state));
    assert(c1.recv == c.recv);
    assert(unread_at(c1, h) == 0);
    assert(data.skip(0) =~= data);
}

/// A segment that starts at `RCV.NXT` is acceptable whenever the receive
/// window is open.
pub proof fn law_segment_at_rcv_nxt_is_acceptable(c: ConnectionView, h: TcpHeaderInfo, slen: u32)
    requires
        c.recv.wnd > 0,
        h.sequence_number == c.recv.nxt,
    ensures
        segment_acceptable(c, h, slen),
{
}

/// Acknowledged data leaves the front of the send queue: what stays queued is
/// what the acknowledgment number does not cover.
pub proof fn law_ack_drops_acknowledged_prefix(c: ConnectionView, ackn: u32)
    requires
        acks_new_data(c, ackn),
        c.unacked.len() > 0,
        seq_sub(ackn, c.send.una) <= c.unacked.len(),
    ensures
        ack_step(c, ackn).unacked == c.unacked.subrange(
            seq_sub(ackn, c.send.una) as int,
            c.unacked.len() as int,
        ),
        ack_step(c, ackn).send.una == ackn,
{
}

/// The TCP header information that a header with these fields reads back as.
pub open spec fn tcp_info_of(h: TcpFields) -> TcpHeaderInfo {
    TcpHeaderInfo {
        header_len: TCP_HEADER_LEN,
        source_port: h.source_port,
        destination_port: h.destination_port,
        sequence_number: h.sequence_number,
        acknowledgment_number: h.acknowledgment_number,
        window_size: h.window_size,
        syn: h.syn,
        ack: h.ack,
        fin: h.fin,
        rst: h.rst,
    }
}

/// The IPv4 header information that a header with these fields reads back as.
pub open spec fn ipv4_info_of(h: Ipv4Fields) -> Ipv4HeaderInfo {
    Ipv4HeaderInfo {
        header_len: IPV4_HEADER_LEN,
        protocol: h.protocol,
        source: h.source,
        destination: h.destination,
    }
}

proof fn lemma_be16(v: u16)
    ensures
        be16_at(be16_bytes(v), 0) == v,
{
}

proof fn lemma_be32(v: u32)
    ensures
        be32_at(be32_bytes(v), 0) == v,
{
}

/// A TCP header that the stack writes reads back as the fields it was
/// written with, whatever follows it.
pub proof fn law_tcp_header_round_trip(h: TcpFields, rest: Seq<u8>)
    ensures
        tcp_header_of(tcp_header_bytes(h) + rest) == Some(tcp_info_of(h)),
{
    let b = tcp_header_bytes(h) + rest;
    lemma_be16(h.source_port);
    lemma_be16(h.destination_port);
    lemma_be32(h.sequence_number);
    lemma_be32(h.acknowledgment_number);
    lemma_be16(h.window_size);
    assert(b.subrange(0, 2) =~= be16_bytes(h.source_port));
    assert(b.subrange(2, 4) =~= be16_bytes(h.destination_port));
    assert(b.subrange(4, 8) =~= be32_bytes(h.sequence_number));
    assert(b.subrange(8, 12) =~= be32_bytes(h.acknowledgment_number));
    assert(b.subrange(14, 16) =~= be16_bytes(h.window_size));
    assert(b[12] == 0x50);
    assert(b[13] == tcp_flag_byte(h));
    assert(be16_at(b, 0) == be16_at(b.subrange(0, 2), 0));
    assert(be16_at(b, 2) == be16_at(b.subrange(2, 4), 0));
    assert(be32_at(b, 4) == be32_at(b.subrange(4, 8), 0));
    assert(be32_at(b, 8) == be32_at(b.subrange(8, 12), 0));
    assert(be16_at(b, 14) == be16_at(b.subrange(14, 16), 0));
}

/// An IPv4 header that the stack writes reads back as the fields it was
/// written with, whatever follows it.
pub proof fn law_ipv4_header_round_trip(h: Ipv4Fields, checksum: u16, rest: Seq<u8>)
    requires
        h.payload_len <= 65515,
    ensures
        ipv4_header_of(ipv4_header_bytes(h, checksum) + rest) == Some(ipv4_info_of(h)),
{
    let b = ipv4_header_bytes(h, checksum) + rest;
    lemma_be16((h.payload_len + 20) as u16);
    lemma_be32(h.source);
    lemma_be32(h.destination);
    assert(b[0] == 0x45);
    assert(b[9] == h.protocol);
    assert(b.subrange(2, 4) =~= be16_bytes((h.payload_len + 20) as u16));
    assert(b.subrange(12, 16) =~= be32_bytes(h.source));
    assert(b.subrange(16, 20) =~= be32_bytes(h.destination));
    assert(be16_at(b, 2) == be16_at(b.subrange(2, 4), 0));
    assert(be32_at(b, 12) == be32_at(b.subrange(12, 16), 0));
    assert(be32_at(b, 16) == be32_at(b.subrange(16, 20), 0));
}

/// Every segment a connection writes is a well-formed TCP segment over IPv4:
/// read back, it gives the connection's addresses and ports reversed (the
/// peer's view of the connection), the sequence and acknowledgment numbers it
/// was written with, and the queued bytes it carries.
pub proof fn law_written_segment_reads_back(c: ConnectionView, seq: u32, limit: int)
    requires
        can_write(c, seq),
        limit >= 0,
        c.ip.protocol == IP_PROTOCOL_TCP,
    ensures
        ({
            let seg = written_segment(c, seq, limit);
            let n = write_payload_len(c, seq, limit);
            let off = write_offset(c, seq);
            let t = outgoing_tcp(c, seq);
            &&& tcp_segment_of(seg.bytes) == Some(
                (
                    ipv4_info_of(outgoing_ip(c, n)),
                    tcp_info_of(t),
                    c.unacked.subrange(off, off + n),
                ),
            )
            &&& quad_of(ipv4_info_of(outgoing_ip(c, n)), tcp_info_of(t)) == (Quad {
                src_addr: c.ip.source,
                src_port: c.tcp.source_port,
                dst_addr: c.ip.destination,
                dst_port: c.tcp.destination_port,
            })
            &&& t.sequence_number == seq
            &&& t.acknowledgment_number == c.recv.nxt
        }),
{
    let n = write_payload_len(c, seq, limit);
    let off = write_offset(c, seq);
    let ip = outgoing_ip(c, n);
    let t = outgoing_tcp(c, seq);
    let payload = c.unacked.subrange(off, off + n);
    let ipb = ipv4_header_bytes(ip, ipv4_header_checksum(ip));
    let tb = tcp_header_bytes(t);
    let bytes = written_segment(c, seq, limit).bytes;
    assert(bytes == ipb + tb + payload);
    assert(ipb.len() == 20);
    assert(tb.len() == 20);
    law_ipv4_header_round_trip(ip, ipv4_header_checksum(ip), tb + payload);
    assert(bytes =~= ipb + (tb + payload));
    assert(bytes.skip(20) =~= tb + payload);
    law_tcp_header_round_trip(t, payload);
    assert(bytes.skip(40) =~= payload);
}


/// `wrapping_lt` is asymmetric: of two sequence numbers at most one comes
/// before the other.
pub proof fn law_wrapping_lt_asymmetric(a: u32, b: u32)
    ensures
        spec_wrapping_lt(a, b) ==> !spec_wrapping_lt(b, a),
{
}

/// `wrapping_lt` is total on distinct sequence numbers, except for the two
/// that lie exactly half the space, 2^31, apart.
pub proof fn law_wrapping_lt_total(a: u32, b: u32)
    requires
        a != b,
        seq_sub(b, a) != 0x8000_0000,
    ensures
        spec_wrapping_lt(a, b) || spec_wrapping_lt(b, a),
{
}

/// For a window shorter than half the space, `is_between_wrapped` says that
/// `x` lies strictly inside the circular interval from `start` to `end`.
pub proof fn law_between_is_circular_interval(start: u32, x: u32, end: u32)
    requires
        seq_sub(end, start) < 0x8000_0000,
    ensures
        spec_is_between_wrapped(start, x, end) <==> (0 < seq_sub(x, start) && seq_sub(x, start)
            < seq_sub(end, start)),
{
}

/// `x` lies in the receive window: `0 <= x - RCV.NXT < RCV.WND`.
pub open spec fn in_receive_window(c: ConnectionView, x: u32) -> bool {
    seq_sub(x, c.recv.nxt) < c.recv.wnd
}

/// With the receive window open, a segment is acceptable exactly when its
/// first sequence number, or for a segment that occupies sequence space its
/// last one, lies in the receive window (RFC 793, S3.3).
pub proof fn law_acceptable_is_window_membership(c: ConnectionView, h: TcpHeaderInfo, slen: u32)
    requires
        c.recv.wnd > 0,
    ensures
        segment_acceptable(c, h, slen) == if slen == 0 {
            in_receive_window(c, h.sequence_number)
        } else {
            in_receive_window(c, h.sequence_number) || in_receive_window(
                c,
                seq_add(h.sequence_number, (slen - 1) as u32),
            )
        },
{
    let before = seq_sub(c.recv.nxt, 1);
    let wend = seq_add(c.recv.nxt, c.recv.wnd as u32);
    assert(seq_sub(wend, before) == c.recv.wnd + 1);
    law_between_is_circular_interval(before, h.sequence_number, wend);
    law_between_is_circular_interval(before, seq_add(h.sequence_number, (slen - 1) as u32), wend);
}

/// How far along a connection's life a state is.
pub open spec fn state_rank(s: State) -> int {
    match s {
        State::SynRcvd => 0,
        State::Estab => 1,
        State::FinWait1 => 2,
        State::FinWait2 => 3,
        State::TimeWait => 4,
    }
}

/// States only move forward: SYN-RECEIVED, ESTABLISHED, FIN-WAIT-1,
/// FIN-WAIT-2, TIME-WAIT. Handling a segment and closing never go back, and a
/// tick keeps the state.
pub proof fn law_states_move_forward(c: ConnectionView, h: TcpHeaderInfo, data: Seq<u8>, retransmit: bool)
    requires
        !segment_faults(c, h, data),
    ensures
        state_rank(after_segment(c, h, data).0.state) >= state_rank(c.state),
        state_rank(after_close(c).state) >= state_rank(c.state),
        match tick_plan(c, retransmit) {
            Some((c1, seq, limit)) => after_write(c1, seq, limit).state == c.state,
            None => true,
        },
{
}

/// Handling a segment only appends to the received bytes, and only removes
/// queued bytes from the front.
pub proof fn law_streams_only_grow_and_drain_at_ends(c: ConnectionView, h: TcpHeaderInfo, data: Seq<u8>)
    requires
        !segment_faults(c, h, data),
    ensures
        ({
            let next = after_segment(c, h, data).0;
            &&& c.incoming.len() <= next.incoming.len()
            &&& next.incoming.subrange(0, c.incoming.len() as int) == c.incoming
            &&& next.unacked.len() <= c.unacked.len()
            &&& next.unacked == c.unacked.skip(c.unacked.len() - next.unacked.len())
        }),
{
    let c1 = after_ack(c, h.acknowledgment_number);
    if segment_acceptable(c, h, segment_len(h, data.len() as int) as u32) && h.ack {
        let c0 = handshake_step(c, h.acknowledgment_number);
        if acks_new_data(c0, h.acknowledgment_number) {
            let n = min_int(seq_sub(h.acknowledgment_number, c0.send.una) as int, c0.unacked.len() as int);
            assert(c1.unacked == c.unacked.skip(n));
        } else {
            assert(c.unacked.skip(0) =~= c.unacked);
        }
        if is_data_state(c1.state) {
            let r = after_receive(c1, h, data);
            assert(r.incoming.subrange(0, c.incoming.len() as int) =~= c.incoming);
        }
    } else {
        assert(c.unacked.skip(0) =~= c.unacked);
        assert(c.incoming.subrange(0, c.incoming.len() as int) =~= c.incoming);
    }
    let next = after_segment(c, h, data).0;
    assert(next.incoming.subrange(0, c.incoming.len() as int) =~= c.incoming);
    assert(next.unacked =~= c.unacked.skip(c.unacked.len() - next.unacked.len()));
}

/// A tick changes nothing but `SND.NXT`, the sequence number of our FIN and
/// the headers of the next segment.
pub proof fn law_tick_changes_only_sending_state(c: ConnectionView, retransmit: bool)
    ensures
        match tick_plan(c, retransmit) {
            Some((c1, seq, limit)) => {
                let next = after_write(c1, seq, limit);
                next == (ConnectionView {
                    send: SendSequenceSpace { nxt: next.send.nxt, ..c.send },
                    closed_at: next.closed_at,
                    tcp: next.tcp,
                    ip: next.ip,
                    ..c
                })
            },
            None => true,
        },
{
}

/// Unbinding a port with no connections waiting and binding it again gives
/// back the same listening ports: after the unbind the port is free, so the
/// bind succeeds and starts an empty queue.
pub proof fn law_unbind_then_bind_round_trips(ports: Map<u16, Seq<Quad>>, port: u16)
    requires
        ports.contains_key(port),
        ports[port].len() == 0,
    ensures
        !ports.remove(port).contains_key(port),
        ports.remove(port).insert(port, Seq::empty()) == ports,
{
    assert(ports[port] =~= Seq::<Quad>::empty());
    assert(ports.remove(port).insert(port, Seq::empty()) =~= ports);
}


/// Data that starts at or before `RCV.NXT` is delivered from `RCV.NXT` on:
/// the bytes of the segment before `RCV.NXT`, which readers already have, are
/// dropped, so every byte of the peer's stream reaches readers once.
pub proof fn law_received_bytes_are_delivered_once(c: ConnectionView, h: TcpHeaderInfo, data: Seq<u8>)
    requires
        is_data_state(c.state),
        h.ack,
        segment_acceptable(c, h, segment_len(h, data.len() as int) as u32),
        seq_sub(c.recv.nxt, h.sequence_number) <= data.len(),
        !segment_faults(c, h, data),
    ensures
        after_segment(c, h, data).0.incoming == c.incoming + data.subrange(
            seq_sub(c.recv.nxt, h.sequence_number) as int,
            data.len() as int,
        ),
{
    let c1 = after_ack(c, h.acknowledgment_number);
    assert(is_data_state(c1.state));
    assert(c1.recv == c.recv);
    assert(c1.incoming == c.incoming);
    let k = seq_sub(c.recv.nxt, h.sequence_number) as int;
    assert(unread_at(c1, h) == k);
    assert(data.skip(k) =~= data.subrange(k, data.len() as int));
}

/// A connection in FIN-WAIT-1 leaves it only on the acknowledgment of our
/// FIN: afterwards `SND.UNA` is one past the sequence number of our FIN.
pub proof fn law_fin_wait_1_waits_for_ack_of_fin(c: ConnectionView, h: TcpHeaderInfo, data: Seq<u8>)
    requires
        c.state is FinWait1,
        !segment_faults(c, h, data),
    ensures
        ({
            let next = after_segment(c, h, data).0;
            next.state is FinWait1 || (c.closed_at matches Some(f) && next.send.una == seq_add(
                f,
                1,
            ))
        }),
{
}

/// The acknowledgment of our FIN moves a connection out of FIN-WAIT-1.
pub proof fn law_ack_of_fin_leaves_fin_wait_1(c: ConnectionView, h: TcpHeaderInfo, data: Seq<u8>, fin: u32)
    requires
        c.state is FinWait1,
        c.closed_at == Some(fin),
        segment_acceptable(c, h, segment_len(h, data.len() as int) as u32),
        h.ack,
        h.acknowledgment_number == seq_add(fin, 1),
        spec_is_between_wrapped(c.send.una, h.acknowledgment_number, seq_add(c.send.nxt, 1)),
        !segment_faults(c, h, data),
    ensures
        after_segment(c, h, data).0.state is FinWait2 || after_segment(c, h, data).0.state is TimeWait,
{
}

/// A retransmission on a closed connection whose queued data fits in the send
/// window resends our FIN: the segment starts at `SND.UNA`, carries the FIN
/// flag, and the FIN sits right after the queued data.
pub proof fn law_retransmission_resends_fin(c: ConnectionView)
    requires
        c.closed,
        c.unacked.len() < c.send.wnd,
        c.ip.protocol == IP_PROTOCOL_TCP,
    ensures
        tick_plan(c, true) matches Some((c1, seq, limit)) && ({
            let seg = written_segment(c1, seq, limit);
            &&& tcp_segment_of(seg.bytes) matches Some((_, t, _)) && t.fin && t.sequence_number
                == c.send.una
            &&& after_write(c1, seq, limit).closed_at == Some(
                seq_add(c.send.una, c.unacked.len() as u32),
            )
        }),
{
    let (c1, seq, limit) = tick_plan(c, true).unwrap();
    assert(write_offset(c1, seq) == 0) by {
        if !write_follows_fin(c1, seq) {
            assert(seq_sub(seq, c.send.una) == 0);
        }
    }
    law_written_segment_reads_back(c1, seq, limit);
}

/// The data of a segment written for `seq` (other than the one that follows
/// our FIN) is the queued data at those sequence numbers: byte `i` of the
/// payload is the queued byte with sequence number `seq + i`. The payload
/// stops at the limit, at the end of the queue, or where a segment is full.
pub proof fn law_payload_is_queued_data_at_its_sequence_numbers(c: ConnectionView, seq: u32, limit: int)
    requires
        can_write(c, seq),
        !write_follows_fin(c, seq),
        limit >= 0,
        c.unacked.len() <= u32::MAX,
        c.ip.protocol == IP_PROTOCOL_TCP,
    ensures
        ({
            let seg = written_segment(c, seq, limit);
            let k = seq_sub(seq, c.send.una) as int;
            let n = seg.payload_len as int;
            tcp_segment_of(seg.bytes) matches Some((_, t, payload)) && {
                &&& t.sequence_number == seq
                &&& payload.len() == n
                &&& forall|i: int|
                    0 <= i < n ==> payload[i] == c.unacked[seq_sub(
                        seq_add(seq, i as u32),
                        c.send.una,
                    ) as int]
                &&& n <= limit && n <= MAX_SEGMENT_PAYLOAD && k + n <= c.unacked.len()
                &&& (n == limit || n == MAX_SEGMENT_PAYLOAD || k + n == c.unacked.len())
            }
        }),
{
    let seg = written_segment(c, seq, limit);
    let k = seq_sub(seq, c.send.una) as int;
    let n = write_payload_len(c, seq, limit);
    law_written_segment_reads_back(c, seq, limit);
    let payload = c.unacked.subrange(k, k + n);
    assert forall|i: int| 0 <= i < n implies payload[i] == c.unacked[seq_sub(
        seq_add(seq, i as u32),
        c.send.una,
    ) as int] by {
        assert(seq_sub(seq_add(seq, i as u32), c.send.una) == k + i);
    }
}

/// Closing a connection that has not sent its FIN (SYN-RECEIVED or
/// ESTABLISHED) leaves it in a state whose FIN is on its way; every close
/// marks the connection closed.
pub proof fn law_close_queues_fin(c: ConnectionView)
    ensures
        after_close(c).closed,
        !(c.state is TimeWait) ==> has_sent_fin(after_close(c).state),
        (c.state is SynRcvd || c.state is Estab) ==> after_close(c).state is FinWait1,
{
}

} // verus!
