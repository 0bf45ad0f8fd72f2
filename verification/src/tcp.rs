//! The TCP connection state machine (RFC 793).
use vstd::prelude::*;
use std::collections::VecDeque;
use crate::TcpError;
use crate::wire::{
    Ipv4Fields, Ipv4HeaderInfo, TcpFields, TcpHeaderInfo, IPV4_HEADER_LEN, TCP_HEADER_LEN,
    IP_PROTOCOL_TCP, ipv4_header_bytes, ipv4_header_checksum, tcp_header_bytes,
    tcp_checksum_empty_payload, write_ipv4_header, write_tcp_header, tcp_checksum,
};

verus! {

/// The states a connection of this implementation goes through.
#[derive(Clone, Copy, Debug, PartialEq, Eq, Structural)]
pub enum State {
    SynRcvd,
    Estab,
    FinWait1,
    FinWait2,
    TimeWait,
}

/// Every state but SYN-RECEIVED is a synchronized one.
pub open spec fn is_synchronized(s: State) -> bool {
    s != State::SynRcvd
}

/// The states in which our FIN has gone out.
pub open spec fn has_sent_fin(s: State) -> bool {
    s is FinWait1 || s is FinWait2 || s is TimeWait
}

impl State {
    /// Whether this is the non-synchronized state, SYN-RECEIVED (RFC 793:
    /// ESTABLISHED, FIN-WAIT-1, FIN-WAIT-2 and TIME-WAIT are synchronized).
    pub fn is_non_synchronized(&self) -> (res: bool)
        ensures
            res == (*self is SynRcvd),
            res == !is_synchronized(*self),
    {
        match *self {
            State::SynRcvd => true,
            State::Estab | State::FinWait1 | State::FinWait2 | State::TimeWait => false,
        }
    }

    /// Whether our FIN has already gone out in this state.
    pub fn hava_sent_fin(&self) -> (res: bool)
        ensures
            res == has_sent_fin(*self),
    {
        match *self {
            State::SynRcvd | State::Estab => false,
            State::FinWait1 | State::FinWait2 | State::TimeWait => true,
        }
    }
}

/// `a + b` modulo 2^32: sequence number arithmetic.
pub open spec fn seq_add(a: u32, b: u32) -> u32 {
    if a + b > u32::MAX {
        (a + b - 0x1_0000_0000) as u32
    } else {
        (a + b) as u32
    }
}

/// `a - b` modulo 2^32: sequence number arithmetic.
pub open spec fn seq_sub(a: u32, b: u32) -> u32 {
    if a < b {
        (a - b + 0x1_0000_0000) as u32
    } else {
        (a - b) as u32
    }
}

/// Half the sequence space, 2^31. RFC 1323: a sequence number is "new" when
/// it lies within 2^31 ahead of the left edge of the window.
pub const WRAP_THRESHOLD: u32 = 0x8000_0000;

/// Whether `lhs` comes before `rhs` in sequence space: the difference
/// `lhs - rhs`, taken modulo 2^32, exceeds 2^31; that is, `rhs` lies ahead of
/// `lhs` by less than 2^31.
pub open spec fn spec_wrapping_lt(lhs: u32, rhs: u32) -> bool {
    seq_sub(lhs, rhs) > 0x8000_0000
}

/// Whether `x` lies strictly between `start` and `end` in sequence space.
pub open spec fn spec_is_between_wrapped(start: u32, x: u32, end: u32) -> bool {
    spec_wrapping_lt(start, x) && spec_wrapping_lt(x, end)
}

/// Compares two sequence numbers; see `spec_wrapping_lt`.
pub fn wrapping_lt(lhs: u32, rhs: u32) -> (res: bool)
    ensures
        res == spec_wrapping_lt(lhs, rhs),
{
    lhs.wrapping_sub(rhs) > WRAP_THRESHOLD
}

/// Whether `x` lies strictly between `start` and `end` in sequence space.
pub fn is_between_wrapped(start: u32, x: u32, end: u32) -> (res: bool)
    ensures
        res == spec_is_between_wrapped(start, x, end),
{
    wrapping_lt(start, x) && wrapping_lt(x, end)
}

/// Readiness of a connection for its users.
#[derive(Clone, Copy, Debug, PartialEq, Eq, Structural)]
pub struct Available {
    /// A read would not block: there is data, or the peer has closed.
    pub read: bool,
    /// A write would not block.
    pub write: bool,
}

/// RFC 793, S3.2: the send sequence space.
#[derive(Clone, Copy, Debug, PartialEq, Eq, Structural)]
pub struct SendSequenceSpace {
    /// send unacknowledged
    pub una: u32,
    /// send next
    pub nxt: u32,
    /// send window
    pub wnd: u16,
    /// send urgent pointer
    pub up: bool,
    /// segment sequence number used for last window update
    pub wl1: usize,
    /// segment acknowledgment number used for last window update
    pub wl2: usize,
    /// initial send sequence number
    pub iss: u32,
}

/// RFC 793, S3.2: the receive sequence space.
#[derive(Clone, Copy, Debug, PartialEq, Eq, Structural)]
pub struct RecvSequenceSpace {
    /// receive next
    pub nxt: u32,
    /// receive window
    pub wnd: u16,
    /// receive urgent pointer
    pub up: bool,
    /// initial receive sequence number
    pub irs: u32,
}

/// A segment ready to go out on the interface.
pub struct Segment {
    /// The sequence number it was written for.
    pub seq: u32,
    /// How many bytes of queued data it carries.
    pub payload_len: usize,
    /// The IPv4 packet: headers and payload.
    pub bytes: Vec<u8>,
}

pub struct SegmentView {
    pub seq: u32,
    pub payload_len: usize,
    pub bytes: Seq<u8>,
}

impl View for Segment {
    type V = SegmentView;

    open spec fn view(&self) -> SegmentView {
        SegmentView { seq: self.seq, payload_len: self.payload_len, bytes: self.bytes@ }
    }
}

/// The views of a list of segments.
pub open spec fn segment_views(s: Seq<Segment>) -> Seq<SegmentView> {
    s.map_values(|x: Segment| x@)
}

/// What handling one received segment produced.
pub struct PacketOutcome {
    /// Readiness of the connection afterwards.
    pub available: Available,
    /// Segments to send, in order.
    pub segments: Vec<Segment>,
    /// Where the segment acknowledged queued data: the old `SND.UNA` and the
    /// acknowledgment number, the range of sequence numbers now acknowledged.
    pub acked: Option<(u32, u32)>,
}

/// The Transmission Control Block of one connection (RFC 793, p. 10).
pub struct Connection {
    state: State,
    send: SendSequenceSpace,
    recv: RecvSequenceSpace,
    ip: Ipv4Fields,
    tcp: TcpFields,
    /// Received bytes not yet read.
    incoming: VecDeque<u8>,
    /// Bytes queued for sending and not yet acknowledged.
    unacked: VecDeque<u8>,
    closed: bool,
    closed_at: Option<u32>,
}

/// The abstract state of a connection.
pub struct ConnectionView {
    pub state: State,
    pub send: SendSequenceSpace,
    pub recv: RecvSequenceSpace,
    /// The IPv4 header that goes in front of our segments.
    pub ip: Ipv4Fields,
    /// The TCP header of the next segment we write.
    pub tcp: TcpFields,
    pub incoming: Seq<u8>,
    pub unacked: Seq<u8>,
    /// The user has asked to close the connection.
    pub closed: bool,
    /// The sequence number of our FIN, once it has been queued.
    pub closed_at: Option<u32>,
}

impl View for Connection {
    type V = ConnectionView;

    closed spec fn view(&self) -> ConnectionView {
        ConnectionView {
            state: self.state,
            send: self.send,
            recv: self.recv,
            ip: self.ip,
            tcp: self.tcp,
            incoming: self.incoming@,
            unacked: self.unacked@,
            closed: self.closed,
            closed_at: self.closed_at,
        }
    }
}

/// The size of the buffer a segment is assembled in.
pub const SEGMENT_BUFFER_LEN: usize = 1500;

/// The most payload one segment carries: the buffer less both headers.
pub const MAX_SEGMENT_PAYLOAD: usize = 1460;

/// Our initial send sequence number and the window we advertise.
pub const OUR_ISS: u32 = 0;

pub const OUR_WINDOW: u16 = 10;

/// The time-to-live of the packets we send.
pub const OUR_TTL: u8 = 64;

pub open spec fn min_int(a: int, b: int) -> int {
    if a < b {
        a
    } else {
        b
    }
}

pub open spec fn flag(b: bool) -> u32 {
    if b {
        1
    } else {
        0
    }
}

/// Readiness as the connection reports it.
pub open spec fn availability_of(c: ConnectionView) -> Available {
    Available { read: c.state is TimeWait || c.incoming.len() > 0, write: false }
}

// ---- Writing a segment ----

/// The segment written for `seq` is the one that follows our FIN: it carries
/// no data.
pub open spec fn write_follows_fin(c: ConnectionView, seq: u32) -> bool {
    match c.closed_at {
        Some(at) => seq == seq_add(at, 1),
        None => false,
    }
}

/// Where in the queued data the segment written for `seq` starts.
pub open spec fn write_offset(c: ConnectionView, seq: u32) -> int {
    if write_follows_fin(c, seq) {
        0
    } else {
        seq_sub(seq, c.send.una) as int
    }
}

/// How many queued bytes the segment written for `seq`, with at most `limit`
/// bytes of data, carries.
pub open spec fn write_payload_len(c: ConnectionView, seq: u32, limit: int) -> int {
    let lim = if write_follows_fin(c, seq) {
        0
    } else {
        limit
    };
    min_int(min_int(lim, c.unacked.len() - write_offset(c, seq)), MAX_SEGMENT_PAYLOAD as int)
}

/// The TCP header of the segment written for `seq`, with its checksum.
pub open spec fn outgoing_tcp(c: ConnectionView, seq: u32) -> TcpFields {
    let t = TcpFields { sequence_number: seq, acknowledgment_number: c.recv.nxt, ..c.tcp };
    TcpFields { checksum: tcp_checksum_empty_payload(t, c.ip.source, c.ip.destination), ..t }
}

/// The IPv4 header of a segment with `n` bytes of data.
pub open spec fn outgoing_ip(c: ConnectionView, n: int) -> Ipv4Fields {
    Ipv4Fields { payload_len: (TCP_HEADER_LEN + n) as u16, ..c.ip }
}

/// The segment written for `seq` with at most `limit` bytes of data.
pub open spec fn written_segment(c: ConnectionView, seq: u32, limit: int) -> SegmentView {
    let n = write_payload_len(c, seq, limit);
    let off = write_offset(c, seq);
    let ip = outgoing_ip(c, n);
    SegmentView {
        seq,
        payload_len: n as usize,
        bytes: ipv4_header_bytes(ip, ipv4_header_checksum(ip)) + tcp_header_bytes(
            outgoing_tcp(c, seq),
        ) + c.unacked.subrange(off, off + n),
    }
}

/// The connection after writing the segment for `seq`: SYN and FIN are
/// cleared from the header, and `SND.NXT` moves past the data and flags sent
/// when that is forward in sequence space.
pub open spec fn after_write(c: ConnectionView, seq: u32, limit: int) -> ConnectionView {
    let n = write_payload_len(c, seq, limit);
    let t = outgoing_tcp(c, seq);
    let next = seq_add(seq_add(seq_add(seq, n as u32), flag(c.tcp.syn)), flag(c.tcp.fin));
    ConnectionView {
        tcp: TcpFields { syn: false, fin: false, ..t },
        ip: outgoing_ip(c, n),
        send: SendSequenceSpace {
            nxt: if spec_wrapping_lt(c.send.nxt, next) {
                next
            } else {
                c.send.nxt
            },
            ..c.send
        },
        ..c
    }
}

/// A write for `seq` starts within the queued data; a write past it is not
/// supported.
pub open spec fn can_write(c: ConnectionView, seq: u32) -> bool {
    write_offset(c, seq) <= c.unacked.len()
}

/// `can_write`, over the only parts of the connection it depends on.
pub open spec fn write_within(closed_at: Option<u32>, una: u32, queued: int, seq: u32) -> bool {
    match closed_at {
        Some(at) => seq == seq_add(at, 1) || seq_sub(seq, una) <= queued,
        None => seq_sub(seq, una) <= queued,
    }
}

fn write_stays_within(closed_at: Option<u32>, una: u32, queued: usize, seq: u32) -> (res: bool)
    ensures
        res == write_within(closed_at, una, queued as int, seq),
{
    match closed_at {
        Some(at) => seq == at.wrapping_add(1) || seq.wrapping_sub(una) as usize <= queued,
        None => seq.wrapping_sub(una) as usize <= queued,
    }
}

impl Connection {
    pub(crate) fn is_rcv_closed(&self) -> (res: bool)
        ensures
            res == (self@.state is TimeWait),
    {
        if let State::TimeWait = self.state {
            true
        } else {
            false
        }
    }

    fn availablility(&self) -> (res: Available)
        ensures
            res == availability_of(self@),
    {
        let mut a = Available { read: false, write: false };
        if self.is_rcv_closed() || self.incoming.len() != 0 {
            a.read = true;
        }
        a
    }

    /// Assembles the segment for sequence number `seq` with at most `limit`
    /// bytes of queued data.
    #[verifier::spinoff_prover]
    #[verifier::rlimit(40)]
    fn write(&mut self, seq: u32, limit: usize) -> (res: Segment)
        requires
            can_write(old(self)@, seq),
        ensures
            final(self)@ == after_write(old(self)@, seq, limit as int),
            res@ == written_segment(old(self)@, seq, limit as int),
    {
        let ghost c = self@;
        self.tcp.sequence_number = seq;
        self.tcp.acknowledgment_number = self.recv.nxt;
        let mut offset: usize = seq.wrapping_sub(self.send.una) as usize;
        let mut limit: usize = limit;
        if let Some(closed_at) = self.closed_at {
            if seq == closed_at.wrapping_add(1) {
                // the segment following our FIN carries no data
                offset = 0;
                limit = 0;
            }
        }
        let available: usize = self.unacked.len() - offset;
        let max_data: usize = if limit < available {
            limit
        } else {
            available
        };
        let size: usize = if max_data < SEGMENT_BUFFER_LEN - TCP_HEADER_LEN - IPV4_HEADER_LEN {
            TCP_HEADER_LEN + IPV4_HEADER_LEN + max_data
        } else {
            SEGMENT_BUFFER_LEN
        };
        let payload_len: usize = size - TCP_HEADER_LEN - IPV4_HEADER_LEN;
        self.ip.payload_len = (size - IPV4_HEADER_LEN) as u16;
        self.tcp.checksum = tcp_checksum(&self.tcp, self.ip.source, self.ip.destination);
        let mut bytes = write_ipv4_header(&self.ip);
        let mut tcp_bytes = write_tcp_header(&self.tcp);
        bytes.append(&mut tcp_bytes);
        let end: usize = offset + payload_len;
        self.append_queued(offset, end, &mut bytes);
        proof {
            assert(offset == write_offset(c, seq));
            assert(payload_len == write_payload_len(c, seq, limit as int));
            assert(self.tcp == outgoing_tcp(c, seq));
            assert(self.ip == outgoing_ip(c, payload_len as int));
        }
        // the sequence number after the last one this segment occupies
        let mut next_seq = seq.wrapping_add(payload_len as u32);
        if self.tcp.syn {
            next_seq = next_seq.wrapping_add(1);
            self.tcp.syn = false;
        }
        if self.tcp.fin {
            next_seq = next_seq.wrapping_add(1);
            self.tcp.fin = false;
        }
        if wrapping_lt(self.send.nxt, next_seq) {
            self.send.nxt = next_seq;
        }
        Segment { seq, payload_len, bytes }
    }

    /// Appends the queued bytes `start..end` to `out`.
    fn append_queued(&self, start: usize, end: usize, out: &mut Vec<u8>)
        requires
            start <= end <= self@.unacked.len(),
        ensures
            final(out)@ == old(out)@ + self@.unacked.subrange(start as int, end as int),
    {
        let ghost prefix = out@;
        let mut i: usize = start;
        while i < end
            invariant
                start <= i <= end <= self.unacked@.len(),
                out@ == prefix + self.unacked@.subrange(start as int, i as int),
            decreases end - i,
        {
            out.push(self.unacked[i]);
            i = i + 1;
            assert(out@ =~= prefix + self.unacked@.subrange(start as int, i as int));
        }
    }
}


// ---- Opening and closing ----

/// A connection just created for a received SYN, before its SYN-ACK goes out:
/// the header is addressed back to the peer with SYN and ACK set, and the peer's
/// sequence number and window are recorded.
pub open spec fn syn_received(ip: Ipv4HeaderInfo, tcp: TcpHeaderInfo) -> ConnectionView {
    ConnectionView {
        state: State::SynRcvd,
        send: SendSequenceSpace {
            iss: OUR_ISS,
            una: OUR_ISS,
            nxt: OUR_ISS,
            wnd: OUR_WINDOW,
            up: false,
            wl1: 0,
            wl2: 0,
        },
        recv: RecvSequenceSpace {
            irs: tcp.sequence_number,
            nxt: seq_add(tcp.sequence_number, 1),
            wnd: tcp.window_size,
            up: false,
        },
        tcp: TcpFields {
            source_port: tcp.destination_port,
            destination_port: tcp.source_port,
            sequence_number: OUR_ISS,
            acknowledgment_number: 0,
            window_size: OUR_WINDOW,
            syn: true,
            ack: true,
            fin: false,
            rst: false,
            checksum: 0,
        },
        ip: Ipv4Fields {
            payload_len: 0,
            time_to_live: OUR_TTL,
            protocol: IP_PROTOCOL_TCP,
            source: ip.destination,
            destination: ip.source,
        },
        incoming: Seq::empty(),
        unacked: Seq::empty(),
        closed: false,
        closed_at: None,
    }
}

/// The connection after the user closes it: SYN-RECEIVED and ESTABLISHED move
/// on to FIN-WAIT-1, the other states stay.
pub open spec fn after_close(c: ConnectionView) -> ConnectionView {
    ConnectionView {
        closed: true,
        state: if c.state is SynRcvd || c.state is Estab {
            State::FinWait1
        } else {
            c.state
        },
        ..c
    }
}

// ---- The timer ----

/// Queue a FIN after the queued data.
pub open spec fn with_fin_queued(c: ConnectionView) -> ConnectionView {
    ConnectionView {
        tcp: TcpFields { fin: true, ..c.tcp },
        closed_at: Some(seq_add(c.send.una, c.unacked.len() as u32)),
        ..c
    }
}

/// What a tick decides to write: the connection just before the write, the
/// sequence number and the data limit; `None` where nothing is sent. A
/// retransmission resends from `SND.UNA` as much as the window allows; otherwise
/// new data goes out from `SND.NXT` as far as the window allows. A closed
/// connection queues its FIN once all of its data fits in the segment; once
/// the FIN is queued and nothing is left unsent, a tick sends nothing.
pub open spec fn tick_plan(c: ConnectionView, retransmit: bool) -> Option<(ConnectionView, u32, int)> {
    let nunacked = seq_sub(c.send.nxt, c.send.una) as int;
    let len = c.unacked.len() as int;
    if retransmit {
        let resend = min_int(len, c.send.wnd as int);
        let c1 = if resend < c.send.wnd && c.closed {
            with_fin_queued(c)
        } else {
            c
        };
        Some((c1, c.send.una, resend))
    } else {
        // sequence numbers in flight beyond the queue are our SYN or FIN
        let unsent = if nunacked > len {
            0
        } else {
            len - nunacked
        };
        let allowed = if nunacked >= c.send.wnd {
            0
        } else {
            c.send.wnd - nunacked
        };
        if unsent == 0 && c.closed_at is Some {
            None
        } else if allowed == 0 {
            None
        } else {
            let send = min_int(unsent, allowed);
            let c1 = if send < allowed && c.closed && c.closed_at is None {
                with_fin_queued(c)
            } else {
                c
            };
            Some((c1, c.send.nxt, send))
        }
    }
}

/// A tick does not index past the queued data.
pub open spec fn can_tick(c: ConnectionView, retransmit: bool) -> bool {
    match tick_plan(c, retransmit) {
        Some((c1, seq, _)) => can_write(c1, seq),
        None => true,
    }
}

impl Connection {
    /// Creates the connection for a received SYN and writes its SYN-ACK; a
    /// segment without SYN opens nothing.
    pub fn accept(ip_header: &Ipv4HeaderInfo, tcp_header: &TcpHeaderInfo, data: &[u8]) -> (res:
        Option<(Connection, Segment)>)
        ensures
            res is Some <==> tcp_header.syn,
            res matches Some((conn, seg)) ==> {
                &&& conn@ == after_write(syn_received(*ip_header, *tcp_header), OUR_ISS, 0)
                &&& seg@ == written_segment(syn_received(*ip_header, *tcp_header), OUR_ISS, 0)
            },
    {
        if !tcp_header.syn {
            // only a SYN opens a connection
            return None;
        }
        let mut conn = Connection {
            state: State::SynRcvd,
            send: SendSequenceSpace {
                iss: OUR_ISS,
                una: OUR_ISS,
                nxt: OUR_ISS,
                wnd: OUR_WINDOW,
                up: false,
                wl1: 0,
                wl2: 0,
            },
            recv: RecvSequenceSpace {
                irs: tcp_header.sequence_number,
                nxt: tcp_header.sequence_number.wrapping_add(1),
                wnd: tcp_header.window_size,
                up: false,
            },
            tcp: TcpFields {
                source_port: tcp_header.destination_port,
                destination_port: tcp_header.source_port,
                sequence_number: OUR_ISS,
                acknowledgment_number: 0,
                window_size: OUR_WINDOW,
                syn: false,
                ack: false,
                fin: false,
                rst: false,
                checksum: 0,
            },
            ip: Ipv4Fields {
                payload_len: 0,
                time_to_live: OUR_TTL,
                protocol: IP_PROTOCOL_TCP,
                source: ip_header.destination,
                destination: ip_header.source,
            },
            incoming: VecDeque::new(),
            unacked: VecDeque::new(),
            closed: false,
            closed_at: None,
        };
        // our SYN, and the acknowledgment of theirs
        conn.tcp.syn = true;
        conn.tcp.ack = true;
        assert(conn@ == syn_received(*ip_header, *tcp_header));
        let seg = conn.write(conn.send.nxt, 0);
        Some((conn, seg))
    }

    /// Writes a reset: the header gets RST, and the segment goes out at
    /// `SND.NXT` without data.
    #[allow(dead_code)]
    fn send_rst(&mut self) -> (res: Segment)
        requires
            can_write(old(self)@, old(self)@.send.nxt),
        ensures
            ({
                let c = ConnectionView {
                    tcp: TcpFields {
                        rst: true,
                        sequence_number: 0,
                        acknowledgment_number: 0,
                        ..old(self)@.tcp
                    },
                    ..old(self)@
                };
                &&& final(self)@ == after_write(c, c.send.nxt, 0)
                &&& res@ == written_segment(c, c.send.nxt, 0)
            }),
    {
        self.tcp.rst = true;
        self.tcp.sequence_number = 0;
        self.tcp.acknowledgment_number = 0;
        self.write(self.send.nxt, 0)
    }

    /// What the retransmission timer does on a tick. Whether the oldest
    /// unacknowledged segment is due for retransmission is decided by the
    /// caller, from its send times, and handed in as `should_retransmit`.
    pub fn on_tick(&mut self, should_retransmit: bool) -> (res: Option<Segment>)
        requires
            old(self)@.unacked.len() <= u32::MAX,
            can_tick(old(self)@, should_retransmit),
        ensures
            match tick_plan(old(self)@, should_retransmit) {
                None => final(self)@ == old(self)@ && res is None,
                Some((c1, seq, limit)) => {
                    &&& final(self)@ == after_write(c1, seq, limit)
                    &&& res matches Some(seg) && seg@ == written_segment(c1, seq, limit)
                },
            },
    {
        let nunacked = self.send.nxt.wrapping_sub(self.send.una);
        let queued = self.unacked.len() as u32;
        // sequence numbers in flight beyond the queue are our SYN or FIN
        let unsent: u32 = if nunacked > queued {
            0
        } else {
            queued - nunacked
        };
        if should_retransmit {
            // we should retransmit things!
            let len = self.unacked.len() as u32;
            let resend: u32 = if len < self.send.wnd as u32 {
                len
            } else {
                self.send.wnd as u32
            };
            if resend < self.send.wnd as u32 && self.closed {
                self.tcp.fin = true;
                self.closed_at = Some(self.send.una.wrapping_add(self.unacked.len() as u32));
            }
            Some(self.write(self.send.una, resend as usize))
        } else {
            // send new data if we have new data and space in the window
            if unsent == 0 && self.closed_at.is_some() {
                return None;
            }
            let allowed: u32 = if nunacked >= self.send.wnd as u32 {
                0
            } else {
                self.send.wnd as u32 - nunacked
            };
            if allowed == 0 {
                return None;
            }
            let send: u32 = if unsent < allowed {
                unsent
            } else {
                allowed
            };
            if send < allowed && self.closed && self.closed_at.is_none() {
                self.tcp.fin = true;
                self.closed_at = Some(self.send.una.wrapping_add(self.unacked.len() as u32));
            }
            Some(self.write(self.send.nxt, send as usize))
        }
    }

    /// Closes our side: queues a FIN by moving to FIN-WAIT-1.
    pub fn close(&mut self) -> (res: Result<(), TcpError>)
        ensures
            final(self)@ == after_close(old(self)@),
            res == (if old(self)@.state is TimeWait {
                Err(TcpError::AlreadyClosing)
            } else {
                Ok(())
            }),
    {
        self.closed = true;
        match self.state {
            State::SynRcvd | State::Estab => {
                self.state = State::FinWait1;
            },
            State::FinWait1 | State::FinWait2 => {},
            State::TimeWait => {
                return Err(TcpError::AlreadyClosing);
            },
        }
        Ok(())
    }
}


// ---- Receiving a segment ----

/// The sequence space a segment occupies: its data, plus one for each of SYN
/// and FIN.
pub open spec fn segment_len(h: TcpHeaderInfo, data_len: int) -> int {
    data_len + flag(h.fin) + flag(h.syn)
}

/// RFC 793, S3.3: whether a segment is acceptable. A segment that occupies no
/// sequence space is acceptable at `RCV.NXT` when the window is closed, and
/// inside the window otherwise; one that occupies some needs an open window
/// and its first or its last sequence number inside it.
pub open spec fn segment_acceptable(c: ConnectionView, h: TcpHeaderInfo, slen: u32) -> bool {
    let wend = seq_add(c.recv.nxt, c.recv.wnd as u32);
    let before = seq_sub(c.recv.nxt, 1);
    if slen == 0 {
        if c.recv.wnd == 0 {
            h.sequence_number == c.recv.nxt
        } else {
            spec_is_between_wrapped(before, h.sequence_number, wend)
        }
    } else {
        c.recv.wnd != 0 && (spec_is_between_wrapped(before, h.sequence_number, wend)
            || spec_is_between_wrapped(before, seq_add(h.sequence_number, (slen - 1) as u32), wend))
    }
}

/// The states in which acknowledgments and data are processed.
pub open spec fn is_data_state(s: State) -> bool {
    s is Estab || s is FinWait1 || s is FinWait2
}

/// The three-way handshake completes when the peer acknowledges our SYN.
pub open spec fn handshake_step(c: ConnectionView, ackn: u32) -> ConnectionView {
    if c.state is SynRcvd && spec_is_between_wrapped(
        c.send.una,
        ackn,
        seq_add(c.send.nxt, 1),
    ) {
        ConnectionView { state: State::Estab, ..c }
    } else {
        c
    }
}

/// The acknowledgment number lies in the unacknowledged window.
pub open spec fn acks_new_data(c: ConnectionView, ackn: u32) -> bool {
    is_data_state(c.state) && spec_is_between_wrapped(c.send.una, ackn, seq_add(c.send.nxt, 1))
}

/// Acknowledged data leaves the send queue and `SND.UNA` moves up. An
/// acknowledgment that also covers our FIN empties the queue.
pub open spec fn ack_step(c: ConnectionView, ackn: u32) -> ConnectionView {
    if acks_new_data(c, ackn) {
        ConnectionView {
            unacked: c.unacked.skip(min_int(seq_sub(ackn, c.send.una) as int, c.unacked.len() as int)),
            send: SendSequenceSpace { una: ackn, ..c.send },
            ..c
        }
    } else {
        c
    }
}

/// In FIN-WAIT-1, the acknowledgment of our FIN moves on to FIN-WAIT-2.
pub open spec fn fin_acked_step(c: ConnectionView) -> ConnectionView {
    if c.state is FinWait1 && (c.closed_at matches Some(f) && c.send.una == seq_add(f, 1)) {
        ConnectionView { state: State::FinWait2, ..c }
    } else {
        c
    }
}

/// Everything an acceptable segment with an ACK does before its data is read.
pub open spec fn after_ack(c: ConnectionView, ackn: u32) -> ConnectionView {
    fin_acked_step(ack_step(handshake_step(c, ackn), ackn))
}

/// How far into the segment's data `RCV.NXT` lies.
pub open spec fn unread_at(c: ConnectionView, h: TcpHeaderInfo) -> int {
    seq_sub(c.recv.nxt, h.sequence_number) as int
}

/// Where the new data of a segment starts; a retransmitted FIN carries none.
pub open spec fn new_data_start(c: ConnectionView, h: TcpHeaderInfo, data_len: int) -> int {
    if unread_at(c, h) > data_len {
        0
    } else {
        unread_at(c, h)
    }
}

/// The segment's new data joins the received bytes, and `RCV.NXT` moves past
/// the segment.
pub open spec fn after_receive(c: ConnectionView, h: TcpHeaderInfo, data: Seq<u8>) -> ConnectionView {
    ConnectionView {
        incoming: c.incoming + data.skip(new_data_start(c, h, data.len() as int)),
        recv: RecvSequenceSpace {
            nxt: seq_add(seq_add(h.sequence_number, data.len() as u32), flag(h.fin)),
            ..c.recv
        },
        ..c
    }
}

/// The connection after an acceptable segment with an ACK, and the segments
/// written for it.
pub open spec fn after_acked_segment(c: ConnectionView, h: TcpHeaderInfo, data: Seq<u8>) -> (
    ConnectionView,
    Seq<SegmentView>,
) {
    let c1 = after_ack(c, h.acknowledgment_number);
    let (c2, s2) = if is_data_state(c1.state) {
        let r = after_receive(c1, h, data);
        (after_write(r, r.send.nxt, 0), seq![written_segment(r, r.send.nxt, 0)])
    } else {
        (c1, Seq::<SegmentView>::empty())
    };
    if h.fin {
        (
            ConnectionView { state: State::TimeWait, ..after_write(c2, c2.send.nxt, 0) },
            s2.push(written_segment(c2, c2.send.nxt, 0)),
        )
    } else {
        (c2, s2)
    }
}

/// The connection after a received segment, and the segments written for it:
/// an unacceptable segment is answered with an acknowledgment; a segment
/// without ACK only records a SYN; otherwise the acknowledgment is processed,
/// new data is taken in and acknowledged, and a FIN in FIN-WAIT-2 is
/// acknowledged and leads to TIME-WAIT.
pub open spec fn after_segment(c: ConnectionView, h: TcpHeaderInfo, data: Seq<u8>) -> (
    ConnectionView,
    Seq<SegmentView>,
) {
    if !segment_acceptable(c, h, segment_len(h, data.len() as int) as u32) {
        (after_write(c, c.send.nxt, 0), seq![written_segment(c, c.send.nxt, 0)])
    } else if !h.ack {
        if h.syn {
            (
                ConnectionView {
                    recv: RecvSequenceSpace { nxt: seq_add(h.sequence_number, 1), ..c.recv },
                    ..c
                },
                Seq::empty(),
            )
        } else {
            (c, Seq::empty())
        }
    } else {
        after_acked_segment(c, h, data)
    }
}

/// The range of sequence numbers that a segment acknowledges while data was
/// queued: the old `SND.UNA` and the acknowledgment number.
pub open spec fn acked_range(c: ConnectionView, h: TcpHeaderInfo, data: Seq<u8>) -> Option<(u32, u32)> {
    let c0 = handshake_step(c, h.acknowledgment_number);
    if segment_acceptable(c, h, segment_len(h, data.len() as int) as u32) && h.ack && acks_new_data(
        c0,
        h.acknowledgment_number,
    ) && c0.unacked.len() > 0 {
        Some((c0.send.una, h.acknowledgment_number))
    } else {
        None
    }
}

/// The segments a connection does not handle: one whose answer would be
/// written past the queued data, a SYN without ACK that carries data, data
/// that starts after `RCV.NXT` (other than a retransmitted FIN), and a FIN in
/// any state but FIN-WAIT-2.
pub open spec fn segment_faults(c: ConnectionView, h: TcpHeaderInfo, data: Seq<u8>) -> bool {
    if !segment_acceptable(c, h, segment_len(h, data.len() as int) as u32) {
        !can_write(c, c.send.nxt)
    } else if !h.ack {
        h.syn && data.len() > 0
    } else {
        let ackn = h.acknowledgment_number;
        let c1 = after_ack(c, ackn);
        let r = after_receive(c1, h, data);
        let c2_before_fin = if is_data_state(c1.state) {
            after_write(r, r.send.nxt, 0)
        } else {
            c1
        };
        ||| is_data_state(c1.state) && unread_at(c1, h) > data.len() && unread_at(c1, h) != data.len()
            + 1
        ||| is_data_state(c1.state) && !can_write(r, r.send.nxt)
        ||| h.fin && !(c2_before_fin.state is FinWait2 && can_write(
            c2_before_fin,
            c2_before_fin.send.nxt,
        ))
    }
}

impl Connection {
    fn segment_acceptable(&self, h: &TcpHeaderInfo, slen: u32) -> (res: bool)
        ensures
            res == segment_acceptable(self@, *h, slen),
    {
        let seqn = h.sequence_number;
        let wend = self.recv.nxt.wrapping_add(self.recv.wnd as u32);
        if slen == 0 {
            // zero length segment has separate rules for acceptance
            if self.recv.wnd == 0 {
                seqn == self.recv.nxt
            } else {
                is_between_wrapped(self.recv.nxt.wrapping_sub(1), seqn, wend)
            }
        } else {
            if self.recv.wnd == 0 {
                false
            } else {
                is_between_wrapped(self.recv.nxt.wrapping_sub(1), seqn, wend)
                    || is_between_wrapped(
                    self.recv.nxt.wrapping_sub(1),
                    seqn.wrapping_add(slen - 1),
                    wend,
                )
            }
        }
    }

    /// Handles an acknowledgment number: completes the handshake, drops the
    /// acknowledged data and notices the acknowledgment of our FIN.
    fn process_ack(&mut self, ackn: u32) -> (res: Option<(u32, u32)>)
        ensures
            final(self)@ == after_ack(old(self)@, ackn),
            ({
                let c0 = handshake_step(old(self)@, ackn);
                res == (if acks_new_data(c0, ackn) && c0.unacked.len() > 0 {
                    Some((c0.send.una, ackn))
                } else {
                    None::<(u32, u32)>
                })
            }),
    {
        if let State::SynRcvd = self.state {
            if is_between_wrapped(
                self.send.una,
                ackn,
                self.send.nxt.wrapping_add(1),
            ) {
                // must have ACKed our SYN, since we detected at least one acked byte
                // and we have only sent one byte (the SYN)
                self.state = State::Estab;
            }
        }
        let mut acked = None;
        if let State::Estab | State::FinWait1 | State::FinWait2 = self.state {
            if is_between_wrapped(self.send.una, ackn, self.send.nxt.wrapping_add(1)) {
                if self.unacked.len() != 0 {
                    let acked_len = ackn.wrapping_sub(self.send.una) as usize;
                    // an acknowledgment of our FIN reaches past the queue
                    let nacked = if acked_len < self.unacked.len() {
                        acked_len
                    } else {
                        self.unacked.len()
                    };
                    let rest = self.unacked.split_off(nacked);
                    self.unacked = rest;
                    acked = Some((self.send.una, ackn));
                } else {
                    assert(self.unacked@.skip(0) =~= self.unacked@);
                }
                self.send.una = ackn;
            }
        }
        if let (State::FinWait1, Some(fin)) = (self.state, self.closed_at) {
            if self.send.una == fin.wrapping_add(1) {
                // our FIN has been acked!
                self.state = State::FinWait2;
            }
        }
        acked
    }

    /// Takes in the new data of a segment and moves `RCV.NXT` past it.
    fn receive(&mut self, h: &TcpHeaderInfo, data: &[u8])
        requires
            data.len() <= u32::MAX,
            !(unread_at(old(self)@, *h) > data@.len() && unread_at(old(self)@, *h) != data@.len()
                + 1),
        ensures
            final(self)@ == after_receive(old(self)@, *h, data@),
    {
        let ghost c = self@;
        let mut unread_data_at = self.recv.nxt.wrapping_sub(h.sequence_number) as usize;
        if unread_data_at > data.len() {
            // we must have received a re-transmitted FIN
            unread_data_at = 0;
        }
        let mut i: usize = unread_data_at;
        while i < data.len()
            invariant
                unread_data_at <= i <= data@.len(),
                self@ == (ConnectionView {
                    incoming: c.incoming + data@.subrange(unread_data_at as int, i as int),
                    ..c
                }),
            decreases data.len() - i,
        {
            self.incoming.push_back(data[i]);
            i = i + 1;
            assert(self@.incoming =~= c.incoming + data@.subrange(unread_data_at as int, i as int));
        }
        assert(data@.skip(unread_data_at as int) =~= data@.subrange(
            unread_data_at as int,
            data@.len() as int,
        ));
        let fin: u32 = if h.fin {
            1
        } else {
            0
        };
        self.recv.nxt = h.sequence_number.wrapping_add(data.len() as u32).wrapping_add(fin);
    }

    /// Handles a received segment of this connection.
    pub fn on_packet(&mut self, h: &TcpHeaderInfo, data: &[u8]) -> (res: PacketOutcome)
        requires
            data.len() <= u32::MAX - 2,
            !segment_faults(old(self)@, *h, data@),
        ensures
            final(self)@ == after_segment(old(self)@, *h, data@).0,
            segment_views(res.segments@) == after_segment(old(self)@, *h, data@).1,
            res.acked == acked_range(old(self)@, *h, data@),
            res.available == availability_of(final(self)@),
    {
        let ghost c = self@;
        // first, check that sequence numbers are valid (RFC S3.3)
        let seqn = h.sequence_number;
        let mut slen = data.len() as u32;
        if h.fin {
            slen = slen + 1;
        }
        if h.syn {
            slen = slen + 1;
        }
        let mut segments: Vec<Segment> = Vec::new();
        if !self.segment_acceptable(h, slen) {
            let seg = self.write(self.send.nxt, 0);
            segments.push(seg);
            assert(segment_views(segments@) =~= after_segment(c, *h, data@).1);
            return PacketOutcome { available: self.availablility(), segments, acked: None };
        }
        if !h.ack {
            if h.syn {
                // got the SYN part of the initial handshake
                self.recv.nxt = seqn.wrapping_add(1);
            }
            assert(segment_views(segments@) =~= after_segment(c, *h, data@).1);
            return PacketOutcome { available: self.availablility(), segments, acked: None };
        }
        let ackn = h.acknowledgment_number;
        let acked = self.process_ack(ackn);
        let ghost c1 = self@;
        if let State::Estab | State::FinWait1 | State::FinWait2 = self.state {
            self.receive(h, data);
            let seg = self.write(self.send.nxt, 0);
            segments.push(seg);
        }
        let ghost c2 = self@;
        if h.fin {
            if let State::FinWait2 = self.state {
                // we're done with the connection!
                let seg = self.write(self.send.nxt, 0);
                segments.push(seg);
                self.state = State::TimeWait;
            }
        }
        assert(segment_views(segments@) =~= after_segment(c, *h, data@).1);
        PacketOutcome { available: self.availablility(), segments, acked }
    }
}


// ---- Checks and stream operations ----

impl Connection {
    /// The number of queued bytes not yet acknowledged.
    pub fn unacked_len(&self) -> (res: usize)
        ensures
            res == self@.unacked.len(),
    {
        self.unacked.len()
    }

    /// The number of received bytes not yet read.
    pub fn incoming_len(&self) -> (res: usize)
        ensures
            res == self@.incoming.len(),
    {
        self.incoming.len()
    }

    /// `SND.UNA`: the oldest unacknowledged sequence number.
    pub fn send_unacknowledged(&self) -> (res: u32)
        ensures
            res == self@.send.una,
    {
        self.send.una
    }

    pub fn state(&self) -> (res: State)
        ensures
            res == self@.state,
    {
        self.state
    }

    /// Whether a tick would write past the queued data; `on_tick` must not be
    /// called then.
    pub fn tick_would_fault(&self, should_retransmit: bool) -> (res: bool)
        requires
            self@.unacked.len() <= u32::MAX,
        ensures
            res == !can_tick(self@, should_retransmit),
    {
        if should_retransmit {
            // a retransmission starts at SND.UNA, the start of the queue
            return false;
        }
        let nunacked = self.send.nxt.wrapping_sub(self.send.una);
        let len = self.unacked.len() as u32;
        let unsent: u32 = if nunacked > len {
            0
        } else {
            len - nunacked
        };
        if unsent == 0 && self.closed_at.is_some() {
            return false;
        }
        let allowed: u32 = if nunacked >= self.send.wnd as u32 {
            0
        } else {
            self.send.wnd as u32 - nunacked
        };
        if allowed == 0 {
            return false;
        }
        let send: u32 = if unsent < allowed {
            unsent
        } else {
            allowed
        };
        let closed_at = if send < allowed && self.closed && self.closed_at.is_none() {
            Some(self.send.una.wrapping_add(len))
        } else {
            self.closed_at
        };
        !write_stays_within(closed_at, self.send.una, self.unacked.len(), self.send.nxt)
    }

    /// Whether this is a segment the connection does not handle
    /// (`segment_faults`); `on_packet` must not be given one.
    pub fn segment_would_fault(&self, h: &TcpHeaderInfo, data: &[u8]) -> (res: bool)
        requires
            data.len() <= u32::MAX - 2,
        ensures
            res == segment_faults(self@, *h, data@),
    {
        let ghost c = self@;
        let mut slen = data.len() as u32;
        if h.fin {
            slen = slen + 1;
        }
        if h.syn {
            slen = slen + 1;
        }
        if !self.segment_acceptable(h, slen) {
            return !write_stays_within(
                self.closed_at,
                self.send.una,
                self.unacked.len(),
                self.send.nxt,
            );
        }
        if !h.ack {
            return h.syn && data.len() > 0;
        }
        let ackn = h.acknowledgment_number;
        let mut state = self.state;
        if state == State::SynRcvd && is_between_wrapped(
            self.send.una,
            ackn,
            self.send.nxt.wrapping_add(1),
        ) {
            state = State::Estab;
        }
        let ghost c0 = handshake_step(c, ackn);
        assert(state == c0.state);
        let mut una = self.send.una;
        let mut queued = self.unacked.len();
        let data_state = state == State::Estab || state == State::FinWait1 || state
            == State::FinWait2;
        if data_state && is_between_wrapped(una, ackn, self.send.nxt.wrapping_add(1)) {
            if queued > 0 {
                let nacked = ackn.wrapping_sub(una) as usize;
                queued = if nacked < queued {
                    queued - nacked
                } else {
                    0
                };
            }
            una = ackn;
        }
        if state == State::FinWait1 && self.closed_at.is_some() && una == self.closed_at.unwrap().wrapping_add(1) {
            state = State::FinWait2;
        }
        let ghost c1 = after_ack(c, ackn);
        assert(state == c1.state && una == c1.send.una && queued == c1.unacked.len());
        let mut nxt = self.send.nxt;
        if state == State::Estab || state == State::FinWait1 || state == State::FinWait2 {
            let at = self.recv.nxt.wrapping_sub(h.sequence_number) as usize;
            if at > data.len() && at != data.len() + 1 {
                return true;
            }
            if !write_stays_within(self.closed_at, una, queued, nxt) {
                return true;
            }
            // the acknowledgment written here moves past a pending SYN or FIN
            let mut next = nxt;
            if self.tcp.syn {
                next = next.wrapping_add(1);
            }
            if self.tcp.fin {
                next = next.wrapping_add(1);
            }
            if wrapping_lt(nxt, next) {
                nxt = next;
            }
            proof {
                let r = after_receive(c1, *h, data@);
                assert(write_payload_len(r, r.send.nxt, 0) == 0);
                assert(nxt == after_write(r, r.send.nxt, 0).send.nxt);
            }
        }
        if h.fin {
            return !(state == State::FinWait2 && write_stays_within(self.closed_at, una, queued, nxt));
        }
        false
    }

    /// Takes up to `max` received bytes, oldest first.
    pub(crate) fn read_incoming(&mut self, max: usize) -> (res: Vec<u8>)
        ensures
            ({
                let n = min_int(max as int, old(self)@.incoming.len() as int);
                &&& res@ == old(self)@.incoming.take(n)
                &&& final(self)@ == ConnectionView {
                    incoming: old(self)@.incoming.skip(n),
                    ..old(self)@
                }
            }),
    {
        let ghost c = self@;
        let mut out: Vec<u8> = Vec::new();
        while out.len() < max && self.incoming.len() != 0
            invariant
                out.len() <= max,
                c.incoming == out@ + self@.incoming,
                self@ == (ConnectionView { incoming: self@.incoming, ..c }),
            decreases self@.incoming.len(),
        {
            match self.incoming.pop_front() {
                Some(b) => {
                    out.push(b);
                    assert(c.incoming =~= out@ + self@.incoming);
                },
                None => {},
            }
        }
        let ghost n = min_int(max as int, c.incoming.len() as int);
        assert(out@ =~= c.incoming.take(n));
        assert(self@.incoming =~= c.incoming.skip(n));
        out
    }

    /// Queues the first `n` bytes of `buf` for sending.
    pub(crate) fn queue_outgoing(&mut self, buf: &[u8], n: usize)
        requires
            n <= buf.len(),
        ensures
            final(self)@ == (ConnectionView {
                unacked: old(self)@.unacked + buf@.take(n as int),
                ..old(self)@
            }),
    {
        let ghost c = self@;
        let mut i: usize = 0;
        while i < n
            invariant
                i <= n <= buf.len(),
                self@ == (ConnectionView {
                    unacked: c.unacked + buf@.take(i as int),
                    ..c
                }),
            decreases n - i,
        {
            self.unacked.push_back(buf[i]);
            i = i + 1;
            assert(self@.unacked =~= c.unacked + buf@.take(i as int));
        }
    }
}


/// Handling a segment never grows the send queue.
pub proof fn lemma_segment_keeps_queue_bound(c: ConnectionView, h: TcpHeaderInfo, data: Seq<u8>)
    requires
        !segment_faults(c, h, data),
    ensures
        after_segment(c, h, data).0.unacked.len() <= c.unacked.len(),
{
}

/// A tick never changes the send queue.
pub proof fn lemma_tick_keeps_queue(c: ConnectionView, retransmit: bool)
    ensures
        match tick_plan(c, retransmit) {
            Some((c1, seq, limit)) => after_write(c1, seq, limit).unacked == c.unacked,
            None => true,
        },
{
}

} // verus!
