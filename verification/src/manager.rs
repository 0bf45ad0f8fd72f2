//! The table of connections and listening ports that the packet loop and the
//! streams share.
use vstd::prelude::*;
use std::collections::VecDeque;
use crate::TcpError;
use std::collections::HashMap;
use crate::tcp::{
    State, Connection, ConnectionView, Segment, SegmentView, after_segment, acked_range, availability_of,
    after_write, written_segment, syn_received, after_close, segment_faults, segment_views,
    tick_plan, can_tick, min_int, OUR_ISS, lemma_segment_keeps_queue_bound, lemma_tick_keeps_queue,
};
use crate::wire::{
    Ipv4HeaderInfo, TcpHeaderInfo, ipv4_header_of, tcp_header_of, parse_ipv4_header,
    parse_tcp_header, IP_PROTOCOL_TCP,
};

verus! {

broadcast use vstd::std_specs::hash::group_hash_axioms;

/// The most bytes a connection queues for sending.
pub const SENDQUEUE_SIZE: usize = 1024;

/// The two endpoints of a connection: the peer (source of the segments we
/// receive) and us.
#[derive(Clone, Copy, Debug, PartialEq, Eq, Hash, Structural)]
pub struct Quad {
    pub src_addr: u32,
    pub src_port: u16,
    pub dst_addr: u32,
    pub dst_port: u16,
}

/// What a read from a stream finds.
pub enum ReadOutcome {
    /// Received bytes, oldest first.
    Data(Vec<u8>),
    /// The peer has closed and every byte has been read.
    Eof,
    /// Nothing to read yet.
    Empty,
}

/// What handling one packet from the interface produced.
pub struct PacketEffect {
    /// The connection the packet belonged to or opened.
    pub connection: Option<Quad>,
    /// Segments to send, in order.
    pub segments: Vec<Segment>,
    /// The range of sequence numbers newly acknowledged, as
    /// `PacketOutcome::acked`.
    pub acked: Option<(u32, u32)>,
    /// Readers of the connection should wake up.
    pub wake_readers: bool,
    /// A connection joined a listener's queue.
    pub wake_acceptors: bool,
}

/// The IPv4 header, TCP header and TCP payload of a packet, or `None` where the
/// packet is not a well-formed TCP segment over IPv4.
pub open spec fn tcp_segment_of(packet: Seq<u8>) -> Option<(Ipv4HeaderInfo, TcpHeaderInfo, Seq<u8>)> {
    match ipv4_header_of(packet) {
        Some(ip) => if ip.protocol != IP_PROTOCOL_TCP {
            None
        } else {
            match tcp_header_of(packet.skip(ip.header_len as int)) {
                Some(tcp) => Some((ip, tcp, packet.skip(ip.header_len + tcp.header_len))),
                None => None,
            }
        },
        None => None,
    }
}

/// The connection a segment belongs to.
pub open spec fn quad_of(ip: Ipv4HeaderInfo, tcp: TcpHeaderInfo) -> Quad {
    Quad {
        src_addr: ip.source,
        src_port: tcp.source_port,
        dst_addr: ip.destination,
        dst_port: tcp.destination_port,
    }
}

/// The packet is a segment that its connection does not handle (see
/// `segment_faults`).
pub open spec fn packet_faults(connections: Map<Quad, ConnectionView>, packet: Seq<u8>) -> bool {
    match tcp_segment_of(packet) {
        Some((ip, tcp, data)) => {
            let q = quad_of(ip, tcp);
            connections.contains_key(q) && segment_faults(connections[q], tcp, data)
        },
        None => false,
    }
}

/// An effect that sends nothing and wakes nobody.
pub open spec fn no_effect(e: PacketEffect) -> bool {
    &&& e.connection is None
    &&& e.segments@.len() == 0
    &&& e.acked is None
    &&& !e.wake_readers
    &&& !e.wake_acceptors
}

/// The key a connection is stored under: its four numbers side by side.
pub open spec fn quad_key(q: Quad) -> u128 {
    (q.src_addr * 0x1_0000_0000_0000_0000int + q.src_port * 0x1_0000_0000_0000int + q.dst_addr
        * 0x1_0000int + q.dst_port) as u128
}

/// Distinct connections have distinct keys.
pub proof fn lemma_quad_key_injective(a: Quad, b: Quad)
    requires
        quad_key(a) == quad_key(b),
    ensures
        a == b,
{
    let ka = a.src_addr * 0x1_0000_0000_0000_0000int + a.src_port * 0x1_0000_0000_0000int
        + a.dst_addr * 0x1_0000int + a.dst_port;
    let kb = b.src_addr * 0x1_0000_0000_0000_0000int + b.src_port * 0x1_0000_0000_0000int
        + b.dst_addr * 0x1_0000int + b.dst_port;
    assert(ka < 0x1_0000_0000_0000_0000_0000_0000int);
    assert(kb < 0x1_0000_0000_0000_0000_0000_0000int);
    assert(ka == kb);
    assert(a.dst_port == b.dst_port && a.dst_addr == b.dst_addr && a.src_port == b.src_port
        && a.src_addr == b.src_addr) by (nonlinear_arith)
        requires
            ka == kb,
            ka == a.src_addr * 0x1_0000_0000_0000_0000int + a.src_port * 0x1_0000_0000_0000int
                + a.dst_addr * 0x1_0000int + a.dst_port,
            kb == b.src_addr * 0x1_0000_0000_0000_0000int + b.src_port * 0x1_0000_0000_0000int
                + b.dst_addr * 0x1_0000int + b.dst_port,
            a.src_port < 0x1_0000,
            b.src_port < 0x1_0000,
            a.dst_addr < 0x1_0000_0000,
            b.dst_addr < 0x1_0000_0000,
            a.dst_port < 0x1_0000,
            b.dst_port < 0x1_0000,
    ;
}

fn key_of(q: &Quad) -> (res: u128)
    ensures
        res == quad_key(*q),
{
    (q.src_addr as u128) * 0x1_0000_0000_0000_0000 + (q.src_port as u128) * 0x1_0000_0000_0000
        + (q.dst_addr as u128) * 0x1_0000 + q.dst_port as u128
}

/// The connections of a table, by their endpoints.
pub open spec fn connections_by_quad(m: Map<u128, (Quad, Connection)>) -> Map<Quad, ConnectionView> {
    Map::new(|q: Quad| m.contains_key(quad_key(q)), |q: Quad| m[quad_key(q)].1@)
}

/// Each entry of a table is stored under the key of its endpoints.
pub open spec fn keys_match(m: Map<u128, (Quad, Connection)>) -> bool {
    forall|k: u128| #[trigger] m.contains_key(k) ==> k == quad_key(m[k].0)
}

/// No connection queues more than `SENDQUEUE_SIZE` bytes.
pub open spec fn queues_bounded(m: Map<u128, (Quad, Connection)>) -> bool {
    forall|k: u128| #[trigger] m.contains_key(k) ==> m[k].1@.unacked.len() <= SENDQUEUE_SIZE
}

/// The bound ports and their queues.
pub open spec fn queues_by_port(m: Map<u16, VecDeque<Quad>>) -> Map<u16, Seq<Quad>> {
    Map::new(|p: u16| m.contains_key(p), |p: u16| m[p]@)
}

/// Every connection waiting on a port is a known connection to that port.
pub open spec fn pending_are_connections(
    connections: Map<Quad, ConnectionView>,
    pending: Map<u16, Seq<Quad>>,
) -> bool {
    forall|p: u16, i: int|
        #![trigger pending[p][i]]
        pending.contains_key(p) && 0 <= i < pending[p].len() ==> connections.contains_key(
            pending[p][i],
        ) && pending[p][i].dst_port == p
}

/// Storing an entry under the key of its endpoints updates the map of
/// connections at those endpoints.
proof fn lemma_store_connection(m: Map<u128, (Quad, Connection)>, q: Quad, c: Connection)
    requires
        keys_match(m),
    ensures
        keys_match(m.insert(quad_key(q), (q, c))),
        connections_by_quad(m.insert(quad_key(q), (q, c))) =~= connections_by_quad(m).insert(
            q,
            c@,
        ),
{
    let m2 = m.insert(quad_key(q), (q, c));
    assert forall|q2: Quad| #[trigger] m2.contains_key(quad_key(q2)) <==> (q2 == q
        || m.contains_key(quad_key(q2))) by {
        if quad_key(q2) == quad_key(q) {
            lemma_quad_key_injective(q2, q);
        }
    }
    assert forall|q2: Quad| q2 != q && m.contains_key(quad_key(q2)) implies m2[quad_key(
        q2,
    )] == m[quad_key(q2)] by {
        if quad_key(q2) == quad_key(q) {
            lemma_quad_key_injective(q2, q);
        }
    }
}

/// Connections and listening ports.
pub struct ConnectionManager {
    terminate: bool,
    /// Each connection with its endpoints, under the key of those.
    connections: HashMap<u128, (Quad, Connection)>,
    /// For each bound port, the connections waiting to be accepted.
    pending: HashMap<u16, VecDeque<Quad>>,
}

impl ConnectionManager {
    /// Every connection, by its endpoints.
    pub closed spec fn connection_map(&self) -> Map<Quad, ConnectionView> {
        connections_by_quad(self.connections@)
    }

    /// Every bound port, with the connections waiting to be accepted on it.
    pub closed spec fn pending_map(&self) -> Map<u16, Seq<Quad>> {
        queues_by_port(self.pending@)
    }

    /// The interface has asked the packet loop to stop.
    pub closed spec fn terminating(&self) -> bool {
        self.terminate
    }

    /// Each connection is stored under the key of its endpoints, no connection
    /// queues more than `SENDQUEUE_SIZE` bytes, and every connection waiting on
    /// a port is a known connection to that port.
    pub closed spec fn wf(&self) -> bool {
        &&& keys_match(self.connections@)
        &&& queues_bounded(self.connections@)
        &&& pending_are_connections(self.connection_map(), self.pending_map())
    }

    /// The queue bound, stated over the map.
    pub proof fn lemma_queue_bound(&self, q: Quad)
        requires
            self.wf(),
            self.connection_map().contains_key(q),
        ensures
            self.connection_map()[q].unacked.len() <= SENDQUEUE_SIZE,
    {
        assert(self.connections@.contains_key(quad_key(q)));
    }

    /// Every connection waiting on a bound port is a known connection to that
    /// port.
    pub proof fn lemma_pending_are_connections(&self)
        requires
            self.wf(),
        ensures
            pending_are_connections(self.connection_map(), self.pending_map()),
    {
    }

    pub fn new() -> (res: Self)
        ensures
            res.wf(),
            !res.terminating(),
            res.connection_map() == Map::<Quad, ConnectionView>::empty(),
            res.pending_map() == Map::<u16, Seq<Quad>>::empty(),
    {
        let res = ConnectionManager {
            terminate: false,
            connections: HashMap::new(),
            pending: HashMap::new(),
        };
        assert(res.connection_map() =~= Map::<Quad, ConnectionView>::empty());
        assert(res.pending_map() =~= Map::<u16, Seq<Quad>>::empty());
        res
    }

    /// Asks the packet loop to stop.
    pub fn set_terminate(&mut self)
        requires
            old(self).wf(),
        ensures
            final(self).wf(),
            final(self).terminating(),
            final(self).connection_map() == old(self).connection_map(),
            final(self).pending_map() == old(self).pending_map(),
    {
        self.terminate = true;
    }

    pub fn is_terminating(&self) -> (res: bool)
        ensures
            res == self.terminating(),
    {
        self.terminate
    }

    /// Binds a port: starts a queue for the connections that complete their
    /// handshake on it. A port that is already bound is refused.
    pub fn bind(&mut self, port: u16) -> (res: Result<(), TcpError>)
        requires
            old(self).wf(),
        ensures
            final(self).wf(),
            final(self).terminating() == old(self).terminating(),
            final(self).connection_map() == old(self).connection_map(),
            old(self).pending_map().contains_key(port) ==> res == Err::<(), TcpError>(
                TcpError::AddrInUse,
            ) && final(self).pending_map() == old(self).pending_map(),
            !old(self).pending_map().contains_key(port) ==> res == Ok::<(), TcpError>(())
                && final(self).pending_map() == old(self).pending_map().insert(port, Seq::empty()),
    {
        if self.pending.contains_key(&port) {
            return Err(TcpError::AddrInUse);
        }
        // start the queue that accepted connections wait in
        self.pending.insert(port, VecDeque::new());
        proof {
            assert(self.pending_map() =~= old(self).pending_map().insert(port, Seq::empty()));
            assert forall|p: u16, i: int|
                self.pending_map().contains_key(p) && 0 <= i
                    < self.pending_map()[p].len() implies self.connection_map().contains_key(
                self.pending_map()[p][i],
            ) && self.pending_map()[p][i].dst_port == p by {
                assert(p != port);
                assert(self.pending_map()[p] == old(self).pending_map()[p]);
            }
        }
        Ok(())
    }

    /// The number of connections waiting on a bound port.
    pub fn pending_count(&self, port: u16) -> (res: Option<usize>)
        requires
            self.wf(),
        ensures
            self.pending_map().contains_key(port) ==> res == Some(
                self.pending_map()[port].len() as usize,
            ),
            !self.pending_map().contains_key(port) ==> res is None,
    {
        match self.pending.get(&port) {
            Some(queue) => Some(queue.len()),
            None => None,
        }
    }

    /// Unbinds a port whose queue is empty. A port that is not bound, or that
    /// still has connections waiting, is the caller's error.
    pub fn unbind(&mut self, port: u16)
        requires
            old(self).wf(),
            old(self).pending_map().contains_key(port),
            old(self).pending_map()[port].len() == 0,
        ensures
            final(self).wf(),
            final(self).terminating() == old(self).terminating(),
            final(self).connection_map() == old(self).connection_map(),
            final(self).pending_map() == old(self).pending_map().remove(port),
    {
        self.pending.remove(&port);
        proof {
            assert(self.pending_map() =~= old(self).pending_map().remove(port));
            assert forall|p: u16, i: int|
                self.pending_map().contains_key(p) && 0 <= i
                    < self.pending_map()[p].len() implies self.connection_map().contains_key(
                self.pending_map()[p][i],
            ) && self.pending_map()[p][i].dst_port == p by {
                assert(self.pending_map()[p] == old(self).pending_map()[p]);
            }
        }
    }

    /// Takes the oldest connection waiting on a bound port. A port that is not
    /// bound is the caller's error.
    pub fn pop_pending(&mut self, port: u16) -> (res: Option<Quad>)
        requires
            old(self).wf(),
            old(self).pending_map().contains_key(port),
        ensures
            final(self).wf(),
            final(self).terminating() == old(self).terminating(),
            final(self).connection_map() == old(self).connection_map(),
            old(self).pending_map()[port].len() == 0 ==> res is None && final(self).pending_map()
                == old(self).pending_map(),
            old(self).pending_map()[port].len() > 0 ==> res == Some(old(self).pending_map()[port][0])
                && final(self).pending_map() == old(self).pending_map().insert(
                port,
                old(self).pending_map()[port].drop_first(),
            ),
    {
        let mut queue = match self.pending.remove(&port) {
            Some(queue) => queue,
            None => {
                return None;
            },
        };
        let res = queue.pop_front();
        self.pending.insert(port, queue);
        proof {
            let old_pending = old(self).pending_map();
            if res is None {
                assert(queue@ == old_pending[port]);
                assert(self.pending_map() =~= old_pending);
            } else {
                assert(queue@ =~= old_pending[port].drop_first());
                assert(self.pending_map() =~= old_pending.insert(port, old_pending[port].drop_first()));
                assert forall|p: u16, i: int|
                    self.pending_map().contains_key(p) && 0 <= i
                        < self.pending_map()[p].len() implies self.connection_map().contains_key(
                    self.pending_map()[p][i],
                ) && self.pending_map()[p][i].dst_port == p by {
                    if p == port {
                        assert(self.pending_map()[p][i] == old_pending[p][i + 1]);
                    } else {
                        assert(self.pending_map()[p] == old_pending[p]);
                    }
                }
            }
        }
        res
    }

    /// Puts back a connection taken out of the table from under `key`.
    fn put_back(
        &mut self,
        key: u128,
        quad: Quad,
        conn: Connection,
        Ghost(before): Ghost<Map<u128, (Quad, Connection)>>,
    )
        requires
            keys_match(before),
            queues_bounded(before),
            before.contains_key(key),
            key == quad_key(quad),
            old(self).connections@ == before.remove(key),
            conn@.unacked.len() <= SENDQUEUE_SIZE,
            pending_are_connections(connections_by_quad(before), old(self).pending_map()),
        ensures
            final(self).wf(),
            final(self).terminating() == old(self).terminating(),
            final(self).pending_map() == old(self).pending_map(),
            final(self).connection_map() == connections_by_quad(before).insert(quad, conn@),
    {
        self.connections.insert(key, (quad, conn));
        proof {
            assert(self.connections@ =~= before.insert(key, (quad, conn)));
            lemma_store_connection(before, quad, conn);
            assert forall|k: u128| #[trigger] self.connections@.contains_key(k) implies self.connections@[
                k
            ].1@.unacked.len() <= SENDQUEUE_SIZE by {
                if k != key {
                    assert(self.connections@[k] == before[k]);
                }
            }
            assert forall|p: u16, i: int|
                self.pending_map().contains_key(p) && 0 <= i
                    < self.pending_map()[p].len() implies self.connection_map().contains_key(
                self.pending_map()[p][i],
            ) && self.pending_map()[p][i].dst_port == p by {
                assert(connections_by_quad(before).contains_key(self.pending_map()[p][i]));
            }
        }
    }

    /// Takes the connection of `quad` out of the table.
    fn take(&mut self, quad: &Quad) -> (res: Option<Connection>)
        requires
            old(self).wf(),
        ensures
            final(self).pending_map() == old(self).pending_map(),
            final(self).terminating() == old(self).terminating(),
            !old(self).connection_map().contains_key(*quad) ==> res is None
                && final(self).connections@ == old(self).connections@,
            old(self).connection_map().contains_key(*quad) ==> {
                &&& res matches Some(c) && c@ == old(self).connection_map()[*quad]
                &&& final(self).connections@ == old(self).connections@.remove(quad_key(*quad))
                &&& old(self).connections@[quad_key(*quad)].0 == *quad
            },
    {
        let key = key_of(quad);
        match self.connections.remove(&key) {
            Some((q, conn)) => {
                proof {
                    lemma_quad_key_injective(q, *quad);
                }
                Some(conn)
            },
            None => None,
        }
    }

    /// The connection of `quad`, where there is one.
    fn lookup(&self, quad: &Quad) -> (res: Option<&Connection>)
        requires
            self.wf(),
        ensures
            !self.connection_map().contains_key(*quad) ==> res is None,
            self.connection_map().contains_key(*quad) ==> (res matches Some(c) && c@
                == self.connection_map()[*quad]),
    {
        let key = key_of(quad);
        match self.connections.get(&key) {
            Some(entry) => Some(&entry.1),
            None => None,
        }
    }
    /// Every connection's endpoints.
    pub fn quads(&self) -> (res: Vec<Quad>)
        requires
            self.wf(),
        ensures
            forall|q: Quad| res@.contains(q) <==> self.connection_map().contains_key(q),
            forall|i: int, j: int|
                0 <= i < res@.len() && 0 <= j < res@.len() && i != j ==> res@[i] != res@[j],
    {
        let mut res: Vec<Quad> = Vec::new();
        let ghost m = self.connections@;
        for k in it: self.connections.keys()
            invariant
                m == self.connections@,
                keys_match(m),
                it.seq().unref().to_set() == m.dom(),
                it.seq().no_duplicates(),
                res@.len() == it.index(),
                forall|j: int| 0 <= j < it.index() ==> #[trigger] res@[j] == m[*it.seq()[j]].0,
                forall|j: int|
                    0 <= j < it.index() ==> quad_key(#[trigger] res@[j]) == *it.seq()[j],
                forall|q: Quad|
                    #[trigger] m.contains_key(quad_key(q)) ==> res@.contains(q) || exists|j: int|
                        it.index() <= j < it.seq().len() && *it.seq()[j] == quad_key(q),
                forall|q: Quad| #[trigger] res@.contains(q) ==> m.contains_key(quad_key(q)),
                forall|a: int, b: int|
                    0 <= a < res@.len() && 0 <= b < res@.len() && a != b ==> res@[a] != res@[b],
        {
            proof {
                assert(it.seq().unref()[it.index()] == *k);
                assert(it.seq().unref().to_set().contains(*k));
            }
            let ghost old_res = res@;
            match self.connections.get(k) {
                Some(entry) => {
                    res.push(entry.0);
                },
                None => {},
            }
            proof {
                let i = it.index();
                let q = res@[i];
                assert(quad_key(q) == *k);
                assert forall|q2: Quad| #[trigger] m.contains_key(quad_key(q2)) implies res@.contains(q2)
                    || exists|j: int| i + 1 <= j < it.seq().len() && *it.seq()[j] == quad_key(q2) by {
                    if old_res.contains(q2) {
                        let j = choose|j: int| 0 <= j < old_res.len() && old_res[j] == q2;
                        assert(res@[j] == q2);
                    } else {
                        let j = choose|j: int| i <= j < it.seq().len() && *it.seq()[j] == quad_key(q2);
                        if j == i {
                            lemma_quad_key_injective(q, q2);
                            assert(res@[i] == q2);
                        }
                    }
                }
                assert forall|q2: Quad| #[trigger] res@.contains(q2) implies m.contains_key(quad_key(q2)) by {
                    let j = choose|j: int| 0 <= j < res@.len() && res@[j] == q2;
                    if j < i {
                        assert(old_res[j] == q2);
                        assert(old_res.contains(q2));
                    } else {
                        assert(m.dom().contains(*k));
                    }
                }
                assert forall|a: int, b: int|
                    0 <= a < res@.len() && 0 <= b < res@.len() && a != b implies res@[a] != res@[b] by {
                    if a == i || b == i {
                        let other = if a == i { b } else { a };
                        assert(quad_key(res@[other]) == *it.seq()[other]);
                        assert(it.seq()[other] != it.seq()[i]);
                    }
                }
            }
        }
        proof {
            assert forall|q: Quad| res@.contains(q) <==> self.connection_map().contains_key(q) by {}
        }
        res
    }
    /// The state of a connection.
    pub fn connection_state(&self, quad: &Quad) -> (res: Option<State>)
        requires
            self.wf(),
        ensures
            self.connection_map().contains_key(*quad) ==> res == Some(
                self.connection_map()[*quad].state,
            ),
            !self.connection_map().contains_key(*quad) ==> res is None,
    {
        match self.lookup(quad) {
            Some(conn) => Some(conn.state()),
            None => None,
        }
    }
    /// `SND.UNA` of a connection.
    pub fn send_unacknowledged(&self, quad: &Quad) -> (res: Option<u32>)
        requires
            self.wf(),
        ensures
            self.connection_map().contains_key(*quad) ==> res == Some(
                self.connection_map()[*quad].send.una,
            ),
            !self.connection_map().contains_key(*quad) ==> res is None,
    {
        match self.lookup(quad) {
            Some(conn) => Some(conn.send_unacknowledged()),
            None => None,
        }
    }
    /// Reads from the stream of `quad` up to `max` bytes: the oldest received
    /// bytes where there are some, end of stream once the peer has closed and
    /// every byte was read, nothing otherwise.
    pub fn stream_read(&mut self, quad: &Quad, max: usize) -> (res: Result<ReadOutcome, TcpError>)
        requires
            old(self).wf(),
        ensures
            final(self).wf(),
            final(self).terminating() == old(self).terminating(),
            final(self).pending_map() == old(self).pending_map(),
            !old(self).connection_map().contains_key(*quad) ==> {
                &&& res matches Err(e) && e == TcpError::ConnectionAborted
                &&& final(self).connection_map() == old(self).connection_map()
            },
            old(self).connection_map().contains_key(*quad) ==> ({
                let c = old(self).connection_map()[*quad];
                if c.incoming.len() == 0 {
                    &&& final(self).connection_map() == old(self).connection_map()
                    &&& if c.state is TimeWait {
                        res matches Ok(ReadOutcome::Eof)
                    } else {
                        res matches Ok(ReadOutcome::Empty)
                    }
                } else {
                    let n = min_int(max as int, c.incoming.len() as int);
                    &&& res matches Ok(ReadOutcome::Data(v)) && v@ == c.incoming.take(n)
                    &&& final(self).connection_map() == old(self).connection_map().insert(
                        *quad,
                        ConnectionView { incoming: c.incoming.skip(n), ..c },
                    )
                }
            }),
    {
        match self.lookup(quad) {
            None => {
                return Err(TcpError::ConnectionAborted);
            },
            Some(conn) => {
                if conn.is_rcv_closed() && conn.incoming_len() == 0 {
                    // peer closed
                    return Ok(ReadOutcome::Eof);
                }
                if conn.incoming_len() == 0 {
                    return Ok(ReadOutcome::Empty);
                }
            },
        }
        let ghost before = self.connections@;
        let key = key_of(quad);
        let mut conn = match self.take(quad) {
            Some(conn) => conn,
            None => {
                return Err(TcpError::ConnectionAborted);
            },
        };
        let data = conn.read_incoming(max);
        self.put_back(key, *quad, conn, Ghost(before));
        Ok(ReadOutcome::Data(data))
    }
    /// Queues bytes for sending on the stream of `quad`: as many as fit under
    /// `SENDQUEUE_SIZE`. A queue already over the limit refuses them.
    pub fn stream_write(&mut self, quad: &Quad, buf: &[u8]) -> (res: Result<usize, TcpError>)
        requires
            old(self).wf(),
        ensures
            final(self).wf(),
            final(self).terminating() == old(self).terminating(),
            final(self).pending_map() == old(self).pending_map(),
            !old(self).connection_map().contains_key(*quad) ==> res == Err::<usize, TcpError>(
                TcpError::ConnectionAborted,
            ) && final(self).connection_map() == old(self).connection_map(),
            old(self).connection_map().contains_key(*quad) ==> ({
                let c = old(self).connection_map()[*quad];
                if c.unacked.len() > SENDQUEUE_SIZE {
                    res == Err::<usize, TcpError>(TcpError::WouldBlock) && final(self).connection_map()
                        == old(self).connection_map()
                } else {
                    let n = min_int(buf@.len() as int, SENDQUEUE_SIZE - c.unacked.len());
                    &&& res == Ok::<usize, TcpError>(n as usize)
                    &&& final(self).connection_map() == old(self).connection_map().insert(
                        *quad,
                        ConnectionView { unacked: c.unacked + buf@.take(n), ..c },
                    )
                }
            }),
    {
        let queued = match self.lookup(quad) {
            None => {
                return Err(TcpError::ConnectionAborted);
            },
            Some(conn) => conn.unacked_len(),
        };
        if queued > SENDQUEUE_SIZE {
            return Err(TcpError::WouldBlock);
        }
        let room = SENDQUEUE_SIZE - queued;
        let nwrite = if buf.len() < room {
            buf.len()
        } else {
            room
        };
        let ghost before = self.connections@;
        let key = key_of(quad);
        let mut conn = match self.take(quad) {
            Some(conn) => conn,
            None => {
                return Err(TcpError::ConnectionAborted);
            },
        };
        conn.queue_outgoing(buf, nwrite);
        self.put_back(key, *quad, conn, Ghost(before));
        Ok(nwrite)
    }
    /// Succeeds once every queued byte of the stream of `quad` is
    /// acknowledged.
    pub fn stream_flush(&self, quad: &Quad) -> (res: Result<(), TcpError>)
        requires
            self.wf(),
        ensures
            !self.connection_map().contains_key(*quad) ==> res == Err::<(), TcpError>(
                TcpError::ConnectionAborted,
            ),
            self.connection_map().contains_key(*quad) ==> res == (if self.connection_map()[
                *quad
            ].unacked.len() == 0 {
                Ok::<(), TcpError>(())
            } else {
                Err(TcpError::WouldBlock)
            }),
    {
        match self.lookup(quad) {
            Some(conn) => {
                if conn.unacked_len() == 0 {
                    Ok(())
                } else {
                    Err(TcpError::WouldBlock)
                }
            },
            None => Err(TcpError::ConnectionAborted),
        }
    }
    /// Closes our side of the stream of `quad`.
    pub fn stream_shutdown(&mut self, quad: &Quad) -> (res: Result<(), TcpError>)
        requires
            old(self).wf(),
        ensures
            final(self).wf(),
            final(self).terminating() == old(self).terminating(),
            final(self).pending_map() == old(self).pending_map(),
            !old(self).connection_map().contains_key(*quad) ==> res == Err::<(), TcpError>(
                TcpError::ConnectionAborted,
            ) && final(self).connection_map() == old(self).connection_map(),
            old(self).connection_map().contains_key(*quad) ==> ({
                let c = old(self).connection_map()[*quad];
                &&& res == (if c.state is TimeWait {
                    Err(TcpError::AlreadyClosing)
                } else {
                    Ok::<(), TcpError>(())
                })
                &&& final(self).connection_map() == old(self).connection_map().insert(
                    *quad,
                    after_close(c),
                )
            }),
    {
        let ghost before = self.connections@;
        let key = key_of(quad);
        let mut conn = match self.take(quad) {
            Some(conn) => conn,
            None => {
                return Err(TcpError::ConnectionAborted);
            },
        };
        let res = conn.close();
        self.put_back(key, *quad, conn, Ghost(before));
        res
    }
    /// Handles one packet from the interface. A TCP segment for a known
    /// connection goes to that connection; a SYN for a bound port opens a
    /// connection and queues it on the port; anything else is ignored.
    pub fn handle_packet(&mut self, packet: &[u8]) -> (res: PacketEffect)
        requires
            old(self).wf(),
            packet.len() <= u32::MAX,
            !packet_faults(old(self).connection_map(), packet@),
        ensures
            final(self).wf(),
            final(self).terminating() == old(self).terminating(),
            match tcp_segment_of(packet@) {
                None => {
                    &&& no_effect(res)
                    &&& final(self).connection_map() == old(self).connection_map()
                    &&& final(self).pending_map() == old(self).pending_map()
                },
                Some((ip, tcp, data)) => {
                    let q = quad_of(ip, tcp);
                    let port = tcp.destination_port;
                    if old(self).connection_map().contains_key(q) {
                        let c = old(self).connection_map()[q];
                        let (c2, segs) = after_segment(c, tcp, data);
                        &&& final(self).connection_map() == old(self).connection_map().insert(q, c2)
                        &&& final(self).pending_map() == old(self).pending_map()
                        &&& res.connection == Some(q)
                        &&& segment_views(res.segments@) == segs
                        &&& res.acked == acked_range(c, tcp, data)
                        &&& res.wake_readers == availability_of(c2).read
                        &&& !res.wake_acceptors
                    } else if old(self).pending_map().contains_key(port) && tcp.syn {
                        let c0 = syn_received(ip, tcp);
                        &&& final(self).connection_map() == old(self).connection_map().insert(
                            q,
                            after_write(c0, OUR_ISS, 0),
                        )
                        &&& final(self).pending_map() == old(self).pending_map().insert(
                            port,
                            old(self).pending_map()[port].push(q),
                        )
                        &&& res.connection == Some(q)
                        &&& segment_views(res.segments@) == seq![written_segment(c0, OUR_ISS, 0)]
                        &&& res.acked is None
                        &&& !res.wake_readers
                        &&& res.wake_acceptors
                    } else {
                        &&& no_effect(res)
                        &&& final(self).connection_map() == old(self).connection_map()
                        &&& final(self).pending_map() == old(self).pending_map()
                    }
                },
            },
    {
        let nothing = PacketEffect {
            connection: None,
            segments: Vec::new(),
            acked: None,
            wake_readers: false,
            wake_acceptors: false,
        };
        let ip = match parse_ipv4_header(packet) {
            Some(ip) => ip,
            None => {
                // not an IPv4 packet
                return nothing;
            },
        };
        if ip.protocol != IP_PROTOCOL_TCP {
            return nothing;
        }
        let rest = &packet[ip.header_len..packet.len()];
        let tcp = match parse_tcp_header(rest) {
            Some(tcp) => tcp,
            None => {
                return nothing;
            },
        };
        let datai = ip.header_len + tcp.header_len;
        let data = &packet[datai..packet.len()];
        proof {
            assert(rest@ == packet@.skip(ip.header_len as int));
            assert(data@ =~= packet@.skip(ip.header_len + tcp.header_len));
        }
        let quad = Quad {
            src_addr: ip.source,
            src_port: tcp.source_port,
            dst_addr: ip.destination,
            dst_port: tcp.destination_port,
        };
        let ghost before = self.connections@;
        let key = key_of(&quad);
        match self.take(&quad) {
            Some(mut conn) => {
                proof {
                    lemma_segment_keeps_queue_bound(conn@, tcp, data@);
                    assert(before.contains_key(key));
                }
                let outcome = conn.on_packet(&tcp, data);
                self.put_back(key, quad, conn, Ghost(before));
                PacketEffect {
                    connection: Some(quad),
                    segments: outcome.segments,
                    acked: outcome.acked,
                    wake_readers: outcome.available.read,
                    wake_acceptors: false,
                }
            },
            None => {
                let port = tcp.destination_port;
                if !self.pending.contains_key(&port) {
                    return nothing;
                }
                match Connection::accept(&ip, &tcp, data) {
                    Some((conn, seg)) => {
                        let ghost old_conns = self.connection_map();
                        let ghost old_pending = self.pending_map();
                        self.connections.insert(key, (quad, conn));
                        proof {
                            lemma_store_connection(before, quad, conn);
                            assert(self.connection_map() == old_conns.insert(quad, conn@));
                            assert forall|k: u128| #[trigger] self.connections@.contains_key(k) implies self.connections@[
                                k
                            ].1@.unacked.len() <= SENDQUEUE_SIZE by {
                                if k != key {
                                    assert(self.connections@[k] == before[k]);
                                }
                            }
                        }
                        let mut queue = match self.pending.remove(&port) {
                            Some(queue) => queue,
                            None => VecDeque::new(),
                        };
                        queue.push_back(quad);
                        self.pending.insert(port, queue);
                        proof {
                            assert(self.pending_map() =~= old_pending.insert(
                                port,
                                old_pending[port].push(quad),
                            ));
                            assert forall|p: u16, i: int|
                                self.pending_map().contains_key(p) && 0 <= i
                                    < self.pending_map()[p].len() implies self.connection_map().contains_key(
                                self.pending_map()[p][i],
                            ) && self.pending_map()[p][i].dst_port == p by {
                                if p == port && i == old_pending[port].len() {
                                    assert(self.pending_map()[p][i] == quad);
                                } else if p == port {
                                    assert(self.pending_map()[p][i] == old_pending[p][i]);
                                } else {
                                    assert(self.pending_map()[p] == old_pending[p]);
                                }
                            }
                        }
                        let mut segments = Vec::new();
                        segments.push(seg);
                        proof {
                            assert(segment_views(segments@) =~= seq![seg@]);
                        }
                        PacketEffect {
                            connection: Some(quad),
                            segments,
                            acked: None,
                            wake_readers: false,
                            wake_acceptors: true,
                        }
                    },
                    None => nothing,
                }
            },
        }
    }
    /// Whether this packet is a segment that its connection does not handle
    /// (`packet_faults`); `handle_packet` must not be given one.
    pub fn packet_would_fault(&self, packet: &[u8]) -> (res: bool)
        requires
            self.wf(),
            packet.len() <= u32::MAX,
        ensures
            res == packet_faults(self.connection_map(), packet@),
    {
        let ip = match parse_ipv4_header(packet) {
            Some(ip) => ip,
            None => {
                return false;
            },
        };
        if ip.protocol != IP_PROTOCOL_TCP {
            return false;
        }
        let rest = &packet[ip.header_len..packet.len()];
        let tcp = match parse_tcp_header(rest) {
            Some(tcp) => tcp,
            None => {
                return false;
            },
        };
        let datai = ip.header_len + tcp.header_len;
        let data = &packet[datai..packet.len()];
        proof {
            assert(rest@ == packet@.skip(ip.header_len as int));
            assert(data@ =~= packet@.skip(ip.header_len + tcp.header_len));
        }
        let quad = Quad {
            src_addr: ip.source,
            src_port: tcp.source_port,
            dst_addr: ip.destination,
            dst_port: tcp.destination_port,
        };
        match self.lookup(&quad) {
            Some(conn) => conn.segment_would_fault(&tcp, data),
            None => false,
        }
    }
    /// Runs the retransmission timer of the connection `quad`; see
    /// `Connection::on_tick`.
    pub fn tick_connection(&mut self, quad: &Quad, should_retransmit: bool) -> (res: Option<Segment>)
        requires
            old(self).wf(),
            old(self).connection_map().contains_key(*quad) ==> can_tick(
                old(self).connection_map()[*quad],
                should_retransmit,
            ),
        ensures
            final(self).wf(),
            final(self).terminating() == old(self).terminating(),
            final(self).pending_map() == old(self).pending_map(),
            !old(self).connection_map().contains_key(*quad) ==> res is None
                && final(self).connection_map() == old(self).connection_map(),
            old(self).connection_map().contains_key(*quad) ==> match tick_plan(
                old(self).connection_map()[*quad],
                should_retransmit,
            ) {
                None => res is None && final(self).connection_map() == old(self).connection_map(),
                Some((c1, seq, limit)) => {
                    &&& final(self).connection_map() == old(self).connection_map().insert(
                        *quad,
                        after_write(c1, seq, limit),
                    )
                    &&& res matches Some(seg) && seg@ == written_segment(c1, seq, limit)
                },
            },
    {
        let ghost before = self.connections@;
        let key = key_of(quad);
        let mut conn = match self.take(quad) {
            Some(conn) => conn,
            None => {
                return None;
            },
        };
        proof {
            lemma_tick_keeps_queue(conn@, should_retransmit);
        }
        let res = conn.on_tick(should_retransmit);
        self.put_back(key, *quad, conn, Ghost(before));
        proof {
            if res is None {
                assert(self.connection_map() =~= old(self).connection_map());
            }
        }
        res
    }
    /// Whether the timer of `quad` would write past its queued data;
    /// `tick_connection` must not be called then. `false` for an unknown
    /// connection.
    pub fn tick_would_fault(&self, quad: &Quad, should_retransmit: bool) -> (res: bool)
        requires
            self.wf(),
        ensures
            res == (self.connection_map().contains_key(*quad) && !can_tick(
                self.connection_map()[*quad],
                should_retransmit,
            )),
    {
        match self.lookup(quad) {
            Some(conn) => conn.tick_would_fault(should_retransmit),
            None => false,
        }
    }
}

} // verus!
