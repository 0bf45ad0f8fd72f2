# trust

A small user-space TCP stack that runs on a tun device: it answers the
three-way handshake on bound ports, delivers received bytes to readers in
order, queues and (re)transmits written bytes, and walks a connection through
FIN-WAIT-1, FIN-WAIT-2 and TIME-WAIT when the local side closes first.

Layout:

- `src/` is the verified library.
  - `tcp.rs`: sequence-number arithmetic, connection states and the
    connection state machine (`Connection`): opening on a SYN, assembling
    segments, the retransmission timer, handling received segments, closing.
    Each operation is specified as a function on `ConnectionView`.
  - `wire.rs`: the IPv4 and TCP header fields the stack reads and writes, and
    the calls into `etherparse` that parse and serialize them.
  - `manager.rs`: `ConnectionManager`, the table of connections (a `HashMap`
    keyed by an integer encoding of the endpoints) and bound ports shared by
    the packet loop and the streams: dispatching packets, accept queues, and
    the stream operations read, write, flush and shutdown.
  - `laws.rs`: properties that span operations (the handshake, in-order
    delivery, round trips through the wire format, ...).
- `app/` is the program around it: the tun device, the packet loop thread,
  the blocking `Interface`/`TcpListener`/`TcpStream` handles, and the
  retransmission timers, which need clock readings and floating point.
- `tests/` exercises the library on concrete packets.
