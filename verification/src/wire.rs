//! IPv4 and TCP headers on the wire: what the stack reads out of a received
//! packet and what it writes in front of an outgoing segment. The byte work
//! itself is done by the `etherparse` crate.
use vstd::prelude::*;
use etherparse::{Ipv4Header, Ipv4HeaderSlice, TcpHeader, TcpHeaderSlice};

verus! {

/// The length of an IPv4 header without options, and of a TCP header without
/// options; the headers this stack writes carry no options.
pub const IPV4_HEADER_LEN: usize = 20;

pub const TCP_HEADER_LEN: usize = 20;

/// The IP protocol number of TCP.
pub const IP_PROTOCOL_TCP: u8 = 6;

/// What the stack reads from the IPv4 header of a received packet.
#[derive(Clone, Copy, Debug, PartialEq, Eq, Structural)]
pub struct Ipv4HeaderInfo {
    /// Length of the header, options included, in bytes.
    pub header_len: usize,
    pub protocol: u8,
    pub source: u32,
    pub destination: u32,
}

/// What the stack reads from the TCP header of a received segment.
#[derive(Clone, Copy, Debug, PartialEq, Eq, Structural)]
pub struct TcpHeaderInfo {
    /// Length of the header, options included, in bytes.
    pub header_len: usize,
    pub source_port: u16,
    pub destination_port: u16,
    pub sequence_number: u32,
    pub acknowledgment_number: u32,
    pub window_size: u16,
    pub syn: bool,
    pub ack: bool,
    pub fin: bool,
    pub rst: bool,
}

/// The fields of an outgoing IPv4 header that this stack sets; the rest keep
/// the defaults (no options, "don't fragment", identification 0).
#[derive(Clone, Copy, Debug, PartialEq, Eq, Structural)]
pub struct Ipv4Fields {
    pub payload_len: u16,
    pub time_to_live: u8,
    pub protocol: u8,
    pub source: u32,
    pub destination: u32,
}

/// The fields of an outgoing TCP header that this stack sets; the other flags,
/// the urgent pointer and the options stay empty.
#[derive(Clone, Copy, Debug, PartialEq, Eq, Structural)]
pub struct TcpFields {
    pub source_port: u16,
    pub destination_port: u16,
    pub sequence_number: u32,
    pub acknowledgment_number: u32,
    pub window_size: u16,
    pub syn: bool,
    pub ack: bool,
    pub fin: bool,
    pub rst: bool,
    pub checksum: u16,
}

/// The big-endian 16-bit number at `b[i..i + 2]`.
pub open spec fn be16_at(b: Seq<u8>, i: int) -> int {
    b[i] * 0x100 + b[i + 1]
}

/// The big-endian 32-bit number at `b[i..i + 4]`.
pub open spec fn be32_at(b: Seq<u8>, i: int) -> int {
    b[i] * 0x100_0000 + b[i + 1] * 0x1_0000 + b[i + 2] * 0x100 + b[i + 3]
}

/// The two bytes of `v` in network order.
pub open spec fn be16_bytes(v: u16) -> Seq<u8> {
    seq![(v / 0x100) as u8, (v % 0x100) as u8]
}

/// The four bytes of `v` in network order.
pub open spec fn be32_bytes(v: u32) -> Seq<u8> {
    seq![
        (v / 0x100_0000) as u8,
        ((v / 0x1_0000) % 0x100) as u8,
        ((v / 0x100) % 0x100) as u8,
        (v % 0x100) as u8,
    ]
}

/// The IPv4 header at the start of `b`, or `None` where `b` does not start
/// with one: it is too short, its version is not 4, its header length is under
/// five words or past the end of `b`, or its total length is under its header
/// length.
pub open spec fn ipv4_header_of(b: Seq<u8>) -> Option<Ipv4HeaderInfo> {
    let ihl = b[0] % 16;
    if b.len() < 20 || b[0] / 16 != 4 || ihl < 5 || b.len() < ihl * 4 || be16_at(b, 2) < ihl * 4 {
        None
    } else {
        Some(
            Ipv4HeaderInfo {
                header_len: (ihl * 4) as usize,
                protocol: b[9],
                source: be32_at(b, 12) as u32,
                destination: be32_at(b, 16) as u32,
            },
        )
    }
}

/// The TCP header at the start of `b`, or `None` where `b` does not start with
/// one: it is too short, or its data offset is under five words or past the end
/// of `b`.
pub open spec fn tcp_header_of(b: Seq<u8>) -> Option<TcpHeaderInfo> {
    let data_offset = b[12] / 16;
    if b.len() < 20 || data_offset < 5 || b.len() < data_offset * 4 {
        None
    } else {
        Some(
            TcpHeaderInfo {
                header_len: (data_offset * 4) as usize,
                source_port: be16_at(b, 0) as u16,
                destination_port: be16_at(b, 2) as u16,
                sequence_number: be32_at(b, 4) as u32,
                acknowledgment_number: be32_at(b, 8) as u32,
                window_size: be16_at(b, 14) as u16,
                fin: b[13] % 2 == 1,
                syn: (b[13] / 2) % 2 == 1,
                rst: (b[13] / 4) % 2 == 1,
                ack: (b[13] / 16) % 2 == 1,
            },
        )
    }
}

/// The 16-bit ones'-complement checksum of a sum of 16-bit words: the sum is
/// folded twice into 16 bits and complemented. One fold leaves at most 0x1000e,
/// so two suffice for the sums of a few dozen words taken here.
#[verifier::opaque]
pub open spec fn ones_complement_checksum(sum: int) -> u16 {
    let once = sum % 0x1_0000 + sum / 0x1_0000;
    (0xffff - (once % 0x1_0000 + once / 0x1_0000)) as u16
}

/// The sum of the two 16-bit halves of `v`.
pub open spec fn word_sum32(v: u32) -> int {
    v / 0x1_0000 + v % 0x1_0000
}

/// The IPv4 header checksum of a header with these fields: the ones'-complement
/// sum of its 16-bit words, the checksum word left out.
#[verifier::opaque]
pub open spec fn ipv4_header_checksum(h: Ipv4Fields) -> u16 {
    ones_complement_checksum(
        0x4500 + (h.payload_len + 20) + 0 + 0x4000 + (h.time_to_live * 0x100 + h.protocol)
            + word_sum32(h.source) + word_sum32(h.destination),
    )
}

/// The TCP checksum of this header, without options and over an empty
/// payload, sent from `source` to `destination`: the ones'-complement sum of
/// the pseudo header (both addresses, the protocol number of TCP and the TCP
/// length 20) and of the header's 16-bit words, the checksum word left out.
#[verifier::opaque]
pub open spec fn tcp_checksum_empty_payload(h: TcpFields, source: u32, destination: u32) -> u16 {
    ones_complement_checksum(
        word_sum32(source) + word_sum32(destination) + IP_PROTOCOL_TCP + TCP_HEADER_LEN
            + h.source_port + h.destination_port + word_sum32(h.sequence_number) + word_sum32(
            h.acknowledgment_number,
        ) + (0x50 * 0x100 + tcp_flag_byte(h)) + h.window_size + 0,
    )
}

/// The 20 bytes of an IPv4 header with these fields, this header checksum and
/// no options.
pub open spec fn ipv4_header_bytes(h: Ipv4Fields, checksum: u16) -> Seq<u8> {
    seq![0x45u8, 0u8] + be16_bytes((h.payload_len + 20) as u16) + seq![0u8, 0u8, 0x40u8, 0u8]
        + seq![h.time_to_live, h.protocol] + be16_bytes(checksum) + be32_bytes(
        h.source,
    ) + be32_bytes(h.destination)
}

/// The flag byte of a TCP header.
pub open spec fn tcp_flag_byte(h: TcpFields) -> u8 {
    ((if h.fin {
        1int
    } else {
        0
    }) + (if h.syn {
        2int
    } else {
        0
    }) + (if h.rst {
        4int
    } else {
        0
    }) + (if h.ack {
        16int
    } else {
        0
    })) as u8
}

/// The 20 bytes of a TCP header with these fields and no options.
pub open spec fn tcp_header_bytes(h: TcpFields) -> Seq<u8> {
    be16_bytes(h.source_port) + be16_bytes(h.destination_port) + be32_bytes(h.sequence_number)
        + be32_bytes(h.acknowledgment_number) + seq![0x50u8, tcp_flag_byte(h)] + be16_bytes(
        h.window_size,
    ) + be16_bytes(h.checksum) + seq![0u8, 0u8]
}

/// Reads the IPv4 header at the start of `packet` with
/// `etherparse::Ipv4HeaderSlice::from_slice`. The contract claims that the call
/// succeeds exactly where `ipv4_header_of` says so and that the accessors it
/// reads give the fields that `ipv4_header_of` describes.
#[verifier::external_body]
pub(crate) fn parse_ipv4_header(packet: &[u8]) -> (res: Option<Ipv4HeaderInfo>)
    ensures
        res == ipv4_header_of(packet@),
{
    match Ipv4HeaderSlice::from_slice(packet) {
        Ok(h) => Some(Ipv4HeaderInfo {
            header_len: h.slice().len(),
            protocol: h.protocol(),
            source: u32::from(h.source_addr()),
            destination: u32::from(h.destination_addr()),
        }),
        Err(_) => None,
    }
}

/// Reads the TCP header at the start of `segment` with
/// `etherparse::TcpHeaderSlice::from_slice`. The contract claims that the call
/// succeeds exactly where `tcp_header_of` says so and that the accessors it
/// reads give the fields that `tcp_header_of` describes.
#[verifier::external_body]
pub(crate) fn parse_tcp_header(segment: &[u8]) -> (res: Option<TcpHeaderInfo>)
    ensures
        res == tcp_header_of(segment@),
{
    match TcpHeaderSlice::from_slice(segment) {
        Ok(h) => Some(TcpHeaderInfo {
            header_len: h.slice().len(),
            source_port: h.source_port(),
            destination_port: h.destination_port(),
            sequence_number: h.sequence_number(),
            acknowledgment_number: h.acknowledgment_number(),
            window_size: h.window_size(),
            syn: h.syn(),
            ack: h.ack(),
            fin: h.fin(),
            rst: h.rst(),
        }),
        Err(_) => None,
    }
}

/// Serializes an IPv4 header with `etherparse::Ipv4Header::write`, starting
/// from `Ipv4Header::default()`. The contract claims the byte layout that the
/// write produces and the header checksum that it computes.
/// `write` refuses a payload length over 65515, which `requires` leaves out.
#[verifier::external_body]
pub(crate) fn write_ipv4_header(header: &Ipv4Fields) -> (res: Vec<u8>)
    requires
        header.payload_len <= 65515,
    ensures
        res@ == ipv4_header_bytes(*header, ipv4_header_checksum(*header)),
{
    let mut h = Ipv4Header::default();
    h.payload_len = header.payload_len;
    h.time_to_live = header.time_to_live;
    h.protocol = header.protocol;
    h.source = header.source.to_be_bytes();
    h.destination = header.destination.to_be_bytes();
    let mut out = Vec::new();
    let _ = h.write(&mut out);
    out
}

/// Computes the TCP checksum of a header sent from `source` to `destination`
/// with an empty payload, with `etherparse::TcpHeader::calc_checksum_ipv4_raw`.
/// The call fails only for a TCP length over 65535, which a bare header never
/// has. The contract claims the ones'-complement sum that it computes.
#[verifier::external_body]
pub(crate) fn tcp_checksum(header: &TcpFields, source: u32, destination: u32) -> (res: u16)
    ensures
        res == tcp_checksum_empty_payload(*header, source, destination),
{
    let mut h = TcpHeader::new(header.source_port, header.destination_port, header.sequence_number, header.window_size);
    h.acknowledgment_number = header.acknowledgment_number;
    h.syn = header.syn;
    h.ack = header.ack;
    h.fin = header.fin;
    h.rst = header.rst;
    h.calc_checksum_ipv4_raw(source.to_be_bytes(), destination.to_be_bytes(), &[]).unwrap_or(0)
}

/// Serializes a TCP header with `etherparse::TcpHeader::write`, starting from
/// `TcpHeader::new`. The contract claims the byte layout that the write
/// produces; writing into a `Vec` does not fail.
#[verifier::external_body]
pub(crate) fn write_tcp_header(header: &TcpFields) -> (res: Vec<u8>)
    ensures
        res@ == tcp_header_bytes(*header),
{
    let mut h = TcpHeader::new(header.source_port, header.destination_port, header.sequence_number, header.window_size);
    h.acknowledgment_number = header.acknowledgment_number;
    h.syn = header.syn;
    h.ack = header.ack;
    h.fin = header.fin;
    h.rst = header.rst;
    h.checksum = header.checksum;
    let mut out = Vec::new();
    let _ = h.write(&mut out);
    out
}

} // verus!
