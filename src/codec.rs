use vstd::prelude::*;

use crate::manager::Quad;
use crate::tcp::{append_prefix, Segment};

verus! {

/// IP protocol number of TCP.
pub const PROTO_TCP: u8 = 6;

/// Big-endian 16-bit number at `b[i..i + 2]`.
pub open spec fn be16(b: Seq<u8>, i: int) -> int {
    b[i] * 0x100 + b[i + 1]
}

/// Big-endian 32-bit number at `b[i..i + 4]`.
pub open spec fn be32(b: Seq<u8>, i: int) -> int {
    be16(b, i) * 0x1_0000 + be16(b, i + 2)
}

/// Length in bytes of the IPv4 header that `b` starts with, from its IHL.
pub open spec fn ipv4_header_len(b: Seq<u8>) -> int {
    (b[0] % 16) * 4
}

/// `b` starts with a complete IPv4 header: version 4, IHL at least 5, all
/// of the header present, and a total length that covers the header.
pub open spec fn ipv4_ok(b: Seq<u8>) -> bool {
    &&& b.len() >= 20
    &&& b[0] / 16 == 4
    &&& b[0] % 16 >= 5
    &&& b.len() >= ipv4_header_len(b)
    &&& be16(b, 2) >= ipv4_header_len(b)
}

/// Length in bytes of the TCP header that `b` starts with, from its data
/// offset.
pub open spec fn tcp_header_len(b: Seq<u8>) -> int {
    (b[12] / 16) * 4
}

/// `b` starts with a complete TCP header: data offset at least 5 and all
/// of the header present.
pub open spec fn tcp_ok(b: Seq<u8>) -> bool {
    &&& b.len() >= 20
    &&& b[12] / 16 >= 5
    &&& b.len() >= tcp_header_len(b)
}

/// Bit `n` of byte `x`.
pub open spec fn bit(x: u8, n: nat) -> bool {
    (x / pow2(n) as u8) % 2 == 1
}

/// Powers of two up to a byte.
pub open spec fn pow2(n: nat) -> int {
    if n == 0 { 1 } else if n == 1 { 2 } else if n == 2 { 4 } else if n == 3 { 8 } else { 16 }
}

/// The IPv4 header fields the demultiplexer reads.
pub struct Ipv4Fields {
    pub header_len: usize,
    pub protocol: u8,
    pub src: u32,
    pub dst: u32,
}

/// The TCP header fields the state machine reads, with its length.
pub struct TcpFields {
    pub header_len: usize,
    pub src_port: u16,
    pub dst_port: u16,
    pub seq_number: u32,
    pub ack_number: u32,
    pub syn: bool,
    pub ack: bool,
    pub fin: bool,
    pub rst: bool,
    pub window: u16,
}

/// Relies on etherparse's `Ipv4HeaderSlice::from_slice`, which accepts
/// exactly the slices `ipv4_ok` describes, and on its `slice`, `protocol`,
/// `source_addr` and `destination_addr`, which read the header length,
/// byte 9 and bytes 12..16 and 16..20.
#[verifier::external_body]
fn ipv4_fields(frame: &[u8]) -> (r: Option<Ipv4Fields>)
    ensures
        r is Some <==> ipv4_ok(frame@),
        r matches Some(h) ==> {
            &&& h.header_len == ipv4_header_len(frame@)
            &&& h.protocol == frame@[9]
            &&& h.src == be32(frame@, 12)
            &&& h.dst == be32(frame@, 16)
        },
{
    match etherparse::Ipv4HeaderSlice::from_slice(frame) {
        Ok(h) => Some(Ipv4Fields {
            header_len: h.slice().len(),
            protocol: h.protocol(),
            src: u32::from(h.source_addr()),
            dst: u32::from(h.destination_addr()),
        }),
        Err(_) => None,
    }
}

/// Relies on etherparse's `TcpHeaderSlice::from_slice`, which accepts
/// exactly the slices `tcp_ok` describes, and on its field readers: ports at
/// bytes 0..2 and 2..4, numbers at 4..8 and 8..12, flags in byte 13 (FIN bit
/// 0, SYN bit 1, RST bit 2, ACK bit 4) and the window at 14..16.
#[verifier::external_body]
fn tcp_fields(bytes: &[u8]) -> (r: Option<TcpFields>)
    ensures
        r is Some <==> tcp_ok(bytes@),
        r matches Some(t) ==> {
            &&& t.header_len == tcp_header_len(bytes@)
            &&& t.src_port == be16(bytes@, 0)
            &&& t.dst_port == be16(bytes@, 2)
            &&& t.seq_number == be32(bytes@, 4)
            &&& t.ack_number == be32(bytes@, 8)
            &&& t.fin == bit(bytes@[13], 0)
            &&& t.syn == bit(bytes@[13], 1)
            &&& t.rst == bit(bytes@[13], 2)
            &&& t.ack == bit(bytes@[13], 4)
            &&& t.window == be16(bytes@, 14)
        },
{
    match etherparse::TcpHeaderSlice::from_slice(bytes) {
        Ok(t) => Some(TcpFields {
            header_len: t.slice().len(),
            src_port: t.source_port(),
            dst_port: t.destination_port(),
            seq_number: t.sequence_number(),
            ack_number: t.acknowledgment_number(),
            syn: t.syn(),
            ack: t.ack(),
            fin: t.fin(),
            rst: t.rst(),
            window: t.window_size(),
        }),
        Err(_) => None,
    }
}

/// Copies `b[lo..hi]` into a new vector.
pub fn copy_range(b: &[u8], lo: usize, hi: usize) -> (r: Vec<u8>)
    requires
        lo <= hi <= b@.len(),
    ensures
        r@ == b@.subrange(lo as int, hi as int),
{
    let mut r: Vec<u8> = Vec::new();
    let mut i: usize = lo;
    while i < hi
        invariant
            lo <= i <= hi <= b@.len(),
            r@ == b@.subrange(lo as int, i as int),
        decreases hi - i,
    {
        r.push(b[i]);
        i = i + 1;
        assert(r@ =~= b@.subrange(lo as int, i as int));
    }
    r
}

/// `frame` is an IPv4 packet carrying TCP whose headers both parse.
pub open spec fn decodable(frame: Seq<u8>) -> bool {
    &&& ipv4_ok(frame)
    &&& frame[9] == PROTO_TCP
    &&& tcp_ok(frame.skip(ipv4_header_len(frame)))
}

/// Reads the flow and the segment out of one raw IPv4 frame: `None` unless
/// it holds a well-formed IPv4 header for protocol TCP followed by a
/// well-formed TCP header; the payload is everything after the TCP header.
pub fn decode(frame: &[u8]) -> (r: Option<(Quad, Segment)>)
    ensures
        r is Some <==> decodable(frame@),
        r matches Some((q, s)) ==> {
            let ih = ipv4_header_len(frame@);
            let t = frame@.skip(ih);
            &&& q.src_ip == be32(frame@, 12)
            &&& q.dst_ip == be32(frame@, 16)
            &&& q.src_port == be16(t, 0)
            &&& q.dst_port == be16(t, 2)
            &&& s.seq_number == be32(t, 4)
            &&& s.ack_number == be32(t, 8)
            &&& s.fin == bit(t[13], 0)
            &&& s.syn == bit(t[13], 1)
            &&& s.rst == bit(t[13], 2)
            &&& s.ack == bit(t[13], 4)
            &&& s.window == be16(t, 14)
            &&& s.payload@ == t.skip(tcp_header_len(t))
        },
{
    let ip = match ipv4_fields(frame) {
        Some(ip) => ip,
        None => return None,
    };
    if ip.protocol != PROTO_TCP {
        return None;
    }
    let rest = copy_range(frame, ip.header_len, frame.len());
    assert(rest@ =~= frame@.skip(ip.header_len as int));
    let tcp = match tcp_fields(rest.as_slice()) {
        Some(t) => t,
        None => return None,
    };
    let payload = copy_range(rest.as_slice(), tcp.header_len, rest.len());
    assert(payload@ =~= rest@.skip(tcp.header_len as int));
    let quad = Quad { src_ip: ip.src, src_port: tcp.src_port, dst_ip: ip.dst, dst_port: tcp.dst_port };
    let seg = Segment {
        seq_number: tcp.seq_number,
        ack_number: tcp.ack_number,
        syn: tcp.syn,
        ack: tcp.ack,
        fin: tcp.fin,
        rst: tcp.rst,
        window: tcp.window,
        payload,
    };
    Some((quad, seg))
}

/// Length of the IPv4 header this end sends, which carries no options.
pub const IPV4_HEADER_LEN: usize = 20;

/// Length of the TCP header this end sends, which carries no options.
pub const TCP_HEADER_LEN: usize = 20;

/// Time to live of the packets this end sends.
pub const TTL: u8 = 64;

/// The Internet checksum of an IPv4 header, as etherparse computes it over
/// the header's other fields.
pub uninterp spec fn ipv4_header_checksum(header: Seq<u8>) -> u16;

/// The TCP checksum over the IPv4 pseudo-header for `src` and `dst`, the
/// TCP header with a zero checksum field, and the payload, as etherparse
/// computes it.
pub uninterp spec fn tcp_checksum(src: u32, dst: u32, header: Seq<u8>, payload: Seq<u8>) -> u16;

/// `b[i..i + 2]` holds `v` big-endian.
pub open spec fn holds16(b: Seq<u8>, i: int, v: int) -> bool {
    b[i] == v / 0x100 && b[i + 1] == v % 0x100
}

/// `b[i..i + 4]` holds `v` big-endian.
pub open spec fn holds32(b: Seq<u8>, i: int, v: int) -> bool {
    holds16(b, i, v / 0x1_0000) && holds16(b, i + 2, v % 0x1_0000)
}

/// The flags byte of a TCP header with only these flags set.
pub open spec fn flags_byte(fin: bool, syn: bool, rst: bool, ack: bool) -> u8 {
    ((if fin { 1int } else { 0int }) + (if syn { 2int } else { 0int }) + (if rst { 4int } else { 0int })
        + (if ack { 16int } else { 0int })) as u8
}

/// Relies on etherparse's `Ipv4Header::new`, `set_payload_len` and `write`:
/// a 20-byte header, version 4 and IHL 5, total length `20 + payload_len`,
/// identification 0, don't-fragment set, the given TTL, protocol TCP, the header
/// checksum, then the two addresses; `set_payload_len` refuses more than
/// 65515 payload bytes.
#[verifier::external_body]
fn ipv4_header_bytes(src: u32, dst: u32, ttl: u8, payload_len: usize) -> (r: Option<Vec<u8>>)
    ensures
        r is Some <==> payload_len <= u16::MAX - IPV4_HEADER_LEN,
        r matches Some(b) ==> {
            &&& b@.len() == IPV4_HEADER_LEN
            &&& b@[0] == 0x45
            &&& b@[1] == 0
            &&& holds16(b@, 2, IPV4_HEADER_LEN + payload_len)
            &&& holds16(b@, 4, 0)
            &&& b@[6] == 0x40
            &&& b@[7] == 0
            &&& b@[8] == ttl
            &&& b@[9] == PROTO_TCP
            &&& holds16(b@, 10, ipv4_header_checksum(b@.subrange(0, 10) + b@.subrange(12, 20)) as int)
            &&& holds32(b@, 12, src as int)
            &&& holds32(b@, 16, dst as int)
        },
{
    let mut ip = etherparse::Ipv4Header::new(0, ttl, etherparse::IpTrafficClass::Tcp, src.to_be_bytes(), dst.to_be_bytes());
    if ip.set_payload_len(payload_len).is_err() {
        return None;
    }
    let mut b: Vec<u8> = Vec::new();
    match ip.write(&mut b) {
        Ok(()) => Some(b),
        Err(_) => None,
    }
}

/// Relies on etherparse's `TcpHeader::new`, `calc_checksum_ipv4_raw` and
/// `write`: a 20-byte header with the ports, the two numbers, data offset 5,
/// the flags, the window, the checksum over the pseudo-header, header and
/// payload, and a zero urgent pointer; the checksum is refused when header
/// and payload exceed 65535 bytes.
#[verifier::external_body]
fn tcp_header_bytes(src: u32, dst: u32, src_port: u16, dst_port: u16, seg: &Segment) -> (r: Option<Vec<u8>>)
    ensures
        r is Some <==> seg.payload@.len() <= u16::MAX - TCP_HEADER_LEN,
        r matches Some(b) ==> {
            &&& b@.len() == TCP_HEADER_LEN
            &&& holds16(b@, 0, src_port as int)
            &&& holds16(b@, 2, dst_port as int)
            &&& holds32(b@, 4, seg.seq_number as int)
            &&& holds32(b@, 8, seg.ack_number as int)
            &&& b@[12] == 0x50
            &&& b@[13] == flags_byte(seg.fin, seg.syn, seg.rst, seg.ack)
            &&& holds16(b@, 14, seg.window as int)
            &&& holds16(b@, 16, tcp_checksum(src, dst, b@.subrange(0, 16) + seq![0u8, 0u8] + b@.subrange(18, 20), seg.payload@) as int)
            &&& holds16(b@, 18, 0)
        },
{
    let mut tcp = etherparse::TcpHeader::new(src_port, dst_port, seg.seq_number, seg.window);
    tcp.acknowledgment_number = seg.ack_number;
    tcp.fin = seg.fin;
    tcp.syn = seg.syn;
    tcp.rst = seg.rst;
    tcp.ack = seg.ack;
    tcp.checksum = match tcp.calc_checksum_ipv4_raw(src.to_be_bytes(), dst.to_be_bytes(), &seg.payload) {
        Ok(c) => c,
        Err(_) => return None,
    };
    let mut b: Vec<u8> = Vec::new();
    match tcp.write(&mut b) {
        Ok(()) => Some(b),
        Err(_) => None,
    }
}

/// `frame` is the packet that carries `seg` from the local end of `quad`
/// (its destination) to the peer (its source).
pub open spec fn carries(frame: Seq<u8>, quad: Quad, seg: Segment) -> bool {
    let t = frame.skip(IPV4_HEADER_LEN as int);
    &&& frame.len() == IPV4_HEADER_LEN + TCP_HEADER_LEN + seg.payload@.len()
    &&& frame[0] == 0x45
    &&& frame[1] == 0
    &&& holds16(frame, 2, frame.len() as int)
    &&& holds16(frame, 4, 0)
    &&& frame[6] == 0x40
    &&& frame[7] == 0
    &&& frame[8] == TTL
    &&& frame[9] == PROTO_TCP
    &&& holds16(frame, 10, ipv4_header_checksum(frame.subrange(0, 10) + frame.subrange(12, 20)) as int)
    &&& holds32(frame, 12, quad.dst_ip as int)
    &&& holds32(frame, 16, quad.src_ip as int)
    &&& holds16(t, 0, quad.dst_port as int)
    &&& holds16(t, 2, quad.src_port as int)
    &&& holds32(t, 4, seg.seq_number as int)
    &&& holds32(t, 8, seg.ack_number as int)
    &&& t[12] == 0x50
    &&& t[13] == flags_byte(seg.fin, seg.syn, seg.rst, seg.ack)
    &&& holds16(t, 14, seg.window as int)
    &&& holds16(
        t,
        16,
        tcp_checksum(
            quad.dst_ip,
            quad.src_ip,
            t.subrange(0, 16) + seq![0u8, 0u8] + t.subrange(18, 20),
            seg.payload@,
        ) as int,
    )
    &&& holds16(t, 18, 0)
    &&& t.skip(TCP_HEADER_LEN as int) == seg.payload@
}

/// Frames `seg` as an IPv4 packet from the local end of `quad` to the peer,
/// with both checksums: `None` when the payload does not fit in one IPv4
/// packet.
pub fn encode(quad: Quad, seg: &Segment) -> (r: Option<Vec<u8>>)
    ensures
        r is Some <==> seg.payload@.len() <= u16::MAX - IPV4_HEADER_LEN - TCP_HEADER_LEN,
        r matches Some(f) ==> carries(f@, quad, *seg),
{
    if seg.payload.len() > u16::MAX as usize - IPV4_HEADER_LEN - TCP_HEADER_LEN {
        return None;
    }
    let mut frame = match ipv4_header_bytes(quad.dst_ip, quad.src_ip, TTL, TCP_HEADER_LEN + seg.payload.len()) {
        Some(b) => b,
        None => return None,
    };
    let tcp = match tcp_header_bytes(quad.dst_ip, quad.src_ip, quad.dst_port, quad.src_port, seg) {
        Some(b) => b,
        None => return None,
    };
    let ghost ip = frame@;
    append_prefix(&mut frame, tcp.as_slice(), tcp.len());
    append_prefix(&mut frame, seg.payload.as_slice(), seg.payload.len());
    proof {
        assert(tcp@.take(tcp@.len() as int) =~= tcp@);
        assert(seg.payload@.take(seg.payload@.len() as int) =~= seg.payload@);
        let t = frame@.skip(IPV4_HEADER_LEN as int);
        assert(t =~= tcp@ + seg.payload@);
        assert(t.skip(TCP_HEADER_LEN as int) =~= seg.payload@);
        assert(t.subrange(0, 16) =~= tcp@.subrange(0, 16));
        assert(t.subrange(18, 20) =~= tcp@.subrange(18, 20));
        assert(frame@.subrange(0, 10) =~= ip.subrange(0, 10));
        assert(frame@.subrange(12, 20) =~= ip.subrange(12, 20));
    }
    Some(frame)
}

/// A 16-bit value stored big-endian reads back as itself.
pub proof fn lemma_be16(b: Seq<u8>, i: int, v: int)
    requires
        0 <= i,
        i + 2 <= b.len(),
        0 <= v < 0x1_0000,
        holds16(b, i, v),
    ensures
        be16(b, i) == v,
{
}

/// A 32-bit value stored big-endian reads back as itself.
pub proof fn lemma_be32(b: Seq<u8>, i: int, v: int)
    requires
        0 <= i,
        i + 4 <= b.len(),
        0 <= v < 0x1_0000_0000,
        holds32(b, i, v),
    ensures
        be32(b, i) == v,
{
    lemma_be16(b, i, v / 0x1_0000);
    lemma_be16(b, i + 2, v % 0x1_0000);
}

/// Each flag reads back from the flags byte at its own bit.
pub proof fn lemma_flags(fin: bool, syn: bool, rst: bool, ack: bool)
    ensures
        bit(flags_byte(fin, syn, rst, ack), 0) == fin,
        bit(flags_byte(fin, syn, rst, ack), 1) == syn,
        bit(flags_byte(fin, syn, rst, ack), 2) == rst,
        bit(flags_byte(fin, syn, rst, ack), 4) == ack,
{
    let x = flags_byte(fin, syn, rst, ack) as int;
    let low: int = (if fin { 1int } else { 0int }) + (if syn { 2int } else { 0int });
    assert(x == low + (if rst { 4int } else { 0int }) + (if ack { 16int } else { 0int }));
    assert(x % 2 == (if fin { 1int } else { 0int }));
    assert((x / 2) % 2 == (if syn { 1int } else { 0int }));
}

/// Decoding a frame that carries `seg` for `quad` gives back the flow as
/// the peer sees it and every field of the segment.
pub proof fn lemma_decode_carried(frame: Seq<u8>, quad: Quad, seg: Segment)
    requires
        carries(frame, quad, seg),
    ensures
        decodable(frame),
        ({
            let t = frame.skip(ipv4_header_len(frame));
            &&& be32(frame, 12) == quad.dst_ip
            &&& be32(frame, 16) == quad.src_ip
            &&& be16(t, 0) == quad.dst_port
            &&& be16(t, 2) == quad.src_port
            &&& be32(t, 4) == seg.seq_number
            &&& be32(t, 8) == seg.ack_number
            &&& bit(t[13], 0) == seg.fin
            &&& bit(t[13], 1) == seg.syn
            &&& bit(t[13], 2) == seg.rst
            &&& bit(t[13], 4) == seg.ack
            &&& be16(t, 14) == seg.window
            &&& t.skip(tcp_header_len(t)) == seg.payload@
        }),
{
    let t = frame.skip(IPV4_HEADER_LEN as int);
    assert(ipv4_header_len(frame) == 20);
    assert(tcp_header_len(t) == 20);
    lemma_be16(frame, 2, frame.len() as int);
    lemma_be32(frame, 12, quad.dst_ip as int);
    lemma_be32(frame, 16, quad.src_ip as int);
    lemma_be16(t, 0, quad.dst_port as int);
    lemma_be16(t, 2, quad.src_port as int);
    lemma_be32(t, 4, seg.seq_number as int);
    lemma_be32(t, 8, seg.ack_number as int);
    lemma_be16(t, 14, seg.window as int);
    lemma_flags(seg.fin, seg.syn, seg.rst, seg.ack);
}

} // verus!
