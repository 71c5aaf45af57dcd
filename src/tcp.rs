use vstd::prelude::*;

use crate::seq::{
    acceptable, between, dist, is_between_wrapped, seg_len, segment_acceptable, seq_add, seq_sub,
};

verus! {

/// Receive window this end advertises.
pub const RECV_WINDOW: u16 = 1024;

/// Largest payload that fits in one 1500-byte frame after the 20-byte IPv4
/// and 20-byte TCP headers.
pub const MAX_PAYLOAD: usize = 1460;

/// Connection states; CLOSED and LISTEN are the absence of a connection and
/// a bound port.
#[derive(PartialEq, Eq, Structural, Clone, Copy, Debug)]
pub enum State {
    SynRcvd,
    Estab,
    FinWait1,
    FinWait2,
    TimeWait,
}

impl State {
    /// Every state but SYN-RECEIVED has seen both initial sequence numbers.
    pub fn is_synchronized(&self) -> (r: bool)
        ensures
            r == !(*self is SynRcvd),
    {
        match *self {
            State::SynRcvd => false,
            State::Estab | State::FinWait1 | State::FinWait2 | State::TimeWait => true,
        }
    }
}

/// One TCP segment as the state machine reads and writes it: the header
/// fields it acts on and the payload.
#[derive(Clone, Debug, PartialEq, Eq)]
pub struct Segment {
    pub seq_number: u32,
    pub ack_number: u32,
    pub syn: bool,
    pub ack: bool,
    pub fin: bool,
    pub rst: bool,
    pub window: u16,
    pub payload: Vec<u8>,
}

/// Send sequence space (RFC 793 section 3.2).
#[derive(PartialEq, Eq, Structural, Clone, Copy, Debug)]
pub struct SendSequenceSpace {
    /// oldest unacknowledged
    pub una: u32,
    /// next to send
    pub nxt: u32,
    /// window the peer advertised
    pub wnd: u16,
    /// urgent pointer
    pub up: bool,
    /// segment sequence number of the last window update
    pub wl1: u32,
    /// segment acknowledgment number of the last window update
    pub wl2: u32,
    /// initial send sequence number
    pub iss: u32,
}

/// Receive sequence space (RFC 793 section 3.2).
#[derive(PartialEq, Eq, Structural, Clone, Copy, Debug)]
pub struct RecvSequenceSpace {
    /// next expected
    pub nxt: u32,
    /// window this end advertises
    pub wnd: u16,
    /// urgent pointer
    pub up: bool,
    /// initial receive sequence number
    pub irs: u32,
}

/// What handling one inbound segment produced: the segments to transmit,
/// and whether the connection is to be discarded.
pub struct Reply {
    pub segments: Vec<Segment>,
    pub discard: bool,
}

/// State of one TCP flow.
pub struct Connection {
    pub state: State,
    pub recv: RecvSequenceSpace,
    pub send: SendSequenceSpace,
    /// received payload not yet read
    pub incoming: Vec<u8>,
    /// bytes queued for sending and not yet acknowledged
    pub unacked: Vec<u8>,
    /// the application asked for shutdown
    pub closed: bool,
}

/// `s` is an empty segment with ACK set, our window, and the given
/// sequence number, acknowledgment number and SYN, FIN and RST flags.
pub open spec fn control(s: Segment, seq: u32, ack: u32, syn: bool, fin: bool, rst: bool) -> bool {
    &&& s.seq_number == seq
    &&& s.ack_number == ack
    &&& s.syn == syn
    &&& s.fin == fin
    &&& s.rst == rst
    &&& s.ack
    &&& s.window == RECV_WINDOW
    &&& s.payload@.len() == 0
}

/// Sequence-space length of an inbound segment.
pub open spec fn slen_of(seg: Segment) -> int {
    seg_len(seg.payload@.len(), seg.syn, seg.fin)
}

/// One step of the state machine: `f` and the segments `segs` are what
/// handling `seg` in connection `o` leads to, and `discard` whether the
/// connection goes away. See `Connection::on_packet`.
pub open spec fn step(
    o: Connection,
    seg: Segment,
    f: Connection,
    segs: Seq<Segment>,
    discard: bool,
) -> bool {
    let slen = slen_of(seg) as u32;
        let ackn = seg.ack_number;
        let rn = seq_add(o.recv.nxt, slen);
        let ack_ok = between(o.send.una, ackn, seq_add(o.send.nxt, 1));
        let una1 = if ack_ok { ackn } else { o.send.una };
        let mid = if ack_ok && o.state is Estab {
            State::FinWait1
        } else if ack_ok && o.state is FinWait1 && ackn == seq_add(o.send.iss, 2) {
            State::FinWait2
        } else {
            o.state
        };
        let nxt1 = if ack_ok && o.state is Estab { seq_add(o.send.nxt, 1) } else { o.send.nxt };
        if !acceptable(o.recv.nxt, o.recv.wnd, seg.seq_number, slen) {
            &&& f == o
            &&& segs.len() == 1
            &&& control(segs[0], o.send.nxt, o.recv.nxt, false, false, false)
            &&& !discard
        } else {
            &&& f.recv == (RecvSequenceSpace { nxt: rn, ..o.recv })
            &&& f.incoming@ == o.incoming@ + seg.payload@
            &&& if !seg.ack || o.state is TimeWait {
                &&& f.state == o.state
                &&& f.send == o.send
                &&& segs.len() == 0
                &&& !discard
            } else if o.state is SynRcvd {
                if between(seq_sub(o.send.una, 1), ackn, seq_add(o.send.nxt, 1)) {
                    &&& f.state is Estab
                    &&& f.send == o.send
                    &&& segs.len() == 0
                    &&& !discard
                } else {
                    &&& f.state == o.state
                    &&& f.send == o.send
                    &&& segs.len() == 1
                    &&& control(segs[0], 0, 0, false, false, true)
                    &&& discard
                }
            } else if !ack_ok && ackn != o.send.una {
                &&& f.state == o.state
                &&& f.send == o.send
                &&& segs.len() == 0
                &&& !discard
            } else {
                let k: int = if ack_ok && o.state is Estab {
                    1
                } else {
                    0
                };
                &&& !discard
                &&& (ack_ok && o.state is Estab ==> k <= segs.len() && control(
                    segs[0],
                    o.send.nxt,
                    rn,
                    false,
                    true,
                    false,
                ))
                &&& if seg.fin && mid is FinWait2 {
                    &&& f.state is TimeWait
                    &&& f.send == (SendSequenceSpace { una: una1, nxt: nxt1, ..o.send })
                    &&& segs.len() == k + 1
                    &&& control(segs[k], nxt1, rn, false, false, false)
                } else if seg.fin && mid is Estab {
                    &&& f.state is FinWait1
                    &&& f.send == (SendSequenceSpace {
                        una: una1,
                        nxt: seq_add(nxt1, 1),
                        ..o.send
                    })
                    &&& segs.len() == k + 1
                    &&& control(segs[k], nxt1, rn, false, true, false)
                } else {
                    &&& f.state == mid
                    &&& f.send == (SendSequenceSpace { una: una1, nxt: nxt1, ..o.send })
                    &&& segs.len() == k
                }
            }
        }
}

/// `c` is the connection a passive open on `seg` creates, and `out` the
/// SYN|ACK it answers with.
pub open spec fn opened(seg: Segment, c: Connection, out: Segment) -> bool {
    &&& c.wf()
    &&& c.state is SynRcvd
    &&& c.send.iss == 0
    &&& c.send.una == 0
    &&& c.send.nxt == 1
    &&& c.send.wnd == seg.window
    &&& c.recv.irs == seg.seq_number
    &&& c.recv.nxt == seq_add(seg.seq_number, 1)
    &&& c.recv.wnd == RECV_WINDOW
    &&& c.incoming@.len() == 0
    &&& c.unacked@.len() == 0
    &&& !c.closed
    &&& control(out, 0, seq_add(seg.seq_number, 1), true, false, false)
}

/// Appends the first `n` of `bytes` to the end of `v`.
pub fn append_prefix(v: &mut Vec<u8>, bytes: &[u8], n: usize)
    requires
        n <= bytes@.len(),
    ensures
        final(v)@ == old(v)@ + bytes@.take(n as int),
{
    let mut i: usize = 0;
    while i < n
        invariant
            n <= bytes@.len(),
            i <= n,
            v@ == old(v)@ + bytes@.take(i as int),
        decreases n - i,
    {
        v.push(bytes[i]);
        i = i + 1;
        assert(v@ =~= old(v)@ + bytes@.take(i as int));
    }
}

impl Connection {
    /// Our sequence numbers stay ordered `iss <= una <= nxt` on the ring
    /// starting at `iss`; SYN-RECEIVED has sent only the SYN, later states
    /// the SYN and possibly the FIN, which goes out on leaving ESTABLISHED.
    pub open spec fn wf(&self) -> bool {
        &&& dist(self.send.iss, self.send.una) <= dist(self.send.iss, self.send.nxt)
        &&& self.state is SynRcvd ==> self.send.una == self.send.iss && self.send.nxt == seq_add(
            self.send.iss,
            1,
        )
        &&& self.state is Estab ==> self.send.nxt == seq_add(self.send.iss, 1)
        &&& !(self.state is SynRcvd) && !(self.state is Estab) ==> self.send.nxt == seq_add(
            self.send.iss,
            2,
        )
    }

    /// Passive open: a segment carrying SYN creates a connection in
    /// SYN-RECEIVED and the SYN|ACK to send back; any other segment creates
    /// nothing.
    pub fn accept(seg: &Segment) -> (r: Option<(Connection, Segment)>)
        ensures
            r is None <==> !seg.syn,
            r matches Some((c, out)) ==> opened(*seg, c, out),
    {
        if !seg.syn {
            return None;
        }
        let iss: u32 = 0;
        let mut c = Connection {
            state: State::SynRcvd,
            recv: RecvSequenceSpace {
                irs: seg.seq_number,
                nxt: seg.seq_number.wrapping_add(1),
                wnd: RECV_WINDOW,
                up: false,
            },
            send: SendSequenceSpace {
                iss,
                una: iss,
                nxt: iss,
                wnd: seg.window,
                up: false,
                wl1: 0,
                wl2: 0,
            },
            incoming: Vec::new(),
            unacked: Vec::new(),
            closed: false,
        };
        let empty: Vec<u8> = Vec::new();
        let out = c.write(true, false, empty.as_slice());
        Some((c, out))
    }

    /// Emits a segment with ACK set that carries `seq = send.nxt`,
    /// `ack = recv.nxt`, the given SYN and FIN flags and as much of `payload`
    /// as fits in one frame, and advances `send.nxt` past the payload bytes
    /// sent and one more for each of SYN and FIN.
    pub fn write(&mut self, syn: bool, fin: bool, payload: &[u8]) -> (out: Segment)
        ensures
            ({
                let n: int = if payload@.len() < MAX_PAYLOAD {
                    payload@.len() as int
                } else {
                    MAX_PAYLOAD as int
                };
                &&& out.seq_number == old(self).send.nxt
                &&& out.ack_number == old(self).recv.nxt
                &&& out.syn == syn
                &&& out.fin == fin
                &&& !out.rst
                &&& out.ack
                &&& out.window == RECV_WINDOW
                &&& out.payload@ == payload@.subrange(0, n)
                &&& final(self).send == (SendSequenceSpace {
                    nxt: seq_add(old(self).send.nxt, seg_len(n as nat, syn, fin) as u32),
                    ..old(self).send
                })
            }),
            final(self).state == old(self).state,
            final(self).recv == old(self).recv,
            final(self).incoming == old(self).incoming,
            final(self).unacked == old(self).unacked,
            final(self).closed == old(self).closed,
    {
        let n: usize = if payload.len() < MAX_PAYLOAD {
            payload.len()
        } else {
            MAX_PAYLOAD
        };
        let mut bytes: Vec<u8> = Vec::new();
        let mut i: usize = 0;
        while i < n
            invariant
                n <= payload@.len(),
                i <= n,
                bytes@ == payload@.subrange(0, i as int),
            decreases n - i,
        {
            bytes.push(payload[i]);
            i = i + 1;
            assert(bytes@ =~= payload@.subrange(0, i as int));
        }
        let out = Segment {
            seq_number: self.send.nxt,
            ack_number: self.recv.nxt,
            syn,
            ack: true,
            fin,
            rst: false,
            window: RECV_WINDOW,
            payload: bytes,
        };
        let mut advance: u32 = n as u32;
        if syn {
            advance = advance + 1;
        }
        if fin {
            advance = advance + 1;
        }
        self.send.nxt = self.send.nxt.wrapping_add(advance);
        out
    }

    /// Emits a reset: RST set, sequence and acknowledgment numbers zero, no
    /// payload.
    pub fn send_rst(&self) -> (out: Segment)
        ensures
            control(out, 0, 0, false, false, true),
    {
        rst_segment()
    }

    /// The application closes the flow. In ESTABLISHED this sends our FIN,
    /// which takes `send.nxt`, and moves to FIN-WAIT-1; in any other state
    /// nothing is sent. Either way the flow is marked closed.
    pub fn close(&mut self) -> (r: Option<Segment>)
        requires
            old(self).wf(),
        ensures
            final(self).wf(),
            final(self).closed,
            final(self).recv == old(self).recv,
            final(self).incoming == old(self).incoming,
            final(self).unacked == old(self).unacked,
            old(self).state is Estab ==> {
                &&& r matches Some(fin) && control(fin, old(self).send.nxt, old(self).recv.nxt, false, true, false)
                &&& final(self).state is FinWait1
                &&& final(self).send == (SendSequenceSpace { nxt: seq_add(old(self).send.nxt, 1), ..old(self).send })
            },
            !(old(self).state is Estab) ==> r is None && final(self).state == old(self).state
                && final(self).send == old(self).send,
    {
        self.closed = true;
        match self.state {
            State::Estab => {
                let empty: Vec<u8> = Vec::new();
                let fin = self.write(false, true, empty.as_slice());
                self.state = State::FinWait1;
                Some(fin)
            },
            _ => None,
        }
    }

    /// One step of the state machine on an inbound segment.
    ///
    /// An unacceptable segment is answered with an empty ACK and changes
    /// nothing. An acceptable one advances `recv.nxt` by its length and
    /// queues its payload; without ACK that is all. In SYN-RECEIVED an ACK of
    /// our SYN leads to ESTABLISHED, any other ACK to a reset and the
    /// connection's removal. In ESTABLISHED, FIN-WAIT-1 and FIN-WAIT-2 an ACK
    /// of new data (`una < ack <= nxt`) moves `send.una`; ESTABLISHED then
    /// sends its FIN and goes to FIN-WAIT-1, and FIN-WAIT-1 goes to FIN-WAIT-2
    /// once that FIN is acknowledged. An ACK that repeats `send.una` moves
    /// nothing, any other ends the step. Last, a FIN from the peer is
    /// answered in FIN-WAIT-2 with an ACK and leads to TIME-WAIT, and in
    /// ESTABLISHED with our own FIN and FIN-WAIT-1.
    pub fn on_packet(&mut self, seg: &Segment) -> (r: Reply)
        requires
            old(self).wf(),
            seg.payload@.len() <= u16::MAX,
        ensures
            final(self).wf(),
            final(self).send.iss == old(self).send.iss,
            final(self).unacked == old(self).unacked,
            final(self).closed == old(self).closed,
            step(*old(self), *seg, *final(self), r.segments@, r.discard),
    {
        let ghost o = *self;
        let mut slen: u32 = seg.payload.len() as u32;
        if seg.syn {
            slen = slen + 1;
        }
        if seg.fin {
            slen = slen + 1;
        }
        let mut segments: Vec<Segment> = Vec::new();
        if !segment_acceptable(self.recv.nxt, self.recv.wnd, seg.seq_number, slen) {
            let empty: Vec<u8> = Vec::new();
            let out = self.write(false, false, empty.as_slice());
            segments.push(out);
            proof {
                assert(*self == o);
            }
            return Reply { segments, discard: false };
        }
        self.recv.nxt = self.recv.nxt.wrapping_add(slen);
        append_prefix(&mut self.incoming, seg.payload.as_slice(), seg.payload.len());
        assert(seg.payload@.take(seg.payload@.len() as int) =~= seg.payload@);
        if !seg.ack {
            return Reply { segments, discard: false };
        }
        let ackn = seg.ack_number;
        match self.state {
            State::SynRcvd => {
                if is_between_wrapped(
                    self.send.una.wrapping_sub(1),
                    ackn,
                    self.send.nxt.wrapping_add(1),
                ) {
                    self.state = State::Estab;
                    return Reply { segments, discard: false };
                } else {
                    segments.push(self.send_rst());
                    return Reply { segments, discard: true };
                }
            },
            State::TimeWait => {
                return Reply { segments, discard: false };
            },
            _ => {},
        }
        if is_between_wrapped(self.send.una, ackn, self.send.nxt.wrapping_add(1)) {
            self.send.una = ackn;
            match self.state {
                State::Estab => {
                    let empty: Vec<u8> = Vec::new();
                    let out = self.write(false, true, empty.as_slice());
                    segments.push(out);
                    self.state = State::FinWait1;
                },
                State::FinWait1 => {
                    if self.send.una == self.send.iss.wrapping_add(2) {
                        self.state = State::FinWait2;
                    }
                },
                _ => {},
            }
        } else if ackn != self.send.una {
            return Reply { segments, discard: false };
        }
        if seg.fin {
            match self.state {
                State::FinWait2 => {
                    let empty: Vec<u8> = Vec::new();
                    let out = self.write(false, false, empty.as_slice());
                    segments.push(out);
                    self.state = State::TimeWait;
                },
                State::Estab => {
                    let empty: Vec<u8> = Vec::new();
                    let out = self.write(false, true, empty.as_slice());
                    segments.push(out);
                    self.state = State::FinWait1;
                },
                _ => {},
            }
        }
        Reply { segments, discard: false }
    }
}

/// A reset: RST set, sequence and acknowledgment numbers zero, no payload.
pub fn rst_segment() -> (out: Segment)
    ensures
        control(out, 0, 0, false, false, true),
{
    Segment {
        seq_number: 0,
        ack_number: 0,
        syn: false,
        ack: true,
        fin: false,
        rst: true,
        window: RECV_WINDOW,
        payload: Vec::new(),
    }
}

/// Every step keeps `iss` and the order `iss <= una <= nxt` on the ring
/// starting at `iss`, together with the rest of the connection invariant.
pub proof fn lemma_step_keeps_order(o: Connection, seg: Segment, f: Connection, segs: Seq<Segment>, discard: bool)
    requires
        o.wf(),
        seg.payload@.len() <= u16::MAX,
        step(o, seg, f, segs, discard),
    ensures
        f.send.iss == o.send.iss,
        dist(f.send.iss, f.send.una) <= dist(f.send.iss, f.send.nxt),
        f.wf(),
{
}

/// Acceptance is monotone in the receive window: a segment that a window
/// of `w` accepts, a connection with the same `recv.nxt` and a window of
/// at least `w` accepts too, taking its bytes in.
pub proof fn lemma_step_window_monotone(
    w: u16,
    o: Connection,
    seg: Segment,
    f: Connection,
    segs: Seq<Segment>,
    discard: bool,
)
    requires
        w <= o.recv.wnd,
        acceptable(o.recv.nxt, w, seg.seq_number, slen_of(seg) as u32),
        step(o, seg, f, segs, discard),
    ensures
        f.recv.nxt == seq_add(o.recv.nxt, slen_of(seg) as u32),
        f.incoming@ == o.incoming@ + seg.payload@,
{
    crate::seq::lemma_acceptable_monotone(o.recv.nxt, w, o.recv.wnd, seg.seq_number, slen_of(seg) as u32);
}

/// In FIN-WAIT-1, an acceptable segment whose ACK covers our FIN
/// (`iss + 2`, wrapping) moves `send.una` there and reaches FIN-WAIT-2.
pub proof fn lemma_fin_acked(o: Connection, seg: Segment, f: Connection, segs: Seq<Segment>, discard: bool)
    requires
        o.wf(),
        o.state is FinWait1,
        o.send.una != o.send.nxt,
        acceptable(o.recv.nxt, o.recv.wnd, seg.seq_number, slen_of(seg) as u32),
        seg.ack,
        seg.ack_number == seq_add(o.send.iss, 2),
        !seg.fin,
        step(o, seg, f, segs, discard),
    ensures
        f.send.una == seq_add(o.send.iss, 2),
        f.state is FinWait2,
        segs.len() == 0,
{
}

} // verus!
