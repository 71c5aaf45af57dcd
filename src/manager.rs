use vstd::prelude::*;

use std::collections::HashMap;

use crate::seq::seq_add;
use crate::tcp::{append_prefix, control, opened, rst_segment, step, Connection, SendSequenceSpace, Segment};

verus! {

broadcast use vstd::std_specs::hash::group_hash_axioms;

/// Bound on the bytes queued for sending on one connection.
pub const SENDQUEUE_SIZE: usize = 1024;

/// Identity of a flow: source and destination IPv4 address and port.
#[derive(PartialEq, Eq, Structural, Clone, Copy, Debug, Hash)]
pub struct Quad {
    pub src_ip: u32,
    pub src_port: u16,
    pub dst_ip: u32,
    pub dst_port: u16,
}

impl Quad {
    /// The four fields packed into one integer, one to one.
    pub open spec fn key_spec(&self) -> u128 {
        (self.src_ip as int * 0x1_0000_0000_0000_0000 + self.src_port as int * 0x1_0000_0000_0000
            + self.dst_ip as int * 0x1_0000 + self.dst_port as int) as u128
    }

    /// The key under which the flow table holds this flow.
    pub fn key(&self) -> (r: u128)
        ensures
            r == self.key_spec(),
    {
        (self.src_ip as u128) * 0x1_0000_0000_0000_0000 + (self.src_port as u128) * 0x1_0000_0000_0000
            + (self.dst_ip as u128) * 0x1_0000 + (self.dst_port as u128)
    }
}

/// Distinct flows have distinct keys.
pub proof fn lemma_key_injective(a: Quad, b: Quad)
    ensures
        a.key_spec() == b.key_spec() ==> a == b,
{
}

/// Errors the socket operations report.
#[derive(PartialEq, Eq, Structural, Clone, Copy, Debug)]
pub enum TcpError {
    /// the port is already bound
    AddrInUse,
    /// the flow or the listening port is gone
    ConnectionAborted,
    /// the operation cannot complete now
    WouldBlock,
}

/// `s` without any occurrence of `q`, the rest in order.
pub open spec fn without(s: Seq<Quad>, q: Quad) -> Seq<Quad>
    decreases s.len(),
{
    if s.len() == 0 {
        s
    } else if s.last() == q {
        without(s.drop_last(), q)
    } else {
        without(s.drop_last(), q).push(s.last())
    }
}

/// What `without` keeps comes from `s` and is not `q`.
pub proof fn lemma_without_members(s: Seq<Quad>, q: Quad, i: int)
    requires
        0 <= i < without(s, q).len(),
    ensures
        without(s, q)[i] != q,
        s.contains(without(s, q)[i]),
    decreases s.len(),
{
    if s.len() > 0 {
        let r = without(s.drop_last(), q);
        if i < r.len() {
            lemma_without_members(s.drop_last(), q, i);
            let j = choose|j: int| 0 <= j < s.drop_last().len() && s.drop_last()[j] == r[i];
            assert(s[j] == r[i]);
        } else {
            assert(s[s.len() - 1] == s.last());
        }
    }
}

/// Some flow in `s` is held under key `k`.
pub open spec fn waiting_key(s: Seq<Quad>, k: u128) -> bool {
    exists|i: int| 0 <= i < s.len() && #[trigger] s[i].key_spec() == k
}

/// Copy of `s` without any occurrence of `q`.
pub fn remove_quad(s: &Vec<Quad>, q: Quad) -> (r: Vec<Quad>)
    ensures
        r@ == without(s@, q),
{
    let mut r: Vec<Quad> = Vec::new();
    let mut i: usize = 0;
    while i < s.len()
        invariant
            i <= s@.len(),
            r@ == without(s@.take(i as int), q),
        decreases s@.len() - i,
    {
        assert(s@.take(i as int + 1).drop_last() =~= s@.take(i as int));
        if s[i] != q {
            r.push(s[i]);
        }
        i = i + 1;
    }
    assert(s@.take(s@.len() as int) =~= s@);
    r
}

/// What delivering one inbound segment produced.
pub struct Delivery {
    /// segments to transmit
    pub segments: Vec<Segment>,
    /// a passive open completed and its flow joined a pending queue
    pub queued: bool,
    /// the flow was removed from the table
    pub discarded: bool,
}

/// The flow table and the queues of flows waiting to be accepted on each
/// bound port.
pub struct ConnectionManager {
    pub terminate: bool,
    /// flows by `Quad::key`
    pub connections: HashMap<u128, Connection>,
    /// for each bound port, the flows not yet accepted, oldest first
    pub pending: HashMap<u16, Vec<Quad>>,
}

impl ConnectionManager {
    /// Every connection in the table keeps its sequence-space invariant, and
    /// every flow waiting on a port is addressed to that port and has its
    /// connection in the table.
    pub open spec fn wf(&self) -> bool {
        &&& forall|k: u128| #[trigger] self.connections@.contains_key(k) ==> self.connections@[k].wf()
        &&& forall|p: u16, i: int|
            #![trigger self.pending@[p]@[i]]
            self.pending@.contains_key(p) && 0 <= i < self.pending@[p]@.len() ==> {
                &&& self.pending@[p]@[i].dst_port == p
                &&& self.connections@.contains_key(self.pending@[p]@[i].key_spec())
            }
    }

    /// A port is bound while it has a pending queue.
    pub open spec fn bound(&self, port: u16) -> bool {
        self.pending@.contains_key(port)
    }

    pub fn new() -> (r: ConnectionManager)
        ensures
            r.wf(),
            !r.terminate,
            r.connections@ == Map::<u128, Connection>::empty(),
            r.pending@ == Map::<u16, Vec<Quad>>::empty(),
    {
        ConnectionManager { terminate: false, connections: HashMap::new(), pending: HashMap::new() }
    }

    /// Passive open on `port`: fails with `AddrInUse` exactly when the port
    /// is already bound, and otherwise gives it an empty pending queue.
    pub fn bind(&mut self, port: u16) -> (r: Result<(), TcpError>)
        requires
            old(self).wf(),
        ensures
            final(self).wf(),
            final(self).connections == old(self).connections,
            final(self).terminate == old(self).terminate,
            old(self).bound(port) ==> r == Err::<(), TcpError>(TcpError::AddrInUse)
                && final(self).pending@ == old(self).pending@,
            !old(self).bound(port) ==> r is Ok && final(self).pending@ == old(self).pending@.insert(
                port,
                final(self).pending@[port],
            ) && final(self).pending@[port]@.len() == 0,
    {
        if self.pending.contains_key(&port) {
            return Err(TcpError::AddrInUse);
        }
        self.pending.insert(port, Vec::new());
        Ok(())
    }

    /// Releases `port`. The flows still waiting on it leave the table, and
    /// for each one a reset is handed back to be sent.
    pub fn unbind(&mut self, port: u16) -> (r: Vec<(Quad, Segment)>)
        requires
            old(self).wf(),
        ensures
            final(self).wf(),
            final(self).terminate == old(self).terminate,
            final(self).pending@ == old(self).pending@.remove(port),
            ({
                let q = if old(self).bound(port) {
                    old(self).pending@[port]@
                } else {
                    Seq::<Quad>::empty()
                };
                &&& r@.len() == q.len()
                &&& forall|i: int|
                    0 <= i < q.len() ==> #[trigger] r@[i].0 == q[i] && control(
                        r@[i].1,
                        0,
                        0,
                        false,
                        false,
                        true,
                    )
                &&& forall|k: u128|
                    #[trigger] final(self).connections@.contains_key(k) == (old(self).connections@.contains_key(k) && !waiting_key(q, k))
                &&& forall|k: u128|
                    #[trigger] final(self).connections@.contains_key(k) ==> final(self).connections@[k] == old(self).connections@[k]
            }),
    {
        let q = match self.pending.remove(&port) {
            Some(q) => q,
            None => Vec::new(),
        };
        let mut resets: Vec<(Quad, Segment)> = Vec::new();
        let mut i: usize = 0;
        while i < q.len()
            invariant
                self.wf(),
                self.terminate == old(self).terminate,
                self.pending@ == old(self).pending@.remove(port),
                q@ == (if old(self).bound(port) {
                    old(self).pending@[port]@
                } else {
                    Seq::<Quad>::empty()
                }),
                forall|j: int| 0 <= j < q@.len() ==> (#[trigger] q@[j]).dst_port == port,
                i <= q@.len(),
                resets@.len() == i,
                forall|j: int|
                    0 <= j < i ==> #[trigger] resets@[j].0 == q@[j] && control(
                        resets@[j].1,
                        0,
                        0,
                        false,
                        false,
                        true,
                    ),
                forall|k: u128|
                    #[trigger] self.connections@.contains_key(k) == (old(self).connections@.contains_key(k) && !waiting_key(q@.take(i as int), k)),
                forall|k: u128|
                    #[trigger] self.connections@.contains_key(k) ==> self.connections@[k] == old(self).connections@[k],
            decreases q@.len() - i,
        {
            let quad = q[i];
            let k = quad.key();
            let ghost prev = self.connections@;
            self.connections.remove(&k);
            proof {
                assert forall|p: u16, j: int|
                    self.pending@.contains_key(p) && 0 <= j < self.pending@[p]@.len() implies
                    self.connections@.contains_key(#[trigger] self.pending@[p]@[j].key_spec()) by {
                    lemma_key_injective(self.pending@[p]@[j], quad);
                    assert(prev.contains_key(self.pending@[p]@[j].key_spec()));
                }
            }
            resets.push((quad, rst_segment()));
            proof {
                assert forall|kk: u128|
                    waiting_key(q@.take(i as int + 1), kk) == (waiting_key(q@.take(i as int), kk)
                        || kk == k) by {
                    if waiting_key(q@.take(i as int + 1), kk) {
                        let j = choose|j: int|
                            0 <= j < i + 1 && #[trigger] q@.take(i as int + 1)[j].key_spec() == kk;
                        if j < i {
                            assert(q@.take(i as int)[j] == q@[j]);
                        }
                    }
                    if waiting_key(q@.take(i as int), kk) {
                        let j = choose|j: int|
                            0 <= j < i && #[trigger] q@.take(i as int)[j].key_spec() == kk;
                        assert(q@.take(i as int + 1)[j] == q@[j]);
                    }
                    if kk == k {
                        assert(q@.take(i as int + 1)[i as int] == q@[i as int]);
                    }
                }
            }
            i = i + 1;
        }
        assert(q@.take(q@.len() as int) =~= q@);
        resets
    }

    /// Takes the oldest flow waiting on `port`: `None` while none waits,
    /// `ConnectionAborted` when the port is not bound.
    pub fn accept(&mut self, port: u16) -> (r: Result<Option<Quad>, TcpError>)
        requires
            old(self).wf(),
        ensures
            final(self).wf(),
            final(self).connections == old(self).connections,
            final(self).terminate == old(self).terminate,
            !old(self).bound(port) ==> r == Err::<Option<Quad>, TcpError>(
                TcpError::ConnectionAborted,
            ) && final(self).pending@ == old(self).pending@,
            old(self).bound(port) && old(self).pending@[port]@.len() == 0 ==> r == Ok::<
                Option<Quad>,
                TcpError,
            >(None) && final(self).pending@ == old(self).pending@,
            old(self).bound(port) && old(self).pending@[port]@.len() > 0 ==> r == Ok::<
                Option<Quad>,
                TcpError,
            >(Some(old(self).pending@[port]@[0])) && final(self).pending@ == old(self).pending@.insert(port, final(self).pending@[port]) && final(self).pending@[port]@
                == old(self).pending@[port]@.drop_first(),
    {
        match self.pending.remove(&port) {
            None => Err(TcpError::ConnectionAborted),
            Some(mut q) => {
                if q.len() == 0 {
                    self.pending.insert(port, q);
                    proof {
                        assert(self.pending@ =~= old(self).pending@);
                    }
                    Ok(None)
                } else {
                    let first = q.remove(0);
                    self.pending.insert(port, q);
                    assert(q@ =~= old(self).pending@[port]@.drop_first());
                    Ok(Some(first))
                }
            },
        }
    }

    /// Delivers an inbound segment of flow `quad`. A known flow takes one
    /// step of its state machine and leaves the table when that step
    /// discards it. An unknown flow to a bound port is opened when the
    /// segment carries SYN and joins the back of that port's queue. Anything
    /// else is dropped.
    pub fn on_segment(&mut self, quad: Quad, seg: &Segment) -> (r: Delivery)
        requires
            old(self).wf(),
            seg.payload@.len() <= u16::MAX,
        ensures
            final(self).wf(),
            final(self).terminate == old(self).terminate,
            ({
                let k = quad.key_spec();
                let o = old(self).connections@;
                let f = final(self).connections@;
                if o.contains_key(k) {
                    &&& !r.queued
                    &&& if r.discarded {
                        &&& f == o.remove(k)
                        &&& final(self).pending@ == if old(self).bound(quad.dst_port) {
                            old(self).pending@.insert(
                                quad.dst_port,
                                final(self).pending@[quad.dst_port],
                            )
                        } else {
                            old(self).pending@
                        }
                        &&& old(self).bound(quad.dst_port) ==> final(self).pending@[quad.dst_port]@
                            == without(old(self).pending@[quad.dst_port]@, quad)
                        &&& exists|c: Connection| #[trigger] step(o[k], *seg, c, r.segments@, true)
                    } else {
                        &&& final(self).pending@ == old(self).pending@
                        &&& f == o.insert(k, f[k])
                        &&& step(o[k], *seg, f[k], r.segments@, false)
                    }
                } else if old(self).bound(quad.dst_port) && seg.syn {
                    &&& r.queued
                    &&& !r.discarded
                    &&& r.segments@.len() == 1
                    &&& f == o.insert(k, f[k])
                    &&& opened(*seg, f[k], r.segments@[0])
                    &&& final(self).pending@ == old(self).pending@.insert(
                        quad.dst_port,
                        final(self).pending@[quad.dst_port],
                    )
                    &&& final(self).pending@[quad.dst_port]@ == old(self).pending@[quad.dst_port]@.push(
                        quad,
                    )
                } else {
                    &&& !r.queued
                    &&& !r.discarded
                    &&& r.segments@.len() == 0
                    &&& f == o
                    &&& final(self).pending@ == old(self).pending@
                }
            }),
    {
        let k = quad.key();
        match self.connections.remove(&k) {
            Some(mut c) => {
                let reply = c.on_packet(seg);
                if reply.discard {
                    if let Some(q) = self.pending.remove(&quad.dst_port) {
                        let rest = remove_quad(&q, quad);
                        self.pending.insert(quad.dst_port, rest);
                        proof {
                            let op = old(self).pending@;
                            assert forall|p: u16, j: int|
                                self.pending@.contains_key(p) && 0 <= j < self.pending@[p]@.len() implies {
                                    &&& (#[trigger] self.pending@[p]@[j]).dst_port == p
                                    &&& self.connections@.contains_key(self.pending@[p]@[j].key_spec())
                                } by {
                                let x = self.pending@[p]@[j];
                                if p == quad.dst_port {
                                    lemma_without_members(q@, quad, j);
                                    let jj = choose|jj: int| 0 <= jj < q@.len() && q@[jj] == x;
                                    assert(op[p]@[jj] == x);
                                } else {
                                    assert(op[p]@[j] == x);
                                }
                                lemma_key_injective(x, quad);
                            }
                            assert(self.pending@ =~= old(self).pending@.insert(
                                quad.dst_port,
                                self.pending@[quad.dst_port],
                            ));
                        }
                    } else {
                        proof {
                            assert(self.pending@ =~= old(self).pending@);
                            assert forall|p: u16, j: int|
                                self.pending@.contains_key(p) && 0 <= j < self.pending@[p]@.len() implies
                                self.connections@.contains_key(#[trigger] self.pending@[p]@[j].key_spec()) by {
                                lemma_key_injective(self.pending@[p]@[j], quad);
                            }
                        }
                    }
                    let r = Delivery { segments: reply.segments, queued: false, discarded: true };
                    proof {
                        assert(self.connections@ =~= old(self).connections@.remove(k));
                        assert(step(old(self).connections@[k], *seg, c, r.segments@, true));
                    }
                    r
                } else {
                    self.connections.insert(k, c);
                    proof {
                        assert(self.connections@ =~= old(self).connections@.insert(k, c));
                    }
                    Delivery { segments: reply.segments, queued: false, discarded: false }
                }
            },
            None => {
                if !self.pending.contains_key(&quad.dst_port) {
                    return Delivery { segments: Vec::new(), queued: false, discarded: false };
                }
                match Connection::accept(seg) {
                    None => Delivery { segments: Vec::new(), queued: false, discarded: false },
                    Some((c, out)) => {
                        self.connections.insert(k, c);
                        assert(self.connections@ =~= old(self).connections@.insert(k, c));
                        let mut q = match self.pending.remove(&quad.dst_port) {
                            Some(q) => q,
                            None => Vec::new(),
                        };
                        q.push(quad);
                        self.pending.insert(quad.dst_port, q);
                        let mut segments: Vec<Segment> = Vec::new();
                        segments.push(out);
                        proof {
                            assert(self.pending@ =~= old(self).pending@.insert(
                                quad.dst_port,
                                self.pending@[quad.dst_port],
                            ));
                        }
                        Delivery { segments, queued: true, discarded: false }
                    },
                }
            },
        }
    }
    /// Reads up to `max` bytes from the front of the flow's received data:
    /// `ConnectionAborted` when the flow is not in the table, `WouldBlock`
    /// while nothing has been received, else the bytes, which leave the
    /// queue.
    pub fn read(&mut self, quad: Quad, max: usize) -> (r: Result<Vec<u8>, TcpError>)
        requires
            old(self).wf(),
        ensures
            final(self).wf(),
            final(self).terminate == old(self).terminate,
            final(self).pending@ == old(self).pending@,
            ({
                let k = quad.key_spec();
                let o = old(self).connections@;
                let f = final(self).connections@;
                if !o.contains_key(k) {
                    &&& r == Err::<Vec<u8>, TcpError>(TcpError::ConnectionAborted)
                    &&& f == o
                } else if o[k].incoming@.len() == 0 {
                    &&& r == Err::<Vec<u8>, TcpError>(TcpError::WouldBlock)
                    &&& f == o
                } else {
                    let n: int = if max < o[k].incoming@.len() {
                        max as int
                    } else {
                        o[k].incoming@.len() as int
                    };
                    &&& r matches Ok(v) && v@ == o[k].incoming@.take(n)
                    &&& f == o.insert(k, f[k])
                    &&& f[k].incoming@ == o[k].incoming@.skip(n)
                    &&& f[k].state == o[k].state
                    &&& f[k].send == o[k].send
                    &&& f[k].recv == o[k].recv
                    &&& f[k].unacked == o[k].unacked
                    &&& f[k].closed == o[k].closed
                }
            }),
    {
        let k = quad.key();
        match self.connections.remove(&k) {
            None => Err(TcpError::ConnectionAborted),
            Some(mut c) => {
                if c.incoming.len() == 0 {
                    self.connections.insert(k, c);
                    proof {
                        assert(self.connections@ =~= old(self).connections@);
                    }
                    return Err(TcpError::WouldBlock);
                }
                let n: usize = if max < c.incoming.len() {
                    max
                } else {
                    c.incoming.len()
                };
                let mut taken = c.incoming.split_off(n);
                std::mem::swap(&mut c.incoming, &mut taken);
                self.connections.insert(k, c);
                proof {
                    assert(self.connections@ =~= old(self).connections@.insert(k, c));
                }
                Ok(taken)
            },
        }
    }

    /// Queues bytes for sending: `ConnectionAborted` when the flow is not in
    /// the table, `WouldBlock` while `SENDQUEUE_SIZE` bytes are queued, else
    /// as many leading bytes of `data` as fit, returning their count.
    pub fn write(&mut self, quad: Quad, data: &[u8]) -> (r: Result<usize, TcpError>)
        requires
            old(self).wf(),
        ensures
            final(self).wf(),
            final(self).terminate == old(self).terminate,
            final(self).pending@ == old(self).pending@,
            ({
                let k = quad.key_spec();
                let o = old(self).connections@;
                let f = final(self).connections@;
                if !o.contains_key(k) {
                    &&& r == Err::<usize, TcpError>(TcpError::ConnectionAborted)
                    &&& f == o
                } else if o[k].unacked@.len() >= SENDQUEUE_SIZE {
                    &&& r == Err::<usize, TcpError>(TcpError::WouldBlock)
                    &&& f == o
                } else {
                    let room = SENDQUEUE_SIZE - o[k].unacked@.len();
                    let n: int = if data@.len() < room {
                        data@.len() as int
                    } else {
                        room
                    };
                    &&& r == Ok::<usize, TcpError>(n as usize)
                    &&& f == o.insert(k, f[k])
                    &&& f[k].unacked@ == o[k].unacked@ + data@.take(n)
                    &&& f[k].state == o[k].state
                    &&& f[k].send == o[k].send
                    &&& f[k].recv == o[k].recv
                    &&& f[k].incoming == o[k].incoming
                    &&& f[k].closed == o[k].closed
                }
            }),
    {
        let k = quad.key();
        match self.connections.remove(&k) {
            None => Err(TcpError::ConnectionAborted),
            Some(mut c) => {
                if c.unacked.len() >= SENDQUEUE_SIZE {
                    self.connections.insert(k, c);
                    proof {
                        assert(self.connections@ =~= old(self).connections@);
                    }
                    return Err(TcpError::WouldBlock);
                }
                let room = SENDQUEUE_SIZE - c.unacked.len();
                let n: usize = if data.len() < room {
                    data.len()
                } else {
                    room
                };
                append_prefix(&mut c.unacked, data, n);
                self.connections.insert(k, c);
                proof {
                    assert(self.connections@ =~= old(self).connections@.insert(k, c));
                }
                Ok(n)
            },
        }
    }

    /// Succeeds once nothing queued for sending waits for acknowledgment:
    /// `ConnectionAborted` when the flow is not in the table, `WouldBlock`
    /// while bytes remain queued.
    pub fn flush(&self, quad: Quad) -> (r: Result<(), TcpError>)
        ensures
            ({
                let k = quad.key_spec();
                let o = self.connections@;
                if !o.contains_key(k) {
                    r == Err::<(), TcpError>(TcpError::ConnectionAborted)
                } else if o[k].unacked@.len() > 0 {
                    r == Err::<(), TcpError>(TcpError::WouldBlock)
                } else {
                    r is Ok
                }
            }),
    {
        match self.connections.get(&quad.key()) {
            None => Err(TcpError::ConnectionAborted),
            Some(c) => {
                if c.unacked.len() == 0 {
                    Ok(())
                } else {
                    Err(TcpError::WouldBlock)
                }
            },
        }
    }

    /// The application closes the flow: `ConnectionAborted` when the flow
    /// is not in the table; otherwise the flow is marked closed and, in
    /// ESTABLISHED, sends its FIN (handed back to be sent) and moves to
    /// FIN-WAIT-1.
    pub fn shutdown(&mut self, quad: Quad) -> (r: Result<Option<Segment>, TcpError>)
        requires
            old(self).wf(),
        ensures
            final(self).wf(),
            final(self).terminate == old(self).terminate,
            final(self).pending@ == old(self).pending@,
            ({
                let k = quad.key_spec();
                let o = old(self).connections@;
                let f = final(self).connections@;
                if !o.contains_key(k) {
                    &&& r == Err::<Option<Segment>, TcpError>(TcpError::ConnectionAborted)
                    &&& f == o
                } else {
                    &&& f == o.insert(k, f[k])
                    &&& f[k].closed
                    &&& f[k].recv == o[k].recv
                    &&& f[k].incoming == o[k].incoming
                    &&& f[k].unacked == o[k].unacked
                    &&& if o[k].state is Estab {
                        &&& r matches Ok(Some(fin)) && control(fin, o[k].send.nxt, o[k].recv.nxt, false, true, false)
                        &&& f[k].state is FinWait1
                        &&& f[k].send == (SendSequenceSpace { nxt: seq_add(o[k].send.nxt, 1), ..o[k].send })
                    } else {
                        &&& r == Ok::<Option<Segment>, TcpError>(None)
                        &&& f[k].state == o[k].state
                        &&& f[k].send == o[k].send
                    }
                }
            }),
    {
        let k = quad.key();
        match self.connections.remove(&k) {
            None => Err(TcpError::ConnectionAborted),
            Some(mut c) => {
                let fin = c.close();
                self.connections.insert(k, c);
                proof {
                    assert(self.connections@ =~= old(self).connections@.insert(k, c));
                }
                Ok(fin)
            },
        }
    }
}

/// A port that a successful `bind` took stays taken, so binding it again
/// fails with `AddrInUse`, until `unbind` releases it, after which `bind`
/// succeeds again.
pub proof fn lemma_bind_exclusive(
    m0: ConnectionManager,
    m1: ConnectionManager,
    m2: ConnectionManager,
    port: u16,
)
    requires
        !m0.bound(port),
        m1.pending@ == m0.pending@.insert(port, m1.pending@[port]),
        m2.pending@ == m1.pending@.remove(port),
    ensures
        m1.bound(port),
        !m2.bound(port),
{
}

} // verus!
