use trust::seq::{is_between_wrapped, segment_acceptable};
use trust::tcp::{Connection, Segment, State, MAX_PAYLOAD, RECV_WINDOW};

fn segment(seq: u32, ack: u32, syn: bool, ack_flag: bool, fin: bool, payload: Vec<u8>) -> Segment {
    Segment {
        seq_number: seq,
        ack_number: ack,
        syn,
        ack: ack_flag,
        fin,
        rst: false,
        window: 1024,
        payload,
    }
}

fn handshake() -> Connection {
    let syn = segment(1000, 0, true, false, false, vec![]);
    let (mut c, _) = Connection::accept(&syn).unwrap();
    let reply = c.on_packet(&segment(1001, 1, false, true, false, vec![]));
    assert!(reply.segments.is_empty());
    c
}

#[test]
fn passive_open_replies_syn_ack() {
    let syn = segment(1000, 0, true, false, false, vec![]);
    let (c, out) = Connection::accept(&syn).unwrap();
    assert!(out.syn && out.ack && !out.fin && !out.rst);
    assert_eq!(out.seq_number, 0);
    assert_eq!(out.ack_number, 1001);
    assert_eq!(out.window, RECV_WINDOW);
    assert!(out.payload.is_empty());
    assert_eq!(c.state, State::SynRcvd);
    assert_eq!(c.send.iss, 0);
    assert_eq!(c.send.nxt, 1);
    assert_eq!(c.recv.irs, 1000);
    assert_eq!(c.recv.nxt, 1001);
}

#[test]
fn passive_open_handshake_establishes() {
    let c = handshake();
    assert_eq!(c.state, State::Estab);
    assert_eq!(c.recv.nxt, 1001);
}

#[test]
fn accept_ignores_segment_without_syn() {
    let seg = segment(1000, 0, false, true, false, vec![]);
    assert!(Connection::accept(&seg).is_none());
}

#[test]
fn unacceptable_segment_gets_empty_ack() {
    let mut c = handshake();
    let before_send = c.send;
    let before_recv = c.recv;
    let reply = c.on_packet(&segment(3000, 1, false, true, false, vec![7u8; 10]));
    assert!(!reply.discard);
    assert_eq!(reply.segments.len(), 1);
    let a = &reply.segments[0];
    assert!(a.ack && !a.syn && !a.fin && !a.rst);
    assert_eq!(a.ack_number, 1001);
    assert_eq!(a.seq_number, 1);
    assert!(a.payload.is_empty());
    assert_eq!(c.state, State::Estab);
    assert_eq!(c.send, before_send);
    assert_eq!(c.recv, before_recv);
    assert!(c.incoming.is_empty());
}

#[test]
fn bad_ack_of_syn_resets() {
    let syn = segment(1000, 0, true, false, false, vec![]);
    let (mut c, _) = Connection::accept(&syn).unwrap();
    let reply = c.on_packet(&segment(1001, 42, false, true, false, vec![]));
    assert!(reply.discard);
    assert_eq!(reply.segments.len(), 1);
    let r = &reply.segments[0];
    assert!(r.rst);
    assert_eq!(r.seq_number, 0);
    assert_eq!(r.ack_number, 0);
}

#[test]
fn close_sequence_reaches_time_wait() {
    let mut c = handshake();
    let reply = c.on_packet(&segment(1001, 1, false, true, false, vec![]));
    assert_eq!(reply.segments.len(), 1);
    let fin = &reply.segments[0];
    assert!(fin.fin && fin.ack);
    assert_eq!(fin.seq_number, 1);
    assert_eq!(fin.ack_number, 1001);
    assert_eq!(c.state, State::FinWait1);
    assert_eq!(c.send.nxt, 2);

    let reply = c.on_packet(&segment(1001, 2, false, true, false, vec![]));
    assert!(reply.segments.is_empty());
    assert_eq!(c.state, State::FinWait2);
    assert_eq!(c.send.una, 2);

    let reply = c.on_packet(&segment(1001, 2, false, true, true, vec![]));
    assert_eq!(reply.segments.len(), 1);
    let a = &reply.segments[0];
    assert!(a.ack && !a.fin && !a.syn);
    assert_eq!(a.seq_number, 2);
    assert_eq!(a.ack_number, 1002);
    assert_eq!(c.state, State::TimeWait);
}

#[test]
fn fin_in_established_sends_own_fin() {
    let mut c = handshake();
    let reply = c.on_packet(&segment(1001, 0, false, true, true, vec![]));
    assert_eq!(reply.segments.len(), 1);
    assert!(reply.segments[0].fin);
    assert_eq!(reply.segments[0].ack_number, 1002);
    assert_eq!(c.state, State::FinWait1);
    assert_eq!(c.send.nxt, 2);
}

#[test]
fn segment_without_ack_only_advances_receive() {
    let mut c = handshake();
    let reply = c.on_packet(&segment(1001, 0, false, false, false, vec![1, 2, 3]));
    assert!(reply.segments.is_empty());
    assert_eq!(c.recv.nxt, 1004);
    assert_eq!(c.incoming, vec![1, 2, 3]);
    assert_eq!(c.state, State::Estab);
}

#[test]
fn syn_and_fin_each_take_one_number() {
    let mut c = handshake();
    let start = c.send.nxt;
    let out = c.write(false, false, &[1, 2, 3]);
    assert_eq!(out.seq_number, start);
    assert_eq!(out.payload, vec![1, 2, 3]);
    assert_eq!(c.send.nxt, start + 3);
    c.write(true, false, &[1, 2, 3]);
    assert_eq!(c.send.nxt, start + 7);
    c.write(false, true, &[]);
    assert_eq!(c.send.nxt, start + 8);
    c.write(true, true, &[9]);
    assert_eq!(c.send.nxt, start + 11);
}

#[test]
fn write_truncates_to_one_frame() {
    let mut c = handshake();
    let start = c.send.nxt;
    let big = vec![5u8; 2000];
    let out = c.write(false, false, &big);
    assert_eq!(out.payload.len(), MAX_PAYLOAD);
    assert_eq!(c.send.nxt, start + MAX_PAYLOAD as u32);
}

#[test]
fn write_wraps_sequence_numbers() {
    let mut c = handshake();
    c.send.nxt = u32::MAX;
    c.write(false, true, &[]);
    assert_eq!(c.send.nxt, 0);
}

#[test]
fn send_rst_zeroes_numbers() {
    let c = handshake();
    let r = c.send_rst();
    assert!(r.rst && !r.syn && !r.fin);
    assert_eq!(r.seq_number, 0);
    assert_eq!(r.ack_number, 0);
}

#[test]
fn synchronized_states() {
    assert!(!State::SynRcvd.is_synchronized());
    assert!(State::Estab.is_synchronized());
    assert!(State::FinWait1.is_synchronized());
    assert!(State::FinWait2.is_synchronized());
    assert!(State::TimeWait.is_synchronized());
}

#[test]
fn between_same_start_is_false() {
    assert!(!is_between_wrapped(5, 5, 10));
    assert!(!is_between_wrapped(0, 0, 0));
    assert!(!is_between_wrapped(u32::MAX, u32::MAX, 3));
}

#[test]
fn between_agrees_with_plain_order() {
    assert!(is_between_wrapped(1, 5, 10));
    assert!(!is_between_wrapped(1, 10, 5));
    assert!(!is_between_wrapped(1, 5, 5));
    assert!(is_between_wrapped(100, 101, 200));
}

#[test]
fn between_wraps_around() {
    assert!(is_between_wrapped(u32::MAX - 5, 2, 10));
    assert!(is_between_wrapped(u32::MAX - 5, u32::MAX, 3));
    assert!(!is_between_wrapped(u32::MAX - 5, 20, 10));
    assert!(!is_between_wrapped(10, 5, 20));
}

#[test]
fn acceptability_rules() {
    assert!(segment_acceptable(1001, 0, 1001, 0));
    assert!(!segment_acceptable(1001, 0, 1002, 0));
    assert!(!segment_acceptable(1001, 0, 1001, 5));
    assert!(segment_acceptable(1001, 1024, 1001, 0));
    assert!(segment_acceptable(1001, 1024, 2024, 0));
    assert!(!segment_acceptable(1001, 1024, 2025, 0));
    assert!(!segment_acceptable(1001, 1024, 1000, 0));
    assert!(segment_acceptable(1001, 1024, 995, 10));
    assert!(!segment_acceptable(1001, 1024, 3000, 10));
    assert!(segment_acceptable(u32::MAX, 10, 3, 1));
}

#[test]
fn acceptability_grows_with_window() {
    let cases: [(u32, u32, u32); 4] = [(1001, 1001, 0), (1001, 1500, 3), (1001, 995, 10), (7, 7, 1)];
    for (nxt, seq, slen) in cases {
        let mut was = false;
        for w in [0u16, 1, 10, 600, 1024, u16::MAX] {
            let now = segment_acceptable(nxt, w, seq, slen);
            assert!(!was || now);
            was = now;
        }
        assert!(was);
    }
}

#[test]
fn close_in_established_sends_fin() {
    let mut c = handshake();
    let fin = c.close().unwrap();
    assert!(fin.fin);
    assert_eq!(fin.seq_number, 1);
    assert_eq!(c.state, State::FinWait1);
    assert!(c.closed);
    assert!(c.close().is_none());
}
