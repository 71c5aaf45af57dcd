use trust::manager::{ConnectionManager, Quad, TcpError, SENDQUEUE_SIZE};
use trust::tcp::{Segment, State};

fn peer() -> Quad {
    Quad { src_ip: 0x0A00_0002, src_port: 40000, dst_ip: 0x0A00_0001, dst_port: 7000 }
}

fn segment(seq: u32, ack: u32, syn: bool, ack_flag: bool, fin: bool, payload: Vec<u8>) -> Segment {
    Segment {
        seq_number: seq,
        ack_number: ack,
        syn,
        ack: ack_flag,
        fin,
        rst: false,
        window: 1024,
        payload,
    }
}

fn opened() -> ConnectionManager {
    let mut m = ConnectionManager::new();
    m.bind(7000).unwrap();
    let d = m.on_segment(peer(), &segment(1000, 0, true, false, false, vec![]));
    assert!(d.queued);
    let d = m.on_segment(peer(), &segment(1001, 1, false, true, false, vec![]));
    assert!(d.segments.is_empty());
    m
}

#[test]
fn double_bind_is_refused() {
    let mut m = ConnectionManager::new();
    assert_eq!(m.bind(7000), Ok(()));
    assert_eq!(m.bind(7000), Err(TcpError::AddrInUse));
    assert_eq!(m.bind(7001), Ok(()));
}

#[test]
fn unbind_releases_port() {
    let mut m = ConnectionManager::new();
    m.bind(7000).unwrap();
    assert!(m.unbind(7000).is_empty());
    assert!(m.unbind(7000).is_empty());
    assert_eq!(m.bind(7000), Ok(()));
}

#[test]
fn passive_open_is_accepted() {
    let mut m = ConnectionManager::new();
    m.bind(7000).unwrap();
    assert_eq!(m.accept(7000), Ok(None));
    let d = m.on_segment(peer(), &segment(1000, 0, true, false, false, vec![]));
    assert!(d.queued && !d.discarded);
    assert_eq!(d.segments.len(), 1);
    assert!(d.segments[0].syn && d.segments[0].ack);
    assert_eq!(d.segments[0].seq_number, 0);
    assert_eq!(d.segments[0].ack_number, 1001);
    let d = m.on_segment(peer(), &segment(1001, 1, false, true, false, vec![]));
    assert!(d.segments.is_empty() && !d.queued);
    assert_eq!(m.connections.get(&peer().key()).unwrap().state, State::Estab);
    assert_eq!(m.accept(7000), Ok(Some(peer())));
    assert_eq!(m.accept(7000), Ok(None));
}

#[test]
fn accepts_come_out_in_arrival_order() {
    let mut m = ConnectionManager::new();
    m.bind(7000).unwrap();
    let a = peer();
    let b = Quad { src_port: 40001, ..peer() };
    m.on_segment(a, &segment(1000, 0, true, false, false, vec![]));
    m.on_segment(b, &segment(5000, 0, true, false, false, vec![]));
    assert_eq!(m.accept(7000), Ok(Some(a)));
    assert_eq!(m.accept(7000), Ok(Some(b)));
}

#[test]
fn accept_on_unbound_port_fails() {
    let mut m = ConnectionManager::new();
    assert_eq!(m.accept(7000), Err(TcpError::ConnectionAborted));
}

#[test]
fn segment_to_unbound_port_is_dropped() {
    let mut m = ConnectionManager::new();
    let d = m.on_segment(peer(), &segment(1000, 0, true, false, false, vec![]));
    assert!(d.segments.is_empty() && !d.queued);
    assert!(m.connections.is_empty());
}

#[test]
fn non_syn_to_bound_port_is_dropped() {
    let mut m = ConnectionManager::new();
    m.bind(7000).unwrap();
    let d = m.on_segment(peer(), &segment(1000, 0, false, true, false, vec![]));
    assert!(d.segments.is_empty() && !d.queued);
    assert_eq!(m.accept(7000), Ok(None));
}

#[test]
fn bad_ack_of_syn_discards_flow() {
    let mut m = ConnectionManager::new();
    m.bind(7000).unwrap();
    m.on_segment(peer(), &segment(1000, 0, true, false, false, vec![]));
    let d = m.on_segment(peer(), &segment(1001, 42, false, true, false, vec![]));
    assert!(d.discarded);
    assert_eq!(d.segments.len(), 1);
    assert!(d.segments[0].rst);
    assert!(m.connections.get(&peer().key()).is_none());
}

#[test]
fn read_with_no_data_would_block() {
    let mut m = opened();
    assert_eq!(m.read(peer(), 16), Err(TcpError::WouldBlock));
    m.on_segment(peer(), &segment(1001, 1, false, true, false, vec![1, 2, 3, 4, 5]));
    assert_eq!(m.read(peer(), 16), Ok(vec![1, 2, 3, 4, 5]));
    assert_eq!(m.read(peer(), 16), Err(TcpError::WouldBlock));
}

#[test]
fn read_takes_at_most_max() {
    let mut m = opened();
    m.on_segment(peer(), &segment(1001, 0, false, true, false, vec![1, 2, 3, 4, 5]));
    assert_eq!(m.read(peer(), 2), Ok(vec![1, 2]));
    assert_eq!(m.read(peer(), 10), Ok(vec![3, 4, 5]));
}

#[test]
fn unknown_flow_is_aborted() {
    let mut m = ConnectionManager::new();
    assert_eq!(m.read(peer(), 4), Err(TcpError::ConnectionAborted));
    assert_eq!(m.write(peer(), &[1]), Err(TcpError::ConnectionAborted));
    assert_eq!(m.flush(peer()), Err(TcpError::ConnectionAborted));
    assert_eq!(m.shutdown(peer()), Err(TcpError::ConnectionAborted));
}

#[test]
fn write_fills_send_queue() {
    let mut m = opened();
    assert_eq!(m.flush(peer()), Ok(()));
    assert_eq!(m.write(peer(), &[9u8; 1000]), Ok(1000));
    assert_eq!(m.flush(peer()), Err(TcpError::WouldBlock));
    assert_eq!(m.write(peer(), &[9u8; 100]), Ok(SENDQUEUE_SIZE - 1000));
    assert_eq!(m.write(peer(), &[9u8; 1]), Err(TcpError::WouldBlock));
    assert_eq!(m.connections.get(&peer().key()).unwrap().unacked.len(), SENDQUEUE_SIZE);
}

#[test]
fn shutdown_sends_fin() {
    let mut m = opened();
    let fin = m.shutdown(peer()).unwrap().unwrap();
    assert!(fin.fin && fin.ack);
    assert_eq!(fin.seq_number, 1);
    assert_eq!(fin.ack_number, 1001);
    let c = m.connections.get(&peer().key()).unwrap();
    assert!(c.closed);
    assert_eq!(c.state, State::FinWait1);
    assert_eq!(c.send.nxt, 2);
    assert_eq!(m.shutdown(peer()), Ok(None));
}

#[test]
fn unbind_resets_waiting_flows() {
    let mut m = ConnectionManager::new();
    m.bind(7000).unwrap();
    let b = Quad { src_port: 40001, ..peer() };
    m.on_segment(peer(), &segment(1000, 0, true, false, false, vec![]));
    m.on_segment(b, &segment(5000, 0, true, false, false, vec![]));
    let resets = m.unbind(7000);
    assert_eq!(resets.len(), 2);
    assert_eq!(resets[0].0, peer());
    assert_eq!(resets[1].0, b);
    assert!(resets[0].1.rst && resets[1].1.rst);
    assert!(m.connections.is_empty());
    assert_eq!(m.accept(7000), Err(TcpError::ConnectionAborted));
}

#[test]
fn discarded_flow_leaves_pending_queue() {
    let mut m = ConnectionManager::new();
    m.bind(7000).unwrap();
    let b = Quad { src_port: 40001, ..peer() };
    m.on_segment(peer(), &segment(1000, 0, true, false, false, vec![]));
    m.on_segment(b, &segment(5000, 0, true, false, false, vec![]));
    let d = m.on_segment(peer(), &segment(1001, 42, false, true, false, vec![]));
    assert!(d.discarded);
    assert_eq!(m.accept(7000), Ok(Some(b)));
    assert_eq!(m.accept(7000), Ok(None));
}

#[test]
fn quad_keys_differ_per_field() {
    let q = peer();
    let keys = [
        q.key(),
        Quad { src_ip: 1, ..q }.key(),
        Quad { src_port: 1, ..q }.key(),
        Quad { dst_ip: 1, ..q }.key(),
        Quad { dst_port: 1, ..q }.key(),
    ];
    for i in 0..keys.len() {
        for j in 0..keys.len() {
            assert_eq!(i == j, keys[i] == keys[j]);
        }
    }
}
