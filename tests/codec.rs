use trust::codec::{decode, encode};
use trust::manager::Quad;
use trust::tcp::Segment;

fn peer() -> Quad {
    Quad { src_ip: 0x0A00_0002, src_port: 40000, dst_ip: 0x0A00_0001, dst_port: 7000 }
}

fn syn_ack() -> Segment {
    Segment {
        seq_number: 0,
        ack_number: 1001,
        syn: true,
        ack: true,
        fin: false,
        rst: false,
        window: 1024,
        payload: vec![],
    }
}

#[test]
fn encode_lays_out_headers() {
    let f = encode(peer(), &syn_ack()).unwrap();
    assert_eq!(f.len(), 40);
    assert_eq!(f[0], 0x45);
    assert_eq!(&f[2..4], &[0, 40]);
    assert_eq!(f[9], 6);
    assert_eq!(&f[12..16], &[10, 0, 0, 1]);
    assert_eq!(&f[16..20], &[10, 0, 0, 2]);
    assert_eq!(&f[20..22], &7000u16.to_be_bytes());
    assert_eq!(&f[22..24], &40000u16.to_be_bytes());
    assert_eq!(&f[24..28], &[0, 0, 0, 0]);
    assert_eq!(&f[28..32], &1001u32.to_be_bytes());
    assert_eq!(f[32], 0x50);
    assert_eq!(f[33], 0x12);
    assert_eq!(&f[34..36], &1024u16.to_be_bytes());
}

#[test]
fn encode_fills_checksums() {
    let f = encode(peer(), &syn_ack()).unwrap();
    assert_ne!(&f[10..12], &[0, 0]);
    assert_ne!(&f[36..38], &[0, 0]);
}

#[test]
fn decode_reads_back_what_encode_wrote() {
    let mut seg = syn_ack();
    seg.payload = vec![1, 2, 3, 4, 5];
    seg.fin = true;
    let f = encode(peer(), &seg).unwrap();
    let (q, s) = decode(&f).unwrap();
    assert_eq!(q, Quad { src_ip: 0x0A00_0001, src_port: 7000, dst_ip: 0x0A00_0002, dst_port: 40000 });
    assert_eq!(s, seg);
}

#[test]
fn encode_refuses_oversized_payload() {
    let mut seg = syn_ack();
    seg.payload = vec![0u8; 65496];
    assert!(encode(peer(), &seg).is_none());
    seg.payload = vec![0u8; 65495];
    assert!(encode(peer(), &seg).is_some());
}

#[test]
fn decode_rejects_bad_frames() {
    let f = encode(peer(), &syn_ack()).unwrap();
    assert!(decode(&f[..19]).is_none());
    assert!(decode(&f[..30]).is_none());
    let mut g = f.clone();
    g[0] = 0x65;
    assert!(decode(&g).is_none());
    let mut g = f.clone();
    g[9] = 17;
    assert!(decode(&g).is_none());
    let mut g = f.clone();
    g[32] = 0x40;
    assert!(decode(&g).is_none());
}
