use mpc_net::exchange::{
    broadcast_orders, decode_frame_length, encode_frame, exchange_order, gather, FRAME_PREFIX_LEN,
};
use mpc_net::{ExchangeOrder, Stats};

#[test]
fn higher_id_reads_first() {
    assert_eq!(exchange_order(2, 0), ExchangeOrder::ReadThenWrite);
    assert_eq!(exchange_order(2, 1), ExchangeOrder::ReadThenWrite);
    assert_eq!(exchange_order(2, 2), ExchangeOrder::Local);
    assert_eq!(exchange_order(2, 3), ExchangeOrder::WriteThenRead);
}

#[test]
fn orders_of_a_pair_are_complementary() {
    for a in 0..8usize {
        for b in 0..8usize {
            let ab = exchange_order(a, b);
            let ba = exchange_order(b, a);
            if a == b {
                assert_eq!(ab, ExchangeOrder::Local);
            } else {
                assert_ne!(ab, ExchangeOrder::Local);
                assert_ne!(ab, ba);
            }
        }
    }
}

#[test]
fn orders_by_id() {
    assert_eq!(
        broadcast_orders(4, 1),
        vec![
            ExchangeOrder::ReadThenWrite,
            ExchangeOrder::Local,
            ExchangeOrder::WriteThenRead,
            ExchangeOrder::WriteThenRead,
        ]
    );
    assert!(broadcast_orders(0, 0).is_empty());
}

#[test]
fn gather_fills_own_slot() {
    let received = vec![vec![1u8, 2], vec![], vec![5u8, 6]];
    let all = gather(1, &[3u8, 4], received);
    assert_eq!(all, vec![vec![1u8, 2], vec![3u8, 4], vec![5u8, 6]]);
}

#[test]
fn frame_is_prefix_then_payload() {
    assert_eq!(encode_frame(&[0xAA, 0xBB, 0xCC]), vec![3u8, 0, 0, 0, 0, 0, 0, 0, 0xAA, 0xBB, 0xCC]);
    assert_eq!(encode_frame(&[]), vec![0u8; 8]);
    let long = vec![7u8; 0x0102];
    let frame = encode_frame(&long);
    assert_eq!(&frame[..8], &[0x02u8, 0x01, 0, 0, 0, 0, 0, 0]);
    assert_eq!(&frame[8..], &long[..]);
}

#[test]
fn frame_length_is_little_endian() {
    assert_eq!(FRAME_PREFIX_LEN, 8);
    assert_eq!(decode_frame_length(&[3, 0, 0, 0, 0, 0, 0, 0]), Some(3));
    assert_eq!(decode_frame_length(&[0x02, 0x01, 0, 0, 0, 0, 0, 0]), Some(0x0102));
    assert_eq!(decode_frame_length(&[0, 0, 0, 0, 1, 0, 0, 0]), usize::try_from(1u64 << 32).ok());
}

#[test]
fn frame_length_needs_eight_bytes() {
    assert_eq!(decode_frame_length(&[3, 0, 0, 0, 0, 0, 0]), None);
    assert_eq!(decode_frame_length(&[3, 0, 0, 0, 0, 0, 0, 0, 0]), None);
    assert_eq!(decode_frame_length(&[]), None);
}

#[test]
fn frame_round_trip() {
    for m in [0usize, 1, 7, 8, 255, 256, 70_000] {
        let payload: Vec<u8> = (0..m).map(|i| (i % 251) as u8).collect();
        let frame = encode_frame(&payload);
        let len = decode_frame_length(&frame[..8]).unwrap();
        assert_eq!(len, m);
        assert_eq!(&frame[8..8 + len], &payload[..]);
        assert_eq!(frame.len(), 8 + m);
    }
}

#[test]
fn fan_out_bytes_is_a_product() {
    assert_eq!(Stats::fan_out_bytes(4, 10), Some(30));
    assert_eq!(Stats::fan_out_bytes(1, 10), Some(0));
    assert_eq!(Stats::fan_out_bytes(0, 10), Some(0));
    assert_eq!(Stats::fan_out_bytes(5, 0), Some(0));
    assert_eq!(Stats::fan_out_bytes(3, usize::MAX), None);
}

#[test]
fn counters_add_up() {
    let mut s = Stats::default();
    assert_eq!(s, Stats { bytes_sent: 0, bytes_recv: 0, king_exchanges: 0, broadcasts: 0 });
    s.record_broadcast(4, 10);
    assert_eq!(s, Stats { bytes_sent: 30, bytes_recv: 30, king_exchanges: 0, broadcasts: 1 });
    s.record_king_exchange(5, 7);
    assert_eq!(s, Stats { bytes_sent: 35, bytes_recv: 37, king_exchanges: 1, broadcasts: 1 });
    assert!(s.has_room(u64::MAX - 35, 0, 0, 0));
    assert!(!s.has_room(u64::MAX - 34, 0, 0, 0));
    assert!(!s.has_room(0, 0, u64::MAX, 0));
}
