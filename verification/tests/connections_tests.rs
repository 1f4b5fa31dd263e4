use mpc_net::exchange::decode_frame_length;
use mpc_net::{
    am_king, broadcast, init_from_path, recv_from_king, send_to_king, stats, uninit, ConfigFault,
    Connections, Endpoint, HostAddr, MeshStep, NetError, Peer, Stats,
};

fn endpoint(port: u16) -> Endpoint {
    Endpoint { host: HostAddr::V4 { ip: 0x7F00_0001 }, port }
}

fn directory(n: usize) -> Vec<Option<Endpoint>> {
    (0..n).map(|i| Some(endpoint(8000 + i as u16))).collect()
}

fn party(n: usize, id: usize) -> Connections {
    let mut ch = Connections::default();
    assert_eq!(ch.init_from_path(&directory(n), id), Ok(()));
    let plan = ch.connect_to_all();
    assert_eq!(ch.finish_connect(&plan), Ok(()));
    ch
}

fn payload(id: usize, m: usize) -> Vec<u8> {
    (0..m).map(|k| (id * 31 + k) as u8).collect()
}

#[test]
fn default_registry_is_empty() {
    let ch = Connections::default();
    assert_eq!(ch.id, 0);
    assert!(ch.peers.is_empty());
    assert_eq!(ch.stats(), Stats::default());
    assert!(!ch.mesh_complete());
}

#[test]
fn default_peer_is_loopback() {
    let p = Peer::default();
    assert_eq!(p, Peer { id: 0, addr: endpoint(8000), connected: false });
}

#[test]
fn init_loads_the_directory() {
    let mut ch = Connections::default();
    assert_eq!(init_from_path(&mut ch, &directory(3), 2), Ok(()));
    assert_eq!(ch.id, 2);
    assert_eq!(ch.peers.len(), 3);
    for (i, p) in ch.peers.iter().enumerate() {
        assert_eq!(*p, Peer { id: i, addr: endpoint(8000 + i as u16), connected: false });
    }
}

#[test]
fn init_refuses_a_bad_address() {
    let mut ch = Connections::default();
    let entries = vec![Some(endpoint(1)), None, None];
    assert_eq!(
        ch.init_from_path(&entries, 0),
        Err(NetError::Config { fault: ConfigFault::BadAddress { entry: 1 } })
    );
    assert!(ch.peers.is_empty());
    assert!(ch.connect_to_all().is_empty());
}

#[test]
fn init_refuses_an_own_id_out_of_range() {
    let mut ch = Connections::default();
    assert_eq!(
        ch.init_from_path(&directory(3), 3),
        Err(NetError::Config { fault: ConfigFault::OwnIdOutOfRange })
    );
    assert!(ch.peers.is_empty());
    assert_eq!(
        ch.init_from_path(&Vec::new(), 0),
        Err(NetError::Config { fault: ConfigFault::OwnIdOutOfRange })
    );
}

#[test]
fn init_replaces_the_directory_and_keeps_the_counters() {
    let mut ch = party(3, 1);
    let received = vec![payload(0, 2), vec![], payload(2, 2)];
    ch.broadcast(&payload(1, 2), received).unwrap();
    let before = ch.stats();
    assert_eq!(ch.init_from_path(&directory(2), 0), Ok(()));
    assert_eq!(ch.peers.len(), 2);
    assert_eq!(ch.stats(), before);
    assert!(!ch.mesh_complete());
}

#[test]
fn whole_plan_connects_every_peer() {
    for n in 1..=6usize {
        for id in 0..n {
            let ch = party(n, id);
            assert!(ch.mesh_complete());
            for p in &ch.peers {
                assert_eq!(p.connected, p.id != id);
            }
        }
    }
}

#[test]
fn partial_plan_is_not_connected() {
    let mut ch = Connections::default();
    ch.init_from_path(&directory(3), 1).unwrap();
    let done = vec![MeshStep::Accept { peer: 0 }, MeshStep::AwaitToken { peer: 0 }];
    assert_eq!(ch.finish_connect(&done), Err(NetError::NotConnected));
    assert!(ch.peers[0].connected);
    assert!(!ch.peers[2].connected);
    assert_eq!(ch.finish_connect(&vec![MeshStep::Connect { peer: 2 }]), Ok(()));
}

#[test]
fn tokens_connect_nothing() {
    let mut ch = Connections::default();
    ch.init_from_path(&directory(2), 0).unwrap();
    assert_eq!(
        ch.finish_connect(&vec![MeshStep::SendToken { peer: 1 }]),
        Err(NetError::NotConnected)
    );
    assert!(!ch.peers[1].connected);
}

#[test]
fn attach_refuses_self_and_strangers() {
    let mut ch = Connections::default();
    ch.init_from_path(&directory(2), 0).unwrap();
    assert!(!ch.attach(0));
    assert!(!ch.attach(2));
    assert!(!ch.peers[0].connected);
    assert!(ch.attach(1));
    assert!(ch.peers[1].connected);
}

#[test]
fn am_king_is_id_zero() {
    assert!(am_king(&party(3, 0)));
    assert!(!am_king(&party(3, 1)));
    assert!(!party(3, 2).am_king());
}

#[test]
fn broadcast_round_trip() {
    let n = 5;
    let m = 9;
    let supplied: Vec<Vec<u8>> = (0..n).map(|i| payload(i, m)).collect();
    for own in 0..n {
        let mut ch = party(n, own);
        let received: Vec<Vec<u8>> =
            (0..n).map(|i| if i == own { Vec::new() } else { supplied[i].clone() }).collect();
        let all = broadcast(&mut ch, &supplied[own], received).unwrap();
        assert_eq!(all, supplied);
    }
}

#[test]
fn broadcast_counts_bytes_for_each_peer() {
    let mut ch = party(4, 2);
    let received = vec![payload(0, 10), payload(1, 10), vec![1, 2, 3], payload(3, 10)];
    ch.broadcast(&payload(2, 10), received).unwrap();
    assert_eq!(
        stats(&ch),
        Stats { bytes_sent: 30, bytes_recv: 30, king_exchanges: 0, broadcasts: 1 }
    );
    let received = vec![payload(0, 1), payload(1, 1), vec![], payload(3, 1)];
    ch.broadcast(&payload(2, 1), received).unwrap();
    assert_eq!(
        stats(&ch),
        Stats { bytes_sent: 33, bytes_recv: 33, king_exchanges: 0, broadcasts: 2 }
    );
}

#[test]
fn broadcast_alone() {
    let mut ch = party(1, 0);
    let all = ch.broadcast(&[1, 2, 3], vec![vec![]]).unwrap();
    assert_eq!(all, vec![vec![1u8, 2, 3]]);
    assert_eq!(ch.stats(), Stats { bytes_sent: 0, bytes_recv: 0, king_exchanges: 0, broadcasts: 1 });
}

#[test]
fn broadcast_refusals() {
    let mut ch = Connections::default();
    assert_eq!(ch.broadcast(&[1], vec![]), Err(NetError::NotConnected));
    ch.init_from_path(&directory(3), 1).unwrap();
    assert_eq!(ch.broadcast(&[1], vec![vec![1], vec![], vec![1]]), Err(NetError::NotConnected));
    let mut ch = party(3, 1);
    assert_eq!(ch.broadcast(&[1], vec![vec![1], vec![]]), Err(NetError::WrongPeerCount));
    assert_eq!(
        ch.broadcast(&[1], vec![vec![1], vec![], vec![1, 2]]),
        Err(NetError::UnequalLengths)
    );
    assert_eq!(ch.stats(), Stats::default());
}

#[test]
fn king_aggregation_round_trip() {
    let n = 4;
    let m = 6;
    let supplied: Vec<Vec<u8>> = (0..n).map(|i| payload(i, m)).collect();
    let mut king = party(n, 0);
    let received: Vec<Vec<u8>> =
        (0..n).map(|i| if i == 0 { Vec::new() } else { supplied[i].clone() }).collect();
    let all = send_to_king(&mut king, &supplied[0], Some(received)).unwrap();
    assert_eq!(all, Some(supplied.clone()));
    assert_eq!(
        king.stats(),
        Stats { bytes_sent: 0, bytes_recv: 18, king_exchanges: 1, broadcasts: 0 }
    );
    for id in 1..n {
        let mut ch = party(n, id);
        assert_eq!(ch.send_to_king(&supplied[id], None), Ok(None));
        assert_eq!(
            ch.stats(),
            Stats { bytes_sent: 6, bytes_recv: 0, king_exchanges: 1, broadcasts: 0 }
        );
    }
}

#[test]
fn send_to_king_refusals() {
    let mut idle = Connections::default();
    assert_eq!(idle.send_to_king(&[1], None), Err(NetError::NotConnected));
    let mut king = party(3, 0);
    assert_eq!(king.send_to_king(&[1], None), Err(NetError::MissingPayloads));
    assert_eq!(king.send_to_king(&[1], Some(vec![vec![]])), Err(NetError::WrongPeerCount));
    assert_eq!(
        king.send_to_king(&[1], Some(vec![vec![], vec![1], vec![]])),
        Err(NetError::UnequalLengths)
    );
    let mut other = party(3, 2);
    assert_eq!(
        other.send_to_king(&[1], Some(vec![vec![1], vec![1], vec![1]])),
        Err(NetError::UnexpectedPayloads)
    );
    assert_eq!(king.stats(), Stats::default());
    assert_eq!(other.stats(), Stats::default());
}

#[test]
fn king_distribution_round_trip() {
    let n = 4;
    let m = 5;
    let assigned: Vec<Vec<u8>> = (0..n).map(|i| payload(i + 10, m)).collect();
    let mut king = party(n, 0);
    let frames = king.king_frames(&assigned).unwrap();
    assert_eq!(frames.len(), n);
    assert!(frames[0].is_empty());
    let mine = recv_from_king(&mut king, Some(assigned.clone()), None).unwrap();
    assert_eq!(mine, assigned[0]);
    assert_eq!(
        king.stats(),
        Stats { bytes_sent: 15, bytes_recv: 0, king_exchanges: 1, broadcasts: 0 }
    );
    for id in 1..n {
        let wire = &frames[id];
        let len = decode_frame_length(&wire[..8]).unwrap();
        let body = wire[8..8 + len].to_vec();
        assert_eq!(wire.len(), 8 + len);
        let mut ch = party(n, id);
        let got = ch.recv_from_king(None, Some(body)).unwrap();
        assert_eq!(got, assigned[id]);
        assert_eq!(
            ch.stats(),
            Stats { bytes_sent: 0, bytes_recv: 5, king_exchanges: 1, broadcasts: 0 }
        );
    }
}

#[test]
fn recv_from_king_refusals() {
    let mut idle = Connections::default();
    assert_eq!(idle.recv_from_king(None, Some(vec![1])), Err(NetError::NotConnected));
    let mut king = party(3, 0);
    assert_eq!(king.recv_from_king(None, None), Err(NetError::MissingPayloads));
    let list = vec![vec![1u8], vec![2u8], vec![3u8]];
    assert_eq!(
        king.recv_from_king(Some(list.clone()), Some(vec![1])),
        Err(NetError::UnexpectedPayloads)
    );
    assert_eq!(
        king.recv_from_king(Some(vec![vec![1u8], vec![2u8]]), None),
        Err(NetError::WrongPeerCount)
    );
    assert_eq!(
        king.recv_from_king(Some(vec![vec![1u8], vec![2u8], vec![3u8, 4]]), None),
        Err(NetError::UnequalLengths)
    );
    let mut other = party(3, 1);
    assert_eq!(other.recv_from_king(Some(list), None), Err(NetError::UnexpectedPayloads));
    assert_eq!(other.recv_from_king(None, None), Err(NetError::MissingPayloads));
    assert_eq!(king.stats(), Stats::default());
    assert_eq!(other.stats(), Stats::default());
}

#[test]
fn king_frames_refusals() {
    let list = vec![vec![1u8], vec![2u8], vec![3u8]];
    assert_eq!(Connections::default().king_frames(&list), Err(NetError::NotConnected));
    assert_eq!(party(3, 1).king_frames(&list), Err(NetError::UnexpectedPayloads));
    let king = party(3, 0);
    assert_eq!(king.king_frames(&vec![vec![1u8]]), Err(NetError::WrongPeerCount));
    assert_eq!(
        king.king_frames(&vec![vec![1u8], vec![], vec![3u8]]),
        Err(NetError::UnequalLengths)
    );
    assert_eq!(
        king.king_frames(&list),
        Ok(vec![vec![], vec![1, 0, 0, 0, 0, 0, 0, 0, 2], vec![1, 0, 0, 0, 0, 0, 0, 0, 3]])
    );
}

#[test]
fn uninit_keeps_directory_and_counters() {
    let mut ch = party(3, 0);
    ch.send_to_king(&[1, 2], Some(vec![vec![], vec![3, 4], vec![5, 6]])).unwrap();
    let counters = ch.stats();
    uninit(&mut ch);
    assert_eq!(ch.id, 0);
    assert_eq!(ch.peers.len(), 3);
    for (i, p) in ch.peers.iter().enumerate() {
        assert_eq!(*p, Peer { id: i, addr: endpoint(8000 + i as u16), connected: false });
    }
    assert_eq!(ch.stats(), counters);
    assert!(!ch.mesh_complete());
    assert_eq!(ch.broadcast(&[1], vec![vec![], vec![1], vec![1]]), Err(NetError::NotConnected));
    let plan = ch.connect_to_all();
    assert_eq!(ch.finish_connect(&plan), Ok(()));
    assert!(ch.mesh_complete());
}

#[test]
fn well_formed_registries() {
    assert!(Connections::default().is_well_formed());
    assert!(party(3, 1).is_well_formed());
    let mut ch = party(3, 1);
    ch.peers[2].id = 5;
    assert!(!ch.is_well_formed());
    let mut ch = party(3, 1);
    ch.id = 3;
    assert!(!ch.is_well_formed());
    let mut ch = party(3, 1);
    ch.peers[1].connected = true;
    assert!(!ch.is_well_formed());
}

#[test]
fn distribution_mirrors_aggregation_in_the_counters() {
    let list = vec![vec![1u8, 2, 3], vec![4u8, 5, 6]];
    let mut king = party(2, 0);
    king.send_to_king(&list[0], Some(vec![vec![], list[1].clone()])).unwrap();
    assert_eq!(
        king.stats(),
        Stats { bytes_sent: 0, bytes_recv: 3, king_exchanges: 1, broadcasts: 0 }
    );
    king.recv_from_king(Some(list.clone()), None).unwrap();
    assert_eq!(
        king.stats(),
        Stats { bytes_sent: 3, bytes_recv: 3, king_exchanges: 2, broadcasts: 0 }
    );
    let mut other = party(2, 1);
    other.send_to_king(&list[1], None).unwrap();
    other.recv_from_king(None, Some(list[1].clone())).unwrap();
    assert_eq!(
        other.stats(),
        Stats { bytes_sent: 3, bytes_recv: 3, king_exchanges: 2, broadcasts: 0 }
    );
}

#[test]
fn a_king_alone_sends_nothing() {
    let mut king = party(1, 0);
    assert_eq!(king.recv_from_king(Some(vec![vec![9u8; 4]]), None), Ok(vec![9u8; 4]));
    assert_eq!(king.send_to_king(&[1, 2], Some(vec![vec![]])), Ok(Some(vec![vec![1u8, 2]])));
    assert_eq!(
        king.stats(),
        Stats { bytes_sent: 0, bytes_recv: 0, king_exchanges: 2, broadcasts: 0 }
    );
}
