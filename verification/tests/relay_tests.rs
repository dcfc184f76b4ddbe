use match_server::packet::Packet;
use match_server::relay::{Admission, PeerAddr, RelayTable, PING_BURST};

fn peer(last: u8, port: u16) -> PeerAddr {
    PeerAddr { v6: false, ip: 0x0A00_0000 + last as u128, port, flowinfo: 0, scope_id: 0 }
}

#[test]
fn unknown_peer_is_admitted_only_by_a_join() {
    let mut t = RelayTable::new();
    let a = peer(1, 5000);
    assert_eq!(t.room_of(a), None);
    assert_eq!(t.receive(a, Some(&Packet::Ping)), Admission::Refused);
    assert_eq!(t.receive(a, Some(&Packet::LeaveMatch { room_id: 3 })), Admission::Refused);
    assert_eq!(t.receive(a, None), Admission::Undecodable);
    assert_eq!(t.len(), 0);
    assert_eq!(t.receive(a, Some(&Packet::JoinMatch { room_id: 3 })), Admission::Joined { room_id: 3, pings: 3 });
    assert_eq!(t.len(), 1);
    assert_eq!(t.room_of(a), Some(3));
    assert_eq!(PING_BURST, 3);
}

#[test]
fn known_peer_is_relayed_whatever_it_sends() {
    let mut t = RelayTable::new();
    let a = peer(1, 5000);
    t.receive(a, Some(&Packet::JoinMatch { room_id: 3 }));
    assert_eq!(t.receive(a, None), Admission::Known { room_id: 3 });
    assert_eq!(t.receive(a, Some(&Packet::Ping)), Admission::Known { room_id: 3 });
    // A second join does not move the peer.
    assert_eq!(t.receive(a, Some(&Packet::JoinMatch { room_id: 9 })), Admission::Known { room_id: 3 });
    assert_eq!(t.room_of(a), Some(3));
    assert_eq!(t.len(), 1);
}

#[test]
fn targets_are_the_other_peers_of_the_room_in_join_order() {
    let mut t = RelayTable::new();
    let (a, b, c, d) = (peer(1, 1), peer(2, 2), peer(3, 3), peer(4, 4));
    t.receive(a, Some(&Packet::JoinMatch { room_id: 1 }));
    t.receive(b, Some(&Packet::JoinMatch { room_id: 2 }));
    t.receive(c, Some(&Packet::JoinMatch { room_id: 1 }));
    t.receive(d, Some(&Packet::JoinMatch { room_id: 1 }));
    assert_eq!(t.targets(1, c), vec![a, d]);
    assert_eq!(t.targets(1, a), vec![c, d]);
    assert_eq!(t.targets(2, b), vec![]);
    assert_eq!(t.targets(1, b), vec![a, c, d]);
    assert_eq!(t.targets(7, a), vec![]);
}

#[test]
fn peers_differ_by_port_and_family() {
    let mut t = RelayTable::new();
    let a = peer(1, 5000);
    let other_port = peer(1, 5001);
    let v6 = PeerAddr { v6: true, ..a };
    t.receive(a, Some(&Packet::JoinMatch { room_id: 1 }));
    assert_eq!(t.room_of(other_port), None);
    assert_eq!(t.room_of(v6), None);
    t.receive(v6, Some(&Packet::JoinMatch { room_id: 1 }));
    assert_eq!(t.targets(1, a), vec![v6]);
}

#[test]
fn table_is_never_pruned() {
    let mut t = RelayTable::new();
    let (a, b) = (peer(1, 1), peer(2, 2));
    t.receive(a, Some(&Packet::JoinMatch { room_id: 1 }));
    t.receive(b, Some(&Packet::JoinMatch { room_id: 1 }));
    // Leaving or deleting over the datagram channel changes nothing.
    t.receive(a, Some(&Packet::LeaveMatch { room_id: 1 }));
    t.receive(a, Some(&Packet::DeleteMatch { room_id: 1 }));
    t.receive(a, Some(&Packet::Disconnect));
    assert_eq!(t.room_of(a), Some(1));
    assert_eq!(t.targets(1, b), vec![a]);
}
