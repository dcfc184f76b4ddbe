//! The routing table of the datagram relay.
//!
//! The relay learns of a peer from the first datagram that asks to join a
//! room, and from then on hands every datagram of that peer to the other
//! peers of the room without reading it. The table is filled by the relay
//! alone and is never pruned: a peer stays in its room for as long as the
//! table lives, whatever the coordinator knows of the room.

use crate::packet::{Packet, PacketView};
use vstd::prelude::*;

verus! {

/// How many liveness pings answer a join, so that one or two may be lost.
pub const PING_BURST: usize = 3;

/// The network address of a peer, as plain numbers.
#[derive(Debug, Clone, Copy, PartialEq, Eq, Structural)]
pub struct PeerAddr {
    /// Whether this is an IPv6 address.
    pub v6: bool,
    /// The bits of the host address; an IPv4 address fills the low 32.
    pub ip: u128,
    pub port: u16,
    /// The flow label of an IPv6 address, else 0.
    pub flowinfo: u32,
    /// The scope of an IPv6 address, else 0.
    pub scope_id: u32,
}

/// A peer and the room it joined.
#[derive(Debug, Clone, Copy, PartialEq, Eq, Structural)]
pub struct Route {
    pub addr: PeerAddr,
    pub room_id: i32,
}

/// What the relay does with the first datagrams of a peer.
#[derive(Debug, Clone, Copy, PartialEq, Eq, Structural)]
pub enum Admission {
    /// The peer is in the table already: its datagram goes to its room.
    Known { room_id: i32 },
    /// The peer asked to join and is in the table now: it is answered with
    /// `pings` liveness pings, which is [`PING_BURST`].
    Joined { room_id: i32, pings: usize },
    /// The datagram is a message, but not one that asks to join: dropped.
    Refused,
    /// The datagram is no message: dropped.
    Undecodable,
}

/// Whether a peer is in the table.
pub open spec fn is_known(table: Seq<Route>, addr: PeerAddr) -> bool {
    exists|i: int| 0 <= i < table.len() && table[i].addr == addr
}

/// Where a peer stands in the table.
pub open spec fn route_index(table: Seq<Route>, addr: PeerAddr) -> int {
    choose|i: int| 0 <= i < table.len() && table[i].addr == addr
}

/// The room that a peer joined.
pub open spec fn room_of(table: Seq<Route>, addr: PeerAddr) -> Option<i32> {
    if is_known(table, addr) {
        Some(table[route_index(table, addr)].room_id)
    } else {
        None
    }
}

/// No peer stands in the table twice.
pub open spec fn distinct_peers(table: Seq<Route>) -> bool {
    forall|i: int, j: int| 0 <= i < j < table.len() ==> table[i].addr != table[j].addr
}

/// The test that picks the routes of a room but that of one peer.
pub open spec fn routed_to(room_id: i32, except: PeerAddr) -> spec_fn(Route) -> bool {
    |r: Route| r.room_id == room_id && r.addr != except
}

/// The peers of a room but one, in the order in which they joined: those
/// to whom a datagram of that one is sent.
pub open spec fn targets_of(table: Seq<Route>, room_id: i32, except: PeerAddr) -> Seq<PeerAddr> {
    table.filter(routed_to(room_id, except)).map_values(|r: Route| r.addr)
}

/// The room that a message asks to join, if it asks for that.
pub open spec fn join_request(p: Option<PacketView>) -> Option<i32> {
    match p {
        Some(PacketView::JoinMatch { room_id }) => Some(room_id),
        _ => None,
    }
}

/// The view of a message that may be missing.
pub open spec fn decoded_view(p: Option<&Packet>) -> Option<PacketView> {
    match p {
        Some(packet) => Some(packet@),
        None => None,
    }
}

/// The table after a datagram of a peer: a peer that is not in it and asks
/// to join a room is appended; nothing else changes it.
pub open spec fn table_after(table: Seq<Route>, src: PeerAddr, p: Option<PacketView>) -> Seq<
    Route,
> {
    if is_known(table, src) {
        table
    } else {
        match join_request(p) {
            Some(room_id) => table.push(Route { addr: src, room_id }),
            None => table,
        }
    }
}

/// What the relay answers to a datagram of a peer.
pub open spec fn admission_of(table: Seq<Route>, src: PeerAddr, p: Option<PacketView>) -> Admission {
    match room_of(table, src) {
        Some(room_id) => Admission::Known { room_id },
        None => match join_request(p) {
            Some(room_id) => Admission::Joined { room_id, pings: PING_BURST },
            None => if p is Some {
                Admission::Refused
            } else {
                Admission::Undecodable
            },
        },
    }
}

/// A peer that joined is in the room it asked for, and a peer that was in
/// the table stays in its room: no datagram takes a peer out of the table
/// or moves it.
pub proof fn lemma_routes_are_kept(
    table: Seq<Route>,
    src: PeerAddr,
    p: Option<PacketView>,
    other: PeerAddr,
)
    requires
        distinct_peers(table),
    ensures
        distinct_peers(table_after(table, src, p)),
        is_known(table, other) ==> room_of(table_after(table, src, p), other) == room_of(
            table,
            other,
        ),
        admission_of(table, src, p) matches Admission::Joined { room_id, pings } ==> room_of(
            table_after(table, src, p),
            src,
        ) == Some(room_id),
{
    let after = table_after(table, src, p);
    if is_known(table, other) {
        let i = route_index(table, other);
        assert(after[i].addr == other);
        let j = route_index(after, other);
        assert(0 <= j < after.len() && after[j].addr == other);
        if j != i {
            if j == table.len() {
                assert(after[j].addr == src);
            }
        }
    }
    if !is_known(table, src) && join_request(p) is Some {
        let last = table.len() as int;
        assert(after[last].addr == src);
        let j = route_index(after, src);
        assert(0 <= j < after.len() && after[j].addr == src);
    }
}

/// The relay's routing table, in the order in which the peers joined.
pub struct RelayTable {
    routes: Vec<Route>,
}

impl View for RelayTable {
    type V = Seq<Route>;

    closed spec fn view(&self) -> Seq<Route> {
        self.routes@
    }
}

impl RelayTable {
    /// The invariant of the table: a peer has one room.
    pub open spec fn wf(&self) -> bool {
        distinct_peers(self@)
    }

    /// An empty table.
    pub fn new() -> (t: RelayTable)
        ensures
            t.wf(),
            t@ == Seq::<Route>::empty(),
    {
        RelayTable { routes: Vec::new() }
    }

    /// The number of peers.
    pub fn len(&self) -> (n: usize)
        ensures
            n == self@.len(),
    {
        self.routes.len()
    }

    /// The room of a peer that is in the table. The relay asks this of
    /// every datagram before it reads it.
    pub fn room_of(&self, src: PeerAddr) -> (room: Option<i32>)
        requires
            self.wf(),
        ensures
            room == room_of(self@, src),
    {
        let mut i: usize = 0;
        while i < self.routes.len()
            invariant
                self.wf(),
                i <= self.routes@.len(),
                forall|j: int| 0 <= j < i ==> self.routes@[j].addr != src,
            decreases self.routes@.len() - i,
        {
            if self.routes[i].addr == src {
                proof {
                    let j = route_index(self@, src);
                    assert(0 <= j < self@.len() && self@[j].addr == src);
                    assert(j == i);
                }
                return Some(self.routes[i].room_id);
            }
            i += 1;
        }
        None
    }

    /// Handles a datagram of a peer, given the message that it decodes to,
    /// if it decodes. Only a request to join a room from a peer that is not
    /// in the table changes the table.
    pub fn receive(&mut self, src: PeerAddr, decoded: Option<&Packet>) -> (answer: Admission)
        requires
            old(self).wf(),
        ensures
            final(self).wf(),
            final(self)@ == table_after(old(self)@, src, decoded_view(decoded)),
            answer == admission_of(old(self)@, src, decoded_view(decoded)),
    {
        match self.room_of(src) {
            Some(room_id) => Admission::Known { room_id },
            None => match decoded {
                Some(Packet::JoinMatch { room_id }) => {
                    self.routes.push(Route { addr: src, room_id: *room_id });
                    Admission::Joined { room_id: *room_id, pings: PING_BURST }
                },
                Some(_) => Admission::Refused,
                None => Admission::Undecodable,
            },
        }
    }

    /// The peers to whom a datagram of `src` in a room is sent: every peer
    /// of the room but `src`, in the order in which they joined.
    pub fn targets(&self, room_id: i32, src: PeerAddr) -> (out: Vec<PeerAddr>)
        ensures
            out@ == targets_of(self@, room_id, src),
    {
        let mut out: Vec<PeerAddr> = Vec::new();
        let mut i: usize = 0;
        let ghost pick = routed_to(room_id, src);
        let ghost addr = |r: Route| r.addr;
        assert(self@.take(0) =~= Seq::<Route>::empty());
        assert(out@ =~= self@.take(0).filter(pick).map_values(addr));
        while i < self.routes.len()
            invariant
                i <= self.routes@.len(),
                pick == routed_to(room_id, src),
                addr == |r: Route| r.addr,
                out@ == self@.take(i as int).filter(pick).map_values(addr),
            decreases self.routes@.len() - i,
        {
            proof {
                assert(self@.take(i + 1) =~= self@.take(i as int).push(self@[i as int]));
                self@.take(i as int).lemma_filter_push(self@[i as int], pick);
                self@.take(i as int).filter(pick).lemma_push_map_commute(addr, self@[i as int]);
            }
            if self.routes[i].room_id == room_id && self.routes[i].addr != src {
                out.push(self.routes[i].addr);
            }
            i += 1;
        }
        assert(self@.take(i as int) =~= self@);
        out
    }
}

/// A datagram goes to every other peer of the sender's room, to no peer of
/// another room, and never back to the sender.
pub proof fn lemma_targets_are_the_others(
    table: Seq<Route>,
    room_id: i32,
    src: PeerAddr,
    peer: PeerAddr,
)
    ensures
        targets_of(table, room_id, src).contains(peer) <==> peer != src && table.contains(
            Route { addr: peer, room_id },
        ),
{
    let pick = routed_to(room_id, src);
    let kept = table.filter(pick);
    let targets = targets_of(table, room_id, src);
    let route = Route { addr: peer, room_id };
    if targets.contains(peer) {
        let i = choose|i: int| 0 <= i < targets.len() && targets[i] == peer;
        assert(kept[i].addr == peer);
        table.lemma_filter_pred(pick, i);
        assert(kept.contains(kept[i]));
        table.lemma_filter_contains_rev(pick, kept[i]);
        assert(kept[i] == route);
    }
    if peer != src && table.contains(route) {
        let j = choose|j: int| 0 <= j < table.len() && table[j] == route;
        table.lemma_filter_contains(pick, j);
        let i = choose|i: int| 0 <= i < kept.len() && kept[i] == route;
        assert(targets[i] == peer);
    }
}

} // verus!
