//! The closed vocabulary of protocol messages, as plain values.
//!
//! Coordinates travel as the bit patterns of their 32-bit floating-point
//! numbers, so that a message can be held, compared and handed on without
//! being interpreted.

use vstd::prelude::*;

verus! {

/// Three coordinates, each the IEEE-754 bit pattern of a 32-bit float.
#[derive(Debug, Clone, Copy, PartialEq, Eq, Structural)]
pub struct Vec3 {
    pub x: u32,
    pub y: u32,
    pub z: u32,
}

/// An argument of a remote object call.
#[derive(Debug, PartialEq, Eq)]
pub enum RawPacket {
    String(String),
    Int(i32),
    Bool(bool),
    /// The bit pattern of a 32-bit float.
    Float(u32),
    Vector3(Vec3),
    Array(Vec<RawPacket>),
    Null,
}

/// One protocol message.
#[derive(Debug, PartialEq, Eq)]
pub enum Packet {
    Ping,
    Disconnect,
    LoginRequest { name: String },
    Login { id: i32, name: String },
    ListMatches,
    RemoveFromListMatches,
    MatchDeleted,
    NewMatch { room_name: String },
    DeleteMatch { room_id: i32 },
    MatchCreated { id: i32, owner_id: i32, room_name: String },
    MatchJoined { id: i32, user_id: i32, user_name: String, room_name: String },
    MatchLeaved { user_id: i32, user_name: String },
    JoinMatch { room_id: i32 },
    LeaveMatch { room_id: i32 },
    /// One entry per room: its id, its name and the number of its members.
    MatchList { matches: Vec<(i32, String, i32)> },
    StartMatch { room_id: i32, map: String },
    SpawnPlayers { room_id: i32, positions: Vec<Vec3> },
    SpawnRemoteObject { id: i32, object_id: i32, position: Vec3, rotation: Vec3 },
    DespawnRemoteObject { id: i32, object_id: i32 },
    RemoteObjectCall {
        id: i32,
        object_id: i32,
        method: String,
        params: Vec<RawPacket>,
        broadcast: bool,
    },
    RemoteObjectLocation { id: i32, object_id: i32, position: Vec3, rotation: Vec3 },
    Spawn { position: Vec3 },
    Message { id: i32, name: String, text: String },
}

/// What a [`Packet`] says, with its texts and lists as sequences.
pub enum PacketView {
    Ping,
    Disconnect,
    LoginRequest { name: Seq<char> },
    Login { id: i32, name: Seq<char> },
    ListMatches,
    RemoveFromListMatches,
    MatchDeleted,
    NewMatch { room_name: Seq<char> },
    DeleteMatch { room_id: i32 },
    MatchCreated { id: i32, owner_id: i32, room_name: Seq<char> },
    MatchJoined { id: i32, user_id: i32, user_name: Seq<char>, room_name: Seq<char> },
    MatchLeaved { user_id: i32, user_name: Seq<char> },
    JoinMatch { room_id: i32 },
    LeaveMatch { room_id: i32 },
    MatchList { matches: Seq<(i32, Seq<char>, i32)> },
    StartMatch { room_id: i32, map: Seq<char> },
    SpawnPlayers { room_id: i32, positions: Seq<Vec3> },
    SpawnRemoteObject { id: i32, object_id: i32, position: Vec3, rotation: Vec3 },
    DespawnRemoteObject { id: i32, object_id: i32 },
    RemoteObjectCall {
        id: i32,
        object_id: i32,
        method: Seq<char>,
        params: Seq<RawPacket>,
        broadcast: bool,
    },
    RemoteObjectLocation { id: i32, object_id: i32, position: Vec3, rotation: Vec3 },
    Spawn { position: Vec3 },
    Message { id: i32, name: Seq<char>, text: Seq<char> },
}

/// The entries of a room list, each name as a sequence.
pub open spec fn entries_view(entries: Seq<(i32, String, i32)>) -> Seq<(i32, Seq<char>, i32)> {
    Seq::new(entries.len(), |i: int| (entries[i].0, entries[i].1@, entries[i].2))
}

impl View for Packet {
    type V = PacketView;

    open spec fn view(&self) -> PacketView {
        match *self {
            Packet::Ping => PacketView::Ping,
            Packet::Disconnect => PacketView::Disconnect,
            Packet::LoginRequest { name } => PacketView::LoginRequest { name: name@ },
            Packet::Login { id, name } => PacketView::Login { id, name: name@ },
            Packet::ListMatches => PacketView::ListMatches,
            Packet::RemoveFromListMatches => PacketView::RemoveFromListMatches,
            Packet::MatchDeleted => PacketView::MatchDeleted,
            Packet::NewMatch { room_name } => PacketView::NewMatch { room_name: room_name@ },
            Packet::DeleteMatch { room_id } => PacketView::DeleteMatch { room_id },
            Packet::MatchCreated { id, owner_id, room_name } => PacketView::MatchCreated {
                id,
                owner_id,
                room_name: room_name@,
            },
            Packet::MatchJoined { id, user_id, user_name, room_name } => PacketView::MatchJoined {
                id,
                user_id,
                user_name: user_name@,
                room_name: room_name@,
            },
            Packet::MatchLeaved { user_id, user_name } => PacketView::MatchLeaved {
                user_id,
                user_name: user_name@,
            },
            Packet::JoinMatch { room_id } => PacketView::JoinMatch { room_id },
            Packet::LeaveMatch { room_id } => PacketView::LeaveMatch { room_id },
            Packet::MatchList { matches } => PacketView::MatchList {
                matches: entries_view(matches@),
            },
            Packet::StartMatch { room_id, map } => PacketView::StartMatch { room_id, map: map@ },
            Packet::SpawnPlayers { room_id, positions } => PacketView::SpawnPlayers {
                room_id,
                positions: positions@,
            },
            Packet::SpawnRemoteObject {
                id,
                object_id,
                position,
                rotation,
            } => PacketView::SpawnRemoteObject { id, object_id, position, rotation },
            Packet::DespawnRemoteObject { id, object_id } => PacketView::DespawnRemoteObject {
                id,
                object_id,
            },
            Packet::RemoteObjectCall {
                id,
                object_id,
                method,
                params,
                broadcast,
            } => PacketView::RemoteObjectCall {
                id,
                object_id,
                method: method@,
                params: params@,
                broadcast,
            },
            Packet::RemoteObjectLocation {
                id,
                object_id,
                position,
                rotation,
            } => PacketView::RemoteObjectLocation { id, object_id, position, rotation },
            Packet::Spawn { position } => PacketView::Spawn { position },
            Packet::Message { id, name, text } => PacketView::Message {
                id,
                name: name@,
                text: text@,
            },
        }
    }
}

/// A message addressed to one session.
#[derive(Debug, PartialEq, Eq)]
pub struct Delivery {
    /// The id of the session that is to receive the message.
    pub to: i32,
    pub packet: Packet,
}

/// What a [`Delivery`] says: the recipient and the message.
pub struct DeliveryView {
    pub to: i32,
    pub packet: PacketView,
}

impl View for Delivery {
    type V = DeliveryView;

    open spec fn view(&self) -> DeliveryView {
        DeliveryView { to: self.to, packet: self.packet@ }
    }
}

/// The deliveries of a list, each by its view.
pub open spec fn delivery_views(list: Seq<Delivery>) -> Seq<DeliveryView> {
    Seq::new(list.len(), |i: int| list[i]@)
}

} // verus!
