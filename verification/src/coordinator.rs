//! The coordinator: the one owner of the room table.
//!
//! Session handlers hand the coordinator intents; it applies them one at a
//! time, so that every change of a room is made in one order. Each step
//! changes the room table, the subscription set and the registry, and
//! returns the messages that the change calls for, each with the id of the
//! session that is to receive it. Sending them is left to the caller.
//!
//! An intent that names a room which does not exist changes nothing, and so
//! does an intent to create, join, leave or delete a room from an id that
//! has no session.

use crate::packet::{delivery_views, Delivery, DeliveryView, Packet, PacketView};
use crate::registry::{
    client_views, has_session, session_of, sessions_among, sessions_of,
    with_match, without_session, Client, ClientView, Registry, NO_MATCH,
};
use vstd::prelude::*;

verus! {

/// One room: a named group of sessions that intend to play together.
#[derive(Debug, Clone, PartialEq, Eq)]
pub struct Match {
    pub id: i32,
    pub owner_id: i32,
    pub name: String,
    /// The ids of the members, in the order in which they joined.
    pub clients: Vec<i32>,
    pub started: bool,
}

/// A room with its name and its members as sequences.
pub struct MatchView {
    pub id: i32,
    pub owner_id: i32,
    pub name: Seq<char>,
    pub clients: Seq<i32>,
    pub started: bool,
}

impl View for Match {
    type V = MatchView;

    open spec fn view(&self) -> MatchView {
        MatchView {
            id: self.id,
            owner_id: self.owner_id,
            name: self.name@,
            clients: self.clients@,
            started: self.started,
        }
    }
}

/// The rooms of a list, each by its view.
pub open spec fn match_views(list: Seq<Match>) -> Seq<MatchView> {
    Seq::new(list.len(), |i: int| list[i]@)
}

/// An intent: what a session handler asks the coordinator to do.
#[derive(Debug, Clone, PartialEq, Eq)]
pub enum Message {
    Ping,
    RemoveFromListMatches { id: i32 },
    ListMatches { id: i32 },
    JoinMatch { id: i32, room_id: i32 },
    NewMatch { id: i32, room_name: String },
    DeleteMatch { id: i32, room_id: i32 },
    LeaveMatch { id: i32, room_id: i32 },
    StartMatch { id: i32, room_id: i32, map: String },
    Disconnected { id: i32 },
}

/// An intent with its texts as sequences.
pub enum MessageView {
    Ping,
    RemoveFromListMatches { id: i32 },
    ListMatches { id: i32 },
    JoinMatch { id: i32, room_id: i32 },
    NewMatch { id: i32, room_name: Seq<char> },
    DeleteMatch { id: i32, room_id: i32 },
    LeaveMatch { id: i32, room_id: i32 },
    StartMatch { id: i32, room_id: i32, map: Seq<char> },
    Disconnected { id: i32 },
}

impl View for Message {
    type V = MessageView;

    open spec fn view(&self) -> MessageView {
        match *self {
            Message::Ping => MessageView::Ping,
            Message::RemoveFromListMatches { id } => MessageView::RemoveFromListMatches { id },
            Message::ListMatches { id } => MessageView::ListMatches { id },
            Message::JoinMatch { id, room_id } => MessageView::JoinMatch { id, room_id },
            Message::NewMatch { id, room_name } => MessageView::NewMatch {
                id,
                room_name: room_name@,
            },
            Message::DeleteMatch { id, room_id } => MessageView::DeleteMatch { id, room_id },
            Message::LeaveMatch { id, room_id } => MessageView::LeaveMatch { id, room_id },
            Message::StartMatch { id, room_id, map } => MessageView::StartMatch {
                id,
                room_id,
                map: map@,
            },
            Message::Disconnected { id } => MessageView::Disconnected { id },
        }
    }
}

/// The intents of a list, each by its view.
pub open spec fn message_views(list: Seq<Message>) -> Seq<MessageView> {
    Seq::new(list.len(), |i: int| list[i]@)
}

/// What the coordinator owns: the counter that numbers the rooms, the room
/// table, and the ids that watch the room list.
pub struct CoordinatorView {
    pub serial: i32,
    pub rooms: Seq<MatchView>,
    pub subscribers: Seq<i32>,
}

/// What one step leaves behind: the coordinator's state, the registry, and
/// the messages to send, in order.
pub struct Outcome {
    pub state: CoordinatorView,
    pub registry: Seq<ClientView>,
    pub deliveries: Seq<DeliveryView>,
}

/// The invariant of the coordinator's state: every room id was handed out
/// by the counter, no two rooms share an id, and no id watches the room
/// list twice.
pub open spec fn state_wf(s: CoordinatorView) -> bool {
    &&& 0 <= s.serial
    &&& forall|i: int| 0 <= i < s.rooms.len() ==> 1 <= (#[trigger] s.rooms[i]).id <= s.serial
    &&& forall|i: int, j: int| 0 <= i < j < s.rooms.len() ==> s.rooms[i].id != s.rooms[j].id
    &&& s.subscribers.no_duplicates()
}

/// Whether a room with this id exists.
pub open spec fn has_room(rooms: Seq<MatchView>, room_id: i32) -> bool {
    exists|i: int| 0 <= i < rooms.len() && rooms[i].id == room_id
}

/// Where the room with this id stands in the room table.
pub open spec fn room_index(rooms: Seq<MatchView>, room_id: i32) -> int {
    choose|i: int| 0 <= i < rooms.len() && rooms[i].id == room_id
}

/// The test that picks every id but one.
pub open spec fn other_than(id: i32) -> spec_fn(i32) -> bool {
    |x: i32| x != id
}

/// A list of ids without every occurrence of one of them.
pub open spec fn without(ids: Seq<i32>, id: i32) -> Seq<i32> {
    ids.filter(other_than(id))
}

/// The subscription set after an id was added to it.
pub open spec fn subscribed(subs: Seq<i32>, id: i32) -> Seq<i32> {
    if subs.contains(id) {
        subs
    } else {
        subs.push(id)
    }
}

/// The subscription set after an id was taken out of it.
pub open spec fn unsubscribed(subs: Seq<i32>, id: i32) -> Seq<i32> {
    if subs.contains(id) {
        subs.remove(subs.index_of(id))
    } else {
        subs
    }
}

/// The room list as it is sent: for each room its id, its name and the
/// number of its members.
pub open spec fn room_list(rooms: Seq<MatchView>) -> PacketView {
    PacketView::MatchList {
        matches: Seq::new(
            rooms.len(),
            |i: int| (rooms[i].id, rooms[i].name, rooms[i].clients.len() as i32),
        ),
    }
}

/// The same message to each session of a list, in the order of the list.
pub open spec fn to_each(recipients: Seq<ClientView>, packet: PacketView) -> Seq<DeliveryView> {
    Seq::new(recipients.len(), |i: int| DeliveryView { to: recipients[i].id, packet })
}

/// The room list to every subscriber that has a session.
pub open spec fn broadcast_list(
    reg: Seq<ClientView>,
    subs: Seq<i32>,
    rooms: Seq<MatchView>,
) -> Seq<DeliveryView> {
    to_each(sessions_of(reg, subs), room_list(rooms))
}

/// The notice that tells of one member of a room.
pub open spec fn joined_notice(room_id: i32, room_name: Seq<char>, who: ClientView) -> PacketView {
    PacketView::MatchJoined { id: room_id, user_id: who.id, user_name: who.name, room_name }
}

/// The notices of a join. For each member that was there before, in join
/// order, the joiner is told of the member, and then the member of the
/// joiner.
pub open spec fn join_notices(
    others: Seq<ClientView>,
    joiner: ClientView,
    room_id: i32,
    room_name: Seq<char>,
) -> Seq<DeliveryView> {
    Seq::new(
        2 * others.len(),
        |t: int|
            if t % 2 == 0 {
                DeliveryView {
                    to: joiner.id,
                    packet: joined_notice(room_id, room_name, others[t / 2]),
                }
            } else {
                DeliveryView {
                    to: others[t / 2].id,
                    packet: joined_notice(room_id, room_name, joiner),
                }
            },
    )
}

/// A step that changes nothing and sends nothing.
pub open spec fn unchanged(s: CoordinatorView, reg: Seq<ClientView>) -> Outcome {
    Outcome { state: s, registry: reg, deliveries: Seq::empty() }
}

/// A room with another member list.
pub open spec fn with_clients(room: MatchView, clients: Seq<i32>) -> MatchView {
    MatchView {
        id: room.id,
        owner_id: room.owner_id,
        name: room.name,
        clients,
        started: room.started,
    }
}

/// A session starts to watch the room list, and is sent the list at once.
pub open spec fn after_list(s: CoordinatorView, reg: Seq<ClientView>, id: i32) -> Outcome {
    Outcome {
        state: CoordinatorView {
            serial: s.serial,
            rooms: s.rooms,
            subscribers: subscribed(s.subscribers, id),
        },
        registry: reg,
        deliveries: broadcast_list(reg, seq![id], s.rooms),
    }
}

/// A session stops watching the room list.
pub open spec fn after_unlist(s: CoordinatorView, reg: Seq<ClientView>, id: i32) -> Outcome {
    Outcome {
        state: CoordinatorView {
            serial: s.serial,
            rooms: s.rooms,
            subscribers: unsubscribed(s.subscribers, id),
        },
        registry: reg,
        deliveries: Seq::empty(),
    }
}

/// A session opens a room. The room gets the next id of the counter and the
/// creator as its owner and only member; the creator is told the id, the
/// subscribers are sent the new list, and the creator's session is put in
/// the room. Nothing happens once the counter has run out.
pub open spec fn after_create(
    s: CoordinatorView,
    reg: Seq<ClientView>,
    id: i32,
    room_name: Seq<char>,
) -> Outcome {
    if !has_session(reg, id) || s.serial >= i32::MAX {
        unchanged(s, reg)
    } else {
        let room_id = (s.serial + 1) as i32;
        let rooms = s.rooms.push(
            MatchView {
                id: room_id,
                owner_id: id,
                name: room_name,
                clients: seq![id],
                started: false,
            },
        );
        Outcome {
            state: CoordinatorView { serial: room_id, rooms, subscribers: s.subscribers },
            registry: with_match(reg, id, room_id),
            deliveries: seq![
                DeliveryView {
                    to: id,
                    packet: PacketView::MatchCreated { id: room_id, owner_id: id, room_name },
                },
            ] + broadcast_list(reg, s.subscribers, rooms),
        }
    }
}

/// A session joins a room. It stops watching the room list, its session is
/// put in the room, and it is appended to the member list; it and the
/// members that were there before are told of each other.
pub open spec fn after_join(
    s: CoordinatorView,
    reg: Seq<ClientView>,
    id: i32,
    room_id: i32,
) -> Outcome {
    if !has_session(reg, id) || !has_room(s.rooms, room_id) {
        unchanged(s, reg)
    } else {
        let k = room_index(s.rooms, room_id);
        let room = s.rooms[k];
        Outcome {
            state: CoordinatorView {
                serial: s.serial,
                rooms: s.rooms.update(k, with_clients(room, room.clients.push(id))),
                subscribers: unsubscribed(s.subscribers, id),
            },
            registry: with_match(reg, id, room_id),
            deliveries: join_notices(
                sessions_of(reg, without(room.clients, id)),
                session_of(reg, id),
                room_id,
                room.name,
            ),
        }
    }
}

/// A session deletes a room. The room leaves the table, every other member
/// is told so, the subscribers are sent the new list, and the requester's
/// session is in no room.
pub open spec fn after_delete(
    s: CoordinatorView,
    reg: Seq<ClientView>,
    id: i32,
    room_id: i32,
) -> Outcome {
    if !has_session(reg, id) || !has_room(s.rooms, room_id) {
        unchanged(s, reg)
    } else {
        let k = room_index(s.rooms, room_id);
        let rooms = s.rooms.remove(k);
        Outcome {
            state: CoordinatorView { serial: s.serial, rooms, subscribers: s.subscribers },
            registry: with_match(reg, id, NO_MATCH),
            deliveries: to_each(
                sessions_of(reg, without(s.rooms[k].clients, id)),
                PacketView::MatchDeleted,
            ) + broadcast_list(reg, s.subscribers, rooms),
        }
    }
}

/// A session leaves a room. It is taken off the member list, the members
/// that remain are told who left, in the order of the registry, and the
/// leaver's session is in no room.
pub open spec fn after_leave(
    s: CoordinatorView,
    reg: Seq<ClientView>,
    id: i32,
    room_id: i32,
) -> Outcome {
    if !has_session(reg, id) || !has_room(s.rooms, room_id) {
        unchanged(s, reg)
    } else {
        let k = room_index(s.rooms, room_id);
        let remaining = without(s.rooms[k].clients, id);
        Outcome {
            state: CoordinatorView {
                serial: s.serial,
                rooms: s.rooms.update(k, with_clients(s.rooms[k], remaining)),
                subscribers: s.subscribers,
            },
            registry: with_match(reg, id, NO_MATCH),
            deliveries: to_each(
                sessions_among(reg, remaining),
                PacketView::MatchLeaved { user_id: id, user_name: session_of(reg, id).name },
            ),
        }
    }
}

/// A room is started, and the subscribers are sent the list.
pub open spec fn after_start(s: CoordinatorView, reg: Seq<ClientView>, room_id: i32) -> Outcome {
    if !has_room(s.rooms, room_id) {
        unchanged(s, reg)
    } else {
        let k = room_index(s.rooms, room_id);
        let room = s.rooms[k];
        let rooms = s.rooms.update(
            k,
            MatchView {
                id: room.id,
                owner_id: room.owner_id,
                name: room.name,
                clients: room.clients,
                started: true,
            },
        );
        Outcome {
            state: CoordinatorView { serial: s.serial, rooms, subscribers: s.subscribers },
            registry: reg,
            deliveries: broadcast_list(reg, s.subscribers, rooms),
        }
    }
}

/// A session is gone. It leaves the registry, and the member list of the
/// room that its session was in. Nobody is told.
pub open spec fn after_disconnect(s: CoordinatorView, reg: Seq<ClientView>, id: i32) -> Outcome {
    if !has_session(reg, id) {
        unchanged(s, reg)
    } else {
        let room_id = session_of(reg, id).match_id;
        let rooms = if room_id != NO_MATCH && has_room(s.rooms, room_id) {
            let k = room_index(s.rooms, room_id);
            s.rooms.update(k, with_clients(s.rooms[k], without(s.rooms[k].clients, id)))
        } else {
            s.rooms
        };
        Outcome {
            state: CoordinatorView { serial: s.serial, rooms, subscribers: s.subscribers },
            registry: without_session(reg, id),
            deliveries: Seq::empty(),
        }
    }
}

/// The sequential model of the coordinator: what one intent does to the
/// state and the registry, and what is sent for it.
pub open spec fn step_model(s: CoordinatorView, reg: Seq<ClientView>, m: MessageView) -> Outcome {
    match m {
        MessageView::Ping => unchanged(s, reg),
        MessageView::RemoveFromListMatches { id } => after_unlist(s, reg, id),
        MessageView::ListMatches { id } => after_list(s, reg, id),
        MessageView::JoinMatch { id, room_id } => after_join(s, reg, id, room_id),
        MessageView::NewMatch { id, room_name } => after_create(s, reg, id, room_name),
        MessageView::DeleteMatch { id, room_id } => after_delete(s, reg, id, room_id),
        MessageView::LeaveMatch { id, room_id } => after_leave(s, reg, id, room_id),
        MessageView::StartMatch { id, room_id, map } => after_start(s, reg, room_id),
        MessageView::Disconnected { id } => after_disconnect(s, reg, id),
    }
}

/// Whether an intent is dropped: it names a room or a session that does
/// not exist, or asks for a room when the counter has run out. A caller
/// reports such an intent; the step itself changes nothing for it.
pub open spec fn is_dropped(s: CoordinatorView, reg: Seq<ClientView>, m: MessageView) -> bool {
    match m {
        MessageView::Ping => false,
        MessageView::RemoveFromListMatches { id } => false,
        MessageView::ListMatches { id } => false,
        MessageView::JoinMatch { id, room_id } => !has_session(reg, id) || !has_room(
            s.rooms,
            room_id,
        ),
        MessageView::NewMatch { id, room_name } => !has_session(reg, id) || s.serial >= i32::MAX,
        MessageView::DeleteMatch { id, room_id } => !has_session(reg, id) || !has_room(
            s.rooms,
            room_id,
        ),
        MessageView::LeaveMatch { id, room_id } => !has_session(reg, id) || !has_room(
            s.rooms,
            room_id,
        ),
        MessageView::StartMatch { id, room_id, map } => !has_room(s.rooms, room_id),
        MessageView::Disconnected { id } => !has_session(reg, id),
    }
}

/// The sequential model applied to a list of intents, one after the other:
/// the last state and registry, and all that was sent, in order.
pub open spec fn replay_model(
    s: CoordinatorView,
    reg: Seq<ClientView>,
    intents: Seq<MessageView>,
) -> Outcome
    decreases intents.len(),
{
    if intents.len() == 0 {
        unchanged(s, reg)
    } else {
        let before = replay_model(s, reg, intents.drop_last());
        let last = step_model(before.state, before.registry, intents.last());
        Outcome {
            state: last.state,
            registry: last.registry,
            deliveries: before.deliveries + last.deliveries,
        }
    }
}

/// Copies a list of ids without every occurrence of one of them.
pub fn without_id(ids: &Vec<i32>, id: i32) -> (out: Vec<i32>)
    ensures
        out@ == without(ids@, id),
{
    let mut out: Vec<i32> = Vec::new();
    let mut i: usize = 0;
    assert(ids@.take(0) =~= Seq::<i32>::empty());
    while i < ids.len()
        invariant
            i <= ids@.len(),
            out@ == ids@.take(i as int).filter(other_than(id)),
        decreases ids@.len() - i,
    {
        proof {
            assert(ids@.take(i + 1) =~= ids@.take(i as int).push(ids@[i as int]));
            ids@.take(i as int).lemma_filter_push(ids@[i as int], other_than(id));
        }
        if ids[i] != id {
            out.push(ids[i]);
        }
        i += 1;
    }
    assert(ids@.take(i as int) =~= ids@);
    out
}

fn nothing() -> (out: Vec<Delivery>)
    ensures
        delivery_views(out@) == Seq::<DeliveryView>::empty(),
{
    let out: Vec<Delivery> = Vec::new();
    assert(delivery_views(out@) =~= Seq::<DeliveryView>::empty());
    out
}

fn joined(first: Vec<Delivery>, second: Vec<Delivery>) -> (out: Vec<Delivery>)
    ensures
        delivery_views(out@) == delivery_views(first@) + delivery_views(second@),
{
    let mut out = first;
    let mut rest = second;
    out.append(&mut rest);
    assert(delivery_views(out@) =~= delivery_views(first@) + delivery_views(second@));
    out
}

/// The kinds of message that go to several sessions alike.
enum Notice {
    List,
    Deleted,
    Left { user_id: i32, user_name: String },
}

spec fn notice_view(notice: Notice, rooms: Seq<MatchView>) -> PacketView {
    match notice {
        Notice::List => room_list(rooms),
        Notice::Deleted => PacketView::MatchDeleted,
        Notice::Left { user_id, user_name } => PacketView::MatchLeaved {
            user_id,
            user_name: user_name@,
        },
    }
}

/// The coordinator's state.
pub struct Coordinator {
    room_id_serial: i32,
    matches: Vec<Match>,
    subscribers: Vec<i32>,
}

impl View for Coordinator {
    type V = CoordinatorView;

    closed spec fn view(&self) -> CoordinatorView {
        CoordinatorView {
            serial: self.room_id_serial,
            rooms: match_views(self.matches@),
            subscribers: self.subscribers@,
        }
    }
}

impl Match {
    /// A copy of the room.
    pub fn copy(&self) -> (m: Match)
        ensures
            m@ == self@,
    {
        let mut clients: Vec<i32> = Vec::new();
        clients.extend_from_slice(self.clients.as_slice());
        assert(clients@ =~= self.clients@);
        Match {
            id: self.id,
            owner_id: self.owner_id,
            name: self.name.clone(),
            clients,
            started: self.started,
        }
    }
}

impl Coordinator {
    /// The invariant of the coordinator.
    pub open spec fn wf(&self) -> bool {
        state_wf(self@)
    }

    /// A coordinator with no room and no subscriber; the first room will
    /// have the id 1.
    pub fn new() -> (c: Coordinator)
        ensures
            c.wf(),
            c@ == (CoordinatorView { serial: 0, rooms: Seq::empty(), subscribers: Seq::empty() }),
    {
        let c = Coordinator { room_id_serial: 0, matches: Vec::new(), subscribers: Vec::new() };
        assert(c@.rooms =~= Seq::<MatchView>::empty());
        assert(c@.subscribers =~= Seq::<i32>::empty());
        c
    }

    fn room_position(&self, room_id: i32) -> (at: Option<usize>)
        requires
            self.wf(),
        ensures
            at is Some <==> has_room(self@.rooms, room_id),
            at matches Some(k) ==> k < self.matches@.len() && k == room_index(self@.rooms, room_id)
                && self@.rooms[k as int] == self.matches@[k as int]@,
            self@.rooms.len() == self.matches@.len(),
    {
        let mut i: usize = 0;
        while i < self.matches.len()
            invariant
                self.wf(),
                i <= self.matches@.len(),
                self@.rooms.len() == self.matches@.len(),
                forall|j: int| 0 <= j < i ==> self@.rooms[j].id != room_id,
            decreases self.matches@.len() - i,
        {
            if self.matches[i].id == room_id {
                proof {
                    assert(self@.rooms[i as int].id == room_id);
                    let j = room_index(self@.rooms, room_id);
                    assert(0 <= j < self@.rooms.len() && self@.rooms[j].id == room_id);
                    assert(j == i);
                }
                return Some(i);
            }
            i += 1;
        }
        None
    }

    fn subscriber_position(&self, id: i32) -> (at: Option<usize>)
        requires
            self.wf(),
        ensures
            at is Some <==> self@.subscribers.contains(id),
            at matches Some(k) ==> k < self.subscribers@.len() && k == self@.subscribers.index_of(
                id,
            ),
    {
        let mut i: usize = 0;
        while i < self.subscribers.len()
            invariant
                self.wf(),
                i <= self.subscribers@.len(),
                forall|j: int| 0 <= j < i ==> self.subscribers@[j] != id,
            decreases self.subscribers@.len() - i,
        {
            if self.subscribers[i] == id {
                proof {
                    assert(self@.subscribers[i as int] == id);
                    let j = self@.subscribers.index_of(id);
                    assert(0 <= j < self@.subscribers.len() && self@.subscribers[j] == id);
                    assert(j == i);
                }
                return Some(i);
            }
            i += 1;
        }
        None
    }

    /// The number of the room that was opened last; 0 before the first.
    pub fn last_room_id(&self) -> (n: i32)
        ensures
            n == self@.serial,
    {
        self.room_id_serial
    }

    /// A copy of the room with this id.
    pub fn find_match(&self, room_id: i32) -> (found: Option<Match>)
        requires
            self.wf(),
        ensures
            found is Some <==> has_room(self@.rooms, room_id),
            found matches Some(m) ==> m@ == self@.rooms[room_index(self@.rooms, room_id)],
    {
        match self.room_position(room_id) {
            Some(k) => Some(self.matches[k].copy()),
            None => None,
        }
    }

    /// A copy of the room table, in the order in which the rooms were
    /// opened.
    pub fn matches(&self) -> (out: Vec<Match>)
        ensures
            match_views(out@) == self@.rooms,
    {
        let mut out: Vec<Match> = Vec::new();
        let mut i: usize = 0;
        while i < self.matches.len()
            invariant
                i <= self.matches@.len(),
                out@.len() == i,
                forall|j: int| 0 <= j < i ==> out@[j]@ == self.matches@[j]@,
            decreases self.matches@.len() - i,
        {
            out.push(self.matches[i].copy());
            i += 1;
        }
        assert(match_views(out@) =~= self@.rooms);
        out
    }

    /// A copy of the subscription set, in the order in which the ids came.
    pub fn subscribers(&self) -> (out: Vec<i32>)
        ensures
            out@ == self@.subscribers,
    {
        let mut out: Vec<i32> = Vec::new();
        out.extend_from_slice(self.subscribers.as_slice());
        assert(out@ =~= self@.subscribers);
        out
    }

    /// The room list as it is sent to a subscriber.
    pub fn match_list(&self) -> (p: Packet)
        ensures
            p@ == room_list(self@.rooms),
    {
        let mut entries: Vec<(i32, String, i32)> = Vec::new();
        let mut i: usize = 0;
        while i < self.matches.len()
            invariant
                i <= self.matches@.len(),
                entries@.len() == i,
                forall|j: int|
                    0 <= j < i ==> (#[trigger] entries@[j]).0 == self.matches@[j].id && entries@[j].1@
                        == self.matches@[j].name@ && entries@[j].2 == self.matches@[j].clients@.len() as i32,
            decreases self.matches@.len() - i,
        {
            let m = &self.matches[i];
            let count: i32 = #[verifier::truncate]
            (m.clients.len() as i32);
            entries.push((m.id, m.name.clone(), count));
            i += 1;
        }
        let p = Packet::MatchList { matches: entries };
        assert(p@->MatchList_matches =~= room_list(self@.rooms)->MatchList_matches);
        p
    }

    fn address_each(&self, recipients: &Vec<Client>, notice: &Notice) -> (out: Vec<Delivery>)
        ensures
            delivery_views(out@) == to_each(
                client_views(recipients@),
                notice_view(*notice, self@.rooms),
            ),
    {
        let mut out: Vec<Delivery> = Vec::new();
        let mut i: usize = 0;
        while i < recipients.len()
            invariant
                i <= recipients@.len(),
                out@.len() == i,
                forall|j: int|
                    0 <= j < i ==> (#[trigger] out@[j])@ == (DeliveryView {
                        to: recipients@[j].id,
                        packet: notice_view(*notice, self@.rooms),
                    }),
            decreases recipients@.len() - i,
        {
            let packet = match notice {
                Notice::List => self.match_list(),
                Notice::Deleted => Packet::MatchDeleted,
                Notice::Left { user_id, user_name } => Packet::MatchLeaved {
                    user_id: *user_id,
                    user_name: user_name.clone(),
                },
            };
            out.push(Delivery { to: recipients[i].id, packet });
            i += 1;
        }
        assert(delivery_views(out@) =~= to_each(
            client_views(recipients@),
            notice_view(*notice, self@.rooms),
        ));
        out
    }

    fn broadcast(&self, registry: &Registry, ids: &Vec<i32>) -> (out: Vec<Delivery>)
        requires
            registry.wf(),
        ensures
            delivery_views(out@) == broadcast_list(registry@, ids@, self@.rooms),
    {
        let recipients = registry.snapshot(ids);
        self.address_each(&recipients, &Notice::List)
    }

    fn push_member(&mut self, k: usize, id: i32)
        requires
            old(self).wf(),
            k < old(self)@.rooms.len(),
        ensures
            final(self).wf(),
            final(self)@ == (CoordinatorView {
                serial: old(self)@.serial,
                rooms: old(self)@.rooms.update(
                    k as int,
                    with_clients(old(self)@.rooms[k as int], old(self)@.rooms[k as int].clients.push(id)),
                ),
                subscribers: old(self)@.subscribers,
            }),
    {
        let ghost before = self@;
        let mut room = self.matches.remove(k);
        room.clients.push(id);
        self.matches.insert(k, room);
        assert(self@.rooms =~= before.rooms.update(
            k as int,
            with_clients(before.rooms[k as int], before.rooms[k as int].clients.push(id)),
        ));
    }

    fn drop_member(&mut self, k: usize, id: i32)
        requires
            old(self).wf(),
            k < old(self)@.rooms.len(),
        ensures
            final(self).wf(),
            final(self)@ == (CoordinatorView {
                serial: old(self)@.serial,
                rooms: old(self)@.rooms.update(
                    k as int,
                    with_clients(
                        old(self)@.rooms[k as int],
                        without(old(self)@.rooms[k as int].clients, id),
                    ),
                ),
                subscribers: old(self)@.subscribers,
            }),
    {
        let ghost before = self@;
        let mut room = self.matches.remove(k);
        room.clients = without_id(&room.clients, id);
        self.matches.insert(k, room);
        assert(self@.rooms =~= before.rooms.update(
            k as int,
            with_clients(before.rooms[k as int], without(before.rooms[k as int].clients, id)),
        ));
    }

    fn list_matches(&mut self, registry: &Registry, id: i32) -> (out: Vec<Delivery>)
        requires
            old(self).wf(),
            registry.wf(),
        ensures
            final(self).wf(),
            (Outcome { state: final(self)@, registry: registry@, deliveries: delivery_views(out@) })
                == after_list(old(self)@, registry@, id),
    {
        if self.subscriber_position(id).is_none() {
            let ghost before = self.subscribers@;
            self.subscribers.push(id);
            assert forall|a: int, b: int|
                0 <= a < self.subscribers@.len() && 0 <= b < self.subscribers@.len() && a
                    != b implies self.subscribers@[a] != self.subscribers@[b] by {
                if a < before.len() {
                    assert(before.contains(before[a]));
                }
                if b < before.len() {
                    assert(before.contains(before[b]));
                }
            }
        }
        assert(self@.rooms == old(self)@.rooms);
        let mut only: Vec<i32> = Vec::new();
        only.push(id);
        assert(only@ =~= seq![id]);
        self.broadcast(registry, &only)
    }

    fn unlist_matches(&mut self, id: i32)
        requires
            old(self).wf(),
        ensures
            final(self).wf(),
            final(self)@ == (CoordinatorView {
                serial: old(self)@.serial,
                rooms: old(self)@.rooms,
                subscribers: unsubscribed(old(self)@.subscribers, id),
            }),
    {
        match self.subscriber_position(id) {
            Some(k) => {
                self.subscribers.remove(k);
            },
            None => {},
        }
    }

    fn create_match(&mut self, registry: &mut Registry, id: i32, room_name: &String) -> (out: Vec<
        Delivery,
    >)
        requires
            old(self).wf(),
            old(registry).wf(),
        ensures
            final(self).wf(),
            final(registry).wf(),
            final(registry).next_id() == old(registry).next_id(),
            (Outcome {
                state: final(self)@,
                registry: final(registry)@,
                deliveries: delivery_views(out@),
            }) == after_create(old(self)@, old(registry)@, id, room_name@),
    {
        if !registry.contains(id) || self.room_id_serial == i32::MAX {
            return nothing();
        }
        let ghost before = self@;
        let room_id: i32 = self.room_id_serial + 1;
        self.room_id_serial = room_id;
        let mut clients: Vec<i32> = Vec::new();
        clients.push(id);
        assert(clients@ =~= seq![id]);
        self.matches.push(
            Match { id: room_id, owner_id: id, name: room_name.clone(), clients, started: false },
        );
        assert(self@.rooms =~= before.rooms.push(
            MatchView {
                id: room_id,
                owner_id: id,
                name: room_name@,
                clients: seq![id],
                started: false,
            },
        ));
        let mut first: Vec<Delivery> = Vec::new();
        first.push(
            Delivery {
                to: id,
                packet: Packet::MatchCreated { id: room_id, owner_id: id, room_name: room_name.clone() },
            },
        );
        assert(delivery_views(first@) =~= seq![
            DeliveryView {
                to: id,
                packet: PacketView::MatchCreated { id: room_id, owner_id: id, room_name: room_name@ },
            },
        ]);
        let list = self.broadcast(registry, &self.subscribers);
        registry.set_match_id(id, room_id);
        joined(first, list)
    }

    fn join_match(&mut self, registry: &mut Registry, id: i32, room_id: i32) -> (out: Vec<Delivery>)
        requires
            old(self).wf(),
            old(registry).wf(),
        ensures
            final(self).wf(),
            final(registry).wf(),
            final(registry).next_id() == old(registry).next_id(),
            (Outcome {
                state: final(self)@,
                registry: final(registry)@,
                deliveries: delivery_views(out@),
            }) == after_join(old(self)@, old(registry)@, id, room_id),
    {
        let joiner = match registry.find(id) {
            Some(c) => c,
            None => {
                return nothing();
            },
        };
        let k = match self.room_position(room_id) {
            Some(k) => k,
            None => {
                return nothing();
            },
        };
        let others = registry.snapshot(&without_id(&self.matches[k].clients, id));
        let ghost notices = join_notices(
            client_views(others@),
            joiner@,
            room_id,
            self.matches@[k as int].name@,
        );
        let mut out: Vec<Delivery> = Vec::new();
        let mut i: usize = 0;
        assert(joiner@.id == id) by {
            let at = crate::registry::session_index(registry@, id);
            assert(0 <= at < registry@.len() && registry@[at].id == id);
        }
        while i < others.len()
            invariant
                k < self.matches@.len(),
                i <= others@.len(),
                out@.len() == 2 * i,
                joiner@.id == id,
                notices == join_notices(
                    client_views(others@),
                    joiner@,
                    room_id,
                    self.matches@[k as int].name@,
                ),
                forall|t: int| 0 <= t < 2 * i ==> (#[trigger] out@[t])@ == notices[t],
            decreases others@.len() - i,
        {
            let other = &others[i];
            let ghost sent = out@;
            assert(client_views(others@)[i as int] == other@);
            assert(notices[2 * i] == (DeliveryView {
                to: id,
                packet: joined_notice(room_id, self.matches@[k as int].name@, other@),
            }));
            assert(notices[2 * i + 1] == (DeliveryView {
                to: other.id,
                packet: joined_notice(room_id, self.matches@[k as int].name@, joiner@),
            }));
            out.push(
                Delivery {
                    to: id,
                    packet: Packet::MatchJoined {
                        id: room_id,
                        user_id: other.id,
                        user_name: other.name.clone(),
                        room_name: self.matches[k].name.clone(),
                    },
                },
            );
            out.push(
                Delivery {
                    to: other.id,
                    packet: Packet::MatchJoined {
                        id: room_id,
                        user_id: id,
                        user_name: joiner.name.clone(),
                        room_name: self.matches[k].name.clone(),
                    },
                },
            );
            i += 1;
        }
        assert(delivery_views(out@) =~= notices);
        self.unlist_matches(id);
        self.push_member(k, id);
        registry.set_match_id(id, room_id);
        out
    }

    fn delete_match(&mut self, registry: &mut Registry, id: i32, room_id: i32) -> (out: Vec<Delivery>)
        requires
            old(self).wf(),
            old(registry).wf(),
        ensures
            final(self).wf(),
            final(registry).wf(),
            final(registry).next_id() == old(registry).next_id(),
            (Outcome {
                state: final(self)@,
                registry: final(registry)@,
                deliveries: delivery_views(out@),
            }) == after_delete(old(self)@, old(registry)@, id, room_id),
    {
        if !registry.contains(id) {
            return nothing();
        }
        let k = match self.room_position(room_id) {
            Some(k) => k,
            None => {
                return nothing();
            },
        };
        let ghost before = self@;
        let room = self.matches.remove(k);
        assert(self@.rooms =~= before.rooms.remove(k as int));
        let others = registry.snapshot(&without_id(&room.clients, id));
        let told = self.address_each(&others, &Notice::Deleted);
        let list = self.broadcast(registry, &self.subscribers);
        registry.set_match_id(id, NO_MATCH);
        joined(told, list)
    }

    fn leave_match(&mut self, registry: &mut Registry, id: i32, room_id: i32) -> (out: Vec<Delivery>)
        requires
            old(self).wf(),
            old(registry).wf(),
        ensures
            final(self).wf(),
            final(registry).wf(),
            final(registry).next_id() == old(registry).next_id(),
            (Outcome {
                state: final(self)@,
                registry: final(registry)@,
                deliveries: delivery_views(out@),
            }) == after_leave(old(self)@, old(registry)@, id, room_id),
    {
        let leaver = match registry.find(id) {
            Some(c) => c,
            None => {
                return nothing();
            },
        };
        let k = match self.room_position(room_id) {
            Some(k) => k,
            None => {
                return nothing();
            },
        };
        self.drop_member(k, id);
        assert(self@.rooms.len() == self.matches@.len());
        assert(self@.rooms[k as int] == self.matches@[k as int]@);
        let remaining = registry.listed(&self.matches[k].clients);
        let out = self.address_each(
            &remaining,
            &Notice::Left { user_id: id, user_name: leaver.name },
        );
        registry.set_match_id(id, NO_MATCH);
        out
    }

    fn start_match(&mut self, registry: &Registry, room_id: i32) -> (out: Vec<Delivery>)
        requires
            old(self).wf(),
            registry.wf(),
        ensures
            final(self).wf(),
            (Outcome { state: final(self)@, registry: registry@, deliveries: delivery_views(out@) })
                == after_start(old(self)@, registry@, room_id),
    {
        let k = match self.room_position(room_id) {
            Some(k) => k,
            None => {
                return nothing();
            },
        };
        let ghost before = self@;
        let mut room = self.matches.remove(k);
        room.started = true;
        self.matches.insert(k, room);
        assert(self@.rooms =~= before.rooms.update(
            k as int,
            MatchView {
                id: before.rooms[k as int].id,
                owner_id: before.rooms[k as int].owner_id,
                name: before.rooms[k as int].name,
                clients: before.rooms[k as int].clients,
                started: true,
            },
        ));
        self.broadcast(registry, &self.subscribers)
    }

    fn drop_session(&mut self, registry: &mut Registry, id: i32)
        requires
            old(self).wf(),
            old(registry).wf(),
        ensures
            final(self).wf(),
            final(registry).wf(),
            final(registry).next_id() == old(registry).next_id(),
            (Outcome {
                state: final(self)@,
                registry: final(registry)@,
                deliveries: Seq::<DeliveryView>::empty(),
            }) == after_disconnect(old(self)@, old(registry)@, id),
    {
        match registry.remove(id) {
            Some(gone) => {
                if gone.match_id != NO_MATCH {
                    match self.room_position(gone.match_id) {
                        Some(k) => {
                            self.drop_member(k, id);
                        },
                        None => {},
                    }
                }
            },
            None => {},
        }
    }

    /// Tells whether the next step would drop an intent, so that the caller
    /// can report it.
    pub fn drops(&self, registry: &Registry, message: &Message) -> (dropped: bool)
        requires
            self.wf(),
            registry.wf(),
        ensures
            dropped == is_dropped(self@, registry@, message@),
    {
        match message {
            Message::Ping => false,
            Message::RemoveFromListMatches { id } => false,
            Message::ListMatches { id } => false,
            Message::JoinMatch { id, room_id } => !registry.contains(*id) || self.room_position(
                *room_id,
            ).is_none(),
            Message::NewMatch { id, room_name } => !registry.contains(*id) || self.room_id_serial
                == i32::MAX,
            Message::DeleteMatch { id, room_id } => !registry.contains(*id) || self.room_position(
                *room_id,
            ).is_none(),
            Message::LeaveMatch { id, room_id } => !registry.contains(*id) || self.room_position(
                *room_id,
            ).is_none(),
            Message::StartMatch { id, room_id, map } => self.room_position(*room_id).is_none(),
            Message::Disconnected { id } => !registry.contains(*id),
        }
    }

    /// Applies one intent: changes the room table, the subscription set and
    /// the registry as the sequential model says, and returns the messages
    /// to send, in order.
    pub fn step(&mut self, registry: &mut Registry, message: &Message) -> (out: Vec<Delivery>)
        requires
            old(self).wf(),
            old(registry).wf(),
        ensures
            final(self).wf(),
            final(registry).wf(),
            final(registry).next_id() == old(registry).next_id(),
            (Outcome {
                state: final(self)@,
                registry: final(registry)@,
                deliveries: delivery_views(out@),
            }) == step_model(old(self)@, old(registry)@, message@),
    {
        match message {
            Message::Ping => nothing(),
            Message::RemoveFromListMatches { id } => {
                self.unlist_matches(*id);
                nothing()
            },
            Message::ListMatches { id } => self.list_matches(registry, *id),
            Message::JoinMatch { id, room_id } => self.join_match(registry, *id, *room_id),
            Message::NewMatch { id, room_name } => self.create_match(registry, *id, room_name),
            Message::DeleteMatch { id, room_id } => self.delete_match(registry, *id, *room_id),
            Message::LeaveMatch { id, room_id } => self.leave_match(registry, *id, *room_id),
            Message::StartMatch { id, room_id, map } => self.start_match(registry, *room_id),
            Message::Disconnected { id } => {
                self.drop_session(registry, *id);
                nothing()
            },
        }
    }

    /// Applies a list of intents, one after the other. The state, the
    /// registry and the messages are those of the sequential model.
    pub fn replay(&mut self, registry: &mut Registry, intents: &Vec<Message>) -> (out: Vec<
        Delivery,
    >)
        requires
            old(self).wf(),
            old(registry).wf(),
        ensures
            final(self).wf(),
            final(registry).wf(),
            final(registry).next_id() == old(registry).next_id(),
            (Outcome {
                state: final(self)@,
                registry: final(registry)@,
                deliveries: delivery_views(out@),
            }) == replay_model(old(self)@, old(registry)@, message_views(intents@)),
    {
        let mut out: Vec<Delivery> = nothing();
        let mut i: usize = 0;
        assert(message_views(intents@).take(0) =~= Seq::<MessageView>::empty());
        while i < intents.len()
            invariant
                self.wf(),
                registry.wf(),
                registry.next_id() == old(registry).next_id(),
                i <= intents@.len(),
                (Outcome { state: self@, registry: registry@, deliveries: delivery_views(out@) })
                    == replay_model(
                    old(self)@,
                    old(registry)@,
                    message_views(intents@).take(i as int),
                ),
            decreases intents@.len() - i,
        {
            proof {
                let upto = message_views(intents@).take(i + 1);
                assert(upto.drop_last() =~= message_views(intents@).take(i as int));
                assert(upto.last() == intents@[i as int]@);
            }
            let sent = self.step(registry, &intents[i]);
            out = joined(out, sent);
            i += 1;
        }
        assert(message_views(intents@).take(i as int) =~= message_views(intents@));
        out
    }
}

} // verus!
