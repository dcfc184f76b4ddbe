//! The protocol state machine of one reliable connection.
//!
//! A handler reads a message and asks [`react`] what to do with it. The
//! answer names the next state, the intent to hand to the coordinator, the
//! messages to encode and send, and the sessions to whom the bytes that were
//! received are to be written unchanged.

use crate::coordinator::{Message, MessageView};
use crate::packet::{delivery_views, Delivery, DeliveryView, Packet, PacketView, Vec3};
use crate::framing::{holds_frame, missing_bytes, read_model, ReadStepView};
use crate::registry::{
    client_views, has_session, lemma_members_are_in_the_room, room_members, roommates,
    with_name, Client, ClientView, Registry, NO_MATCH,
};
use vstd::prelude::*;

verus! {

/// The state of a connection.
#[derive(Debug, Clone, Copy, PartialEq, Eq, Structural)]
pub enum ClientState {
    /// Not in a room: the initial state.
    Menu,
    /// In a room that another session opened.
    MatchClient,
    /// In a room that this session opened.
    MatchHost,
    /// In a room that has started.
    InGame,
}

/// What a message calls for, before the registry is consulted.
#[derive(Debug, PartialEq, Eq)]
pub enum Action {
    /// The message is dropped.
    Ignore,
    /// The session takes a name and is sent a confirmation.
    Login { name: String },
    /// An intent goes to the coordinator; the bytes are not relayed.
    Forward { intent: Message },
    /// An intent goes to the coordinator, and the bytes to the room.
    ForwardAndRelay { intent: Message },
    /// The bytes go to one session.
    Unicast { target: i32 },
    /// The bytes go to the other members of the sender's room.
    Relay,
    /// Each member of a room is sent the place where it spawns.
    Spawn { room_id: i32, positions: Vec<Vec3> },
}

/// An [`Action`] with its texts and lists as sequences.
pub enum ActionView {
    Ignore,
    Login { name: Seq<char> },
    Forward { intent: MessageView },
    ForwardAndRelay { intent: MessageView },
    Unicast { target: i32 },
    Relay,
    Spawn { room_id: i32, positions: Seq<Vec3> },
}

impl View for Action {
    type V = ActionView;

    open spec fn view(&self) -> ActionView {
        match *self {
            Action::Ignore => ActionView::Ignore,
            Action::Login { name } => ActionView::Login { name: name@ },
            Action::Forward { intent } => ActionView::Forward { intent: intent@ },
            Action::ForwardAndRelay { intent } => ActionView::ForwardAndRelay { intent: intent@ },
            Action::Unicast { target } => ActionView::Unicast { target },
            Action::Relay => ActionView::Relay,
            Action::Spawn { room_id, positions } => ActionView::Spawn {
                room_id,
                positions: positions@,
            },
        }
    }
}

/// What a message does in a room, whoever opened it: a remote object call
/// that is not a broadcast goes to the session it names, and anything else
/// to the room.
pub open spec fn in_match_model(p: PacketView) -> ActionView {
    match p {
        PacketView::RemoteObjectCall { id, object_id, method, params, broadcast } => if broadcast {
            ActionView::Relay
        } else {
            ActionView::Unicast { target: id }
        },
        _ => ActionView::Relay,
    }
}

/// The transition table: the next state and the action for a message that
/// the session `id` sent in a state.
pub open spec fn transition_model(state: ClientState, id: i32, p: PacketView) -> (
    ClientState,
    ActionView,
) {
    match state {
        ClientState::Menu => match p {
            PacketView::LoginRequest { name } => (ClientState::Menu, ActionView::Login { name }),
            PacketView::RemoveFromListMatches => (
                ClientState::Menu,
                ActionView::Forward { intent: MessageView::RemoveFromListMatches { id } },
            ),
            PacketView::ListMatches => (
                ClientState::Menu,
                ActionView::Forward { intent: MessageView::ListMatches { id } },
            ),
            PacketView::JoinMatch { room_id } => (
                ClientState::MatchClient,
                ActionView::Forward { intent: MessageView::JoinMatch { id, room_id } },
            ),
            PacketView::NewMatch { room_name } => (
                ClientState::MatchHost,
                ActionView::Forward { intent: MessageView::NewMatch { id, room_name } },
            ),
            _ => (ClientState::Menu, ActionView::Ignore),
        },
        ClientState::MatchClient => match p {
            PacketView::LeaveMatch { room_id } => (
                ClientState::Menu,
                ActionView::Forward { intent: MessageView::LeaveMatch { id, room_id } },
            ),
            _ => (ClientState::MatchClient, in_match_model(p)),
        },
        ClientState::MatchHost => match p {
            PacketView::StartMatch { room_id, map } => (
                ClientState::MatchHost,
                ActionView::ForwardAndRelay { intent: MessageView::StartMatch { id, room_id, map } },
            ),
            PacketView::DeleteMatch { room_id } => (
                ClientState::Menu,
                ActionView::Forward { intent: MessageView::DeleteMatch { id, room_id } },
            ),
            PacketView::SpawnPlayers { room_id, positions } => (
                ClientState::MatchHost,
                ActionView::Spawn { room_id, positions },
            ),
            _ => (ClientState::MatchHost, in_match_model(p)),
        },
        ClientState::InGame => (ClientState::InGame, ActionView::Relay),
    }
}

fn in_match(packet: &Packet) -> (action: Action)
    ensures
        action@ == in_match_model(packet@),
{
    match packet {
        Packet::RemoteObjectCall { id, object_id, method, params, broadcast } => {
            if *broadcast {
                Action::Relay
            } else {
                Action::Unicast { target: *id }
            }
        },
        _ => Action::Relay,
    }
}

/// Looks a message up in the transition table.
pub fn transition(state: ClientState, id: i32, packet: &Packet) -> (next: (ClientState, Action))
    ensures
        (next.0, next.1@) == transition_model(state, id, packet@),
{
    match state {
        ClientState::Menu => match packet {
            Packet::LoginRequest { name } => (ClientState::Menu, Action::Login { name: name.clone() }),
            Packet::RemoveFromListMatches => (
                ClientState::Menu,
                Action::Forward { intent: Message::RemoveFromListMatches { id } },
            ),
            Packet::ListMatches => (
                ClientState::Menu,
                Action::Forward { intent: Message::ListMatches { id } },
            ),
            Packet::JoinMatch { room_id } => (
                ClientState::MatchClient,
                Action::Forward { intent: Message::JoinMatch { id, room_id: *room_id } },
            ),
            Packet::NewMatch { room_name } => (
                ClientState::MatchHost,
                Action::Forward { intent: Message::NewMatch { id, room_name: room_name.clone() } },
            ),
            _ => (ClientState::Menu, Action::Ignore),
        },
        ClientState::MatchClient => match packet {
            Packet::LeaveMatch { room_id } => (
                ClientState::Menu,
                Action::Forward { intent: Message::LeaveMatch { id, room_id: *room_id } },
            ),
            _ => (ClientState::MatchClient, in_match(packet)),
        },
        ClientState::MatchHost => match packet {
            Packet::StartMatch { room_id, map } => (
                ClientState::MatchHost,
                Action::ForwardAndRelay {
                    intent: Message::StartMatch { id, room_id: *room_id, map: map.clone() },
                },
            ),
            Packet::DeleteMatch { room_id } => (
                ClientState::Menu,
                Action::Forward { intent: Message::DeleteMatch { id, room_id: *room_id } },
            ),
            Packet::SpawnPlayers { room_id, positions } => {
                let mut copy: Vec<Vec3> = Vec::new();
                copy.extend_from_slice(positions.as_slice());
                assert(copy@ =~= positions@);
                (ClientState::MatchHost, Action::Spawn { room_id: *room_id, positions: copy })
            },
            _ => (ClientState::MatchHost, in_match(packet)),
        },
        ClientState::InGame => (ClientState::InGame, Action::Relay),
    }
}

/// The ids of a list of sessions.
pub open spec fn ids_of(list: Seq<ClientView>) -> Seq<i32> {
    Seq::new(list.len(), |i: int| list[i].id)
}

/// The spawn messages for the members of a room: the member at place `i`
/// is sent the position at place `i` modulo the number of positions, so that
/// the positions are dealt out in turn and start over when they run out.
/// Without a position nobody is sent anything.
pub open spec fn spawn_model(members: Seq<ClientView>, positions: Seq<Vec3>) -> Seq<DeliveryView> {
    if positions.len() == 0 {
        Seq::empty()
    } else {
        Seq::new(
            members.len(),
            |i: int|
                DeliveryView {
                    to: members[i].id,
                    packet: PacketView::Spawn { position: positions[i % (positions.len() as int)] },
                },
        )
    }
}

/// Deals the positions out to the members of a room.
pub fn spawn_messages(members: &Vec<Client>, positions: &Vec<Vec3>) -> (out: Vec<Delivery>)
    ensures
        delivery_views(out@) == spawn_model(client_views(members@), positions@),
{
    let mut out: Vec<Delivery> = Vec::new();
    if positions.len() == 0 {
        assert(delivery_views(out@) =~= Seq::<DeliveryView>::empty());
        return out;
    }
    let count: usize = positions.len();
    let mut i: usize = 0;
    let mut turn: usize = 0;
    while i < members.len()
        invariant
            count == positions@.len(),
            positions@.len() > 0,
            i <= members@.len(),
            turn < positions@.len(),
            turn == i as int % (positions@.len() as int),
            out@.len() == i,
            forall|j: int|
                0 <= j < i ==> (#[trigger] out@[j])@ == (DeliveryView {
                    to: members@[j].id,
                    packet: PacketView::Spawn { position: positions@[j % (positions@.len() as int)] },
                }),
        decreases members@.len() - i,
    {
        out.push(Delivery { to: members[i].id, packet: Packet::Spawn { position: positions[turn] } });
        proof {
            lemma_next_turn(i as int, positions@.len() as int);
        }
        turn = turn + 1;
        if turn >= count {
            turn = 0;
        }
        i += 1;
    }
    assert(delivery_views(out@) =~= spawn_model(client_views(members@), positions@));
    out
}

/// Counting up and starting over at `n` keeps step with the remainder.
proof fn lemma_next_turn(i: int, n: int)
    requires
        0 <= i,
        0 < n,
    ensures
        (i + 1) % n == if i % n + 1 >= n {
            0
        } else {
            i % n + 1
        },
{
    vstd::arithmetic::div_mod::lemma_fundamental_div_mod(i, n);
    vstd::arithmetic::div_mod::lemma_fundamental_div_mod(i + 1, n);
    vstd::arithmetic::div_mod::lemma_mod_bound(i, n);
    vstd::arithmetic::div_mod::lemma_mod_bound(i + 1, n);
    let q = i / n;
    let r = i % n;
    assert((q + 1) * n == n * q + n) by (nonlinear_arith);
    assert(q * n == n * q) by (nonlinear_arith);
    if r + 1 >= n {
        vstd::arithmetic::div_mod::lemma_fundamental_div_mod_converse(i + 1, n, q + 1, 0);
    } else {
        vstd::arithmetic::div_mod::lemma_fundamental_div_mod_converse(i + 1, n, q, r + 1);
    }
}

/// The ids of a list of sessions.
pub fn client_ids(list: &Vec<Client>) -> (out: Vec<i32>)
    ensures
        out@ == ids_of(client_views(list@)),
{
    let mut out: Vec<i32> = Vec::new();
    let mut i: usize = 0;
    while i < list.len()
        invariant
            i <= list@.len(),
            out@.len() == i,
            forall|j: int| 0 <= j < i ==> out@[j] == list@[j].id,
        decreases list@.len() - i,
    {
        out.push(list[i].id);
        i += 1;
    }
    assert(out@ =~= ids_of(client_views(list@)));
    out
}

/// What a handler does with one message.
#[derive(Debug, PartialEq, Eq)]
pub struct Reaction {
    /// The state of the connection from now on.
    pub next: ClientState,
    /// The intent to hand to the coordinator.
    pub intent: Option<Message>,
    /// The messages to encode and send.
    pub replies: Vec<Delivery>,
    /// The sessions to whom the received bytes are written unchanged.
    pub relay_to: Vec<i32>,
}

/// A [`Reaction`] with its parts as sequences.
pub struct ReactionView {
    pub next: ClientState,
    pub intent: Option<MessageView>,
    pub replies: Seq<DeliveryView>,
    pub relay_to: Seq<i32>,
}

/// The view of an intent that may be missing.
pub open spec fn intent_view(intent: Option<Message>) -> Option<MessageView> {
    match intent {
        Some(m) => Some(m@),
        None => None,
    }
}

impl View for Reaction {
    type V = ReactionView;

    open spec fn view(&self) -> ReactionView {
        ReactionView {
            next: self.next,
            intent: intent_view(self.intent),
            replies: delivery_views(self.replies@),
            relay_to: self.relay_to@,
        }
    }
}

/// The registry after the session `id` sent a message in a state: only a
/// login changes it.
pub open spec fn registry_after(
    state: ClientState,
    id: i32,
    p: PacketView,
    reg: Seq<ClientView>,
) -> Seq<ClientView> {
    match transition_model(state, id, p).1 {
        ActionView::Login { name } => with_name(reg, id, name),
        _ => reg,
    }
}

/// What the handler of the session `id` does with a message in a state,
/// given the registry as it stands.
pub open spec fn react_model(
    state: ClientState,
    id: i32,
    p: PacketView,
    reg: Seq<ClientView>,
) -> ReactionView {
    let (next, action) = transition_model(state, id, p);
    match action {
        ActionView::Ignore => ReactionView {
            next,
            intent: None,
            replies: Seq::empty(),
            relay_to: Seq::empty(),
        },
        ActionView::Login { name } => ReactionView {
            next,
            intent: None,
            replies: seq![DeliveryView { to: id, packet: PacketView::Login { id, name } }],
            relay_to: Seq::empty(),
        },
        ActionView::Forward { intent } => ReactionView {
            next,
            intent: Some(intent),
            replies: Seq::empty(),
            relay_to: Seq::empty(),
        },
        ActionView::ForwardAndRelay { intent } => ReactionView {
            next,
            intent: Some(intent),
            replies: Seq::empty(),
            relay_to: ids_of(roommates(reg, id)),
        },
        ActionView::Unicast { target } => ReactionView {
            next,
            intent: None,
            replies: Seq::empty(),
            relay_to: if has_session(reg, target) {
                seq![target]
            } else {
                Seq::empty()
            },
        },
        ActionView::Relay => ReactionView {
            next,
            intent: None,
            replies: Seq::empty(),
            relay_to: ids_of(roommates(reg, id)),
        },
        ActionView::Spawn { room_id, positions } => ReactionView {
            next,
            intent: None,
            replies: spawn_model(room_members(reg, room_id), positions),
            relay_to: Seq::empty(),
        },
    }
}

fn no_replies() -> (out: Vec<Delivery>)
    ensures
        delivery_views(out@) == Seq::<DeliveryView>::empty(),
{
    let out: Vec<Delivery> = Vec::new();
    assert(delivery_views(out@) =~= Seq::<DeliveryView>::empty());
    out
}

/// Decides what the handler of the session `id` does with a message that
/// it received in a state. A login writes the name into the registry;
/// nothing else changes it.
pub fn react(state: ClientState, id: i32, packet: &Packet, registry: &mut Registry) -> (r: Reaction)
    requires
        old(registry).wf(),
    ensures
        final(registry).wf(),
        final(registry).next_id() == old(registry).next_id(),
        final(registry)@ == registry_after(state, id, packet@, old(registry)@),
        r@ == react_model(state, id, packet@, old(registry)@),
{
    let (next, action) = transition(state, id, packet);
    match action {
        Action::Ignore => Reaction {
            next,
            intent: None,
            replies: no_replies(),
            relay_to: Vec::new(),
        },
        Action::Login { name } => {
            let mut replies: Vec<Delivery> = Vec::new();
            replies.push(Delivery { to: id, packet: Packet::Login { id, name: name.clone() } });
            assert(delivery_views(replies@) =~= seq![
                DeliveryView { to: id, packet: PacketView::Login { id, name: name@ } },
            ]);
            registry.set_name(id, name);
            Reaction { next, intent: None, replies, relay_to: Vec::new() }
        },
        Action::Forward { intent } => Reaction {
            next,
            intent: Some(intent),
            replies: no_replies(),
            relay_to: Vec::new(),
        },
        Action::ForwardAndRelay { intent } => {
            let relay_to = client_ids(&registry.peers_of(id));
            Reaction { next, intent: Some(intent), replies: no_replies(), relay_to }
        },
        Action::Unicast { target } => {
            let mut relay_to: Vec<i32> = Vec::new();
            if registry.contains(target) {
                relay_to.push(target);
                assert(relay_to@ =~= seq![target]);
            }
            Reaction { next, intent: None, replies: no_replies(), relay_to }
        },
        Action::Relay => {
            let relay_to = client_ids(&registry.peers_of(id));
            Reaction { next, intent: None, replies: no_replies(), relay_to }
        },
        Action::Spawn { room_id, positions } => {
            let replies = spawn_messages(&registry.members_of(room_id), &positions);
            Reaction { next, intent: None, replies, relay_to: Vec::new() }
        },
    }
}

/// What a handler's blocking read of the next frame came back with.
#[derive(Debug, PartialEq, Eq)]
pub enum Event {
    /// A whole frame that decodes to a message.
    Received { packet: Packet },
    /// A whole frame that is no message.
    Undecodable,
    /// The read failed or the peer closed the connection, at the prefix or
    /// within the payload.
    Closed,
}

/// An [`Event`] with its message by its view.
pub enum EventView {
    Received { packet: PacketView },
    Undecodable,
    Closed,
}

impl View for Event {
    type V = EventView;

    open spec fn view(&self) -> EventView {
        match *self {
            Event::Received { packet } => EventView::Received { packet: packet@ },
            Event::Undecodable => EventView::Undecodable,
            Event::Closed => EventView::Closed,
        }
    }
}

/// Whether the handler reads on after an event: it does after a message,
/// and ends after a closed connection and after a frame that is no message.
pub open spec fn reads_on(e: EventView) -> bool {
    e is Received
}

/// What the handler of the session `id` does on an event. A message is
/// handled by the transition table. A connection that ends, for either
/// reason, tells the coordinator that the session is gone and keeps the
/// state.
pub open spec fn handle_model(
    state: ClientState,
    id: i32,
    e: EventView,
    reg: Seq<ClientView>,
) -> ReactionView {
    match e {
        EventView::Received { packet } => react_model(state, id, packet, reg),
        _ => ReactionView {
            next: state,
            intent: Some(MessageView::Disconnected { id }),
            replies: Seq::empty(),
            relay_to: Seq::empty(),
        },
    }
}

/// The registry after an event: only a message can change it.
pub open spec fn registry_after_event(
    state: ClientState,
    id: i32,
    e: EventView,
    reg: Seq<ClientView>,
) -> Seq<ClientView> {
    match e {
        EventView::Received { packet } => registry_after(state, id, packet, reg),
        _ => reg,
    }
}

/// One turn of a handler's loop: decides what to do on an event, and
/// whether the loop goes on.
pub fn handle(state: ClientState, id: i32, event: &Event, registry: &mut Registry) -> (r: (
    Reaction,
    bool,
))
    requires
        old(registry).wf(),
    ensures
        final(registry).wf(),
        final(registry).next_id() == old(registry).next_id(),
        final(registry)@ == registry_after_event(state, id, event@, old(registry)@),
        r.0@ == handle_model(state, id, event@, old(registry)@),
        r.1 == reads_on(event@),
{
    match event {
        Event::Received { packet } => (react(state, id, packet, registry), true),
        _ => (
            Reaction {
                next: state,
                intent: Some(Message::Disconnected { id }),
                replies: no_replies(),
                relay_to: Vec::new(),
            },
            false,
        ),
    }
}

/// A connection that is in a started game stays there, whatever it sends.
pub proof fn lemma_in_game_is_final(id: i32, p: PacketView)
    ensures
        transition_model(ClientState::InGame, id, p) == (ClientState::InGame, ActionView::Relay),
{
}

/// A connection in a room goes back to the menu in two ways only: a member
/// by leaving the room, and the host by deleting it.
pub proof fn lemma_ways_back_to_menu(state: ClientState, id: i32, p: PacketView)
    requires
        state != ClientState::Menu,
    ensures
        transition_model(state, id, p).0 == ClientState::Menu <==> (state
            == ClientState::MatchClient && p is LeaveMatch) || (state == ClientState::MatchHost
            && p is DeleteMatch),
        transition_model(state, id, p).0 == ClientState::Menu || transition_model(state, id, p).0
            == state,
{
}

/// A host's spawn reaches the members of the room it names and nobody
/// else: the member at place `k` of the registry's order is sent exactly
/// one message, with the position at place `k` modulo the number of
/// positions. No intent is forwarded and nothing is relayed. A spawn that
/// names no room reaches nobody.
pub proof fn lemma_spawn_reaches_members_only(
    id: i32,
    room_id: i32,
    positions: Seq<Vec3>,
    reg: Seq<ClientView>,
    k: int,
)
    requires
        positions.len() > 0,
    ensures
        ({
            let r = react_model(
                ClientState::MatchHost,
                id,
                PacketView::SpawnPlayers { room_id, positions },
                reg,
            );
            let members = room_members(reg, room_id);
            &&& r.next == ClientState::MatchHost
            &&& r.intent is None
            &&& r.relay_to.len() == 0
            &&& r.replies.len() == members.len()
            &&& room_id == NO_MATCH ==> r.replies.len() == 0
            &&& 0 <= k < members.len() ==> {
                &&& 0 <= k % (positions.len() as int) < positions.len()
                &&& r.replies[k] == (DeliveryView {
                    to: members[k].id,
                    packet: PacketView::Spawn { position: positions[k % (positions.len() as int)] },
                })
                &&& reg.contains(members[k])
                &&& members[k].match_id == room_id
                &&& room_id != NO_MATCH
            }
        }),
{
    let members = room_members(reg, room_id);
    if 0 <= k < members.len() {
        vstd::arithmetic::div_mod::lemma_mod_bound(k, positions.len() as int);
        assert(members.contains(members[k]));
        lemma_members_are_in_the_room(reg, room_id, members[k]);
    }
}

/// The reactions of a list, each by its view.
pub open spec fn reaction_views(list: Seq<Reaction>) -> Seq<ReactionView> {
    Seq::new(list.len(), |i: int| list[i]@)
}

/// The events of a list, each by its view.
pub open spec fn event_views(list: Seq<Event>) -> Seq<EventView> {
    Seq::new(list.len(), |i: int| list[i]@)
}

/// What a handler's loop leaves behind: its reaction to each event that it
/// took, in order, and the registry.
pub struct RunView {
    pub reactions: Seq<ReactionView>,
    pub registry: Seq<ClientView>,
}

/// The handler's loop over the events of a connection, from a state: each
/// event is handled in the state that the one before left, and the loop
/// ends with the first event that is no message. Events behind that one are
/// not looked at.
pub open spec fn run_model(
    state: ClientState,
    id: i32,
    events: Seq<EventView>,
    reg: Seq<ClientView>,
) -> RunView
    decreases events.len(),
{
    if events.len() == 0 {
        RunView { reactions: Seq::empty(), registry: reg }
    } else {
        let first = handle_model(state, id, events[0], reg);
        let reg1 = registry_after_event(state, id, events[0], reg);
        if reads_on(events[0]) {
            let rest = run_model(first.next, id, events.drop_first(), reg1);
            RunView { reactions: seq![first] + rest.reactions, registry: rest.registry }
        } else {
            RunView { reactions: seq![first], registry: reg1 }
        }
    }
}

impl Client {
    /// Runs the handler of this session over the events that its connection
    /// brings, in order, starting in the menu, until an event ends the
    /// loop. Returns what the handler does on each event that it took. The
    /// caller performs each reaction; where other sessions act in between,
    /// it calls [`handle`] turn by turn instead.
    pub fn start(&self, events: &Vec<Event>, registry: &mut Registry) -> (out: Vec<Reaction>)
        requires
            old(registry).wf(),
        ensures
            final(registry).wf(),
            final(registry).next_id() == old(registry).next_id(),
            (RunView { reactions: reaction_views(out@), registry: final(registry)@ }) == run_model(
                ClientState::Menu,
                self.id,
                event_views(events@),
                old(registry)@,
            ),
    {
        let id: i32 = self.id;
        let ghost all = event_views(events@);
        let ghost target = run_model(ClientState::Menu, id, all, registry@);
        let mut out: Vec<Reaction> = Vec::new();
        let mut state = ClientState::Menu;
        let mut going = true;
        let mut i: usize = 0;
        assert(all.skip(0) =~= all);
        assert(reaction_views(out@) =~= Seq::<ReactionView>::empty());
        assert(Seq::<ReactionView>::empty() + target.reactions =~= target.reactions);
        while going && i < events.len()
            invariant
                registry.wf(),
                registry.next_id() == old(registry).next_id(),
                i <= events@.len(),
                all == event_views(events@),
                going ==> target == (RunView {
                    reactions: reaction_views(out@) + run_model(
                        state,
                        id,
                        all.skip(i as int),
                        registry@,
                    ).reactions,
                    registry: run_model(state, id, all.skip(i as int), registry@).registry,
                }),
                !going ==> target == (RunView {
                    reactions: reaction_views(out@),
                    registry: registry@,
                }),
            decreases events@.len() - i,
        {
            let ghost taken = reaction_views(out@);
            let ghost rest = all.skip(i as int);
            let ghost before = registry@;
            proof {
                assert(rest.len() > 0);
                assert(rest[0] == events@[i as int]@);
                assert(rest.drop_first() =~= all.skip(i + 1));
            }
            let (reaction, reads_on) = handle(state, id, &events[i], registry);
            let ghost first = reaction@;
            state = reaction.next;
            out.push(reaction);
            proof {
                assert(reaction_views(out@) =~= taken.push(first));
                let tail = run_model(state, id, all.skip(i + 1), registry@);
                assert(taken + (seq![first] + tail.reactions) =~= taken.push(first)
                    + tail.reactions);
                assert(taken + seq![first] =~= taken.push(first));
            }
            going = reads_on;
            i += 1;
        }
        proof {
            if going {
                assert(all.skip(i as int).len() == 0);
                assert(reaction_views(out@) + Seq::<ReactionView>::empty() =~= reaction_views(
                    out@,
                ));
            }
        }
        out
    }
}

/// A frame of which a part is still to come is not acted on. While the
/// connection is open the reader waits for the bytes that are missing; it
/// hands nothing to the handler, so nothing is decoded, answered, relayed or
/// forwarded. If the connection ends first, the handler forwards that the
/// session is gone, keeps its state, leaves the registry alone and stops.
pub proof fn lemma_partial_frame_is_not_acted_on(
    state: ClientState,
    id: i32,
    buf: Seq<u8>,
    reg: Seq<ClientView>,
)
    requires
        !holds_frame(buf),
    ensures
        read_model(buf, false) == (ReadStepView::Wait { missing: missing_bytes(buf) }),
        missing_bytes(buf) > 0,
        read_model(buf, true) == ReadStepView::Closed,
        handle_model(state, id, EventView::Closed, reg) == (ReactionView {
            next: state,
            intent: Some(MessageView::Disconnected { id }),
            replies: Seq::empty(),
            relay_to: Seq::empty(),
        }),
        !reads_on(EventView::Closed),
        registry_after_event(state, id, EventView::Closed, reg) == reg,
{
}

/// Once every declared byte has come the reader hands on exactly those
/// bytes, whether or not the connection has ended behind them.
pub proof fn lemma_whole_frame_is_read_exactly(payload: Seq<u8>, rest: Seq<u8>, closed: bool)
    requires
        payload.len() <= u32::MAX,
    ensures
        read_model(crate::framing::framed(payload) + rest, closed) == (ReadStepView::Frame {
            payload,
            consumed: 4 + payload.len(),
        }),
{
    crate::framing::lemma_frame_round_trip(payload, rest);
    crate::framing::lemma_be_round_trip(payload.len());
    let buf = crate::framing::framed(payload) + rest;
    assert(buf[0] == crate::framing::be_bytes(payload.len())[0]);
    assert(buf[1] == crate::framing::be_bytes(payload.len())[1]);
    assert(buf[2] == crate::framing::be_bytes(payload.len())[2]);
    assert(buf[3] == crate::framing::be_bytes(payload.len())[3]);
}

} // verus!
