//! What holds of the coordinator's sequential model in every state.

use crate::coordinator::{
    after_create, after_join, after_list, has_room, is_dropped, join_notices, other_than,
    replay_model, room_index, room_list, state_wf, step_model, subscribed, unchanged, without,
    CoordinatorView, MatchView, MessageView,
};
use crate::packet::{DeliveryView, PacketView};
use crate::session::{run_model, ClientState, EventView, ReactionView};
use crate::registry::{
    distinct_ids, has_session, lemma_sessions_of_all_known, session_index, session_of,
    sessions_of, with_match, with_name, without_session, ClientView, NO_MATCH,
};
use vstd::prelude::*;

verus! {

/// Every step keeps the invariants: room ids stay distinct and within what
/// the counter has handed out, no id watches the room list twice, and no two
/// sessions share an id.
pub proof fn lemma_step_keeps_invariant(s: CoordinatorView, reg: Seq<ClientView>, m: MessageView)
    requires
        state_wf(s),
        distinct_ids(reg),
    ensures
        state_wf(step_model(s, reg, m).state),
        distinct_ids(step_model(s, reg, m).registry),
        step_model(s, reg, m).state.serial >= s.serial,
{
    match m {
        MessageView::Ping => {},
        MessageView::RemoveFromListMatches { id } => {
            lemma_unsubscribed_is_a_set(s.subscribers, id);
        },
        MessageView::ListMatches { id } => {
            lemma_subscribed_is_a_set(s.subscribers, id);
        },
        MessageView::JoinMatch { id, room_id } => {
            if has_session(reg, id) && has_room(s.rooms, room_id) {
                lemma_unsubscribed_is_a_set(s.subscribers, id);
                let k = room_index(s.rooms, room_id);
                let at = session_index(reg, id);
                assert(0 <= k < s.rooms.len() && 0 <= at < reg.len());
            }
        },
        MessageView::NewMatch { id, room_name } => {
            if has_session(reg, id) && s.serial < i32::MAX {
                let at = session_index(reg, id);
                assert(0 <= at < reg.len());
            }
        },
        MessageView::DeleteMatch { id, room_id } => {
            if has_session(reg, id) && has_room(s.rooms, room_id) {
                let k = room_index(s.rooms, room_id);
                let at = session_index(reg, id);
                assert(0 <= k < s.rooms.len() && 0 <= at < reg.len());
            }
        },
        MessageView::LeaveMatch { id, room_id } => {
            if has_session(reg, id) && has_room(s.rooms, room_id) {
                let k = room_index(s.rooms, room_id);
                let at = session_index(reg, id);
                assert(0 <= k < s.rooms.len() && 0 <= at < reg.len());
            }
        },
        MessageView::StartMatch { id, room_id, map } => {
            if has_room(s.rooms, room_id) {
                let k = room_index(s.rooms, room_id);
                assert(0 <= k < s.rooms.len());
            }
        },
        MessageView::Disconnected { id } => {
            if has_session(reg, id) {
                let at = session_index(reg, id);
                assert(0 <= at < reg.len());
                let room_id = reg[at].match_id;
                if room_id != NO_MATCH && has_room(s.rooms, room_id) {
                    let k = room_index(s.rooms, room_id);
                    assert(0 <= k < s.rooms.len());
                }
            }
        },
    }
}

proof fn lemma_subscribed_is_a_set(subs: Seq<i32>, id: i32)
    requires
        subs.no_duplicates(),
    ensures
        crate::coordinator::subscribed(subs, id).no_duplicates(),
        crate::coordinator::subscribed(subs, id).contains(id),
{
    let after = crate::coordinator::subscribed(subs, id);
    if !subs.contains(id) {
        assert forall|a: int, b: int|
            0 <= a < after.len() && 0 <= b < after.len() && a != b implies after[a] != after[b] by {
            if a < subs.len() {
                assert(subs.contains(subs[a]));
            }
            if b < subs.len() {
                assert(subs.contains(subs[b]));
            }
        }
        assert(after[subs.len() as int] == id);
    }
}

proof fn lemma_unsubscribed_is_a_set(subs: Seq<i32>, id: i32)
    requires
        subs.no_duplicates(),
    ensures
        crate::coordinator::unsubscribed(subs, id).no_duplicates(),
        !crate::coordinator::unsubscribed(subs, id).contains(id),
{
    let after = crate::coordinator::unsubscribed(subs, id);
    if subs.contains(id) {
        let k = subs.index_of(id);
        assert(0 <= k < subs.len() && subs[k] == id);
        assert forall|a: int| 0 <= a < after.len() implies after[a] != id by {
            if a < k {
                assert(after[a] == subs[a]);
            } else {
                assert(after[a] == subs[a + 1]);
            }
        }
    }
}

/// Every list of intents, applied in order, keeps the invariants: whatever
/// the order in which intents of many sessions reach the coordinator, no
/// room entry is left half made.
pub proof fn lemma_replay_keeps_invariant(
    s: CoordinatorView,
    reg: Seq<ClientView>,
    intents: Seq<MessageView>,
)
    requires
        state_wf(s),
        distinct_ids(reg),
    ensures
        state_wf(replay_model(s, reg, intents).state),
        distinct_ids(replay_model(s, reg, intents).registry),
    decreases intents.len(),
{
    if intents.len() > 0 {
        lemma_replay_keeps_invariant(s, reg, intents.drop_last());
        let before = replay_model(s, reg, intents.drop_last());
        lemma_step_keeps_invariant(before.state, before.registry, intents.last());
    }
}

/// An intent that names a room which does not exist changes nothing and
/// sends nothing: not the room table, not the subscription set, not the
/// registry.
pub proof fn lemma_unknown_room_is_no_op(
    s: CoordinatorView,
    reg: Seq<ClientView>,
    id: i32,
    room_id: i32,
    map: Seq<char>,
)
    requires
        !has_room(s.rooms, room_id),
    ensures
        step_model(s, reg, MessageView::DeleteMatch { id, room_id }) == unchanged(s, reg),
        step_model(s, reg, MessageView::JoinMatch { id, room_id }) == unchanged(s, reg),
        step_model(s, reg, MessageView::LeaveMatch { id, room_id }) == unchanged(s, reg),
        step_model(s, reg, MessageView::StartMatch { id, room_id, map }) == unchanged(s, reg),
{
}

/// A session that opens a room is its owner and its only member, and its
/// session record names the room.
pub proof fn lemma_creator_is_in_its_room(
    s: CoordinatorView,
    reg: Seq<ClientView>,
    id: i32,
    room_name: Seq<char>,
)
    requires
        state_wf(s),
        distinct_ids(reg),
        has_session(reg, id),
        s.serial < i32::MAX,
    ensures
        ({
            let after = after_create(s, reg, id, room_name);
            let room_id = (s.serial + 1) as i32;
            &&& has_room(after.state.rooms, room_id)
            &&& after.state.rooms[room_index(after.state.rooms, room_id)] == (MatchView {
                id: room_id,
                owner_id: id,
                name: room_name,
                clients: seq![id],
                started: false,
            })
            &&& has_session(after.registry, id)
            &&& session_of(after.registry, id).match_id == room_id
            &&& session_of(after.registry, id).name == session_of(reg, id).name
        }),
{
    let after = after_create(s, reg, id, room_name);
    let room_id = (s.serial + 1) as i32;
    let last = s.rooms.len() as int;
    assert(after.state.rooms[last].id == room_id);
    let k = room_index(after.state.rooms, room_id);
    assert(0 <= k < after.state.rooms.len() && after.state.rooms[k].id == room_id);
    assert(k == last);
    let at = session_index(reg, id);
    assert(0 <= at < reg.len() && reg[at].id == id);
    assert(after.registry[at].id == id);
    let at2 = session_index(after.registry, id);
    assert(0 <= at2 < after.registry.len() && after.registry[at2].id == id);
    assert(at2 == at);
}

/// How many of a list of deliveries go to one session.
pub open spec fn count_to(deliveries: Seq<DeliveryView>, to: i32) -> nat
    decreases deliveries.len(),
{
    if deliveries.len() == 0 {
        0
    } else {
        count_to(deliveries.drop_last(), to) + if deliveries.last().to == to {
            1nat
        } else {
            0nat
        }
    }
}

/// How many of a list of sessions have one id.
pub open spec fn count_id(list: Seq<ClientView>, id: i32) -> nat
    decreases list.len(),
{
    if list.len() == 0 {
        0
    } else {
        count_id(list.drop_last(), id) + if list.last().id == id {
            1nat
        } else {
            0nat
        }
    }
}

proof fn lemma_count_join_notices(
    others: Seq<ClientView>,
    joiner: ClientView,
    room_id: i32,
    room_name: Seq<char>,
    to: i32,
)
    ensures
        count_to(join_notices(others, joiner, room_id, room_name), to) == count_id(others, to) + (
        if to == joiner.id {
            others.len()
        } else {
            0
        }),
    decreases others.len(),
{
    let all = join_notices(others, joiner, room_id, room_name);
    if others.len() > 0 {
        let front = others.drop_last();
        let fewer = join_notices(front, joiner, room_id, room_name);
        lemma_count_join_notices(front, joiner, room_id, room_name, to);
        let n = others.len() as int;
        let shorter = all.drop_last();
        assert(shorter.drop_last() =~= fewer);
        assert(all.last().to == others[n - 1].id);
        assert(shorter.last().to == joiner.id);
        assert(count_to(shorter, to) == count_to(fewer, to) + if joiner.id == to {
            1nat
        } else {
            0nat
        });
        assert(count_to(all, to) == count_to(shorter, to) + if others[n - 1].id == to {
            1nat
        } else {
            0nat
        });
    } else {
        assert(all.len() == 0);
    }
}

proof fn lemma_count_distinct(list: Seq<ClientView>, k: int)
    requires
        0 <= k < list.len(),
        distinct_ids(list),
    ensures
        count_id(list, list[k].id) == 1,
    decreases list.len(),
{
    let front = list.drop_last();
    if k == list.len() - 1 {
        lemma_count_absent(front, list[k].id);
    } else {
        lemma_count_distinct(front, k);
    }
}

proof fn lemma_count_absent(list: Seq<ClientView>, id: i32)
    requires
        forall|i: int| 0 <= i < list.len() ==> list[i].id != id,
    ensures
        count_id(list, id) == 0,
    decreases list.len(),
{
    if list.len() > 0 {
        lemma_count_absent(list.drop_last(), id);
    }
}

proof fn lemma_without_absent(ids: Seq<i32>, id: i32)
    requires
        forall|i: int| 0 <= i < ids.len() ==> ids[i] != id,
    ensures
        without(ids, id) == ids,
    decreases ids.len(),
{
    reveal(Seq::filter);
    if ids.len() > 0 {
        lemma_without_absent(ids.drop_last(), id);
        assert(ids.drop_last().push(ids.last()) =~= ids);
    } else {
        assert(without(ids, id) =~= ids);
    }
}

/// Joining a room of N members, each with a session and none of them the
/// joiner nor listed twice, sends 2N notices: N of them to the joiner, one
/// about each member, and one to each member, about the joiner.
pub proof fn lemma_join_notice_count(
    s: CoordinatorView,
    reg: Seq<ClientView>,
    id: i32,
    room_id: i32,
    k: int,
)
    requires
        state_wf(s),
        distinct_ids(reg),
        has_session(reg, id),
        has_room(s.rooms, room_id),
        ({
            let members = s.rooms[room_index(s.rooms, room_id)].clients;
            &&& members.no_duplicates()
            &&& forall|i: int|
                0 <= i < members.len() ==> has_session(reg, #[trigger] members[i]) && members[i]
                    != id
            &&& 0 <= k < members.len()
        }),
    ensures
        ({
            let members = s.rooms[room_index(s.rooms, room_id)].clients;
            let sent = after_join(s, reg, id, room_id).deliveries;
            &&& sent.len() == 2 * members.len()
            &&& count_to(sent, id) == members.len()
            &&& count_to(sent, members[k]) == 1
            &&& sent[2 * k].to == id
            &&& sent[2 * k].packet == crate::coordinator::joined_notice(
                room_id,
                s.rooms[room_index(s.rooms, room_id)].name,
                session_of(reg, members[k]),
            )
            &&& sent[2 * k + 1] == (DeliveryView {
                to: members[k],
                packet: crate::coordinator::joined_notice(
                    room_id,
                    s.rooms[room_index(s.rooms, room_id)].name,
                    session_of(reg, id),
                ),
            })
        }),
{
    let room = s.rooms[room_index(s.rooms, room_id)];
    let members = room.clients;
    let joiner = session_of(reg, id);
    let at = session_index(reg, id);
    assert(0 <= at < reg.len() && reg[at].id == id);
    lemma_without_absent(members, id);
    lemma_sessions_of_all_known(reg, members);
    let others = sessions_of(reg, members);
    let sent = after_join(s, reg, id, room_id).deliveries;
    assert(sent == join_notices(others, joiner, room_id, room.name));
    assert forall|i: int, j: int| 0 <= i < j < others.len() implies others[i].id != others[j].id by {
        assert(others[i].id == members[i]);
        assert(others[j].id == members[j]);
    }
    assert forall|i: int| 0 <= i < others.len() implies others[i].id != id by {
        assert(others[i].id == members[i]);
    }
    lemma_count_join_notices(others, joiner, room_id, room.name, id);
    lemma_count_absent(others, id);
    lemma_count_join_notices(others, joiner, room_id, room.name, members[k]);
    assert(others[k].id == members[k]);
    lemma_count_distinct(others, k);
    assert(others[k] == session_of(reg, members[k]));
}

/// Joining a room without members sends nothing.
pub proof fn lemma_join_empty_room_is_silent(
    s: CoordinatorView,
    reg: Seq<ClientView>,
    id: i32,
    room_id: i32,
)
    requires
        has_session(reg, id),
        has_room(s.rooms, room_id),
        s.rooms[room_index(s.rooms, room_id)].clients.len() == 0,
    ensures
        after_join(s, reg, id, room_id).deliveries == Seq::<DeliveryView>::empty(),
{
    let members = s.rooms[room_index(s.rooms, room_id)].clients;
    lemma_without_absent(members, id);
    assert(after_join(s, reg, id, room_id).deliveries =~= Seq::<DeliveryView>::empty());
}

/// A dropped intent changes nothing and sends nothing.
pub proof fn lemma_dropped_changes_nothing(s: CoordinatorView, reg: Seq<ClientView>, m: MessageView)
    requires
        is_dropped(s, reg, m),
    ensures
        step_model(s, reg, m) == unchanged(s, reg),
{
}

/// The room table and the registry agree: the session of every member of a
/// room names that room.
pub open spec fn agreement(rooms: Seq<MatchView>, reg: Seq<ClientView>) -> bool {
    forall|k: int, j: int|
        0 <= k < rooms.len() && 0 <= j < rooms[k].clients.len() && has_session(
            reg,
            #[trigger] rooms[k].clients[j],
        ) ==> session_of(reg, rooms[k].clients[j]).match_id == rooms[k].id
}

/// A session is a member of no room but, at most, the one with this id.
pub open spec fn in_no_other_room(rooms: Seq<MatchView>, id: i32, room_id: i32) -> bool {
    forall|k: int, j: int|
        0 <= k < rooms.len() && 0 <= j < rooms[k].clients.len() && rooms[k].id != room_id
            ==> #[trigger] rooms[k].clients[j] != id
}

/// An intent as a handler sends it: a session opens or joins a room only
/// while it is in no other, and leaves or deletes only the room it is in.
pub open spec fn is_orderly(s: CoordinatorView, m: MessageView) -> bool {
    match m {
        MessageView::NewMatch { id, room_name } => in_no_other_room(s.rooms, id, 0),
        MessageView::JoinMatch { id, room_id } => in_no_other_room(s.rooms, id, room_id),
        MessageView::LeaveMatch { id, room_id } => in_no_other_room(s.rooms, id, room_id),
        MessageView::DeleteMatch { id, room_id } => in_no_other_room(s.rooms, id, room_id),
        _ => true,
    }
}

proof fn lemma_with_match_moves_one(reg: Seq<ClientView>, id: i32, match_id: i32, x: i32)
    requires
        distinct_ids(reg),
    ensures
        has_session(with_match(reg, id, match_id), x) == has_session(reg, x),
        has_session(reg, x) && x != id ==> session_of(with_match(reg, id, match_id), x)
            == session_of(reg, x),
        has_session(reg, id) ==> session_of(with_match(reg, id, match_id), id).match_id
            == match_id,
{
    let after = with_match(reg, id, match_id);
    if has_session(reg, id) {
        let at = session_index(reg, id);
        assert(0 <= at < reg.len() && reg[at].id == id);
        assert(after[at].id == id);
        assert forall|i: int| 0 <= i < reg.len() implies (#[trigger] after[i]).id == reg[i].id by {}
        if has_session(reg, x) {
            let i = session_index(reg, x);
            assert(0 <= i < reg.len() && reg[i].id == x);
            assert(after[i].id == x);
            let i2 = session_index(after, x);
            assert(0 <= i2 < after.len() && after[i2].id == x);
            assert(reg[i2].id == x);
            assert(i2 == i);
        }
        if has_session(after, x) {
            let i = session_index(after, x);
            assert(0 <= i < after.len() && after[i].id == x);
            assert(reg[i].id == x);
        }
    }
}

proof fn lemma_without_session_drops_one(reg: Seq<ClientView>, id: i32, x: i32)
    requires
        distinct_ids(reg),
        has_session(reg, id),
    ensures
        !has_session(without_session(reg, id), id),
        x != id ==> has_session(without_session(reg, id), x) == has_session(reg, x),
        x != id && has_session(reg, x) ==> session_of(without_session(reg, id), x) == session_of(
            reg,
            x,
        ),
{
    let after = without_session(reg, id);
    let at = session_index(reg, id);
    assert(0 <= at < reg.len() && reg[at].id == id);
    assert forall|i: int| 0 <= i < after.len() implies #[trigger] after[i] == reg[if i < at {
        i
    } else {
        i + 1
    }] by {}
    if has_session(after, id) {
        let i = session_index(after, id);
        assert(0 <= i < after.len() && after[i].id == id);
    }
    if x != id {
        if has_session(reg, x) {
            let i = session_index(reg, x);
            assert(0 <= i < reg.len() && reg[i].id == x);
            let to = if i < at {
                i
            } else {
                i - 1
            };
            assert(after[to] == reg[i]);
            let i2 = session_index(after, x);
            assert(0 <= i2 < after.len() && after[i2].id == x);
            let from = if i2 < at {
                i2
            } else {
                i2 + 1
            };
            assert(after[i2] == reg[from]);
            assert(from == i);
        }
        if has_session(after, x) {
            let i = session_index(after, x);
            assert(0 <= i < after.len() && after[i].id == x);
            let from = if i < at {
                i
            } else {
                i + 1
            };
            assert(reg[from].id == x);
        }
    }
}

proof fn lemma_without_keeps_others(ids: Seq<i32>, id: i32, j: int)
    requires
        0 <= j < without(ids, id).len(),
    ensures
        without(ids, id)[j] != id,
        ids.contains(without(ids, id)[j]),
{
    ids.lemma_filter_pred(other_than(id), j);
    let x = without(ids, id)[j];
    assert(without(ids, id).contains(x));
    ids.lemma_filter_contains_rev(other_than(id), x);
}

/// An orderly step keeps the room table and the registry in agreement.
pub proof fn lemma_orderly_step_keeps_agreement(
    s: CoordinatorView,
    reg: Seq<ClientView>,
    m: MessageView,
)
    requires
        state_wf(s),
        distinct_ids(reg),
        agreement(s.rooms, reg),
        is_orderly(s, m),
    ensures
        agreement(step_model(s, reg, m).state.rooms, step_model(s, reg, m).registry),
{
    let after = step_model(s, reg, m);
    let rooms = after.state.rooms;
    let reg2 = after.registry;
    if is_dropped(s, reg, m) {
        assert(after == unchanged(s, reg));
    } else {
        match m {
            MessageView::NewMatch { id, room_name } => {
                let room_id = (s.serial + 1) as i32;
                assert forall|k: int, j: int|
                    0 <= k < rooms.len() && 0 <= j < rooms[k].clients.len() && has_session(
                        reg2,
                        #[trigger] rooms[k].clients[j],
                    ) implies session_of(reg2, rooms[k].clients[j]).match_id == rooms[k].id by {
                    let x = rooms[k].clients[j];
                    lemma_with_match_moves_one(reg, id, room_id, x);
                    if k < s.rooms.len() {
                        assert(rooms[k] == s.rooms[k]);
                        assert(s.rooms[k].id != 0);
                        assert(s.rooms[k].clients[j] != id);
                    }
                }
            },
            MessageView::JoinMatch { id, room_id } => {
                let k0 = room_index(s.rooms, room_id);
                assert(0 <= k0 < s.rooms.len() && s.rooms[k0].id == room_id);
                assert forall|k: int, j: int|
                    0 <= k < rooms.len() && 0 <= j < rooms[k].clients.len() && has_session(
                        reg2,
                        #[trigger] rooms[k].clients[j],
                    ) implies session_of(reg2, rooms[k].clients[j]).match_id == rooms[k].id by {
                    let x = rooms[k].clients[j];
                    lemma_with_match_moves_one(reg, id, room_id, x);
                    if k != k0 {
                        assert(rooms[k] == s.rooms[k]);
                        assert(s.rooms[k].clients[j] != id);
                    } else if j < s.rooms[k0].clients.len() {
                        assert(x == s.rooms[k0].clients[j]);
                    }
                }
            },
            MessageView::LeaveMatch { id, room_id } => {
                let k0 = room_index(s.rooms, room_id);
                assert(0 <= k0 < s.rooms.len() && s.rooms[k0].id == room_id);
                assert forall|k: int, j: int|
                    0 <= k < rooms.len() && 0 <= j < rooms[k].clients.len() && has_session(
                        reg2,
                        #[trigger] rooms[k].clients[j],
                    ) implies session_of(reg2, rooms[k].clients[j]).match_id == rooms[k].id by {
                    let x = rooms[k].clients[j];
                    lemma_with_match_moves_one(reg, id, NO_MATCH, x);
                    if k != k0 {
                        assert(rooms[k] == s.rooms[k]);
                        assert(s.rooms[k].clients[j] != id);
                    } else {
                        lemma_without_keeps_others(s.rooms[k0].clients, id, j);
                        let j0 = choose|j0: int|
                            0 <= j0 < s.rooms[k0].clients.len() && s.rooms[k0].clients[j0] == x;
                        assert(s.rooms[k0].clients[j0] == x);
                    }
                }
            },
            MessageView::DeleteMatch { id, room_id } => {
                let k0 = room_index(s.rooms, room_id);
                assert(0 <= k0 < s.rooms.len() && s.rooms[k0].id == room_id);
                assert forall|k: int, j: int|
                    0 <= k < rooms.len() && 0 <= j < rooms[k].clients.len() && has_session(
                        reg2,
                        #[trigger] rooms[k].clients[j],
                    ) implies session_of(reg2, rooms[k].clients[j]).match_id == rooms[k].id by {
                    let x = rooms[k].clients[j];
                    lemma_with_match_moves_one(reg, id, NO_MATCH, x);
                    let from = if k < k0 {
                        k
                    } else {
                        k + 1
                    };
                    assert(rooms[k] == s.rooms[from]);
                    assert(s.rooms[from].clients[j] != id);
                }
            },
            MessageView::StartMatch { id, room_id, map } => {
                let k0 = room_index(s.rooms, room_id);
                assert(0 <= k0 < s.rooms.len() && s.rooms[k0].id == room_id);
                assert forall|k: int, j: int|
                    0 <= k < rooms.len() && 0 <= j < rooms[k].clients.len() && has_session(
                        reg2,
                        #[trigger] rooms[k].clients[j],
                    ) implies session_of(reg2, rooms[k].clients[j]).match_id == rooms[k].id by {
                    assert(rooms[k].clients[j] == s.rooms[k].clients[j]);
                }
            },
            MessageView::Disconnected { id } => {
                let room_id = session_of(reg, id).match_id;
                let touched = room_id != NO_MATCH && has_room(s.rooms, room_id);
                let k0 = room_index(s.rooms, room_id);
                if touched {
                    assert(0 <= k0 < s.rooms.len() && s.rooms[k0].id == room_id);
                }
                assert forall|k: int, j: int|
                    0 <= k < rooms.len() && 0 <= j < rooms[k].clients.len() && has_session(
                        reg2,
                        #[trigger] rooms[k].clients[j],
                    ) implies session_of(reg2, rooms[k].clients[j]).match_id == rooms[k].id by {
                    let x = rooms[k].clients[j];
                    lemma_without_session_drops_one(reg, id, x);
                    if touched && k == k0 {
                        lemma_without_keeps_others(s.rooms[k0].clients, id, j);
                        let j0 = choose|j0: int|
                            0 <= j0 < s.rooms[k0].clients.len() && s.rooms[k0].clients[j0] == x;
                        assert(s.rooms[k0].clients[j0] == x);
                    } else {
                        assert(rooms[k] == s.rooms[k]);
                        assert(s.rooms[k].clients[j] == x);
                    }
                }
            },
            _ => {},
        }
    }
}

/// Every intent of a list is orderly in the state in which it is applied.
pub open spec fn is_orderly_run(
    s: CoordinatorView,
    reg: Seq<ClientView>,
    intents: Seq<MessageView>,
) -> bool
    decreases intents.len(),
{
    if intents.len() == 0 {
        true
    } else {
        is_orderly_run(s, reg, intents.drop_last()) && is_orderly(
            replay_model(s, reg, intents.drop_last()).state,
            intents.last(),
        )
    }
}

/// After every orderly list of intents the room table and the registry
/// agree.
pub proof fn lemma_orderly_run_keeps_agreement(
    s: CoordinatorView,
    reg: Seq<ClientView>,
    intents: Seq<MessageView>,
)
    requires
        state_wf(s),
        distinct_ids(reg),
        agreement(s.rooms, reg),
        is_orderly_run(s, reg, intents),
    ensures
        agreement(replay_model(s, reg, intents).state.rooms, replay_model(s, reg, intents).registry),
    decreases intents.len(),
{
    if intents.len() > 0 {
        let before = replay_model(s, reg, intents.drop_last());
        lemma_orderly_run_keeps_agreement(s, reg, intents.drop_last());
        lemma_replay_keeps_invariant(s, reg, intents.drop_last());
        lemma_orderly_step_keeps_agreement(before.state, before.registry, intents.last());
    }
}

proof fn lemma_with_name_names_one(reg: Seq<ClientView>, id: i32, name: Seq<char>)
    requires
        distinct_ids(reg),
        has_session(reg, id),
    ensures
        distinct_ids(with_name(reg, id, name)),
        has_session(with_name(reg, id, name), id),
        session_of(with_name(reg, id, name), id) == (ClientView {
            id,
            match_id: session_of(reg, id).match_id,
            name,
        }),
        with_name(reg, id, name).len() == reg.len(),
        forall|i: int|
            0 <= i < reg.len() && reg[i].id != id ==> #[trigger] with_name(reg, id, name)[i]
                == reg[i],
{
    let after = with_name(reg, id, name);
    let at = session_index(reg, id);
    assert(0 <= at < reg.len() && reg[at].id == id);
    assert(after[at].id == id);
    assert forall|i: int| 0 <= i < reg.len() implies (#[trigger] after[i]).id == reg[i].id by {}
    let at2 = session_index(after, id);
    assert(0 <= at2 < after.len() && after[at2].id == id);
    assert(reg[at2].id == id);
    assert(at2 == at);
}

/// A session in the menu that logs in and at once asks for a room: the
/// handler names the session in the registry, leaving the others as they
/// were, answers the login to the session itself, then forwards exactly one
/// intent to create the room and is the room's host. Once the coordinator
/// has applied that intent the session is the owner and only member of the
/// new room, and its record carries the name and the room's id.
pub proof fn lemma_login_then_create(
    s: CoordinatorView,
    reg: Seq<ClientView>,
    id: i32,
    name: Seq<char>,
    room_name: Seq<char>,
)
    requires
        state_wf(s),
        distinct_ids(reg),
        has_session(reg, id),
        s.serial < i32::MAX,
    ensures
        ({
            let events = seq![
                EventView::Received { packet: PacketView::LoginRequest { name } },
                EventView::Received { packet: PacketView::NewMatch { room_name } },
            ];
            let run = run_model(ClientState::Menu, id, events, reg);
            let intent = MessageView::NewMatch { id, room_name };
            let after = step_model(s, run.registry, intent);
            let room_id = (s.serial + 1) as i32;
            &&& run.reactions.len() == 2
            &&& run.reactions[0] == (ReactionView {
                next: ClientState::Menu,
                intent: None,
                replies: seq![DeliveryView { to: id, packet: PacketView::Login { id, name } }],
                relay_to: Seq::empty(),
            })
            &&& run.reactions[1] == (ReactionView {
                next: ClientState::MatchHost,
                intent: Some(intent),
                replies: Seq::empty(),
                relay_to: Seq::empty(),
            })
            &&& run.registry == with_name(reg, id, name)
            &&& run.registry.len() == reg.len()
            &&& forall|i: int|
                0 <= i < reg.len() && reg[i].id != id ==> #[trigger] run.registry[i] == reg[i]
            &&& after.state.rooms == s.rooms.push(
                MatchView {
                    id: room_id,
                    owner_id: id,
                    name: room_name,
                    clients: seq![id],
                    started: false,
                },
            )
            &&& has_session(after.registry, id)
            &&& session_of(after.registry, id) == (ClientView { id, match_id: room_id, name })
        }),
{
    let e0 = EventView::Received { packet: PacketView::LoginRequest { name } };
    let e1 = EventView::Received { packet: PacketView::NewMatch { room_name } };
    let events = seq![e0, e1];
    reveal_with_fuel(run_model, 3);
    assert(events.drop_first() =~= seq![e1]);
    assert(seq![e1].drop_first() =~= Seq::<EventView>::empty());
    assert(events[0] == e0);
    assert(seq![e1][0] == e1);
    let run = run_model(ClientState::Menu, id, events, reg);
    let named = with_name(reg, id, name);
    lemma_with_name_names_one(reg, id, name);
    assert(run.reactions =~= seq![run.reactions[0], run.reactions[1]]);
    assert(run.registry == named);
    lemma_creator_is_in_its_room(s, named, id, room_name);
    let room_id = (s.serial + 1) as i32;
    let after = after_create(s, named, id, room_name);
    lemma_with_match_moves_one(named, id, room_id, id);
    let at = session_index(named, id);
    assert(0 <= at < named.len() && named[at].id == id);
    assert(after.registry[at] == (ClientView { id, match_id: room_id, name }));
    let at2 = session_index(after.registry, id);
    assert(0 <= at2 < after.registry.len() && after.registry[at2].id == id);
    assert(named[at2].id == id);
    assert(at2 == at);
}

/// The coordinator before the first intent: no room, no subscriber, and
/// the counter at 0.
pub open spec fn initial_state() -> CoordinatorView {
    CoordinatorView { serial: 0, rooms: Seq::empty(), subscribers: Seq::empty() }
}

/// An intent to watch the room list from any id, or to open a room from an
/// id that has a session.
pub open spec fn is_list_or_create(reg: Seq<ClientView>, m: MessageView) -> bool {
    match m {
        MessageView::ListMatches { id } => true,
        MessageView::NewMatch { id, room_name } => has_session(reg, id),
        _ => false,
    }
}

/// The rooms that a list of intents opens, in the order of the list: one
/// whole room for each intent to open one, numbered from 1, with the
/// creator as its owner and only member.
pub open spec fn created_rooms(intents: Seq<MessageView>) -> Seq<MatchView>
    decreases intents.len(),
{
    if intents.len() == 0 {
        Seq::empty()
    } else {
        let before = created_rooms(intents.drop_last());
        match intents.last() {
            MessageView::NewMatch { id, room_name } => before.push(
                MatchView {
                    id: (before.len() + 1) as i32,
                    owner_id: id,
                    name: room_name,
                    clients: seq![id],
                    started: false,
                },
            ),
            _ => before,
        }
    }
}

/// The ids that a list of intents subscribes, each once, in the order in
/// which they first ask.
pub open spec fn listers(intents: Seq<MessageView>) -> Seq<i32>
    decreases intents.len(),
{
    if intents.len() == 0 {
        Seq::empty()
    } else {
        let before = listers(intents.drop_last());
        match intents.last() {
            MessageView::ListMatches { id } => subscribed(before, id),
            _ => before,
        }
    }
}

/// The notice that tells a creator of its room.
pub open spec fn created_notice(room: MatchView) -> DeliveryView {
    DeliveryView {
        to: room.owner_id,
        packet: PacketView::MatchCreated {
            id: room.id,
            owner_id: room.owner_id,
            room_name: room.name,
        },
    }
}

/// A delivery tells of whole rooms only: it is the room list of the first
/// so many rooms of a table, or the notice of one of its rooms.
pub open spec fn tells_of_whole_rooms(d: DeliveryView, rooms: Seq<MatchView>) -> bool {
    ||| exists|n: int| 0 <= n <= rooms.len() && d.packet == room_list(#[trigger] rooms.take(n))
    ||| exists|k: int| 0 <= k < rooms.len() && d == created_notice(#[trigger] rooms[k])
}

/// Two registries hold the same sessions under the same names; the rooms
/// that the sessions are in may differ.
pub open spec fn same_sessions(a: Seq<ClientView>, b: Seq<ClientView>) -> bool {
    &&& a.len() == b.len()
    &&& forall|i: int| 0 <= i < a.len() ==> (#[trigger] a[i]).id == b[i].id && a[i].name == b[i].name
}

/// Every room that a list of intents opens is whole: the room at place `k`
/// has the id `k + 1`, its creator is its owner and only member, and it has
/// not started. The room list shows it with one member.
pub proof fn lemma_created_rooms_are_whole(intents: Seq<MessageView>)
    ensures
        created_rooms(intents).len() <= intents.len(),
        forall|k: int|
            0 <= k < created_rooms(intents).len() ==> {
                let room = #[trigger] created_rooms(intents)[k];
                &&& room.id == (k + 1) as i32
                &&& room.clients == seq![room.owner_id]
                &&& !room.started
            },
    decreases intents.len(),
{
    if intents.len() > 0 {
        lemma_created_rooms_are_whole(intents.drop_last());
    }
}

/// Sessions that watch the room list while others open rooms, in whatever
/// order their intents reach the coordinator: the table ends with exactly
/// the rooms that were asked for, each whole, numbered in the order of the
/// intents; the subscribers are the ids that asked; no session comes or
/// goes; and every message that was sent on the way is the list of the
/// first so many of those rooms or the notice of one of them, never a room
/// half made.
pub proof fn lemma_listing_while_creating(reg: Seq<ClientView>, intents: Seq<MessageView>)
    requires
        distinct_ids(reg),
        intents.len() < i32::MAX,
        forall|k: int| 0 <= k < intents.len() ==> is_list_or_create(reg, #[trigger] intents[k]),
    ensures
        ({
            let end = replay_model(initial_state(), reg, intents);
            &&& end.state.rooms == created_rooms(intents)
            &&& end.state.serial == created_rooms(intents).len()
            &&& end.state.subscribers == listers(intents)
            &&& same_sessions(end.registry, reg)
            &&& forall|j: int|
                0 <= j < end.deliveries.len() ==> tells_of_whole_rooms(
                    #[trigger] end.deliveries[j],
                    created_rooms(intents),
                )
        }),
    decreases intents.len(),
{
    let end = replay_model(initial_state(), reg, intents);
    if intents.len() > 0 {
        let front = intents.drop_last();
        let m = intents.last();
        assert forall|k: int| 0 <= k < front.len() implies is_list_or_create(
            reg,
            #[trigger] front[k],
        ) by {
            assert(front[k] == intents[k]);
        }
        lemma_listing_while_creating(reg, front);
        lemma_created_rooms_are_whole(front);
        let before = replay_model(initial_state(), reg, front);
        let old_rooms = created_rooms(front);
        let rooms = created_rooms(intents);
        let last = step_model(before.state, before.registry, m);
        assert(end.deliveries == before.deliveries + last.deliveries);
        assert(is_list_or_create(reg, m));
        match m {
            MessageView::ListMatches { id } => {
                assert(rooms == old_rooms);
                assert(last == after_list(before.state, before.registry, id));
                assert forall|j: int| 0 <= j < end.deliveries.len() implies tells_of_whole_rooms(
                    #[trigger] end.deliveries[j],
                    rooms,
                ) by {
                    if j >= before.deliveries.len() {
                        let d = last.deliveries[j - before.deliveries.len()];
                        assert(d.packet == room_list(rooms));
                        assert(rooms.take(rooms.len() as int) =~= rooms);
                    } else {
                        assert(end.deliveries[j] == before.deliveries[j]);
                    }
                }
            },
            MessageView::NewMatch { id, room_name } => {
                let at = session_index(reg, id);
                assert(0 <= at < reg.len() && reg[at].id == id);
                assert(before.registry[at].id == id);
                assert(has_session(before.registry, id));
                assert(before.state.serial < i32::MAX);
                assert(last == after_create(before.state, before.registry, id, room_name));
                let room_id = (before.state.serial + 1) as i32;
                let room = MatchView {
                    id: room_id,
                    owner_id: id,
                    name: room_name,
                    clients: seq![id],
                    started: false,
                };
                assert(rooms == old_rooms.push(room));
                assert(end.state.rooms == rooms);
                let at2 = session_index(before.registry, id);
                assert(0 <= at2 < before.registry.len() && before.registry[at2].id == id);
                assert(same_sessions(end.registry, reg)) by {
                    assert forall|i: int| 0 <= i < end.registry.len() implies (
                    #[trigger] end.registry[i]).id == reg[i].id && end.registry[i].name
                        == reg[i].name by {
                        assert(before.registry[i].id == reg[i].id);
                    }
                }
                assert forall|j: int| 0 <= j < end.deliveries.len() implies tells_of_whole_rooms(
                    #[trigger] end.deliveries[j],
                    rooms,
                ) by {
                    let d = end.deliveries[j];
                    let n0 = before.deliveries.len() as int;
                    if j < n0 {
                        assert(d == before.deliveries[j]);
                        assert(tells_of_whole_rooms(d, old_rooms));
                        if exists|n: int|
                            0 <= n <= old_rooms.len() && d.packet == room_list(
                                #[trigger] old_rooms.take(n),
                            ) {
                            let n = choose|n: int|
                                0 <= n <= old_rooms.len() && d.packet == room_list(
                                    #[trigger] old_rooms.take(n),
                                );
                            assert(rooms.take(n) =~= old_rooms.take(n));
                        } else {
                            let k = choose|k: int|
                                0 <= k < old_rooms.len() && d == created_notice(
                                    #[trigger] old_rooms[k],
                                );
                            assert(rooms[k] == old_rooms[k]);
                        }
                    } else if j == n0 {
                        assert(d == last.deliveries[0]);
                        assert(rooms[old_rooms.len() as int] == room);
                        assert(d == created_notice(rooms[old_rooms.len() as int]));
                    } else {
                        assert(d == last.deliveries[j - n0]);
                        assert(d.packet == room_list(rooms));
                        assert(rooms.take(rooms.len() as int) =~= rooms);
                    }
                }
            },
            _ => {},
        }
    } else {
        assert(end.deliveries.len() == 0);
    }
}

/// The room list of the first `n` rooms that a list of intents opens shows
/// each of them whole: its id, its name, and one member.
pub proof fn lemma_lists_show_whole_rooms(intents: Seq<MessageView>, n: int, k: int)
    requires
        0 <= k < n <= created_rooms(intents).len(),
    ensures
        room_list(created_rooms(intents).take(n)) matches PacketView::MatchList { matches }
            && matches.len() == n && matches[k] == (
            (k + 1) as i32,
            created_rooms(intents)[k].name,
            1i32,
        ),
{
    lemma_created_rooms_are_whole(intents);
    let rooms = created_rooms(intents);
    assert(rooms.take(n)[k] == rooms[k]);
    assert(rooms[k].clients.len() == 1);
}

/// No two intents of a list open a room for the same session.
pub open spec fn distinct_creators(intents: Seq<MessageView>) -> bool {
    forall|a: int, b: int|
        0 <= a < b < intents.len() && (#[trigger] intents[a]) is NewMatch && (
        #[trigger] intents[b]) is NewMatch ==> intents[a]->NewMatch_id != intents[b]->NewMatch_id
}

proof fn lemma_owners_are_creators(intents: Seq<MessageView>, k: int)
    requires
        0 <= k < created_rooms(intents).len(),
    ensures
        exists|a: int|
            0 <= a < intents.len() && (#[trigger] intents[a]) is NewMatch
                && intents[a]->NewMatch_id == created_rooms(intents)[k].owner_id,
    decreases intents.len(),
{
    let front = intents.drop_last();
    let last = intents.len() - 1;
    if intents[last] is NewMatch && k == created_rooms(front).len() {
        assert(intents[last]->NewMatch_id == created_rooms(intents)[k].owner_id);
    } else {
        assert(created_rooms(intents)[k] == created_rooms(front)[k]);
        lemma_owners_are_creators(front, k);
        let a = choose|a: int|
            0 <= a < front.len() && (#[trigger] front[a]) is NewMatch && front[a]->NewMatch_id
                == created_rooms(front)[k].owner_id;
        assert(intents[a] == front[a]);
    }
}

/// Where every room is opened by another session, each creator's record
/// names the room that it opened, whatever the order in which the intents
/// to open rooms and to watch the list reach the coordinator.
pub proof fn lemma_creators_are_in_their_rooms(reg: Seq<ClientView>, intents: Seq<MessageView>)
    requires
        distinct_ids(reg),
        intents.len() < i32::MAX,
        forall|k: int| 0 <= k < intents.len() ==> is_list_or_create(reg, #[trigger] intents[k]),
        distinct_creators(intents),
    ensures
        ({
            let end = replay_model(initial_state(), reg, intents);
            forall|k: int|
                0 <= k < created_rooms(intents).len() ==> {
                    let room = #[trigger] created_rooms(intents)[k];
                    &&& has_session(end.registry, room.owner_id)
                    &&& session_of(end.registry, room.owner_id).match_id == room.id
                }
        }),
    decreases intents.len(),
{
    let end = replay_model(initial_state(), reg, intents);
    if intents.len() > 0 {
        let front = intents.drop_last();
        let m = intents.last();
        let last_at = intents.len() - 1;
        assert forall|k: int| 0 <= k < front.len() implies is_list_or_create(
            reg,
            #[trigger] front[k],
        ) by {
            assert(front[k] == intents[k]);
        }
        assert(distinct_creators(front)) by {
            assert forall|a: int, b: int|
                0 <= a < b < front.len() && (#[trigger] front[a]) is NewMatch && (
                #[trigger] front[b]) is NewMatch implies front[a]->NewMatch_id
                != front[b]->NewMatch_id by {
                assert(front[a] == intents[a]);
                assert(front[b] == intents[b]);
            }
        }
        lemma_creators_are_in_their_rooms(reg, front);
        lemma_listing_while_creating(reg, front);
        lemma_listing_while_creating(reg, intents);
        lemma_created_rooms_are_whole(front);
        lemma_replay_keeps_invariant(initial_state(), reg, front);
        let before = replay_model(initial_state(), reg, front);
        let old_rooms = created_rooms(front);
        let rooms = created_rooms(intents);
        assert(is_list_or_create(reg, m));
        match m {
            MessageView::NewMatch { id, room_name } => {
                let at = session_index(reg, id);
                assert(0 <= at < reg.len() && reg[at].id == id);
                assert(before.registry[at].id == id);
                assert(has_session(before.registry, id));
                let room_id = (before.state.serial + 1) as i32;
                assert(end.registry == with_match(before.registry, id, room_id));
                assert forall|k: int| 0 <= k < rooms.len() implies {
                    let room = #[trigger] rooms[k];
                    &&& has_session(end.registry, room.owner_id)
                    &&& session_of(end.registry, room.owner_id).match_id == room.id
                } by {
                    let owner = rooms[k].owner_id;
                    lemma_with_match_moves_one(before.registry, id, room_id, owner);
                    if k < old_rooms.len() {
                        assert(rooms[k] == old_rooms[k]);
                        lemma_owners_are_creators(front, k);
                        let a = choose|a: int|
                            0 <= a < front.len() && (#[trigger] front[a]) is NewMatch
                                && front[a]->NewMatch_id == old_rooms[k].owner_id;
                        assert(intents[a] == front[a]);
                        assert(intents[last_at] is NewMatch);
                        assert(intents[a]->NewMatch_id != intents[last_at]->NewMatch_id);
                        assert(owner != id);
                    } else {
                        assert(owner == id);
                        assert(rooms[k].id == room_id);
                    }
                }
            },
            _ => {
                assert(rooms == old_rooms);
                assert(end.registry == before.registry);
            },
        }
    }
}

} // verus!
