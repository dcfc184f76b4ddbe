//! The registry of connected sessions, keyed by connection id.
//!
//! The registry holds what the server decides on: each session's id, its
//! display name and the room it is in. Every read hands out a copy, so that
//! a caller can send to the sessions of a snapshot after it has let go of
//! the registry.

use vstd::prelude::*;

verus! {

/// The room id of a session that is in no room.
pub const NO_MATCH: i32 = -1;

/// One connected session.
#[derive(Debug, Clone, PartialEq, Eq)]
pub struct Client {
    pub id: i32,
    pub match_id: i32,
    pub name: String,
}

/// A session with its name as a sequence of characters.
pub struct ClientView {
    pub id: i32,
    pub match_id: i32,
    pub name: Seq<char>,
}

impl View for Client {
    type V = ClientView;

    open spec fn view(&self) -> ClientView {
        ClientView { id: self.id, match_id: self.match_id, name: self.name@ }
    }
}

/// The sessions of a list, each by its view.
pub open spec fn client_views(list: Seq<Client>) -> Seq<ClientView> {
    Seq::new(list.len(), |i: int| list[i]@)
}

/// No two sessions share an id.
pub open spec fn distinct_ids(reg: Seq<ClientView>) -> bool {
    forall|i: int, j: int| 0 <= i < j < reg.len() ==> reg[i].id != reg[j].id
}

/// Whether a session with this id is registered.
pub open spec fn has_session(reg: Seq<ClientView>, id: i32) -> bool {
    exists|i: int| 0 <= i < reg.len() && reg[i].id == id
}

/// Where the session with this id stands in the registry.
pub open spec fn session_index(reg: Seq<ClientView>, id: i32) -> int {
    choose|i: int| 0 <= i < reg.len() && reg[i].id == id
}

/// The session with this id.
pub open spec fn session_of(reg: Seq<ClientView>, id: i32) -> ClientView
    recommends
        has_session(reg, id),
{
    reg[session_index(reg, id)]
}

/// The registry after a session was added: a session whose id is taken is
/// not added.
pub open spec fn with_session(reg: Seq<ClientView>, c: ClientView) -> Seq<ClientView> {
    if has_session(reg, c.id) {
        reg
    } else {
        reg.push(c)
    }
}

/// The registry after the session with this id was removed.
pub open spec fn without_session(reg: Seq<ClientView>, id: i32) -> Seq<ClientView> {
    if has_session(reg, id) {
        reg.remove(session_index(reg, id))
    } else {
        reg
    }
}

/// The registry after the session with this id was put in a room.
pub open spec fn with_match(reg: Seq<ClientView>, id: i32, match_id: i32) -> Seq<ClientView> {
    if has_session(reg, id) {
        let i = session_index(reg, id);
        reg.update(i, ClientView { id, match_id, name: reg[i].name })
    } else {
        reg
    }
}

/// The registry after the session with this id took a name.
pub open spec fn with_name(reg: Seq<ClientView>, id: i32, name: Seq<char>) -> Seq<ClientView> {
    if has_session(reg, id) {
        let i = session_index(reg, id);
        reg.update(i, ClientView { id, match_id: reg[i].match_id, name })
    } else {
        reg
    }
}

/// The test that picks the sessions of one room.
pub open spec fn in_room(room: i32) -> spec_fn(ClientView) -> bool {
    |c: ClientView| c.match_id == room
}

/// The test that picks the sessions of one room but one of them.
pub open spec fn in_room_except(room: i32, id: i32) -> spec_fn(ClientView) -> bool {
    |c: ClientView| c.match_id == room && c.id != id
}

/// The sessions of a room, in the order of the registry. [`NO_MATCH`] is no
/// room: the sessions that are in no room are members of none.
pub open spec fn room_members(reg: Seq<ClientView>, room: i32) -> Seq<ClientView> {
    if room == NO_MATCH {
        Seq::empty()
    } else {
        reg.filter(in_room(room))
    }
}

/// The other sessions of the room that the session `id` is in, in the order
/// of the registry; none where it is unknown or in no room.
pub open spec fn roommates(reg: Seq<ClientView>, id: i32) -> Seq<ClientView> {
    if has_session(reg, id) && session_of(reg, id).match_id != NO_MATCH {
        reg.filter(in_room_except(session_of(reg, id).match_id, id))
    } else {
        Seq::empty()
    }
}

/// The sessions that a list of ids names, in the order of the list; an id
/// without a session names none.
pub open spec fn sessions_of(reg: Seq<ClientView>, ids: Seq<i32>) -> Seq<ClientView>
    decreases ids.len(),
{
    if ids.len() == 0 {
        Seq::empty()
    } else if has_session(reg, ids.last()) {
        sessions_of(reg, ids.drop_last()).push(session_of(reg, ids.last()))
    } else {
        sessions_of(reg, ids.drop_last())
    }
}

/// One copy of a session for each time that a list of ids names it.
pub open spec fn copies_of(c: ClientView, ids: Seq<i32>) -> Seq<ClientView>
    decreases ids.len(),
{
    if ids.len() == 0 {
        Seq::empty()
    } else if ids.last() == c.id {
        copies_of(c, ids.drop_last()).push(c)
    } else {
        copies_of(c, ids.drop_last())
    }
}

/// The sessions that a list of ids names, in the order of the registry; a
/// session that the list names twice stands twice.
pub open spec fn sessions_among(reg: Seq<ClientView>, ids: Seq<i32>) -> Seq<ClientView>
    decreases reg.len(),
{
    if reg.len() == 0 {
        Seq::empty()
    } else {
        sessions_among(reg.drop_last(), ids) + copies_of(reg.last(), ids)
    }
}

/// Where every id of the list has a session, each id names its own.
pub proof fn lemma_sessions_of_all_known(reg: Seq<ClientView>, ids: Seq<i32>)
    requires
        forall|k: int| 0 <= k < ids.len() ==> has_session(reg, #[trigger] ids[k]),
    ensures
        sessions_of(reg, ids).len() == ids.len(),
        forall|k: int|
            0 <= k < ids.len() ==> #[trigger] sessions_of(reg, ids)[k] == session_of(reg, ids[k]),
        forall|k: int| 0 <= k < ids.len() ==> (#[trigger] sessions_of(reg, ids)[k]).id == ids[k],
    decreases ids.len(),
{
    if ids.len() > 0 {
        let front = ids.drop_last();
        assert forall|k: int| 0 <= k < front.len() implies has_session(reg, #[trigger] front[k]) by {
            assert(front[k] == ids[k]);
        }
        lemma_sessions_of_all_known(reg, front);
        assert(has_session(reg, ids[ids.len() - 1]));
    }
}

impl Client {
    /// A session that has just connected: no name yet, and in no room.
    pub fn new(id: i32) -> (c: Client)
        ensures
            c@ == (ClientView { id, match_id: NO_MATCH, name: Seq::empty() }),
    {
        Client { id, match_id: NO_MATCH, name: String::new() }
    }

    /// A copy of the session.
    pub fn copy(&self) -> (c: Client)
        ensures
            c@ == self@,
    {
        Client { id: self.id, match_id: self.match_id, name: self.name.clone() }
    }
}

/// The connected sessions, in the order in which they were added, and the
/// counter that numbers them.
pub struct Registry {
    clients: Vec<Client>,
    next_id: i64,
}

impl View for Registry {
    type V = Seq<ClientView>;

    closed spec fn view(&self) -> Seq<ClientView> {
        client_views(self.clients@)
    }
}

impl Registry {
    /// The id that the next accepted session gets.
    pub closed spec fn next_id(&self) -> int {
        self.next_id as int
    }

    /// The invariant of the registry: an id names at most one session, and
    /// every id in use lies below the one that is handed out next.
    pub open spec fn wf(&self) -> bool {
        &&& distinct_ids(self@)
        &&& 0 <= self.next_id() <= i32::MAX + 1
        &&& forall|i: int| 0 <= i < self@.len() ==> (#[trigger] self@[i]).id < self.next_id()
    }

    /// An empty registry; the first accepted session will have the id 0.
    pub fn new() -> (r: Registry)
        ensures
            r.wf(),
            r@ == Seq::<ClientView>::empty(),
            r.next_id() == 0,
    {
        let r = Registry { clients: Vec::new(), next_id: 0 };
        assert(r@ =~= Seq::<ClientView>::empty());
        r
    }

    /// Registers a session that has just connected, under the next id of
    /// the counter: an id that no session has had, in no room and without
    /// a name. Ids rise by one and are never handed out again. Once the
    /// counter has run out nothing is registered.
    pub fn accept(&mut self) -> (id: Option<i32>)
        requires
            old(self).wf(),
        ensures
            final(self).wf(),
            old(self).next_id() <= i32::MAX ==> id == Some(old(self).next_id() as i32)
                && final(self).next_id() == old(self).next_id() + 1 && final(self)@ == old(
                self,
            )@.push(
                ClientView {
                    id: old(self).next_id() as i32,
                    match_id: NO_MATCH,
                    name: Seq::empty(),
                },
            ),
            old(self).next_id() > i32::MAX ==> id is None && final(self)@ == old(self)@
                && final(self).next_id() == old(self).next_id(),
            id matches Some(n) ==> !has_session(old(self)@, n),
    {
        if self.next_id > 0x7fff_ffff {
            return None;
        }
        let id: i32 = self.next_id as i32;
        let ghost before = self@;
        self.clients.push(Client::new(id));
        self.next_id = self.next_id + 1;
        assert(self@ =~= before.push(
            ClientView { id, match_id: NO_MATCH, name: Seq::empty() },
        ));
        Some(id)
    }

    /// The number of sessions.
    pub fn len(&self) -> (n: usize)
        ensures
            n == self@.len(),
    {
        self.clients.len()
    }

    fn position(&self, id: i32) -> (at: Option<usize>)
        requires
            self.wf(),
        ensures
            at is Some <==> has_session(self@, id),
            at matches Some(i) ==> i < self.clients@.len() && i == session_index(self@, id)
                && self@[i as int] == self.clients@[i as int]@,
            self@.len() == self.clients@.len(),
    {
        let mut i: usize = 0;
        while i < self.clients.len()
            invariant
                self.wf(),
                i <= self.clients@.len(),
                self@.len() == self.clients@.len(),
                forall|j: int| 0 <= j < i ==> self@[j].id != id,
            decreases self.clients@.len() - i,
        {
            if self.clients[i].id == id {
                proof {
                    assert(self@[i as int].id == id);
                    let j = session_index(self@, id);
                    assert(0 <= j < self@.len() && self@[j].id == id);
                    assert(j == i);
                }
                return Some(i);
            }
            i += 1;
        }
        None
    }

    /// Whether a session with this id is registered.
    pub fn contains(&self, id: i32) -> (known: bool)
        requires
            self.wf(),
        ensures
            known == has_session(self@, id),
    {
        self.position(id).is_some()
    }

    /// A copy of the session with this id.
    pub fn find(&self, id: i32) -> (found: Option<Client>)
        requires
            self.wf(),
        ensures
            found is Some <==> has_session(self@, id),
            found matches Some(c) ==> c@ == session_of(self@, id),
    {
        match self.position(id) {
            Some(i) => Some(self.clients[i].copy()),
            None => None,
        }
    }

    /// Adds a session under the id that it brings. A session whose id is
    /// already taken is not added, and the result says so. The counter moves
    /// past the id, so that it is not handed out again.
    pub fn add(&mut self, client: Client) -> (added: bool)
        requires
            old(self).wf(),
        ensures
            final(self).wf(),
            final(self)@ == with_session(old(self)@, client@),
            added == !has_session(old(self)@, client.id),
            final(self).next_id() == if added && client.id >= old(self).next_id() {
                client.id + 1
            } else {
                old(self).next_id()
            },
    {
        if self.position(client.id).is_some() {
            return false;
        }
        let ghost before = self@;
        if client.id as i64 >= self.next_id {
            self.next_id = client.id as i64 + 1;
        }
        self.clients.push(client);
        assert(self@ =~= before.push(client@));
        true
    }

    /// Removes the session with this id and hands it out.
    pub fn remove(&mut self, id: i32) -> (removed: Option<Client>)
        requires
            old(self).wf(),
        ensures
            final(self).wf(),
            final(self)@ == without_session(old(self)@, id),
            final(self).next_id() == old(self).next_id(),
            removed is Some <==> has_session(old(self)@, id),
            removed matches Some(c) ==> c@ == session_of(old(self)@, id),
    {
        match self.position(id) {
            Some(i) => {
                let ghost before = self@;
                let c = self.clients.remove(i);
                assert(self@ =~= before.remove(i as int));
                Some(c)
            },
            None => None,
        }
    }

    /// Puts the session with this id in a room, or in none with
    /// [`NO_MATCH`]. The result says whether there is such a session.
    pub fn set_match_id(&mut self, id: i32, match_id: i32) -> (known: bool)
        requires
            old(self).wf(),
        ensures
            final(self).wf(),
            final(self)@ == with_match(old(self)@, id, match_id),
            final(self).next_id() == old(self).next_id(),
            known == has_session(old(self)@, id),
    {
        match self.position(id) {
            Some(i) => {
                let ghost before = self@;
                let name = self.clients[i].name.clone();
                self.clients.set(i, Client { id, match_id, name });
                assert(self@ =~= with_match(before, id, match_id));
                true
            },
            None => false,
        }
    }

    /// Gives the session with this id its display name. The result says
    /// whether there is such a session.
    pub fn set_name(&mut self, id: i32, name: String) -> (known: bool)
        requires
            old(self).wf(),
        ensures
            final(self).wf(),
            final(self)@ == with_name(old(self)@, id, name@),
            final(self).next_id() == old(self).next_id(),
            known == has_session(old(self)@, id),
    {
        match self.position(id) {
            Some(i) => {
                let ghost before = self@;
                let match_id = self.clients[i].match_id;
                self.clients.set(i, Client { id, match_id, name });
                assert(self@ =~= with_name(before, id, name@));
                true
            },
            None => false,
        }
    }

    /// A copy of the sessions of one room, in the order of the registry;
    /// none for [`NO_MATCH`], which is no room.
    pub fn members_of(&self, room: i32) -> (out: Vec<Client>)
        ensures
            client_views(out@) == room_members(self@, room),
    {
        let mut out: Vec<Client> = Vec::new();
        let mut i: usize = 0;
        assert(self@.take(0) =~= Seq::<ClientView>::empty());
        assert(client_views(out@) =~= Seq::<ClientView>::empty());
        if room == NO_MATCH {
            return out;
        }
        while i < self.clients.len()
            invariant
                i <= self.clients@.len(),
                self@.len() == self.clients@.len(),
                client_views(out@) == self@.take(i as int).filter(in_room(room)),
            decreases self.clients@.len() - i,
        {
            let ghost before = client_views(out@);
            proof {
                assert(self@.take(i + 1) =~= self@.take(i as int).push(self@[i as int]));
                self@.take(i as int).lemma_filter_push(self@[i as int], in_room(room));
            }
            if self.clients[i].match_id == room {
                out.push(self.clients[i].copy());
                assert(client_views(out@) =~= before.push(self@[i as int]));
            }
            i += 1;
        }
        assert(self@.take(i as int) =~= self@);
        out
    }

    /// A copy of the other sessions of the room that the session `id` is in,
    /// in the order of the registry: those to whom its traffic is relayed.
    pub fn peers_of(&self, id: i32) -> (out: Vec<Client>)
        requires
            self.wf(),
        ensures
            client_views(out@) == roommates(self@, id),
    {
        let mut out: Vec<Client> = Vec::new();
        assert(client_views(out@) =~= Seq::<ClientView>::empty());
        let room: i32 = match self.position(id) {
            Some(at) => self.clients[at].match_id,
            None => {
                return out;
            },
        };
        if room == NO_MATCH {
            return out;
        }
        let mut i: usize = 0;
        assert(self@.take(0) =~= Seq::<ClientView>::empty());
        while i < self.clients.len()
            invariant
                i <= self.clients@.len(),
                self@.len() == self.clients@.len(),
                client_views(out@) == self@.take(i as int).filter(in_room_except(room, id)),
            decreases self.clients@.len() - i,
        {
            let ghost before = client_views(out@);
            proof {
                assert(self@.take(i + 1) =~= self@.take(i as int).push(self@[i as int]));
                self@.take(i as int).lemma_filter_push(self@[i as int], in_room_except(room, id));
            }
            if self.clients[i].match_id == room && self.clients[i].id != id {
                out.push(self.clients[i].copy());
                assert(client_views(out@) =~= before.push(self@[i as int]));
            }
            i += 1;
        }
        assert(self@.take(i as int) =~= self@);
        out
    }

    /// A copy of the sessions that a list of ids names, in the order of the
    /// registry, each once for every time that the list names it.
    pub fn listed(&self, ids: &Vec<i32>) -> (out: Vec<Client>)
        ensures
            client_views(out@) == sessions_among(self@, ids@),
    {
        let mut out: Vec<Client> = Vec::new();
        let mut i: usize = 0;
        assert(client_views(out@) =~= Seq::<ClientView>::empty());
        assert(self@.take(0) =~= Seq::<ClientView>::empty());
        while i < self.clients.len()
            invariant
                i <= self.clients@.len(),
                self@.len() == self.clients@.len(),
                client_views(out@) == sessions_among(self@.take(i as int), ids@),
            decreases self.clients@.len() - i,
        {
            let ghost base = client_views(out@);
            let mut j: usize = 0;
            assert(ids@.take(0) =~= Seq::<i32>::empty());
            assert(client_views(out@) =~= base + copies_of(self@[i as int], ids@.take(0)));
            while j < ids.len()
                invariant
                    i < self.clients@.len(),
                    self@.len() == self.clients@.len(),
                    j <= ids@.len(),
                    client_views(out@) == base + copies_of(self@[i as int], ids@.take(j as int)),
                decreases ids@.len() - j,
            {
                let ghost sofar = client_views(out@);
                proof {
                    assert(ids@.take(j + 1).drop_last() =~= ids@.take(j as int));
                    assert(ids@.take(j + 1).last() == ids@[j as int]);
                }
                if ids[j] == self.clients[i].id {
                    out.push(self.clients[i].copy());
                    assert(client_views(out@) =~= sofar.push(self@[i as int]));
                    assert(sofar.push(self@[i as int]) =~= base + copies_of(
                        self@[i as int],
                        ids@.take(j + 1),
                    ));
                }
                j += 1;
            }
            proof {
                assert(ids@.take(j as int) =~= ids@);
                assert(self@.take(i + 1).drop_last() =~= self@.take(i as int));
                assert(self@.take(i + 1).last() == self@[i as int]);
            }
            i += 1;
        }
        assert(self@.take(i as int) =~= self@);
        out
    }

    /// A copy of the sessions that a list of ids names, in the order of the
    /// list. An id without a session is passed over.
    pub fn snapshot(&self, ids: &Vec<i32>) -> (out: Vec<Client>)
        requires
            self.wf(),
        ensures
            client_views(out@) == sessions_of(self@, ids@),
    {
        let mut out: Vec<Client> = Vec::new();
        let mut k: usize = 0;
        assert(client_views(out@) =~= Seq::<ClientView>::empty());
        while k < ids.len()
            invariant
                self.wf(),
                k <= ids@.len(),
                client_views(out@) == sessions_of(self@, ids@.take(k as int)),
            decreases ids@.len() - k,
        {
            let ghost before = client_views(out@);
            proof {
                assert(ids@.take(k + 1).drop_last() =~= ids@.take(k as int));
                assert(ids@.take(k + 1).last() == ids@[k as int]);
            }
            match self.position(ids[k]) {
                Some(at) => {
                    out.push(self.clients[at].copy());
                    assert(client_views(out@) =~= before.push(self@[at as int]));
                },
                None => {},
            }
            k += 1;
        }
        assert(ids@.take(k as int) =~= ids@);
        out
    }
}

/// The sessions to whom the traffic of a session is relayed are the
/// sessions of its room, without the session itself; a session in no room
/// has none.
pub proof fn lemma_roommates_share_the_room(reg: Seq<ClientView>, id: i32, other: ClientView)
    requires
        has_session(reg, id),
    ensures
        roommates(reg, id).contains(other) <==> session_of(reg, id).match_id != NO_MATCH
            && reg.contains(other) && other.id != id && other.match_id == session_of(
            reg,
            id,
        ).match_id,
{
    let room = session_of(reg, id).match_id;
    if room != NO_MATCH {
        let pick = in_room_except(room, id);
        let kept = reg.filter(pick);
        if kept.contains(other) {
            let i = choose|i: int| 0 <= i < kept.len() && kept[i] == other;
            reg.lemma_filter_pred(pick, i);
            reg.lemma_filter_contains_rev(pick, other);
        }
        if reg.contains(other) && other.id != id && other.match_id == room {
            let j = choose|j: int| 0 <= j < reg.len() && reg[j] == other;
            reg.lemma_filter_contains(pick, j);
        }
    }
}

/// The members of a room are the sessions whose record names it, and no
/// session is a member of [`NO_MATCH`].
pub proof fn lemma_members_are_in_the_room(reg: Seq<ClientView>, room: i32, c: ClientView)
    ensures
        room_members(reg, room).contains(c) <==> room != NO_MATCH && reg.contains(c) && c.match_id
            == room,
        room_members(reg, NO_MATCH) == Seq::<ClientView>::empty(),
{
    if room != NO_MATCH {
        let pick = in_room(room);
        let kept = reg.filter(pick);
        if kept.contains(c) {
            let i = choose|i: int| 0 <= i < kept.len() && kept[i] == c;
            reg.lemma_filter_pred(pick, i);
            reg.lemma_filter_contains_rev(pick, c);
        }
        if reg.contains(c) && c.match_id == room {
            let j = choose|j: int| 0 <= j < reg.len() && reg[j] == c;
            reg.lemma_filter_contains(pick, j);
        }
    }
}

} // verus!
