use match_server::coordinator::{without_id, Coordinator, Match, Message};
use match_server::packet::{Delivery, Packet};
use match_server::registry::{Client, Registry, NO_MATCH};
use match_server::session::{react, ClientState};

fn registry_of(names: &[&str]) -> Registry {
    let mut r = Registry::new();
    for (i, name) in names.iter().enumerate() {
        assert!(r.add(Client { id: i as i32, match_id: NO_MATCH, name: name.to_string() }));
    }
    r
}

fn room(id: i32, owner_id: i32, name: &str, clients: Vec<i32>, started: bool) -> Match {
    Match { id, owner_id, name: name.to_string(), clients, started }
}

fn list(entries: &[(i32, &str, i32)]) -> Packet {
    Packet::MatchList { matches: entries.iter().map(|e| (e.0, e.1.to_string(), e.2)).collect() }
}

fn joined(id: i32, user_id: i32, user_name: &str, room_name: &str) -> Packet {
    Packet::MatchJoined {
        id,
        user_id,
        user_name: user_name.to_string(),
        room_name: room_name.to_string(),
    }
}

fn create(id: i32, name: &str) -> Message {
    Message::NewMatch { id, room_name: name.to_string() }
}

#[test]
fn new_coordinator_is_empty() {
    let c = Coordinator::new();
    assert_eq!(c.last_room_id(), 0);
    assert_eq!(c.matches(), vec![]);
    assert_eq!(c.subscribers(), Vec::<i32>::new());
    assert_eq!(c.match_list(), list(&[]));
}

#[test]
fn without_id_drops_every_occurrence() {
    assert_eq!(without_id(&vec![1, 2, 1, 3, 1], 1), vec![2, 3]);
    assert_eq!(without_id(&vec![1, 2, 3], 9), vec![1, 2, 3]);
    assert_eq!(without_id(&vec![], 9), Vec::<i32>::new());
}

#[test]
fn ping_changes_nothing() {
    let mut c = Coordinator::new();
    let mut r = registry_of(&["a"]);
    assert_eq!(c.step(&mut r, &Message::Ping), vec![]);
    assert_eq!(c.matches(), vec![]);
    assert_eq!(r.len(), 1);
}

#[test]
fn list_matches_subscribes_and_answers_the_asker_alone() {
    let mut c = Coordinator::new();
    let mut r = registry_of(&["a", "b"]);
    c.step(&mut r, &create(0, "arena"));
    let out = c.step(&mut r, &Message::ListMatches { id: 1 });
    assert_eq!(out, vec![Delivery { to: 1, packet: list(&[(1, "arena", 1)]) }]);
    assert_eq!(c.subscribers(), vec![1]);
    // Asking again does not subscribe twice, and is answered again.
    let again = c.step(&mut r, &Message::ListMatches { id: 1 });
    assert_eq!(again, vec![Delivery { to: 1, packet: list(&[(1, "arena", 1)]) }]);
    assert_eq!(c.subscribers(), vec![1]);
}

#[test]
fn list_matches_from_an_id_without_session_sends_nothing() {
    let mut c = Coordinator::new();
    let mut r = registry_of(&["a"]);
    assert_eq!(c.step(&mut r, &Message::ListMatches { id: 5 }), vec![]);
    assert_eq!(c.subscribers(), vec![5]);
}

#[test]
fn unsubscribe_removes_the_id() {
    let mut c = Coordinator::new();
    let mut r = registry_of(&["a", "b", "c"]);
    c.step(&mut r, &Message::ListMatches { id: 0 });
    c.step(&mut r, &Message::ListMatches { id: 1 });
    c.step(&mut r, &Message::ListMatches { id: 2 });
    assert_eq!(c.step(&mut r, &Message::RemoveFromListMatches { id: 1 }), vec![]);
    assert_eq!(c.subscribers(), vec![0, 2]);
    assert_eq!(c.step(&mut r, &Message::RemoveFromListMatches { id: 1 }), vec![]);
    assert_eq!(c.subscribers(), vec![0, 2]);
}

#[test]
fn create_match_numbers_rooms_from_one() {
    let mut c = Coordinator::new();
    let mut r = registry_of(&["a", "b", "c"]);
    c.step(&mut r, &Message::ListMatches { id: 2 });
    let out = c.step(&mut r, &create(0, "arena"));
    assert_eq!(
        out,
        vec![
            Delivery {
                to: 0,
                packet: Packet::MatchCreated { id: 1, owner_id: 0, room_name: "arena".to_string() },
            },
            Delivery { to: 2, packet: list(&[(1, "arena", 1)]) },
        ]
    );
    assert_eq!(c.matches(), vec![room(1, 0, "arena", vec![0], false)]);
    assert_eq!(r.find(0).unwrap().match_id, 1);
    let out2 = c.step(&mut r, &create(1, ""));
    assert_eq!(
        out2,
        vec![
            Delivery {
                to: 1,
                packet: Packet::MatchCreated { id: 2, owner_id: 1, room_name: String::new() },
            },
            Delivery { to: 2, packet: list(&[(1, "arena", 1), (2, "", 1)]) },
        ]
    );
    assert_eq!(c.last_room_id(), 2);
    assert_eq!(c.find_match(2), Some(room(2, 1, "", vec![1], false)));
    assert_eq!(c.find_match(3), None);
}

#[test]
fn create_match_from_an_id_without_session_is_dropped() {
    let mut c = Coordinator::new();
    let mut r = registry_of(&["a"]);
    assert_eq!(c.step(&mut r, &create(9, "ghost")), vec![]);
    assert_eq!(c.matches(), vec![]);
    assert_eq!(c.last_room_id(), 0);
}

#[test]
fn login_then_create_puts_the_creator_in_the_room() {
    let mut c = Coordinator::new();
    let mut r = registry_of(&["", ""]);
    let login = Packet::LoginRequest { name: "ann".to_string() };
    let first = react(ClientState::Menu, 1, &login, &mut r);
    assert_eq!(first.next, ClientState::Menu);
    assert_eq!(
        first.replies,
        vec![Delivery { to: 1, packet: Packet::Login { id: 1, name: "ann".to_string() } }]
    );
    let new_match = Packet::NewMatch { room_name: "arena".to_string() };
    let second = react(first.next, 1, &new_match, &mut r);
    assert_eq!(second.next, ClientState::MatchHost);
    let intent = second.intent.unwrap();
    assert_eq!(intent, create(1, "arena"));
    c.step(&mut r, &intent);
    assert_eq!(c.find_match(1).unwrap().clients, vec![1]);
    assert_eq!(c.find_match(1).unwrap().owner_id, 1);
    assert_eq!(r.find(1), Some(Client { id: 1, match_id: 1, name: "ann".to_string() }));
}

fn room_with_members(n: i32) -> (Coordinator, Registry) {
    // Session 0 opens the room, sessions 1..n join it; session 9 stays out.
    let mut r = Registry::new();
    for i in 0..10 {
        assert!(r.add(Client { id: i, match_id: NO_MATCH, name: format!("user{}", i) }));
    }
    let mut c = Coordinator::new();
    c.step(&mut r, &create(0, "arena"));
    for i in 1..n {
        c.step(&mut r, &Message::JoinMatch { id: i, room_id: 1 });
    }
    if n == 0 {
        c.step(&mut r, &Message::LeaveMatch { id: 0, room_id: 1 });
    }
    (c, r)
}

#[test]
fn join_room_of_no_members_sends_nothing() {
    let (mut c, mut r) = room_with_members(0);
    assert_eq!(c.find_match(1).unwrap().clients, Vec::<i32>::new());
    let out = c.step(&mut r, &Message::JoinMatch { id: 9, room_id: 1 });
    assert_eq!(out, vec![]);
    assert_eq!(c.find_match(1).unwrap().clients, vec![9]);
    assert_eq!(r.find(9).unwrap().match_id, 1);
}

#[test]
fn join_room_of_one_member_sends_two_notices() {
    let (mut c, mut r) = room_with_members(1);
    let out = c.step(&mut r, &Message::JoinMatch { id: 9, room_id: 1 });
    assert_eq!(
        out,
        vec![
            Delivery { to: 9, packet: joined(1, 0, "user0", "arena") },
            Delivery { to: 0, packet: joined(1, 9, "user9", "arena") },
        ]
    );
    assert_eq!(c.find_match(1).unwrap().clients, vec![0, 9]);
}

#[test]
fn join_room_of_three_members_sends_six_notices() {
    let (mut c, mut r) = room_with_members(3);
    let out = c.step(&mut r, &Message::JoinMatch { id: 9, room_id: 1 });
    assert_eq!(
        out,
        vec![
            Delivery { to: 9, packet: joined(1, 0, "user0", "arena") },
            Delivery { to: 0, packet: joined(1, 9, "user9", "arena") },
            Delivery { to: 9, packet: joined(1, 1, "user1", "arena") },
            Delivery { to: 1, packet: joined(1, 9, "user9", "arena") },
            Delivery { to: 9, packet: joined(1, 2, "user2", "arena") },
            Delivery { to: 2, packet: joined(1, 9, "user9", "arena") },
        ]
    );
    assert_eq!(out.iter().filter(|d| d.to == 9).count(), 3);
    for member in 0..3 {
        assert_eq!(out.iter().filter(|d| d.to == member).count(), 1);
    }
    assert_eq!(c.find_match(1).unwrap().clients, vec![0, 1, 2, 9]);
}

#[test]
fn join_takes_the_joiner_off_the_subscribers() {
    let (mut c, mut r) = room_with_members(1);
    c.step(&mut r, &Message::ListMatches { id: 8 });
    c.step(&mut r, &Message::ListMatches { id: 9 });
    c.step(&mut r, &Message::JoinMatch { id: 9, room_id: 1 });
    assert_eq!(c.subscribers(), vec![8]);
}

#[test]
fn join_unknown_room_is_no_op() {
    let (mut c, mut r) = room_with_members(2);
    c.step(&mut r, &Message::ListMatches { id: 9 });
    let rooms = c.matches();
    let out = c.step(&mut r, &Message::JoinMatch { id: 9, room_id: 77 });
    assert_eq!(out, vec![]);
    assert_eq!(c.matches(), rooms);
    assert_eq!(c.subscribers(), vec![9]);
    assert_eq!(r.find(9).unwrap().match_id, NO_MATCH);
}

#[test]
fn delete_unknown_room_is_no_op() {
    let (mut c, mut r) = room_with_members(3);
    c.step(&mut r, &Message::ListMatches { id: 8 });
    let rooms = c.matches();
    let subscribers = c.subscribers();
    let out = c.step(&mut r, &Message::DeleteMatch { id: 0, room_id: 42 });
    assert_eq!(out, vec![]);
    assert_eq!(c.matches(), rooms);
    assert_eq!(c.subscribers(), subscribers);
    assert_eq!(r.find(0).unwrap().match_id, 1);
    assert_eq!(r.len(), 10);
}

#[test]
fn delete_tells_the_other_members_and_the_subscribers() {
    let (mut c, mut r) = room_with_members(3);
    c.step(&mut r, &create(5, "second"));
    c.step(&mut r, &Message::ListMatches { id: 8 });
    let out = c.step(&mut r, &Message::DeleteMatch { id: 0, room_id: 1 });
    assert_eq!(
        out,
        vec![
            Delivery { to: 1, packet: Packet::MatchDeleted },
            Delivery { to: 2, packet: Packet::MatchDeleted },
            Delivery { to: 8, packet: list(&[(2, "second", 1)]) },
        ]
    );
    assert_eq!(c.matches(), vec![room(2, 5, "second", vec![5], false)]);
    assert_eq!(r.find(0).unwrap().match_id, NO_MATCH);
    // Room ids are not handed out again.
    c.step(&mut r, &create(0, "third"));
    assert_eq!(c.find_match(3).unwrap().name, "third");
    assert_eq!(c.find_match(1), None);
}

#[test]
fn leave_tells_those_who_remain_who_left() {
    let (mut c, mut r) = room_with_members(3);
    let out = c.step(&mut r, &Message::LeaveMatch { id: 1, room_id: 1 });
    let left = || Packet::MatchLeaved { user_id: 1, user_name: "user1".to_string() };
    assert_eq!(out, vec![Delivery { to: 0, packet: left() }, Delivery { to: 2, packet: left() }]);
    assert_eq!(c.find_match(1).unwrap().clients, vec![0, 2]);
    assert_eq!(r.find(1).unwrap().match_id, NO_MATCH);
}

#[test]
fn leave_does_not_delete_an_emptied_room() {
    let (mut c, mut r) = room_with_members(1);
    let out = c.step(&mut r, &Message::LeaveMatch { id: 0, room_id: 1 });
    assert_eq!(out, vec![]);
    assert_eq!(c.matches(), vec![room(1, 0, "arena", vec![], false)]);
    assert_eq!(c.match_list(), list(&[(1, "arena", 0)]));
}

#[test]
fn start_marks_the_room_and_sends_the_list() {
    let (mut c, mut r) = room_with_members(2);
    c.step(&mut r, &Message::ListMatches { id: 8 });
    let out = c.step(&mut r, &Message::StartMatch { id: 0, room_id: 1, map: "dust".to_string() });
    assert_eq!(out, vec![Delivery { to: 8, packet: list(&[(1, "arena", 2)]) }]);
    assert_eq!(c.find_match(1), Some(room(1, 0, "arena", vec![0, 1], true)));
    let none = c.step(&mut r, &Message::StartMatch { id: 0, room_id: 5, map: String::new() });
    assert_eq!(none, vec![]);
}

#[test]
fn disconnect_removes_the_session_and_its_membership() {
    let (mut c, mut r) = room_with_members(3);
    let out = c.step(&mut r, &Message::Disconnected { id: 1 });
    assert_eq!(out, vec![]);
    assert_eq!(r.find(1), None);
    assert_eq!(r.len(), 9);
    assert_eq!(c.find_match(1).unwrap().clients, vec![0, 2]);
    // A session in no room just leaves the registry.
    c.step(&mut r, &Message::Disconnected { id: 9 });
    assert_eq!(r.len(), 8);
    assert_eq!(c.find_match(1).unwrap().clients, vec![0, 2]);
    // And an unknown id is passed over.
    c.step(&mut r, &Message::Disconnected { id: 9 });
    assert_eq!(r.len(), 8);
}

#[test]
fn replay_equals_step_by_step() {
    let intents = vec![
        Message::ListMatches { id: 3 },
        create(0, "one"),
        create(1, "two"),
        Message::JoinMatch { id: 2, room_id: 1 },
        Message::JoinMatch { id: 3, room_id: 2 },
        Message::LeaveMatch { id: 2, room_id: 1 },
        Message::JoinMatch { id: 2, room_id: 2 },
        Message::DeleteMatch { id: 0, room_id: 1 },
        Message::DeleteMatch { id: 0, room_id: 1 },
        Message::StartMatch { id: 1, room_id: 2, map: "m".to_string() },
    ];
    let mut c1 = Coordinator::new();
    let mut r1 = registry_of(&["a", "b", "c", "d"]);
    let all = c1.replay(&mut r1, &intents);
    let mut c2 = Coordinator::new();
    let mut r2 = registry_of(&["a", "b", "c", "d"]);
    let mut each = Vec::new();
    for m in intents.iter() {
        each.extend(c2.step(&mut r2, m));
    }
    assert_eq!(all, each);
    assert_eq!(c1.matches(), c2.matches());
    assert_eq!(c1.matches(), vec![room(2, 1, "two", vec![1, 3, 2], true)]);
    assert_eq!(r1.snapshot(&vec![0, 1, 2, 3]), r2.snapshot(&vec![0, 1, 2, 3]));
    assert_eq!(r1.find(2).unwrap().match_id, 2);
    assert_eq!(r1.find(0).unwrap().match_id, NO_MATCH);
    assert_eq!(c1.subscribers(), Vec::<i32>::new());
}

#[test]
fn interleaved_listing_and_creating_leaves_whole_rooms() {
    // Three sessions watch the list while three others open rooms, in two
    // different interleavings: the rooms are whole either way.
    let watchers = [0, 1, 2];
    let hosts = [3, 4, 5];
    let mut orders: Vec<Vec<Message>> = vec![Vec::new(), Vec::new()];
    for i in 0..3 {
        orders[0].push(Message::ListMatches { id: watchers[i] });
        orders[0].push(create(hosts[i], "r"));
        orders[1].push(create(hosts[2 - i], "r"));
        orders[1].push(Message::ListMatches { id: watchers[2 - i] });
    }
    for order in orders.iter() {
        let mut c = Coordinator::new();
        let mut r = registry_of(&["a", "b", "c", "d", "e", "f"]);
        c.replay(&mut r, order);
        let rooms = c.matches();
        assert_eq!(rooms.len(), 3);
        for (k, m) in rooms.iter().enumerate() {
            assert_eq!(m.id, k as i32 + 1);
            assert_eq!(m.clients, vec![m.owner_id]);
            assert_eq!(r.find(m.owner_id).unwrap().match_id, m.id);
        }
        let mut subs = c.subscribers();
        subs.sort();
        assert_eq!(subs, vec![0, 1, 2]);
        assert_eq!(r.len(), 6);
    }
}

#[test]
fn match_copy_is_equal() {
    let m = room(4, 2, "x", vec![2, 5], true);
    assert_eq!(m.copy(), m);
}

#[test]
fn drops_tells_which_intents_change_nothing() {
    let (c, r) = room_with_members(2);
    assert!(!c.drops(&r, &Message::Ping));
    assert!(!c.drops(&r, &Message::ListMatches { id: 77 }));
    assert!(!c.drops(&r, &Message::RemoveFromListMatches { id: 77 }));
    assert!(!c.drops(&r, &Message::JoinMatch { id: 5, room_id: 1 }));
    assert!(c.drops(&r, &Message::JoinMatch { id: 5, room_id: 2 }));
    assert!(c.drops(&r, &Message::JoinMatch { id: 77, room_id: 1 }));
    assert!(!c.drops(&r, &create(5, "x")));
    assert!(c.drops(&r, &create(77, "x")));
    assert!(!c.drops(&r, &Message::DeleteMatch { id: 0, room_id: 1 }));
    assert!(c.drops(&r, &Message::DeleteMatch { id: 0, room_id: 9 }));
    assert!(!c.drops(&r, &Message::LeaveMatch { id: 1, room_id: 1 }));
    assert!(c.drops(&r, &Message::LeaveMatch { id: 1, room_id: 0 }));
    assert!(!c.drops(&r, &Message::StartMatch { id: 0, room_id: 1, map: String::new() }));
    assert!(c.drops(&r, &Message::StartMatch { id: 0, room_id: 3, map: String::new() }));
    assert!(!c.drops(&r, &Message::Disconnected { id: 3 }));
    assert!(c.drops(&r, &Message::Disconnected { id: 77 }));
}

#[test]
fn dropped_intents_leave_everything_as_it_was() {
    let (mut c, mut r) = room_with_members(2);
    c.step(&mut r, &Message::ListMatches { id: 8 });
    let dropped = vec![
        Message::JoinMatch { id: 77, room_id: 1 },
        Message::JoinMatch { id: 5, room_id: 2 },
        create(77, "x"),
        Message::DeleteMatch { id: 77, room_id: 1 },
        Message::LeaveMatch { id: 1, room_id: 0 },
        Message::StartMatch { id: 0, room_id: 3, map: String::new() },
        Message::Disconnected { id: 77 },
    ];
    let rooms = c.matches();
    let sessions = r.snapshot(&(0..10).collect());
    for m in dropped.iter() {
        assert!(c.drops(&r, m));
        assert_eq!(c.step(&mut r, m), vec![]);
        assert_eq!(c.matches(), rooms);
        assert_eq!(c.subscribers(), vec![8]);
        assert_eq!(r.snapshot(&(0..10).collect()), sessions);
        assert_eq!(c.last_room_id(), 1);
    }
}

#[test]
fn rooms_and_sessions_agree_after_an_orderly_run() {
    let mut c = Coordinator::new();
    let mut r = registry_of(&["a", "b", "c", "d"]);
    let run = vec![
        create(0, "one"),
        Message::JoinMatch { id: 1, room_id: 1 },
        create(2, "two"),
        Message::JoinMatch { id: 3, room_id: 2 },
        Message::LeaveMatch { id: 1, room_id: 1 },
        Message::JoinMatch { id: 1, room_id: 2 },
        Message::Disconnected { id: 3 },
    ];
    c.replay(&mut r, &run);
    for m in c.matches() {
        for id in m.clients.iter() {
            assert_eq!(r.find(*id).unwrap().match_id, m.id);
        }
    }
    assert_eq!(c.find_match(2).unwrap().clients, vec![2, 1]);
    assert_eq!(c.find_match(1).unwrap().clients, vec![0]);
}

#[test]
fn leave_notices_follow_the_registry() {
    let mut c = Coordinator::new();
    let mut r = registry_of(&["a", "b", "c"]);
    c.step(&mut r, &create(2, "arena"));
    c.step(&mut r, &Message::JoinMatch { id: 0, room_id: 1 });
    c.step(&mut r, &Message::JoinMatch { id: 1, room_id: 1 });
    assert_eq!(c.find_match(1).unwrap().clients, vec![2, 0, 1]);
    let out = c.step(&mut r, &Message::LeaveMatch { id: 1, room_id: 1 });
    let left = || Packet::MatchLeaved { user_id: 1, user_name: "b".to_string() };
    assert_eq!(out, vec![Delivery { to: 0, packet: left() }, Delivery { to: 2, packet: left() }]);
    assert_eq!(c.find_match(1).unwrap().clients, vec![2, 0]);
}

#[test]
fn delete_notices_follow_the_member_list() {
    let mut c = Coordinator::new();
    let mut r = registry_of(&["a", "b", "c"]);
    c.step(&mut r, &create(2, "arena"));
    c.step(&mut r, &Message::JoinMatch { id: 1, room_id: 1 });
    c.step(&mut r, &Message::JoinMatch { id: 0, room_id: 1 });
    let out = c.step(&mut r, &Message::DeleteMatch { id: 2, room_id: 1 });
    assert_eq!(
        out,
        vec![
            Delivery { to: 1, packet: Packet::MatchDeleted },
            Delivery { to: 0, packet: Packet::MatchDeleted },
        ]
    );
    assert_eq!(c.matches(), vec![]);
}

#[test]
fn lists_sent_while_rooms_are_opened_show_whole_rooms() {
    // Two sessions watch the list while three others open rooms.
    let order = vec![
        Message::ListMatches { id: 0 },
        create(2, "a"),
        Message::ListMatches { id: 1 },
        create(3, "b"),
        create(4, "c"),
        Message::ListMatches { id: 0 },
    ];
    let names = ["a", "b", "c"];
    let mut c = Coordinator::new();
    let mut r = registry_of(&["u0", "u1", "u2", "u3", "u4"]);
    let sent = c.replay(&mut r, &order);
    let mut lists = 0;
    for d in sent.iter() {
        match &d.packet {
            Packet::MatchList { matches } => {
                lists += 1;
                assert!(matches.len() <= 3);
                for (k, entry) in matches.iter().enumerate() {
                    assert_eq!(entry, &(k as i32 + 1, names[k].to_string(), 1));
                }
            }
            Packet::MatchCreated { id, owner_id, room_name } => {
                assert_eq!(d.to, *owner_id);
                assert_eq!(*owner_id, *id + 1);
                assert_eq!(room_name, names[*id as usize - 1]);
            }
            other => panic!("unexpected message {:?}", other),
        }
    }
    // 1 + 1 + (1 + 2) + 2 + 2 lists: one to each lister when it asks, and
    // one to each subscriber after each room.
    assert_eq!(lists, 8);
    assert_eq!(
        c.matches(),
        vec![
            room(1, 2, "a", vec![2], false),
            room(2, 3, "b", vec![3], false),
            room(3, 4, "c", vec![4], false),
        ]
    );
    assert_eq!(c.subscribers(), vec![0, 1]);
    for (id, room_id) in [(2, 1), (3, 2), (4, 3), (0, NO_MATCH), (1, NO_MATCH)] {
        assert_eq!(r.find(id).unwrap().match_id, room_id);
    }
    assert_eq!(r.len(), 5);
}
