use match_server::coordinator::Message;
use match_server::packet::{Delivery, Packet, RawPacket, Vec3};
use match_server::registry::{Client, Registry, NO_MATCH};
use match_server::session::{
    client_ids, handle, react, spawn_messages, transition, Action, ClientState, Event, Reaction,
};

fn pos(x: f32, y: f32, z: f32) -> Vec3 {
    Vec3 { x: x.to_bits(), y: y.to_bits(), z: z.to_bits() }
}

fn call(target: i32, broadcast: bool) -> Packet {
    Packet::RemoteObjectCall {
        id: target,
        object_id: 1,
        method: "hit".to_string(),
        params: vec![RawPacket::Int(3), RawPacket::Array(vec![RawPacket::Null])],
        broadcast,
    }
}

fn registry() -> Registry {
    let mut r = Registry::new();
    for (id, room) in [(0, 1), (1, 1), (2, 2), (3, 1), (4, NO_MATCH)] {
        assert!(r.add(Client { id, match_id: room, name: format!("u{}", id) }));
    }
    r
}

fn quiet(next: ClientState) -> Reaction {
    Reaction { next, intent: None, replies: vec![], relay_to: vec![] }
}

#[test]
fn menu_forwards_control_messages() {
    assert_eq!(
        transition(ClientState::Menu, 7, &Packet::ListMatches),
        (ClientState::Menu, Action::Forward { intent: Message::ListMatches { id: 7 } })
    );
    assert_eq!(
        transition(ClientState::Menu, 7, &Packet::RemoveFromListMatches),
        (ClientState::Menu, Action::Forward { intent: Message::RemoveFromListMatches { id: 7 } })
    );
    assert_eq!(
        transition(ClientState::Menu, 7, &Packet::JoinMatch { room_id: 3 }),
        (
            ClientState::MatchClient,
            Action::Forward { intent: Message::JoinMatch { id: 7, room_id: 3 } }
        )
    );
    assert_eq!(
        transition(ClientState::Menu, 7, &Packet::NewMatch { room_name: String::new() }),
        (
            ClientState::MatchHost,
            Action::Forward { intent: Message::NewMatch { id: 7, room_name: String::new() } }
        )
    );
}

#[test]
fn menu_login_and_ignore() {
    assert_eq!(
        transition(ClientState::Menu, 7, &Packet::LoginRequest { name: "ann".to_string() }),
        (ClientState::Menu, Action::Login { name: "ann".to_string() })
    );
    for p in [
        Packet::Ping,
        Packet::LeaveMatch { room_id: 1 },
        Packet::DeleteMatch { room_id: 1 },
        Packet::StartMatch { room_id: 1, map: "m".to_string() },
        call(1, false),
        Packet::SpawnPlayers { room_id: 1, positions: vec![] },
    ] {
        assert_eq!(transition(ClientState::Menu, 7, &p), (ClientState::Menu, Action::Ignore));
    }
}

#[test]
fn match_client_transitions() {
    let s = ClientState::MatchClient;
    assert_eq!(
        transition(s, 7, &Packet::LeaveMatch { room_id: 3 }),
        (ClientState::Menu, Action::Forward { intent: Message::LeaveMatch { id: 7, room_id: 3 } })
    );
    assert_eq!(transition(s, 7, &call(2, false)), (s, Action::Unicast { target: 2 }));
    assert_eq!(transition(s, 7, &call(2, true)), (s, Action::Relay));
    assert_eq!(transition(s, 7, &Packet::Ping), (s, Action::Relay));
    assert_eq!(transition(s, 7, &Packet::DeleteMatch { room_id: 3 }), (s, Action::Relay));
    assert_eq!(
        transition(s, 7, &Packet::SpawnPlayers { room_id: 3, positions: vec![] }),
        (s, Action::Relay)
    );
}

#[test]
fn match_host_transitions() {
    let s = ClientState::MatchHost;
    assert_eq!(
        transition(s, 7, &Packet::StartMatch { room_id: 3, map: "dust".to_string() }),
        (
            s,
            Action::ForwardAndRelay {
                intent: Message::StartMatch { id: 7, room_id: 3, map: "dust".to_string() }
            }
        )
    );
    assert_eq!(
        transition(s, 7, &Packet::DeleteMatch { room_id: 3 }),
        (ClientState::Menu, Action::Forward { intent: Message::DeleteMatch { id: 7, room_id: 3 } })
    );
    let places = vec![pos(1.0, 2.0, 3.0)];
    assert_eq!(
        transition(s, 7, &Packet::SpawnPlayers { room_id: 3, positions: places.clone() }),
        (s, Action::Spawn { room_id: 3, positions: places })
    );
    assert_eq!(transition(s, 7, &call(2, false)), (s, Action::Unicast { target: 2 }));
    assert_eq!(transition(s, 7, &call(2, true)), (s, Action::Relay));
    assert_eq!(transition(s, 7, &Packet::LeaveMatch { room_id: 3 }), (s, Action::Relay));
}

#[test]
fn in_game_relays_everything() {
    let s = ClientState::InGame;
    for p in [
        Packet::Ping,
        Packet::LeaveMatch { room_id: 1 },
        Packet::DeleteMatch { room_id: 1 },
        call(1, false),
        Packet::LoginRequest { name: "x".to_string() },
    ] {
        assert_eq!(transition(s, 7, &p), (s, Action::Relay));
    }
}

#[test]
fn spawn_players_wraps_over_two_positions() {
    let members = vec![
        Client { id: 10, match_id: 1, name: "a".to_string() },
        Client { id: 11, match_id: 1, name: "b".to_string() },
        Client { id: 12, match_id: 1, name: "c".to_string() },
    ];
    let first_place = pos(0.0, 1.0, 2.0);
    let second_place = pos(-3.5, 4.0, 5.25);
    assert_eq!(
        spawn_messages(&members, &vec![first_place, second_place]),
        vec![
            Delivery { to: 10, packet: Packet::Spawn { position: first_place } },
            Delivery { to: 11, packet: Packet::Spawn { position: second_place } },
            Delivery { to: 12, packet: Packet::Spawn { position: first_place } },
        ]
    );
}

#[test]
fn spawn_players_without_positions_sends_nothing() {
    let members = vec![Client { id: 10, match_id: 1, name: "a".to_string() }];
    assert_eq!(spawn_messages(&members, &vec![]), vec![]);
    assert_eq!(spawn_messages(&vec![], &vec![pos(0.0, 0.0, 0.0)]), vec![]);
}

#[test]
fn spawn_players_with_more_positions_than_members() {
    let members = vec![
        Client { id: 10, match_id: 1, name: "a".to_string() },
        Client { id: 11, match_id: 1, name: "b".to_string() },
    ];
    let places = vec![pos(1.0, 0.0, 0.0), pos(2.0, 0.0, 0.0), pos(3.0, 0.0, 0.0)];
    let out = spawn_messages(&members, &places);
    assert_eq!(out[0], Delivery { to: 10, packet: Packet::Spawn { position: places[0] } });
    assert_eq!(out[1], Delivery { to: 11, packet: Packet::Spawn { position: places[1] } });
    assert_eq!(out.len(), 2);
}

#[test]
fn react_spawns_the_members_of_the_room() {
    let mut r = registry();
    let first_place = pos(0.0, 0.0, 0.0);
    let second_place = pos(9.0, 9.0, 9.0);
    let packet = Packet::SpawnPlayers { room_id: 1, positions: vec![first_place, second_place] };
    let out = react(ClientState::MatchHost, 0, &packet, &mut r);
    assert_eq!(
        out,
        Reaction {
            next: ClientState::MatchHost,
            intent: None,
            replies: vec![
                Delivery { to: 0, packet: Packet::Spawn { position: first_place } },
                Delivery { to: 1, packet: Packet::Spawn { position: second_place } },
                Delivery { to: 3, packet: Packet::Spawn { position: first_place } },
            ],
            relay_to: vec![],
        }
    );
}

#[test]
fn react_login_names_the_session() {
    let mut r = registry();
    let out = react(ClientState::Menu, 4, &Packet::LoginRequest { name: "eve".to_string() }, &mut r);
    assert_eq!(
        out,
        Reaction {
            next: ClientState::Menu,
            intent: None,
            replies: vec![Delivery { to: 4, packet: Packet::Login { id: 4, name: "eve".to_string() } }],
            relay_to: vec![],
        }
    );
    assert_eq!(r.find(4), Some(Client { id: 4, match_id: NO_MATCH, name: "eve".to_string() }));
    assert_eq!(r.find(0).unwrap().name, "u0");
}

#[test]
fn react_relays_to_the_rest_of_the_room() {
    let mut r = registry();
    let out = react(ClientState::MatchClient, 1, &Packet::Ping, &mut r);
    assert_eq!(out, Reaction { relay_to: vec![0, 3], ..quiet(ClientState::MatchClient) });
    let alone = react(ClientState::InGame, 2, &Packet::Ping, &mut r);
    assert_eq!(alone, quiet(ClientState::InGame));
    let roomless = react(ClientState::InGame, 4, &Packet::Ping, &mut r);
    assert_eq!(roomless, quiet(ClientState::InGame));
}

#[test]
fn react_unicasts_to_a_known_target_only() {
    let mut r = registry();
    let out = react(ClientState::MatchHost, 0, &call(2, false), &mut r);
    assert_eq!(out, Reaction { relay_to: vec![2], ..quiet(ClientState::MatchHost) });
    let lost = react(ClientState::MatchHost, 0, &call(99, false), &mut r);
    assert_eq!(lost, quiet(ClientState::MatchHost));
    let all = react(ClientState::MatchHost, 0, &call(2, true), &mut r);
    assert_eq!(all, Reaction { relay_to: vec![1, 3], ..quiet(ClientState::MatchHost) });
}

#[test]
fn react_forwards_intents() {
    let mut r = registry();
    let leave = react(ClientState::MatchClient, 1, &Packet::LeaveMatch { room_id: 1 }, &mut r);
    assert_eq!(
        leave,
        Reaction {
            intent: Some(Message::LeaveMatch { id: 1, room_id: 1 }),
            ..quiet(ClientState::Menu)
        }
    );
    let start = react(
        ClientState::MatchHost,
        0,
        &Packet::StartMatch { room_id: 1, map: "m".to_string() },
        &mut r,
    );
    assert_eq!(
        start,
        Reaction {
            next: ClientState::MatchHost,
            intent: Some(Message::StartMatch { id: 0, room_id: 1, map: "m".to_string() }),
            replies: vec![],
            relay_to: vec![1, 3],
        }
    );
    let ignored = react(ClientState::Menu, 0, &Packet::Ping, &mut r);
    assert_eq!(ignored, quiet(ClientState::Menu));
}

#[test]
fn client_ids_keeps_order() {
    let r = registry();
    assert_eq!(client_ids(&r.members_of(1)), vec![0, 1, 3]);
    assert_eq!(client_ids(&vec![]), Vec::<i32>::new());
}

#[test]
fn handle_a_message_reads_on() {
    let mut r = registry();
    let event = Event::Received { packet: Packet::JoinMatch { room_id: 2 } };
    let (reaction, reads_on) = handle(ClientState::Menu, 4, &event, &mut r);
    assert!(reads_on);
    assert_eq!(
        reaction,
        Reaction {
            intent: Some(Message::JoinMatch { id: 4, room_id: 2 }),
            ..quiet(ClientState::MatchClient)
        }
    );
}

#[test]
fn handle_a_closed_connection_reports_and_ends() {
    let mut r = registry();
    for state in [ClientState::Menu, ClientState::MatchClient, ClientState::MatchHost, ClientState::InGame] {
        let (reaction, reads_on) = handle(state, 1, &Event::Closed, &mut r);
        assert!(!reads_on);
        assert_eq!(
            reaction,
            Reaction { intent: Some(Message::Disconnected { id: 1 }), ..quiet(state) }
        );
    }
    assert_eq!(r.len(), 5);
}

#[test]
fn handle_an_undecodable_frame_ends_the_connection() {
    let mut r = registry();
    let (reaction, reads_on) = handle(ClientState::MatchHost, 0, &Event::Undecodable, &mut r);
    assert!(!reads_on);
    assert_eq!(
        reaction,
        Reaction { intent: Some(Message::Disconnected { id: 0 }), ..quiet(ClientState::MatchHost) }
    );
}

#[test]
fn spawn_for_no_room_reaches_nobody() {
    // Sessions 4 and 5 are in no room; the room id that means "none" names
    // none of them.
    let mut r = registry();
    assert!(r.add(Client { id: 5, match_id: NO_MATCH, name: "u5".to_string() }));
    let packet = Packet::SpawnPlayers { room_id: NO_MATCH, positions: vec![pos(1.0, 2.0, 3.0)] };
    let out = react(ClientState::MatchHost, 4, &packet, &mut r);
    assert_eq!(out, quiet(ClientState::MatchHost));
    let relayed = react(ClientState::MatchHost, 4, &Packet::Ping, &mut r);
    assert_eq!(relayed, quiet(ClientState::MatchHost));
}

#[test]
fn spawn_reaches_the_members_of_the_named_room_only() {
    let mut r = registry();
    let place = pos(1.0, 2.0, 3.0);
    let packet = Packet::SpawnPlayers { room_id: 2, positions: vec![place] };
    let out = react(ClientState::MatchHost, 0, &packet, &mut r);
    assert_eq!(
        out,
        Reaction {
            replies: vec![Delivery { to: 2, packet: Packet::Spawn { position: place } }],
            ..quiet(ClientState::MatchHost)
        }
    );
    let empty = Packet::SpawnPlayers { room_id: 7, positions: vec![place] };
    assert_eq!(react(ClientState::MatchHost, 0, &empty, &mut r), quiet(ClientState::MatchHost));
}

#[test]
fn start_runs_login_then_create() {
    let mut r = registry();
    let me = r.find(4).unwrap();
    let events = vec![
        Event::Received { packet: Packet::LoginRequest { name: "eve".to_string() } },
        Event::Received { packet: Packet::NewMatch { room_name: "arena".to_string() } },
    ];
    let out = me.start(&events, &mut r);
    assert_eq!(
        out,
        vec![
            Reaction {
                replies: vec![Delivery {
                    to: 4,
                    packet: Packet::Login { id: 4, name: "eve".to_string() }
                }],
                ..quiet(ClientState::Menu)
            },
            Reaction {
                intent: Some(Message::NewMatch { id: 4, room_name: "arena".to_string() }),
                ..quiet(ClientState::MatchHost)
            },
        ]
    );
    assert_eq!(r.find(4), Some(Client { id: 4, match_id: NO_MATCH, name: "eve".to_string() }));
    assert_eq!(r.find(0).unwrap().name, "u0");
}

#[test]
fn start_ends_with_the_first_event_that_is_no_message() {
    let mut r = registry();
    let me = r.find(1).unwrap();
    let events = vec![
        Event::Received { packet: Packet::JoinMatch { room_id: 1 } },
        Event::Received { packet: Packet::Ping },
        Event::Closed,
        Event::Received { packet: Packet::LeaveMatch { room_id: 1 } },
    ];
    let out = me.start(&events, &mut r);
    assert_eq!(
        out,
        vec![
            Reaction {
                intent: Some(Message::JoinMatch { id: 1, room_id: 1 }),
                ..quiet(ClientState::MatchClient)
            },
            Reaction { relay_to: vec![0, 3], ..quiet(ClientState::MatchClient) },
            Reaction {
                intent: Some(Message::Disconnected { id: 1 }),
                ..quiet(ClientState::MatchClient)
            },
        ]
    );
}

#[test]
fn start_without_events_does_nothing() {
    let mut r = registry();
    let me = r.find(1).unwrap();
    assert_eq!(me.start(&vec![], &mut r), vec![]);
    let undecodable = me.start(&vec![Event::Undecodable, Event::Closed], &mut r);
    assert_eq!(
        undecodable,
        vec![Reaction { intent: Some(Message::Disconnected { id: 1 }), ..quiet(ClientState::Menu) }]
    );
}
