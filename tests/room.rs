use curve_fever::message::{ClientMessage, Direction, GridInfo, ServerMessage};
use curve_fever::player::{Spawn, SUBPIXELS};
use curve_fever::room::{JoinError, Room, ROOM_HEIGHT, ROOM_LINE_WIDTH, ROOM_TURN_RATE, ROOM_WIDTH};

fn steps(line_width: u32) -> Vec<(i64, i64)> {
    (0..360)
        .map(|h| {
            let r = (h as f64).to_radians();
            let scale = line_width as f64 * SUBPIXELS as f64;
            ((r.sin() * scale).round() as i64, (r.cos() * scale).round() as i64)
        })
        .collect()
}

fn room() -> Room {
    Room::new("ABCdef1".to_string(), ROOM_WIDTH, ROOM_HEIGHT, ROOM_LINE_WIDTH, ROOM_TURN_RATE, steps(2))
}

#[test]
fn first_join_gets_roster_and_host() {
    let mut r = room();
    let out = r.add_player_with_id(10, "ann", 1).unwrap();
    assert_eq!(out.len(), 2);
    assert_eq!(out[0].to, vec![10]);
    match &out[0].message {
        ServerMessage::JoinSuccess { room_name, grid_info, players, uuid } => {
            assert_eq!(room_name, "ABCdef1");
            assert_eq!(*grid_info, GridInfo { width: 1000, height: 800, line_width: 2 });
            assert_eq!(players.len(), 1);
            assert_eq!(players[0].uuid, 1);
            assert!(players[0].host);
            assert_eq!(*uuid, 1);
        }
        other => panic!("unexpected {:?}", other),
    }
    assert!(out[1].to.is_empty());
    assert!(r.game.players[0].host);
    assert!(r.running());
}

#[test]
fn second_join_is_announced_to_others() {
    let mut r = room();
    r.add_player_with_id(10, "ann", 1).unwrap();
    let out = r.add_player_with_id(11, "bob", 2).unwrap();
    match &out[0].message {
        ServerMessage::JoinSuccess { players, uuid, .. } => {
            assert_eq!(players.iter().map(|p| p.uuid).collect::<Vec<_>>(), vec![1, 2]);
            assert_eq!(*uuid, 2);
        }
        other => panic!("unexpected {:?}", other),
    }
    assert_eq!(out[1].to, vec![10]);
    match &out[1].message {
        ServerMessage::NewPlayer(p) => {
            assert_eq!(p.uuid, 2);
            assert_eq!(p.name, "bob");
            assert!(!p.host);
        }
        other => panic!("unexpected {:?}", other),
    }
}

#[test]
fn join_errors() {
    let mut r = room();
    assert_eq!(r.add_player_with_id(1, "a-name-far-too-long-for-it", 5), Err(JoinError::NameTooLong));
    assert_eq!(r.add_player_with_id(1, "zero", 0), Err(JoinError::IdTaken));
    r.add_player_with_id(1, "ann", 5).unwrap();
    assert_eq!(r.add_player_with_id(1, "again", 6), Err(JoinError::AlreadyJoined));
    assert_eq!(r.add_player_with_id(2, "twin", 5), Err(JoinError::IdTaken));
    for i in 2..=64u128 {
        r.add_player_with_id(i as u64, "more", 100 + i).unwrap();
    }
    assert_eq!(r.add_player_with_id(99, "late", 999), Err(JoinError::RoomFull));
    assert_eq!(r.sessions.len(), 64);
}

#[test]
fn random_ids_are_non_zero_and_distinct() {
    let mut r = room();
    r.add_player(1, "ann").unwrap();
    r.add_player(2, "bob").unwrap();
    assert_ne!(r.game.players[0].uuid, 0);
    assert_ne!(r.game.players[1].uuid, 0);
    assert_ne!(r.game.players[0].uuid, r.game.players[1].uuid);
    assert_eq!(r.add_player(3, "a-name-far-too-long-for-it"), Err(JoinError::NameTooLong));
}

#[test]
fn host_starts_round_with_state_then_round_started() {
    let mut r = room();
    r.add_player_with_id(10, "ann", 1).unwrap();
    r.add_player_with_id(11, "bob", 2).unwrap();
    let (keep, out) = r.on_message(10, ClientMessage::StartGame);
    assert!(keep);
    assert_eq!(out.len(), 2);
    assert_eq!(out[0].to, vec![10, 11]);
    match &out[0].message {
        ServerMessage::GameState(s) => assert_eq!(s.len(), 2),
        other => panic!("unexpected {:?}", other),
    }
    assert_eq!(out[1].to, vec![10, 11]);
    assert_eq!(out[1].message, ServerMessage::RoundStarted);
    let (keep, out) = r.tick_once();
    assert!(keep);
    assert_eq!(out.len(), 1);
    assert!(matches!(out[0].message, ServerMessage::GameState(_)));
}

#[test]
fn non_host_cannot_start() {
    let mut r = room();
    r.add_player_with_id(10, "ann", 1).unwrap();
    r.add_player_with_id(11, "bob", 2).unwrap();
    let (keep, out) = r.on_message(11, ClientMessage::StartGame);
    assert!(keep);
    assert!(out.is_empty());
    assert!(r.game.active.iter().all(|a| !*a));
    let (_, out) = r.on_message(12, ClientMessage::StartGame);
    assert!(out.is_empty());
}

#[test]
fn move_steers_own_player() {
    let mut r = room();
    r.add_player_with_id(10, "ann", 1).unwrap();
    r.add_player_with_id(11, "bob", 2).unwrap();
    r.game.initialize_at(&vec![Spawn { x: 300, y: 300, turns: 0 }, Spawn { x: 600, y: 300, turns: 0 }]);
    let (_, out) = r.on_message(11, ClientMessage::Move(Direction::Left));
    assert!(out.is_empty());
    assert_eq!(r.game.players[1].direction, Direction::Left);
    assert_eq!(r.game.players[0].direction, Direction::Unchanged);
    r.tick_once();
    assert_eq!(r.game.players[1].heading, 2);
}

#[test]
fn room_requests_inside_room_are_ignored() {
    let mut r = room();
    r.add_player_with_id(10, "ann", 1).unwrap();
    let (keep, out) = r.on_message(10, ClientMessage::CreateRoom("x".to_string()));
    assert!(keep && out.is_empty());
    let (keep, out) = r.on_message(10, ClientMessage::JoinRoom("x".to_string(), "AAAAAAA".to_string()));
    assert!(keep && out.is_empty());
}

#[test]
fn host_disconnect_promotes_one_remaining_player() {
    let mut r = room();
    r.add_player_with_id(10, "ann", 1).unwrap();
    r.add_player_with_id(11, "bob", 2).unwrap();
    r.add_player_with_id(12, "cid", 3).unwrap();
    let (keep, out) = r.on_message(10, ClientMessage::Disconnected);
    assert!(keep);
    assert_eq!(out.len(), 1);
    assert_eq!(out[0].to, vec![11, 12]);
    let hosts: Vec<u128> = r.game.players.iter().filter(|p| p.host).map(|p| p.uuid).collect();
    assert_eq!(hosts.len(), 1);
    assert!(hosts[0] == 2 || hosts[0] == 3);
    assert_eq!(out[0].message, ServerMessage::PlayerDisconnected(1, hosts[0]));
}

#[test]
fn guest_disconnect_names_current_host() {
    let mut r = room();
    r.add_player_with_id(10, "ann", 1).unwrap();
    r.add_player_with_id(11, "bob", 2).unwrap();
    let out = r.on_client_disconnected(11);
    assert_eq!(out[0].message, ServerMessage::PlayerDisconnected(2, 1));
    assert_eq!(out[0].to, vec![10]);
    assert!(r.on_client_disconnected(77).is_empty());
}

#[test]
fn last_disconnect_stops_room() {
    let mut r = room();
    r.add_player_with_id(10, "ann", 1).unwrap();
    let (keep, out) = r.on_message(10, ClientMessage::Disconnected);
    assert!(!keep);
    assert_eq!(out[0].message, ServerMessage::PlayerDisconnected(1, 1));
    assert!(out[0].to.is_empty());
    let (keep, out) = r.tick_once();
    assert!(!keep);
    assert!(out.is_empty());
    r.add_player_with_id(20, "new", 4).unwrap();
    assert!(r.game.players.iter().find(|p| p.uuid == 4).unwrap().host);
}

#[test]
fn tick_once_idles_without_running_round() {
    let mut r = room();
    r.add_player_with_id(10, "ann", 1).unwrap();
    let (keep, out) = r.tick_once();
    assert!(keep);
    assert!(out.is_empty());
}
