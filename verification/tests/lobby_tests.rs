use rigidity_lobby::enums::{GameModes, Maps};
use rigidity_lobby::lobby::Lobby;
use rigidity_lobby::models::CustomRoomData;
use rigidity_lobby::service;
use rigidity_lobby::store::RoomStore;

#[test]
fn send_message_finds_the_registered_handle() {
    let mut lobby = Lobby::new();
    lobby.connect(1, 100);
    lobby.connect(2, 200);
    assert_eq!(lobby.send_message(&1), Some(100));
    assert_eq!(lobby.send_message(&2), Some(200));
    assert_eq!(lobby.send_message(&3), None);
}

#[test]
fn connect_replaces_with_last_connection_winning() {
    let mut lobby = Lobby::new();
    lobby.connect(1, 100);
    lobby.connect(1, 101);
    assert_eq!(lobby.send_message(&1), Some(101));
    assert_eq!(lobby.sessions.len(), 1);
}

#[test]
fn disconnect_with_current_handle_removes_session() {
    let mut lobby = Lobby::new();
    lobby.connect(1, 100);
    assert!(lobby.disconnect(1, 100));
    assert_eq!(lobby.send_message(&1), None);
}

#[test]
fn stale_disconnect_is_a_no_op() {
    let mut lobby = Lobby::new();
    lobby.connect(1, 100);
    // the user reconnected; the old connection's teardown arrives late
    lobby.connect(1, 101);
    assert!(!lobby.disconnect(1, 100));
    assert_eq!(lobby.send_message(&1), Some(101));
    // disconnecting a user who was never registered changes nothing
    assert!(!lobby.disconnect(7, 700));
}

#[test]
fn send_many_skips_offline_users() {
    let mut lobby = Lobby::new();
    lobby.connect(1, 100);
    lobby.connect(3, 300);
    let handles = lobby.send_many_message(&vec![1, 2, 3]);
    assert_eq!(handles, vec![100, 300]);
}

#[test]
fn broadcast_except_excludes_the_listed_users() {
    let mut lobby = Lobby::new();
    lobby.connect(1, 100);
    lobby.connect(2, 200);
    lobby.connect(3, 300);
    let handles = lobby.send_message_to_all_except(&vec![2]);
    assert_eq!(handles, vec![100, 300]);
    let all = lobby.send_message_to_all_except(&vec![]);
    assert_eq!(all, vec![100, 200, 300]);
}

fn data(label: &str, teams: i32, per_team: i32) -> CustomRoomData {
    CustomRoomData {
        label: label.to_owned(),
        nb_teams: teams,
        max_players_per_team: per_team,
        game_mode: Some(GameModes::Standard),
        map: Some(Maps::Meridian),
    }
}

#[test]
fn disconnect_cleanup_notifies_remaining_occupants() {
    // room with owner 1 and members 2, 3, 4; user 2's connection drops
    let mut store = RoomStore::new();
    let mut lobby = Lobby::new();
    for (uid, handle) in [(1, 100), (2, 200), (3, 300), (4, 400)] {
        lobby.connect(uid, handle);
    }
    let rid = service::create(&mut store, data("alpha", 2, 2), 1)
        .unwrap()
        .snapshot
        .unwrap()
        .room
        .id;
    service::join(&mut store, rid, 2).unwrap();
    service::join(&mut store, rid, 3).unwrap();
    service::join(&mut store, rid, 4).unwrap();

    assert!(lobby.disconnect(2, 200));
    let cleanup = service::handle_websocket_closing(&mut store, 2).unwrap();
    assert_eq!(cleanup.cancelled_ticket, None);
    let snap = cleanup.notice.snapshot.unwrap();
    assert_eq!(snap.slots.len(), 3);
    assert!(!snap.slots.iter().any(|s| s.user_id == 2));
    assert_eq!(cleanup.notice.recipients, vec![1, 3, 4]);
    let handles = lobby.send_many_message(&cleanup.notice.recipients);
    assert_eq!(handles, vec![100, 300, 400]);
}

#[test]
fn end_to_end_disconnect_drops_session_and_slot() {
    let mut store = RoomStore::new();
    let mut lobby = Lobby::new();
    lobby.connect(1, 100);
    lobby.connect(2, 200);
    let rid = service::create(&mut store, data("alpha", 2, 2), 1)
        .unwrap()
        .snapshot
        .unwrap()
        .room
        .id;
    service::join(&mut store, rid, 2).unwrap();

    // a stale handle changes nothing
    assert!(service::handle_disconnect(&mut lobby, &mut store, 2, 999).is_none());
    assert_eq!(store.slots.len(), 2);
    assert_eq!(lobby.send_message(&2), Some(200));

    // the live handle removes the session and the slot
    let cleanup = service::handle_disconnect(&mut lobby, &mut store, 2, 200).unwrap();
    assert_eq!(lobby.send_message(&2), None);
    assert_eq!(cleanup.notice.recipients, vec![1]);
    assert_eq!(store.slots.len(), 1);
}

#[test]
fn disconnect_cleanup_without_slot_is_a_no_op() {
    let mut store = RoomStore::new();
    assert!(service::handle_websocket_closing(&mut store, 9).is_none());
}

#[test]
fn disconnect_cleanup_of_owner_deletes_room() {
    let mut store = RoomStore::new();
    let rid = service::create(&mut store, data("alpha", 2, 2), 1)
        .unwrap()
        .snapshot
        .unwrap()
        .room
        .id;
    service::join(&mut store, rid, 2).unwrap();
    let cleanup = service::handle_websocket_closing(&mut store, 1).unwrap();
    assert!(cleanup.notice.snapshot.is_none());
    assert_eq!(cleanup.notice.recipients, vec![2]);
    assert!(store.rooms.is_empty());
    assert!(store.slots.is_empty());
}

#[test]
fn disconnect_cleanup_during_search_returns_ticket() {
    let mut store = RoomStore::new();
    let rid = service::create(&mut store, data("alpha", 1, 2), 1)
        .unwrap()
        .snapshot
        .unwrap()
        .room
        .id;
    service::join(&mut store, rid, 2).unwrap();
    let users = vec![
        rigidity_lobby::models::User { id: 1, nickname: "ann".to_owned() },
        rigidity_lobby::models::User { id: 2, nickname: "bo".to_owned() },
    ];
    let input = service::start_matchmaking(&store, rid, 1, &users).unwrap();
    service::commit_matchmaking(&mut store, rid, input.ticket_id).unwrap();

    let cleanup = service::handle_websocket_closing(&mut store, 2).unwrap();
    // the abandoned search's ticket comes back for cancellation, and the
    // room has returned to the forming phase
    assert_eq!(cleanup.cancelled_ticket, Some(input.ticket_id));
    let snap = cleanup.notice.snapshot.unwrap();
    assert_eq!(snap.room.matchmaking_ticket, None);
    assert_eq!(snap.slots.len(), 1);
}
