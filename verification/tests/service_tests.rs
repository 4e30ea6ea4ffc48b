use rigidity_lobby::enums::{Archetypes, GameModes, Maps};
use rigidity_lobby::errors::AppError;
use rigidity_lobby::models::CustomRoomData;
use rigidity_lobby::service;
use rigidity_lobby::store::RoomStore;

fn data(label: &str, teams: i32, per_team: i32) -> CustomRoomData {
    CustomRoomData {
        label: label.to_owned(),
        nb_teams: teams,
        max_players_per_team: per_team,
        game_mode: Some(GameModes::Standard),
        map: Some(Maps::Meridian),
    }
}

#[test]
fn create_seats_owner_at_origin() {
    let mut store = RoomStore::new();
    let notice = service::create(&mut store, data("alpha", 2, 2), 1).unwrap();
    let snap = notice.snapshot.unwrap();
    assert_eq!(snap.room.label, "alpha");
    assert_eq!(snap.room.user_id, 1);
    assert_eq!(snap.room.nb_teams, 2);
    assert_eq!(snap.room.max_player_per_team, 2);
    assert_eq!(snap.room.matchmaking_ticket, None);
    assert_eq!(snap.slots.len(), 1);
    assert_eq!(snap.slots[0].user_id, 1);
    assert_eq!(snap.slots[0].team, 0);
    assert_eq!(snap.slots[0].team_position, 0);
    assert_eq!(snap.slots[0].current_archetype, Archetypes::Assault);
    assert_eq!(notice.recipients, vec![1]);
}

#[test]
fn create_rejects_double_occupancy() {
    let mut store = RoomStore::new();
    service::create(&mut store, data("alpha", 2, 2), 1).unwrap();
    let err = service::create(&mut store, data("beta", 2, 2), 1).unwrap_err();
    assert_eq!(err, AppError::Conflict);
    assert_eq!(store.rooms.len(), 1);
}

#[test]
fn create_rejects_empty_grid() {
    let mut store = RoomStore::new();
    let err = service::create(&mut store, data("alpha", 0, 2), 1).unwrap_err();
    assert_eq!(err, AppError::Conflict);
    let err = service::create(&mut store, data("alpha", 2, 0), 1).unwrap_err();
    assert_eq!(err, AppError::Conflict);
}

#[test]
fn join_fills_grid_in_row_major_order() {
    let mut store = RoomStore::new();
    let notice = service::create(&mut store, data("alpha", 2, 2), 1).unwrap();
    let rid = notice.snapshot.unwrap().room.id;
    let n2 = service::join(&mut store, rid, 2).unwrap();
    let s2 = n2.snapshot.unwrap();
    assert_eq!(s2.slots.len(), 2);
    assert_eq!((s2.slots[1].team, s2.slots[1].team_position), (0, 1));
    let n3 = service::join(&mut store, rid, 3).unwrap();
    let s3 = n3.snapshot.unwrap();
    assert_eq!((s3.slots[2].team, s3.slots[2].team_position), (1, 0));
    let n4 = service::join(&mut store, rid, 4).unwrap();
    let s4 = n4.snapshot.unwrap();
    assert_eq!((s4.slots[3].team, s4.slots[3].team_position), (1, 1));
    assert_eq!(n4.recipients, vec![1, 2, 3, 4]);
}

#[test]
fn join_missing_room_is_not_found() {
    let mut store = RoomStore::new();
    assert_eq!(service::join(&mut store, 42, 2).unwrap_err(), AppError::NotFound);
}

#[test]
fn join_at_capacity_is_conflict_and_leaves_count() {
    let mut store = RoomStore::new();
    let rid = service::create(&mut store, data("alpha", 1, 2), 1)
        .unwrap()
        .snapshot
        .unwrap()
        .room
        .id;
    service::join(&mut store, rid, 2).unwrap();
    let before = store.slots.len();
    assert_eq!(service::join(&mut store, rid, 3).unwrap_err(), AppError::Conflict);
    assert_eq!(store.slots.len(), before);
}

#[test]
fn two_joins_for_last_slot_one_wins() {
    let mut store = RoomStore::new();
    let rid = service::create(&mut store, data("alpha", 1, 2), 1)
        .unwrap()
        .snapshot
        .unwrap()
        .room
        .id;
    // two callers race for the single remaining coordinate; the store
    // serializes them, so exactly the first takes (0, 1)
    let first = service::join(&mut store, rid, 2);
    let second = service::join(&mut store, rid, 3);
    let snap = first.unwrap().snapshot.unwrap();
    assert_eq!((snap.slots[1].team, snap.slots[1].team_position), (0, 1));
    assert_eq!(second.unwrap_err(), AppError::Conflict);
    let occupied: Vec<(i32, i32)> = store
        .slots
        .iter()
        .map(|s| (s.team, s.team_position))
        .collect();
    assert_eq!(occupied, vec![(0, 0), (0, 1)]);
}

#[test]
fn quit_of_regular_member_keeps_room() {
    let mut store = RoomStore::new();
    let rid = service::create(&mut store, data("alpha", 2, 2), 1)
        .unwrap()
        .snapshot
        .unwrap()
        .room
        .id;
    service::join(&mut store, rid, 2).unwrap();
    let notice = service::quit(&mut store, rid, 2).unwrap();
    let snap = notice.snapshot.unwrap();
    assert_eq!(snap.slots.len(), 1);
    assert_eq!(snap.slots[0].user_id, 1);
    assert_eq!(notice.recipients, vec![1]);
}

#[test]
fn quit_of_owner_deletes_room_and_slots() {
    let mut store = RoomStore::new();
    let rid = service::create(&mut store, data("alpha", 2, 2), 1)
        .unwrap()
        .snapshot
        .unwrap()
        .room
        .id;
    service::join(&mut store, rid, 2).unwrap();
    service::join(&mut store, rid, 3).unwrap();
    let notice = service::quit(&mut store, rid, 1).unwrap();
    assert!(notice.snapshot.is_none());
    assert_eq!(notice.recipients, vec![2, 3]);
    assert!(store.rooms.is_empty());
    assert!(store.slots.is_empty());
}

#[test]
fn quit_without_slot_is_not_found() {
    let mut store = RoomStore::new();
    let rid = service::create(&mut store, data("alpha", 2, 2), 1)
        .unwrap()
        .snapshot
        .unwrap()
        .room
        .id;
    assert_eq!(service::quit(&mut store, rid, 9).unwrap_err(), AppError::NotFound);
}

#[test]
fn delete_removes_owned_room() {
    let mut store = RoomStore::new();
    service::create(&mut store, data("alpha", 2, 2), 1).unwrap();
    let notice = service::delete(&mut store, 1).unwrap();
    assert!(notice.snapshot.is_none());
    assert!(store.rooms.is_empty());
    assert!(store.slots.is_empty());
    assert_eq!(service::delete(&mut store, 1).unwrap_err(), AppError::NotFound);
}

#[test]
fn kick_by_owner_removes_target() {
    let mut store = RoomStore::new();
    let rid = service::create(&mut store, data("alpha", 2, 2), 1)
        .unwrap()
        .snapshot
        .unwrap()
        .room
        .id;
    service::join(&mut store, rid, 2).unwrap();
    let notice = service::kick(&mut store, rid, 2, Some(1)).unwrap();
    assert_eq!(notice.snapshot.unwrap().slots.len(), 1);
    assert!(!store.slots.iter().any(|s| s.user_id == 2));
}

#[test]
fn kick_by_non_owner_is_forbidden() {
    let mut store = RoomStore::new();
    let rid = service::create(&mut store, data("alpha", 2, 2), 1)
        .unwrap()
        .snapshot
        .unwrap()
        .room
        .id;
    service::join(&mut store, rid, 2).unwrap();
    assert_eq!(
        service::kick(&mut store, rid, 1, Some(2)).unwrap_err(),
        AppError::Forbidden
    );
}

#[test]
fn system_kick_of_owner_cascades() {
    let mut store = RoomStore::new();
    let rid = service::create(&mut store, data("alpha", 2, 2), 1)
        .unwrap()
        .snapshot
        .unwrap()
        .room
        .id;
    service::join(&mut store, rid, 2).unwrap();
    let notice = service::kick(&mut store, rid, 1, None).unwrap();
    assert!(notice.snapshot.is_none());
    assert_eq!(notice.recipients, vec![2]);
    assert!(store.rooms.is_empty());
    assert!(store.slots.is_empty());
}

#[test]
fn switch_slot_moves_caller() {
    let mut store = RoomStore::new();
    let rid = service::create(&mut store, data("alpha", 2, 2), 1)
        .unwrap()
        .snapshot
        .unwrap()
        .room
        .id;
    let slot_data = rigidity_lobby::models::SwitchSlotData { team: 1, team_position: 1 };
    let notice = service::switch_slot(&mut store, rid, 1, slot_data).unwrap();
    let snap = notice.snapshot.unwrap();
    assert_eq!((snap.slots[0].team, snap.slots[0].team_position), (1, 1));
}

#[test]
fn switch_slot_to_occupied_target_is_conflict() {
    let mut store = RoomStore::new();
    let rid = service::create(&mut store, data("alpha", 2, 2), 1)
        .unwrap()
        .snapshot
        .unwrap()
        .room
        .id;
    service::join(&mut store, rid, 2).unwrap();
    // user 2 sits at (0, 1); user 1 tries to move there
    let slot_data = rigidity_lobby::models::SwitchSlotData { team: 0, team_position: 1 };
    let err = service::switch_slot(&mut store, rid, 1, slot_data).unwrap_err();
    assert_eq!(err, AppError::Conflict);
    // the caller's original slot is unchanged
    let own = store.slots.iter().find(|s| s.user_id == 1).unwrap();
    assert_eq!((own.team, own.team_position), (0, 0));
}

#[test]
fn switch_slot_out_of_bounds_is_conflict() {
    let mut store = RoomStore::new();
    let rid = service::create(&mut store, data("alpha", 2, 2), 1)
        .unwrap()
        .snapshot
        .unwrap()
        .room
        .id;
    let slot_data = rigidity_lobby::models::SwitchSlotData { team: 2, team_position: 0 };
    assert_eq!(
        service::switch_slot(&mut store, rid, 1, slot_data).unwrap_err(),
        AppError::Conflict
    );
}

#[test]
fn switch_archetype_updates_callers_slot() {
    let mut store = RoomStore::new();
    let rid = service::create(&mut store, data("alpha", 2, 2), 1)
        .unwrap()
        .snapshot
        .unwrap()
        .room
        .id;
    let notice = service::switch_archetype(&mut store, rid, Archetypes::Recon, 1).unwrap();
    assert_eq!(
        notice.snapshot.unwrap().slots[0].current_archetype,
        Archetypes::Recon
    );
}

#[test]
fn update_rewrites_room_settings() {
    let mut store = RoomStore::new();
    let rid = service::create(&mut store, data("alpha", 2, 2), 1)
        .unwrap()
        .snapshot
        .unwrap()
        .room
        .id;
    let mut new_data = data("beta", 3, 2);
    new_data.map = Some(Maps::Foundry);
    new_data.game_mode = Some(GameModes::Ranked);
    let notice = service::update(&mut store, new_data, 1, rid).unwrap();
    let snap = notice.snapshot.unwrap();
    assert_eq!(snap.room.label, "beta");
    assert_eq!(snap.room.nb_teams, 3);
    assert_eq!(snap.room.current_map, Maps::Foundry);
    assert_eq!(snap.room.current_game_mode, GameModes::Ranked);
}

#[test]
fn update_by_non_owner_is_forbidden() {
    let mut store = RoomStore::new();
    let rid = service::create(&mut store, data("alpha", 2, 2), 1)
        .unwrap()
        .snapshot
        .unwrap()
        .room
        .id;
    service::join(&mut store, rid, 2).unwrap();
    assert_eq!(
        service::update(&mut store, data("beta", 2, 2), 2, rid).unwrap_err(),
        AppError::Forbidden
    );
}

#[test]
fn update_shrinking_under_occupied_seat_is_conflict() {
    let mut store = RoomStore::new();
    let rid = service::create(&mut store, data("alpha", 2, 2), 1)
        .unwrap()
        .snapshot
        .unwrap()
        .room
        .id;
    let slot_data = rigidity_lobby::models::SwitchSlotData { team: 1, team_position: 1 };
    service::switch_slot(&mut store, rid, 1, slot_data).unwrap();
    // the owner now sits at (1, 1); a 1-team room cannot hold that seat
    assert_eq!(
        service::update(&mut store, data("beta", 1, 2), 1, rid).unwrap_err(),
        AppError::Conflict
    );
}

#[test]
fn get_and_get_all_report_rooms() {
    let mut store = RoomStore::new();
    let rid = service::create(&mut store, data("alpha", 2, 2), 1)
        .unwrap()
        .snapshot
        .unwrap()
        .room
        .id;
    service::create(&mut store, data("beta", 1, 3), 2).unwrap();
    let all = service::get_all(&store);
    assert_eq!(all.len(), 2);
    assert_eq!(all[0].room.label, "alpha");
    assert_eq!(all[1].room.label, "beta");
    let one = service::get(&store, rid).unwrap();
    assert_eq!(one.room.id, rid);
    assert_eq!(service::get(&store, 999).unwrap_err(), AppError::NotFound);
}

#[test]
fn kick_self_by_owner_deletes_room() {
    let mut store = RoomStore::new();
    let rid = service::create(&mut store, data("alpha", 2, 2), 1)
        .unwrap()
        .snapshot
        .unwrap()
        .room
        .id;
    service::join(&mut store, rid, 2).unwrap();
    let notice = service::kick(&mut store, rid, 1, Some(1)).unwrap();
    assert!(notice.snapshot.is_none());
    assert!(store.rooms.is_empty());
    assert!(store.slots.is_empty());
}

#[test]
fn update_of_missing_room_is_not_found() {
    let mut store = RoomStore::new();
    assert_eq!(
        service::update(&mut store, data("beta", 2, 2), 1, 77).unwrap_err(),
        AppError::NotFound
    );
}

#[test]
fn commit_with_foreign_ticket_is_conflict() {
    let mut store = RoomStore::new();
    let first = service::create(&mut store, data("alpha", 1, 1), 1)
        .unwrap()
        .snapshot
        .unwrap()
        .room
        .id;
    let second = service::create(&mut store, data("beta", 1, 1), 2)
        .unwrap()
        .snapshot
        .unwrap()
        .room
        .id;
    service::commit_matchmaking(&mut store, first, 0xabcd).unwrap();
    // the same ticket cannot mark a second room as searching
    assert_eq!(
        service::commit_matchmaking(&mut store, second, 0xabcd).unwrap_err(),
        AppError::Conflict
    );
}

#[test]
fn error_labels_name_the_variants() {
    assert_eq!(AppError::NotFound.label(), "not_found");
    assert_eq!(AppError::Forbidden.label(), "forbidden");
    assert_eq!(AppError::Conflict.label(), "conflict");
    assert_eq!(AppError::ServiceUnavailable.label(), "service_unavailable");
    assert_eq!(AppError::InternalError.label(), "internal_error");
}
