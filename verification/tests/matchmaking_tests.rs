use rigidity_lobby::enums::{Archetypes, GameModes, Maps};
use rigidity_lobby::errors::AppError;
use rigidity_lobby::models::{CustomRoomData, SwitchSlotData, User};
use rigidity_lobby::service;
use rigidity_lobby::store::RoomStore;

fn data(label: &str, teams: i32, per_team: i32) -> CustomRoomData {
    CustomRoomData {
        label: label.to_owned(),
        nb_teams: teams,
        max_players_per_team: per_team,
        game_mode: Some(GameModes::Standard),
        map: Some(Maps::Foundry),
    }
}

fn users() -> Vec<User> {
    vec![
        User { id: 1, nickname: "ann".to_owned() },
        User { id: 2, nickname: "bo".to_owned() },
        User { id: 3, nickname: "cy".to_owned() },
        User { id: 4, nickname: "dee".to_owned() },
    ]
}

#[test]
fn full_matchmaking_cycle() {
    // room of 2 teams x 2 slots, owned by user 1 seated at (0, 0)
    let mut store = RoomStore::new();
    let rid = service::create(&mut store, data("alpha", 2, 2), 1)
        .unwrap()
        .snapshot
        .unwrap()
        .room
        .id;
    service::join(&mut store, rid, 2).unwrap();
    service::join(&mut store, rid, 3).unwrap();

    // 3 of 4 seats taken: starting the search is a conflict
    assert_eq!(
        service::start_matchmaking(&store, rid, 1, &users()).unwrap_err(),
        AppError::Conflict
    );

    service::join(&mut store, rid, 4).unwrap();
    let input = service::start_matchmaking(&store, rid, 1, &users()).unwrap();
    assert_eq!(input.configuration_name, "Foundry");
    assert_eq!(input.players.len(), 4);
    assert_eq!(input.players[0].player_id, 1);
    assert_eq!(input.players[0].player_attributes.nickname, "ann");
    assert_eq!(input.players[3].player_id, 4);
    assert_eq!(input.players[3].team, 1);
    assert_eq!(input.players[3].player_attributes.team_position, 1);

    let notice = service::commit_matchmaking(&mut store, rid, input.ticket_id).unwrap();
    let snap = notice.snapshot.unwrap();
    assert_eq!(snap.room.matchmaking_ticket, Some(input.ticket_id));

    // a searching room refuses slot mutations
    let slot_data = SwitchSlotData { team: 0, team_position: 0 };
    assert_eq!(
        service::switch_slot(&mut store, rid, 2, slot_data).unwrap_err(),
        AppError::Conflict
    );
    assert_eq!(service::quit(&mut store, rid, 2).unwrap_err(), AppError::Conflict);
    assert_eq!(
        service::switch_archetype(&mut store, rid, Archetypes::Tank, 2).unwrap_err(),
        AppError::Conflict
    );
    assert_eq!(
        service::kick(&mut store, rid, 2, Some(1)).unwrap_err(),
        AppError::Conflict
    );
    assert_eq!(
        service::update(&mut store, data("beta", 2, 2), 1, rid).unwrap_err(),
        AppError::Conflict
    );

    // stopping clears the ticket and returns it for cancellation
    let outcome = service::stop_matchmaking(&mut store, rid, 1).unwrap();
    assert_eq!(outcome.ticket, input.ticket_id);
    assert_eq!(
        outcome.notice.snapshot.unwrap().room.matchmaking_ticket,
        None
    );

    // back in the forming phase the switch goes through
    let slot_data = SwitchSlotData { team: 0, team_position: 0 };
    assert_eq!(
        service::switch_slot(&mut store, rid, 2, slot_data).unwrap_err(),
        AppError::Conflict
    );
    let free = SwitchSlotData { team: 0, team_position: 1 };
    // user 2 already sits at (0, 1): moving onto their own seat succeeds
    service::switch_slot(&mut store, rid, 2, free).unwrap();
}

#[test]
fn start_matchmaking_by_non_owner_is_forbidden() {
    let mut store = RoomStore::new();
    let rid = service::create(&mut store, data("alpha", 1, 2), 1)
        .unwrap()
        .snapshot
        .unwrap()
        .room
        .id;
    service::join(&mut store, rid, 2).unwrap();
    assert_eq!(
        service::start_matchmaking(&store, rid, 2, &users()).unwrap_err(),
        AppError::Forbidden
    );
}

#[test]
fn stop_matchmaking_when_forming_is_not_found() {
    let mut store = RoomStore::new();
    let rid = service::create(&mut store, data("alpha", 1, 2), 1)
        .unwrap()
        .snapshot
        .unwrap()
        .room
        .id;
    assert_eq!(
        service::stop_matchmaking(&mut store, rid, 1).unwrap_err(),
        AppError::NotFound
    );
}

#[test]
fn stop_matchmaking_by_non_owner_is_forbidden() {
    let mut store = RoomStore::new();
    let rid = service::create(&mut store, data("alpha", 1, 2), 1)
        .unwrap()
        .snapshot
        .unwrap()
        .room
        .id;
    service::join(&mut store, rid, 2).unwrap();
    let input = service::start_matchmaking(&store, rid, 1, &users()).unwrap();
    service::commit_matchmaking(&mut store, rid, input.ticket_id).unwrap();
    assert_eq!(
        service::stop_matchmaking(&mut store, rid, 2).unwrap_err(),
        AppError::Forbidden
    );
}

#[test]
fn commit_on_missing_room_is_not_found() {
    let mut store = RoomStore::new();
    assert_eq!(
        service::commit_matchmaking(&mut store, 5, 0x1).unwrap_err(),
        AppError::NotFound
    );
}

#[test]
fn resolve_matchmaking_clears_the_searching_room() {
    let mut store = RoomStore::new();
    let rid = service::create(&mut store, data("alpha", 1, 1), 1)
        .unwrap()
        .snapshot
        .unwrap()
        .room
        .id;
    let input = service::start_matchmaking(&store, rid, 1, &users()).unwrap();
    service::commit_matchmaking(&mut store, rid, input.ticket_id).unwrap();
    let notice = service::resolve_matchmaking(&mut store, input.ticket_id).unwrap();
    assert_eq!(notice.snapshot.unwrap().room.matchmaking_ticket, None);
    assert_eq!(notice.recipients, vec![1]);
    // a second, stale notification finds no room
    assert_eq!(
        service::resolve_matchmaking(&mut store, input.ticket_id).unwrap_err(),
        AppError::NotFound
    );
}

#[test]
fn roster_skips_users_missing_from_the_list() {
    let mut store = RoomStore::new();
    let rid = service::create(&mut store, data("alpha", 1, 2), 1)
        .unwrap()
        .snapshot
        .unwrap()
        .room
        .id;
    service::join(&mut store, rid, 9).unwrap();
    let input = service::start_matchmaking(&store, rid, 1, &users()).unwrap();
    // user 9 has no row in the list: one roster entry remains
    assert_eq!(input.players.len(), 1);
    assert_eq!(input.players[0].player_id, 1);
}

#[test]
fn attributes_carry_slot_and_nickname() {
    let slot = rigidity_lobby::models::CustomRoomSlot {
        id: 7,
        custom_room_id: 3,
        team: 1,
        team_position: 0,
        user_id: 5,
        current_archetype: Archetypes::Tank,
    };
    let attrs = slot.get_gamelift_attributes("zed");
    assert_eq!(attrs.team, 1);
    assert_eq!(attrs.team_position, 0);
    assert_eq!(attrs.archetype, 2);
    assert_eq!(attrs.nickname, "zed");
}

#[test]
fn enum_numbering_round_trips() {
    assert_eq!(Archetypes::from_u32(0), Some(Archetypes::Assault));
    assert_eq!(Archetypes::from_u32(3), Some(Archetypes::Recon));
    assert_eq!(Archetypes::from_u32(4), None);
    assert_eq!(Archetypes::Tank.to_u32(), 2);
    assert_eq!(GameModes::from_u32(1), Some(GameModes::Ranked));
    assert_eq!(GameModes::from_u32(9), None);
    assert_eq!(Maps::from_u32(0), Some(Maps::Meridian));
    assert_eq!(Maps::from_u32(7), None);
    assert_eq!(Maps::Meridian.name(), "Meridian");
    assert_eq!(Maps::Foundry.name(), "Foundry");
}
