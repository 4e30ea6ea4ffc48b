//! Data model of the lobby: rooms, slots, the request payloads that mutate
//! them, and the user handle the matchmaking roster draws nicknames from.
//!
//! A room groups `nb_teams * max_player_per_team` slots; a slot binds one user
//! to one (team, team position) coordinate of one room. The store-wide
//! occupancy invariants over these types live in `store`.

use vstd::prelude::*;
use crate::enums::{Archetypes, GameModes, Maps};

verus! {

/// One occupancy: a user sitting at (team, team_position) of a room.
#[derive(Clone, Copy, Debug, PartialEq, Eq, Structural)]
pub struct CustomRoomSlot {
    pub id: i32,
    pub custom_room_id: i32,
    pub team: i32,
    pub team_position: i32,
    pub user_id: i32,
    pub current_archetype: Archetypes,
}

/// A lobby room. `user_id` is the owner; a `Some` matchmaking ticket means the
/// room is searching and refuses slot mutations until the search stops.
#[derive(Debug)]
pub struct CustomRoom {
    pub id: i32,
    pub label: String,
    pub user_id: i32,
    pub nb_teams: i32,
    pub max_player_per_team: i32,
    pub current_game_mode: GameModes,
    pub current_map: Maps,
    pub matchmaking_ticket: Option<u128>,
}

impl CustomRoom {
    /// Shape every stored room satisfies: at least one team, at least one
    /// position per team, and a capacity that fits the id type.
    pub open spec fn wf(self) -> bool {
        &&& 1 <= self.nb_teams
        &&& 1 <= self.max_player_per_team
        &&& self.nb_teams * self.max_player_per_team <= i32::MAX
    }

    /// Total number of slots the room can hold.
    pub open spec fn spec_capacity(self) -> int {
        self.nb_teams * self.max_player_per_team
    }

    pub fn get_capacity(&self) -> (r: usize)
        requires
            self.wf(),
        ensures
            r == self.spec_capacity(),
    {
        proof {
            assert(self.nb_teams * self.max_player_per_team >= 1 * 1) by (nonlinear_arith)
                requires 1 <= self.nb_teams && 1 <= self.max_player_per_team;
        }
        (self.nb_teams as usize) * (self.max_player_per_team as usize)
    }

    /// Whether (team, team_position) lies inside this room's grid.
    pub open spec fn spec_valid_slot(self, team: int, team_position: int) -> bool {
        &&& 0 <= team < self.nb_teams
        &&& 0 <= team_position < self.max_player_per_team
    }

    pub fn is_valid_slot(&self, team: &i32, team_position: &i32) -> (r: bool)
        ensures
            r == self.spec_valid_slot(*team as int, *team_position as int),
    {
        0 <= *team && *team < self.nb_teams && 0 <= *team_position
            && *team_position < self.max_player_per_team
    }
}

impl Clone for CustomRoom {
    fn clone(&self) -> (r: Self)
        ensures
            r == *self,
    {
        CustomRoom {
            id: self.id,
            label: self.label.clone(),
            user_id: self.user_id,
            nb_teams: self.nb_teams,
            max_player_per_team: self.max_player_per_team,
            current_game_mode: self.current_game_mode,
            current_map: self.current_map,
            matchmaking_ticket: self.matchmaking_ticket,
        }
    }
}

/// Payload of a room creation or room update request.
#[derive(Debug)]
pub struct CustomRoomData {
    pub label: String,
    pub nb_teams: i32,
    pub max_players_per_team: i32,
    pub game_mode: Option<GameModes>,
    pub map: Option<Maps>,
}

impl CustomRoomData {
    /// A payload is acceptable when the grid it asks for is non-empty and its
    /// capacity fits the id type.
    pub open spec fn valid(self) -> bool {
        &&& 1 <= self.nb_teams
        &&& 1 <= self.max_players_per_team
        &&& self.nb_teams * self.max_players_per_team <= i32::MAX
    }

    /// Game mode the payload asks for, defaulted when absent.
    pub open spec fn spec_mode(self) -> GameModes {
        match self.game_mode {
            Some(m) => m,
            None => GameModes::Standard,
        }
    }

    /// Map the payload asks for, defaulted when absent.
    pub open spec fn spec_map(self) -> Maps {
        match self.map {
            Some(m) => m,
            None => Maps::Meridian,
        }
    }

    pub fn mode_or_default(&self) -> (r: GameModes)
        ensures
            r == self.spec_mode(),
    {
        match self.game_mode {
            Some(m) => m,
            None => GameModes::Standard,
        }
    }

    pub fn map_or_default(&self) -> (r: Maps)
        ensures
            r == self.spec_map(),
    {
        match self.map {
            Some(m) => m,
            None => Maps::Meridian,
        }
    }

    pub fn validate(&self) -> (r: bool)
        ensures
            r == self.valid(),
    {
        if self.nb_teams < 1 || self.max_players_per_team < 1 {
            return false;
        }
        proof {
            assert((self.nb_teams as int) * (self.max_players_per_team as int)
                <= 0x7fff_ffff * 0x7fff_ffff) by (nonlinear_arith)
                requires
                    1 <= self.nb_teams <= 0x7fff_ffff,
                    1 <= self.max_players_per_team <= 0x7fff_ffff,
            ;
        }
        (self.nb_teams as i64) * (self.max_players_per_team as i64) <= i32::MAX as i64
    }
}

impl Clone for CustomRoomData {
    fn clone(&self) -> (r: Self)
        ensures
            r == *self,
    {
        CustomRoomData {
            label: self.label.clone(),
            nb_teams: self.nb_teams,
            max_players_per_team: self.max_players_per_team,
            game_mode: self.game_mode,
            map: self.map,
        }
    }
}

/// Payload of a slot-switch request: the coordinate the caller wants to move to.
#[derive(Clone, Copy, Debug, PartialEq, Eq, Structural)]
pub struct SwitchSlotData {
    pub team: i32,
    pub team_position: i32,
}

/// External user entity, referenced by identifier; the nickname feeds the
/// matchmaking roster attributes.
#[derive(Debug)]
pub struct User {
    pub id: i32,
    pub nickname: String,
}

impl Clone for User {
    fn clone(&self) -> (r: Self)
        ensures
            r == *self,
    {
        User { id: self.id, nickname: self.nickname.clone() }
    }
}

} // verus!
