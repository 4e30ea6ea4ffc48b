//! The bridge to the external matchmaking service.
//!
//! The search request is modelled with plain values: one player entry per
//! occupied slot, carrying the occupant's identifier, team, coordinate,
//! archetype number and nickname, plus the map's configuration name and the
//! ticket identifier. The caller that talks to the external service converts
//! this model into the wire types the service wants; the ticket itself is an
//! opaque 128-bit identifier generated here.

use vstd::prelude::*;
use crate::models::{CustomRoom, CustomRoomSlot, User};

verus! {

/// Per-player attribute payload of a matchmaking request.
#[derive(Debug)]
pub struct PlayerAttributes {
    pub team: i32,
    pub team_position: i32,
    pub archetype: u32,
    pub nickname: String,
}

/// One roster entry of a matchmaking request.
#[derive(Debug)]
pub struct Player {
    pub player_id: i32,
    pub team: i32,
    pub player_attributes: PlayerAttributes,
}

/// A complete search request for the external matchmaking service.
#[derive(Debug)]
pub struct StartMatchmakingInput {
    pub configuration_name: String,
    pub players: Vec<Player>,
    pub ticket_id: u128,
}

/// Relies on uuid::Uuid::new_v4 via as_u128: a randomly generated 128-bit
/// ticket identifier. Nothing is promised of the value.
#[verifier::external_body]
pub(crate) fn new_ticket() -> u128 {
    uuid::Uuid::new_v4().as_u128()
}

/// The roster entry a slot and its occupant produce.
pub open spec fn player_from(slot: CustomRoomSlot, user: User) -> Player {
    Player {
        player_id: slot.user_id,
        team: slot.team,
        player_attributes: PlayerAttributes {
            team: slot.team,
            team_position: slot.team_position,
            archetype: slot.current_archetype.spec_to_u32(),
            nickname: user.nickname,
        },
    }
}

/// Predicate keeping the (slot, user) pairs that actually match; named so
/// that every contract filters with the same function value.
pub open spec fn matched_pred() -> spec_fn((CustomRoomSlot, User)) -> bool {
    |t: (CustomRoomSlot, User)| t.1.id == t.0.user_id
}

/// Mapper from a matched (slot, user) pair to its roster entry.
pub open spec fn player_of() -> spec_fn((CustomRoomSlot, User)) -> Player {
    |t: (CustomRoomSlot, User)| player_from(t.0, t.1)
}

/// First user in the list carrying the identifier, if any.
pub open spec fn spec_find_user(users: Seq<User>, uid: i32) -> Option<User>
    decreases users.len(),
{
    if users.len() == 0 {
        None
    } else if users[0].id == uid {
        Some(users[0])
    } else {
        spec_find_user(users.drop_first(), uid)
    }
}

/// The roster the slots produce against a user list: one entry per slot whose
/// occupant the list knows, in slot order.
pub open spec fn roster(slots: Seq<CustomRoomSlot>, users: Seq<User>) -> Seq<Player>
    decreases slots.len(),
{
    if slots.len() == 0 {
        Seq::empty()
    } else {
        let rest = roster(slots.drop_last(), users);
        match spec_find_user(users, slots.last().user_id) {
            Some(u) => rest.push(player_from(slots.last(), u)),
            None => rest,
        }
    }
}

pub proof fn lemma_find_user_at(users: Seq<User>, uid: i32, j: int)
    requires
        0 <= j < users.len(),
        forall|m: int| 0 <= m < j ==> (#[trigger] users[m]).id != uid,
        users[j].id == uid,
    ensures
        spec_find_user(users, uid) == Some(users[j]),
    decreases j,
{
    if j == 0 {
    } else {
        assert(users[0].id != uid);
        assert(forall|m: int|
            0 <= m < j - 1 ==> (#[trigger] users.drop_first()[m]) == users[m + 1]);
        lemma_find_user_at(users.drop_first(), uid, j - 1);
    }
}

pub proof fn lemma_find_user_none(users: Seq<User>, uid: i32)
    requires
        forall|m: int| 0 <= m < users.len() ==> (#[trigger] users[m]).id != uid,
    ensures
        spec_find_user(users, uid) is None,
    decreases users.len(),
{
    if users.len() == 0 {
    } else {
        assert(forall|m: int|
            0 <= m < users.len() - 1 ==> (#[trigger] users.drop_first()[m]) == users[m + 1]);
        lemma_find_user_none(users.drop_first(), uid);
    }
}

/// Copy of the first user in the list carrying the identifier.
pub fn find_user(users: &Vec<User>, uid: i32) -> (r: Option<User>)
    ensures
        r == spec_find_user(users@, uid),
        r matches Some(u) ==> u.id == uid,
{
    let n = users.len();
    let mut j: usize = 0;
    while j < n
        invariant
            0 <= j <= n,
            n == users@.len(),
            forall|m: int| 0 <= m < j ==> (#[trigger] users@[m]).id != uid,
        decreases n - j,
    {
        if users[j].id == uid {
            proof {
                lemma_find_user_at(users@, uid, j as int);
            }
            return Some(users[j].clone());
        }
        j = j + 1;
    }
    proof {
        lemma_find_user_none(users@, uid);
    }
    None
}

impl CustomRoomSlot {
    /// The attribute payload this slot contributes to a roster entry.
    pub fn get_gamelift_attributes(&self, nickname: &str) -> (r: PlayerAttributes)
        ensures
            r.team == self.team,
            r.team_position == self.team_position,
            r.archetype == self.current_archetype.spec_to_u32(),
            r.nickname@ == nickname@,
    {
        PlayerAttributes {
            team: self.team,
            team_position: self.team_position,
            archetype: self.current_archetype.to_u32(),
            nickname: nickname.to_owned(),
        }
    }
}

impl CustomRoom {
    /// Builds the search request for this room from matched (slot, user)
    /// pairs: one roster entry per pair whose user is the slot's occupant.
    pub fn get_start_matchmaking_input(
        &self,
        tuples: &Vec<(CustomRoomSlot, User)>,
        ticket_id: u128,
    ) -> (r: StartMatchmakingInput)
        ensures
            r.configuration_name@ == self.current_map.spec_name(),
            r.ticket_id == ticket_id,
            r.players@ == tuples@.filter(matched_pred()).map_values(player_of()),
    {
        let n = tuples.len();
        let mut players: Vec<Player> = Vec::new();
        let mut j: usize = 0;
        proof {
            reveal(Seq::filter);
            assert(tuples@.take(0) =~= Seq::<(CustomRoomSlot, User)>::empty());
            assert(tuples@.take(0).filter(matched_pred()).map_values(player_of()) =~= Seq::<
                Player,
            >::empty());
        }
        while j < n
            invariant
                0 <= j <= n,
                n == tuples@.len(),
                players@ == tuples@.take(j as int).filter(matched_pred()).map_values(player_of()),
            decreases n - j,
        {
            proof {
                crate::counting::lemma_filter_take_step(tuples@, matched_pred(), j as int);
                if matched_pred()(tuples@[j as int]) {
                    crate::counting::lemma_map_values_push(
                        tuples@.take(j as int).filter(matched_pred()),
                        player_of(),
                        tuples@[j as int],
                    );
                }
            }
            let slot = tuples[j].0;
            if tuples[j].1.id == slot.user_id {
                let attributes = PlayerAttributes {
                    team: slot.team,
                    team_position: slot.team_position,
                    archetype: slot.current_archetype.to_u32(),
                    nickname: tuples[j].1.nickname.clone(),
                };
                players.push(
                    Player { player_id: slot.user_id, team: slot.team, player_attributes: attributes },
                );
            }
            j = j + 1;
        }
        proof {
            crate::counting::lemma_take_full(tuples@);
        }
        StartMatchmakingInput {
            configuration_name: self.current_map.name(),
            players,
            ticket_id,
        }
    }
}

} // verus!
