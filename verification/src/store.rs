//! The room store: the single source of truth for rooms and slots, held as
//! two tables, with the occupancy invariants of the whole system.
//!
//! The invariants (`inv`) say, at every instant: room identifiers are unique,
//! active matchmaking tickets are unique, every slot belongs to an existing
//! room and sits inside that room's grid, occupied (team, position) pairs are
//! unique per room, a user occupies at most one slot system-wide, and every
//! room's owner occupies a slot of their room. Every mutating operation
//! requires and re-establishes `inv`.

use vstd::prelude::*;
use crate::counting::{
    lemma_filter_elements, lemma_filter_slot_exclusive, lemma_filter_take_step,
    lemma_map_values_push, lemma_take_full,
};
use crate::enums::Archetypes;
use crate::models::{CustomRoom, CustomRoomData, CustomRoomSlot};

verus! {

/// Mapper from a slot to its occupant; named so that every contract maps with
/// the same function value.
pub open spec fn uid_of() -> spec_fn(CustomRoomSlot) -> i32 {
    |s: CustomRoomSlot| s.user_id
}

/// Predicate keeping the slots of every user but `uid`.
pub open spec fn others_pred(uid: i32) -> spec_fn(CustomRoomSlot) -> bool {
    |s: CustomRoomSlot| s.user_id != uid
}

/// The room row a creation request builds: fresh identifier, requested label
/// and grid, defaulted mode and map, no ticket.
pub open spec fn room_from_data(data: CustomRoomData, owner: i32, id: i32) -> CustomRoom {
    CustomRoom {
        id: id,
        label: data.label,
        user_id: owner,
        nb_teams: data.nb_teams,
        max_player_per_team: data.max_players_per_team,
        current_game_mode: data.spec_mode(),
        current_map: data.spec_map(),
        matchmaking_ticket: None,
    }
}

/// The slot a user receives on entering a room.
pub open spec fn fresh_slot(sid: i32, rid: i32, uid: i32, team: i32, team_position: i32)
    -> CustomRoomSlot {
    CustomRoomSlot {
        id: sid,
        custom_room_id: rid,
        team: team,
        team_position: team_position,
        user_id: uid,
        current_archetype: Archetypes::Assault,
    }
}

/// Predicate picking the slots of one room; named so that every contract
/// filters with the same function value.
pub open spec fn room_pred(rid: i32) -> spec_fn(CustomRoomSlot) -> bool {
    |s: CustomRoomSlot| s.custom_room_id == rid
}

/// Predicate keeping the slots of every other room (cascade deletion).
pub open spec fn other_rooms_pred(rid: i32) -> spec_fn(CustomRoomSlot) -> bool {
    |s: CustomRoomSlot| s.custom_room_id != rid
}

pub struct RoomStore {
    pub rooms: Vec<CustomRoom>,
    pub slots: Vec<CustomRoomSlot>,
    pub next_room_id: i32,
    pub next_slot_id: i32,
}

impl RoomStore {
    pub fn new() -> (r: RoomStore)
        ensures
            r.inv(),
            r.rooms@.len() == 0,
            r.slots@.len() == 0,
            r.next_room_id == 1,
            r.next_slot_id == 1,
    {
        RoomStore { rooms: Vec::new(), slots: Vec::new(), next_room_id: 1, next_slot_id: 1 }
    }

    // ---- spec-level lookups ----------------------------------------------

    pub open spec fn has_room(self, rid: i32) -> bool {
        exists|i: int| 0 <= i < self.rooms@.len() && (#[trigger] self.rooms@[i]).id == rid
    }

    pub open spec fn room_index(self, rid: i32) -> int {
        choose|i: int| 0 <= i < self.rooms@.len() && (#[trigger] self.rooms@[i]).id == rid
    }

    /// The room row with identifier `rid` (meaningful under `has_room`).
    pub open spec fn room(self, rid: i32) -> CustomRoom {
        self.rooms@[self.room_index(rid)]
    }

    pub open spec fn searching(self, rid: i32) -> bool {
        self.room(rid).matchmaking_ticket is Some
    }

    pub open spec fn has_user_slot(self, uid: i32) -> bool {
        exists|k: int| 0 <= k < self.slots@.len() && (#[trigger] self.slots@[k]).user_id == uid
    }

    pub open spec fn user_slot_index(self, uid: i32) -> int {
        choose|k: int| 0 <= k < self.slots@.len() && (#[trigger] self.slots@[k]).user_id == uid
    }

    /// The slot occupied by `uid` (meaningful under `has_user_slot`).
    pub open spec fn user_slot(self, uid: i32) -> CustomRoomSlot {
        self.slots@[self.user_slot_index(uid)]
    }

    /// Whether (team, team_position) of room `rid` is occupied.
    pub open spec fn pair_taken(self, rid: i32, team: int, team_position: int) -> bool {
        exists|k: int|
            0 <= k < self.slots@.len() && (#[trigger] self.slots@[k]).custom_room_id == rid
                && self.slots@[k].team == team && self.slots@[k].team_position == team_position
    }

    /// The slots of room `rid`, in table order.
    pub open spec fn room_slots(self, rid: i32) -> Seq<CustomRoomSlot> {
        self.slots@.filter(room_pred(rid))
    }

    /// The user identifiers occupying room `rid`, in table order.
    pub open spec fn occupants(self, rid: i32) -> Seq<i32> {
        self.room_slots(rid).map_values(uid_of())
    }

    /// Whether every slot of room `rid` still fits the grid a resize payload
    /// asks for.
    pub open spec fn fits_resize(self, rid: i32, data: CustomRoomData) -> bool {
        forall|k: int|
            0 <= k < self.slots@.len() && (#[trigger] self.slots@[k]).custom_room_id == rid
                ==> self.slots@[k].team < data.nb_teams && self.slots@[k].team_position
                < data.max_players_per_team
    }

    /// First free linear grid index of room `rid` at or after `n`, scanning
    /// the grid in row-major order (`cap` when none is free).
    pub open spec fn first_free_from(self, rid: i32, mx: int, cap: int, n: int) -> int
        decreases cap - n,
    {
        if n >= cap {
            cap
        } else if !self.pair_taken(rid, n / mx, n % mx) {
            n
        } else {
            self.first_free_from(rid, mx, cap, n + 1)
        }
    }

    /// First free linear grid index of room `rid` in row-major order: `join`
    /// seats a user at coordinate (index / max, index % max).
    pub open spec fn first_free(self, rid: i32) -> int {
        self.first_free_from(
            rid,
            self.room(rid).max_player_per_team as int,
            self.room(rid).spec_capacity(),
            0,
        )
    }

    pub open spec fn has_room_by_owner(self, uid: i32) -> bool {
        exists|i: int| 0 <= i < self.rooms@.len() && (#[trigger] self.rooms@[i]).user_id == uid
    }

    /// Whether `uid` occupies a slot of room `rid` in particular.
    pub open spec fn user_in_room(self, uid: i32, rid: i32) -> bool {
        self.has_user_slot(uid) && self.user_slot(uid).custom_room_id == rid
    }

    pub open spec fn room_by_owner_index(self, uid: i32) -> int {
        choose|i: int| 0 <= i < self.rooms@.len() && (#[trigger] self.rooms@[i]).user_id == uid
    }

    pub open spec fn has_room_by_ticket(self, ticket: u128) -> bool {
        exists|i: int|
            0 <= i < self.rooms@.len() && (#[trigger] self.rooms@[i]).matchmaking_ticket
                == Some(ticket)
    }

    pub open spec fn room_by_ticket_index(self, ticket: u128) -> int {
        choose|i: int|
            0 <= i < self.rooms@.len() && (#[trigger] self.rooms@[i]).matchmaking_ticket
                == Some(ticket)
    }

    // ---- the invariants ---------------------------------------------------

    pub open spec fn rooms_wf(self) -> bool {
        forall|i: int|
            0 <= i < self.rooms@.len() ==> (#[trigger] self.rooms@[i]).wf() && 0
                < self.rooms@[i].id < self.next_room_id
    }

    pub open spec fn room_ids_unique(self) -> bool {
        forall|i: int, j: int|
            0 <= i < j < self.rooms@.len() ==> (#[trigger] self.rooms@[i]).id
                != (#[trigger] self.rooms@[j]).id
    }

    /// Two distinct rooms never carry the same active ticket.
    pub open spec fn tickets_unique(self) -> bool {
        forall|i: int, j: int|
            0 <= i < j < self.rooms@.len() ==> !((#[trigger] self.rooms@[i]).matchmaking_ticket
                is Some && self.rooms@[i].matchmaking_ticket
                == (#[trigger] self.rooms@[j]).matchmaking_ticket)
    }

    /// Every slot has a fresh bounded identifier and an existing room.
    pub open spec fn slots_linked(self) -> bool {
        forall|k: int|
            0 <= k < self.slots@.len() ==> 0 < (#[trigger] self.slots@[k]).id < self.next_slot_id
                && self.has_room(self.slots@[k].custom_room_id)
    }

    /// Every slot sits inside its room's grid.
    pub open spec fn slots_in_bounds(self) -> bool {
        forall|i: int, k: int|
            0 <= i < self.rooms@.len() && 0 <= k < self.slots@.len()
                && (#[trigger] self.rooms@[i]).id == (#[trigger] self.slots@[k]).custom_room_id
                ==> self.rooms@[i].spec_valid_slot(
                self.slots@[k].team as int,
                self.slots@[k].team_position as int,
            )
    }

    pub open spec fn slot_ids_unique(self) -> bool {
        forall|k: int, l: int|
            0 <= k < l < self.slots@.len() ==> (#[trigger] self.slots@[k]).id
                != (#[trigger] self.slots@[l]).id
    }

    /// A user occupies at most one slot across the entire system.
    pub open spec fn users_exclusive(self) -> bool {
        forall|k: int, l: int|
            0 <= k < l < self.slots@.len() ==> (#[trigger] self.slots@[k]).user_id
                != (#[trigger] self.slots@[l]).user_id
    }

    /// Occupied (team, position) pairs are unique within a room.
    pub open spec fn pairs_exclusive(self) -> bool {
        forall|k: int, l: int|
            0 <= k < l < self.slots@.len() ==> !((#[trigger] self.slots@[k]).custom_room_id
                == (#[trigger] self.slots@[l]).custom_room_id && self.slots@[k].team
                == self.slots@[l].team && self.slots@[k].team_position
                == self.slots@[l].team_position)
    }

    /// Every room's owner occupies a slot of that room.
    pub open spec fn owners_present(self) -> bool {
        forall|i: int|
            0 <= i < self.rooms@.len() ==> exists|k: int|
                0 <= k < self.slots@.len() && (#[trigger] self.slots@[k]).custom_room_id
                    == (#[trigger] self.rooms@[i]).id && self.slots@[k].user_id
                    == self.rooms@[i].user_id
    }

    pub open spec fn inv(self) -> bool {
        &&& 0 < self.next_room_id
        &&& 0 < self.next_slot_id
        &&& self.rooms_wf()
        &&& self.room_ids_unique()
        &&& self.tickets_unique()
        &&& self.slots_linked()
        &&& self.slots_in_bounds()
        &&& self.slot_ids_unique()
        &&& self.users_exclusive()
        &&& self.pairs_exclusive()
        &&& self.owners_present()
    }

    // ---- uniqueness lemmas -----------------------------------------------

    /// With unique room identifiers, `room_index` agrees with any index whose
    /// row carries the identifier.
    pub proof fn lemma_room_index(self, i: int)
        requires
            self.room_ids_unique(),
            0 <= i < self.rooms@.len(),
        ensures
            self.has_room(self.rooms@[i].id),
            self.room_index(self.rooms@[i].id) == i,
            self.room(self.rooms@[i].id) == self.rooms@[i],
    {
        let rid = self.rooms@[i].id;
        assert(self.has_room(rid));
        let j = self.room_index(rid);
        assert(0 <= j < self.rooms@.len() && self.rooms@[j].id == rid);
        if i < j {
            assert(self.rooms@[i].id != self.rooms@[j].id);
        } else if j < i {
            assert(self.rooms@[j].id != self.rooms@[i].id);
        }
    }

    /// With exclusive users, `user_slot_index` agrees with any index whose
    /// slot carries the user.
    pub proof fn lemma_user_slot_index(self, k: int)
        requires
            self.users_exclusive(),
            0 <= k < self.slots@.len(),
        ensures
            self.has_user_slot(self.slots@[k].user_id),
            self.user_slot_index(self.slots@[k].user_id) == k,
            self.user_slot(self.slots@[k].user_id) == self.slots@[k],
    {
        let uid = self.slots@[k].user_id;
        assert(self.has_user_slot(uid));
        let l = self.user_slot_index(uid);
        assert(0 <= l < self.slots@.len() && self.slots@[l].user_id == uid);
        if k < l {
            assert(self.slots@[k].user_id != self.slots@[l].user_id);
        } else if l < k {
            assert(self.slots@[l].user_id != self.slots@[k].user_id);
        }
    }

    /// With each user owning at most one room, `room_by_owner_index` agrees
    /// with any index whose row carries the owner.
    pub proof fn lemma_room_by_owner_index(self, i: int)
        requires
            self.inv(),
            0 <= i < self.rooms@.len(),
        ensures
            self.has_room_by_owner(self.rooms@[i].user_id),
            self.room_by_owner_index(self.rooms@[i].user_id) == i,
    {
        let uid = self.rooms@[i].user_id;
        assert(self.has_room_by_owner(uid));
        let j = self.room_by_owner_index(uid);
        assert(0 <= j < self.rooms@.len() && self.rooms@[j].user_id == uid);
        self.lemma_owner_room_unique(i, j);
    }

    /// With unique active tickets, `room_by_ticket_index` agrees with any
    /// index whose row carries the ticket.
    pub proof fn lemma_room_by_ticket_index(self, i: int, ticket: u128)
        requires
            self.tickets_unique(),
            0 <= i < self.rooms@.len(),
            self.rooms@[i].matchmaking_ticket == Some(ticket),
        ensures
            self.has_room_by_ticket(ticket),
            self.room_by_ticket_index(ticket) == i,
    {
        assert(self.has_room_by_ticket(ticket));
        let j = self.room_by_ticket_index(ticket);
        assert(0 <= j < self.rooms@.len() && self.rooms@[j].matchmaking_ticket == Some(ticket));
        if i < j {
            assert(!(self.rooms@[i].matchmaking_ticket is Some
                && self.rooms@[i].matchmaking_ticket == self.rooms@[j].matchmaking_ticket));
        } else if j < i {
            assert(!(self.rooms@[j].matchmaking_ticket is Some
                && self.rooms@[j].matchmaking_ticket == self.rooms@[i].matchmaking_ticket));
        }
    }

    /// A user owns at most one room: the owner sits in their own room, and a
    /// user sits in at most one slot.
    pub proof fn lemma_owner_room_unique(self, i: int, j: int)
        requires
            self.inv(),
            0 <= i < self.rooms@.len(),
            0 <= j < self.rooms@.len(),
            self.rooms@[i].user_id == self.rooms@[j].user_id,
        ensures
            i == j,
    {
        let k = choose|k: int|
            0 <= k < self.slots@.len() && (#[trigger] self.slots@[k]).custom_room_id
                == self.rooms@[i].id && self.slots@[k].user_id == self.rooms@[i].user_id;
        let l = choose|l: int|
            0 <= l < self.slots@.len() && (#[trigger] self.slots@[l]).custom_room_id
                == self.rooms@[j].id && self.slots@[l].user_id == self.rooms@[j].user_id;
        assert(0 <= k < self.slots@.len() && self.slots@[k].custom_room_id == self.rooms@[i].id
            && self.slots@[k].user_id == self.rooms@[i].user_id);
        assert(0 <= l < self.slots@.len() && self.slots@[l].custom_room_id == self.rooms@[j].id
            && self.slots@[l].user_id == self.rooms@[j].user_id);
        if k < l {
            assert(self.slots@[k].user_id != self.slots@[l].user_id);
        } else if l < k {
            assert(self.slots@[l].user_id != self.slots@[k].user_id);
        }
        assert(self.rooms@[i].id == self.rooms@[j].id);
        if i < j {
            assert(self.rooms@[i].id != self.rooms@[j].id);
        } else if j < i {
            assert(self.rooms@[j].id != self.rooms@[i].id);
        }
    }

    /// No slot of the room at index `i` bears a user other than those listed;
    /// dually: a user whose slot is not in room `i` does not own room `i`.
    /// Here: if a slot's user is not the owner of the slot's own room, then no
    /// room at all is owned by that user.
    pub proof fn lemma_nonowner_everywhere(self, k: int)
        requires
            self.inv(),
            0 <= k < self.slots@.len(),
            self.room(self.slots@[k].custom_room_id).user_id != self.slots@[k].user_id,
        ensures
            forall|i: int|
                0 <= i < self.rooms@.len() ==> (#[trigger] self.rooms@[i]).user_id
                    != self.slots@[k].user_id,
    {
        let uid = self.slots@[k].user_id;
        let rid = self.slots@[k].custom_room_id;
        assert forall|i: int|
            0 <= i < self.rooms@.len() implies (#[trigger] self.rooms@[i]).user_id != uid by {
            if self.rooms@[i].user_id == uid {
                let l = choose|l: int|
                    0 <= l < self.slots@.len() && (#[trigger] self.slots@[l]).custom_room_id
                        == self.rooms@[i].id && self.slots@[l].user_id == self.rooms@[i].user_id;
                assert(0 <= l < self.slots@.len() && self.slots@[l].custom_room_id
                    == self.rooms@[i].id && self.slots@[l].user_id == uid);
                if k < l {
                    assert(self.slots@[k].user_id != self.slots@[l].user_id);
                } else if l < k {
                    assert(self.slots@[l].user_id != self.slots@[k].user_id);
                }
                assert(l == k);
                assert(self.rooms@[i].id == rid);
                self.lemma_room_index(i);
            }
        }
    }

    // ---- the occupancy laws, stated on their own -------------------------

    /// A user occupies at most one slot across the entire system: two
    /// distinct slots of a store satisfying the invariants never carry the
    /// same user.
    pub proof fn lemma_user_occupies_at_most_one_slot(self, k: int, l: int)
        requires
            self.inv(),
            0 <= k < self.slots@.len(),
            0 <= l < self.slots@.len(),
            k != l,
        ensures
            self.slots@[k].user_id != self.slots@[l].user_id,
    {
        if k < l {
            assert(self.slots@[k].user_id != self.slots@[l].user_id);
        } else {
            assert(self.slots@[l].user_id != self.slots@[k].user_id);
        }
    }

    /// Occupied (team, position) pairs are unique per room: two distinct
    /// slots of one room never share a coordinate.
    pub proof fn lemma_room_pairs_unique(self, k: int, l: int)
        requires
            self.inv(),
            0 <= k < self.slots@.len(),
            0 <= l < self.slots@.len(),
            k != l,
            self.slots@[k].custom_room_id == self.slots@[l].custom_room_id,
        ensures
            !(self.slots@[k].team == self.slots@[l].team && self.slots@[k].team_position
                == self.slots@[l].team_position),
    {
        if k < l {
            assert(!(self.slots@[k].custom_room_id == self.slots@[l].custom_room_id
                && self.slots@[k].team == self.slots@[l].team && self.slots@[k].team_position
                == self.slots@[l].team_position));
        } else {
            assert(!(self.slots@[l].custom_room_id == self.slots@[k].custom_room_id
                && self.slots@[l].team == self.slots@[k].team && self.slots@[l].team_position
                == self.slots@[k].team_position));
        }
    }

    /// Every occupied coordinate lies inside its room's grid.
    pub proof fn lemma_slot_within_grid(self, k: int)
        requires
            self.inv(),
            0 <= k < self.slots@.len(),
        ensures
            self.has_room(self.slots@[k].custom_room_id),
            self.room(self.slots@[k].custom_room_id).spec_valid_slot(
                self.slots@[k].team as int,
                self.slots@[k].team_position as int,
            ),
    {
        assert(self.has_room(self.slots@[k].custom_room_id));
        let i = self.room_index(self.slots@[k].custom_room_id);
        assert(0 <= i < self.rooms@.len() && self.rooms@[i].id == self.slots@[k].custom_room_id);
    }

    // ---- executable lookups ----------------------------------------------

    /// Index of the room row with identifier `rid`, if present.
    pub fn find_room_index(&self, rid: i32) -> (r: Option<usize>)
        ensures
            match r {
                Some(i) => 0 <= i < self.rooms@.len() && self.rooms@[i as int].id == rid,
                None => !self.has_room(rid),
            },
            r is Some <==> self.has_room(rid),
    {
        let n = self.rooms.len();
        let mut i: usize = 0;
        while i < n
            invariant
                0 <= i <= n,
                n == self.rooms@.len(),
                forall|j: int| 0 <= j < i ==> (#[trigger] self.rooms@[j]).id != rid,
            decreases n - i,
        {
            if self.rooms[i].id == rid {
                return Some(i);
            }
            i = i + 1;
        }
        None
    }

    /// Index of the slot occupied by `uid`, anywhere in the system.
    pub fn find_user_slot_index(&self, uid: i32) -> (r: Option<usize>)
        ensures
            match r {
                Some(k) => 0 <= k < self.slots@.len() && self.slots@[k as int].user_id == uid,
                None => !self.has_user_slot(uid),
            },
            r is Some <==> self.has_user_slot(uid),
    {
        let n = self.slots.len();
        let mut k: usize = 0;
        while k < n
            invariant
                0 <= k <= n,
                n == self.slots@.len(),
                forall|j: int| 0 <= j < k ==> (#[trigger] self.slots@[j]).user_id != uid,
            decreases n - k,
        {
            if self.slots[k].user_id == uid {
                return Some(k);
            }
            k = k + 1;
        }
        None
    }

    /// Index of the slot at (team, team_position) of room `rid`, if occupied.
    pub fn find_slot_at(&self, rid: i32, team: i32, team_position: i32) -> (r: Option<usize>)
        ensures
            match r {
                Some(k) => {
                    &&& 0 <= k < self.slots@.len()
                    &&& self.slots@[k as int].custom_room_id == rid
                    &&& self.slots@[k as int].team == team
                    &&& self.slots@[k as int].team_position == team_position
                },
                None => !self.pair_taken(rid, team as int, team_position as int),
            },
            r is Some <==> self.pair_taken(rid, team as int, team_position as int),
    {
        let n = self.slots.len();
        let mut k: usize = 0;
        while k < n
            invariant
                0 <= k <= n,
                n == self.slots@.len(),
                forall|j: int|
                    0 <= j < k ==> !((#[trigger] self.slots@[j]).custom_room_id == rid
                        && self.slots@[j].team == team && self.slots@[j].team_position
                        == team_position),
            decreases n - k,
        {
            let s = &self.slots[k];
            if s.custom_room_id == rid && s.team == team && s.team_position == team_position {
                return Some(k);
            }
            k = k + 1;
        }
        None
    }

    /// Index of the room owned by `uid`, if any.
    pub fn find_room_by_owner(&self, uid: i32) -> (r: Option<usize>)
        ensures
            match r {
                Some(i) => 0 <= i < self.rooms@.len() && self.rooms@[i as int].user_id == uid,
                None => !self.has_room_by_owner(uid),
            },
            r is Some <==> self.has_room_by_owner(uid),
    {
        let n = self.rooms.len();
        let mut i: usize = 0;
        while i < n
            invariant
                0 <= i <= n,
                n == self.rooms@.len(),
                forall|j: int| 0 <= j < i ==> (#[trigger] self.rooms@[j]).user_id != uid,
            decreases n - i,
        {
            if self.rooms[i].user_id == uid {
                return Some(i);
            }
            i = i + 1;
        }
        None
    }

    /// Index of the room carrying the active ticket, if any.
    pub fn find_room_by_ticket(&self, ticket: u128) -> (r: Option<usize>)
        ensures
            match r {
                Some(i) => 0 <= i < self.rooms@.len() && self.rooms@[i as int].matchmaking_ticket
                    == Some(ticket),
                None => !self.has_room_by_ticket(ticket),
            },
            r is Some <==> self.has_room_by_ticket(ticket),
    {
        let n = self.rooms.len();
        let mut i: usize = 0;
        while i < n
            invariant
                0 <= i <= n,
                n == self.rooms@.len(),
                forall|j: int|
                    0 <= j < i ==> (#[trigger] self.rooms@[j]).matchmaking_ticket != Some(ticket),
            decreases n - i,
        {
            let t = &self.rooms[i].matchmaking_ticket;
            match t {
                Some(v) => {
                    if *v == ticket {
                        return Some(i);
                    }
                },
                None => {},
            }
            i = i + 1;
        }
        None
    }
}

impl RoomStore {
    // ---- executable collectors -------------------------------------------

    /// Copies of the slots of room `rid`, in table order.
    pub fn collect_room_slots(&self, rid: i32) -> (v: Vec<CustomRoomSlot>)
        ensures
            v@ == self.room_slots(rid),
    {
        let n = self.slots.len();
        let mut v: Vec<CustomRoomSlot> = Vec::new();
        let mut k: usize = 0;
        proof {
            reveal(Seq::filter);
            assert(self.slots@.take(0) =~= Seq::<CustomRoomSlot>::empty());
        }
        while k < n
            invariant
                0 <= k <= n,
                n == self.slots@.len(),
                v@ == self.slots@.take(k as int).filter(room_pred(rid)),
            decreases n - k,
        {
            proof {
                lemma_filter_take_step(self.slots@, room_pred(rid), k as int);
            }
            let s = self.slots[k];
            if s.custom_room_id == rid {
                v.push(s);
            }
            k = k + 1;
        }
        proof {
            lemma_take_full(self.slots@);
        }
        v
    }

    /// Number of slots of room `rid`.
    pub fn count_room_slots(&self, rid: i32) -> (r: usize)
        ensures
            r == self.room_slots(rid).len(),
    {
        let v = self.collect_room_slots(rid);
        v.len()
    }

    /// The occupants of room `rid`, in table order.
    pub fn occupant_ids(&self, rid: i32) -> (v: Vec<i32>)
        ensures
            v@ == self.occupants(rid),
    {
        let slots = self.collect_room_slots(rid);
        let n = slots.len();
        let mut v: Vec<i32> = Vec::new();
        let mut j: usize = 0;
        proof {
            assert(slots@.take(0) =~= Seq::<CustomRoomSlot>::empty());
            assert(slots@.take(0).map_values(uid_of()) =~= Seq::<i32>::empty());
        }
        while j < n
            invariant
                0 <= j <= n,
                n == slots@.len(),
                slots@ == self.room_slots(rid),
                v@ == slots@.take(j as int).map_values(uid_of()),
            decreases n - j,
        {
            proof {
                assert(slots@.take(j + 1) =~= slots@.take(j as int).push(slots@[j as int]));
                lemma_map_values_push(slots@.take(j as int), uid_of(), slots@[j as int]);
            }
            v.push(slots[j].user_id);
            j = j + 1;
        }
        proof {
            lemma_take_full(slots@);
        }
        v
    }

    /// The occupants of room `rid`, as they are listed after `uid` leaves.
    pub open spec fn occupants_except(self, rid: i32, uid: i32) -> Seq<i32> {
        self.room_slots(rid).filter(others_pred(uid)).map_values(uid_of())
    }

    pub fn occupant_ids_except(&self, rid: i32, uid: i32) -> (v: Vec<i32>)
        ensures
            v@ == self.occupants_except(rid, uid),
    {
        let slots = self.collect_room_slots(rid);
        let n = slots.len();
        let mut v: Vec<i32> = Vec::new();
        let mut j: usize = 0;
        proof {
            reveal(Seq::filter);
            assert(slots@.take(0) =~= Seq::<CustomRoomSlot>::empty());
        }
        while j < n
            invariant
                0 <= j <= n,
                n == slots@.len(),
                slots@ == self.room_slots(rid),
                v@ == slots@.take(j as int).filter(others_pred(uid)).map_values(uid_of()),
            decreases n - j,
        {
            proof {
                lemma_filter_take_step(slots@, others_pred(uid), j as int);
                if slots@[j as int].user_id != uid {
                    lemma_map_values_push(
                        slots@.take(j as int).filter(others_pred(uid)),
                        uid_of(),
                        slots@[j as int],
                    );
                }
            }
            let s = slots[j];
            if s.user_id != uid {
                v.push(s.user_id);
            }
            j = j + 1;
        }
        proof {
            lemma_take_full(slots@);
        }
        v
    }

    // ---- additive and in-place mutations ---------------------------------

    /// Creates a room row together with its owner's slot at (0, 0).
    pub fn add_room_with_owner(&mut self, data: &CustomRoomData, owner: i32) -> (rid: i32)
        requires
            old(self).inv(),
            data.valid(),
            !old(self).has_user_slot(owner),
            old(self).next_room_id < i32::MAX,
            old(self).next_slot_id < i32::MAX,
        ensures
            final(self).inv(),
            rid == old(self).next_room_id,
            final(self).rooms@ == old(self).rooms@.push(
                room_from_data(*data, owner, old(self).next_room_id),
            ),
            final(self).slots@ == old(self).slots@.push(
                fresh_slot(old(self).next_slot_id, old(self).next_room_id, owner, 0, 0),
            ),
            final(self).next_room_id == old(self).next_room_id + 1,
            final(self).next_slot_id == old(self).next_slot_id + 1,
    {
        let rid = self.next_room_id;
        let sid = self.next_slot_id;
        let room = CustomRoom {
            id: rid,
            label: data.label.clone(),
            user_id: owner,
            nb_teams: data.nb_teams,
            max_player_per_team: data.max_players_per_team,
            current_game_mode: data.mode_or_default(),
            current_map: data.map_or_default(),
            matchmaking_ticket: None,
        };
        let slot = CustomRoomSlot {
            id: sid,
            custom_room_id: rid,
            team: 0,
            team_position: 0,
            user_id: owner,
            current_archetype: Archetypes::starting(),
        };
        proof {
            // no existing slot can point at the fresh room identifier
            assert forall|k: int|
                0 <= k < self.slots@.len() implies (#[trigger] self.slots@[k]).custom_room_id
                != rid by {
                let i = choose|i: int|
                    0 <= i < self.rooms@.len() && (#[trigger] self.rooms@[i]).id
                        == self.slots@[k].custom_room_id;
                assert(self.rooms@[i].id < self.next_room_id);
            }
        }
        self.rooms.push(room);
        self.slots.push(slot);
        self.next_room_id = rid + 1;
        self.next_slot_id = sid + 1;
        proof {
            let rs = self.rooms@;
            let ss = self.slots@;
            assert forall|i: int| 0 <= i < rs.len() implies self.has_room(
                (#[trigger] rs[i]).id,
            ) by {
                assert(rs[i].id == rs[i].id);
            }
            assert forall|i: int| 0 <= i < rs.len() implies exists|k: int|
                0 <= k < ss.len() && (#[trigger] ss[k]).custom_room_id == (#[trigger] rs[i]).id
                    && ss[k].user_id == rs[i].user_id by {
                if i < rs.len() - 1 {
                    let k = choose|k: int|
                        0 <= k < old(self).slots@.len() && (#[trigger] old(self).slots@[k])
                            .custom_room_id == old(self).rooms@[i].id && old(self).slots@[k].user_id == old(self).rooms@[i].user_id;
                    assert(ss[k].custom_room_id == rs[i].id && ss[k].user_id == rs[i].user_id);
                } else {
                    assert(ss[ss.len() - 1].custom_room_id == rs[i].id && ss[ss.len()
                        - 1].user_id == rs[i].user_id);
                }
            }
            assert forall|k: int| 0 <= k < ss.len() implies 0 < (#[trigger] ss[k]).id
                < self.next_slot_id && self.has_room(ss[k].custom_room_id) by {
                if k < ss.len() - 1 {
                    let i = choose|i: int|
                        0 <= i < old(self).rooms@.len() && (#[trigger] old(self).rooms@[i]).id
                            == old(self).slots@[k].custom_room_id;
                    assert(rs[i].id == ss[k].custom_room_id);
                } else {
                    assert(rs[rs.len() - 1].id == ss[k].custom_room_id);
                }
            }
        }
        rid
    }

    /// Adds a slot for `uid` at a free, in-bounds coordinate of room `rid`.
    pub fn add_slot(&mut self, rid: i32, uid: i32, team: i32, team_position: i32)
        requires
            old(self).inv(),
            old(self).has_room(rid),
            old(self).next_slot_id < i32::MAX,
            !old(self).has_user_slot(uid),
            !old(self).pair_taken(rid, team as int, team_position as int),
            old(self).room(rid).spec_valid_slot(team as int, team_position as int),
        ensures
            final(self).inv(),
            final(self).rooms@ == old(self).rooms@,
            final(self).slots@ == old(self).slots@.push(
                fresh_slot(old(self).next_slot_id, rid, uid, team, team_position),
            ),
            final(self).next_room_id == old(self).next_room_id,
            final(self).next_slot_id == old(self).next_slot_id + 1,
    {
        let sid = self.next_slot_id;
        let slot = CustomRoomSlot {
            id: sid,
            custom_room_id: rid,
            team: team,
            team_position: team_position,
            user_id: uid,
            current_archetype: Archetypes::starting(),
        };
        self.slots.push(slot);
        self.next_slot_id = sid + 1;
        proof {
            let rs = self.rooms@;
            let ss = self.slots@;
            assert forall|i: int| 0 <= i < rs.len() implies exists|k: int|
                0 <= k < ss.len() && (#[trigger] ss[k]).custom_room_id == (#[trigger] rs[i]).id
                    && ss[k].user_id == rs[i].user_id by {
                let k = choose|k: int|
                    0 <= k < old(self).slots@.len() && (#[trigger] old(self).slots@[k])
                        .custom_room_id == old(self).rooms@[i].id && old(self).slots@[k].user_id
                        == old(self).rooms@[i].user_id;
                assert(ss[k].custom_room_id == rs[i].id && ss[k].user_id == rs[i].user_id);
            }
            assert forall|k: int| 0 <= k < ss.len() implies 0 < (#[trigger] ss[k]).id
                < self.next_slot_id && self.has_room(ss[k].custom_room_id) by {
                if k < ss.len() - 1 {
                    assert(old(self).has_room(old(self).slots@[k].custom_room_id));
                }
            }
            // the new slot fits the grid of every row carrying `rid`
            assert forall|i: int, k: int|
                0 <= i < rs.len() && 0 <= k < ss.len() && (#[trigger] rs[i]).id
                    == (#[trigger] ss[k]).custom_room_id implies rs[i].spec_valid_slot(
                ss[k].team as int,
                ss[k].team_position as int,
            ) by {
                if k == ss.len() - 1 {
                    old(self).lemma_room_index(i);
                }
            }
        }
    }

    /// Moves the slot at table index `k` to a coordinate that is free (or its
    /// own) and in bounds for its room.
    pub fn move_slot(&mut self, k: usize, team: i32, team_position: i32)
        requires
            old(self).inv(),
            k < old(self).slots@.len(),
            old(self).room(old(self).slots@[k as int].custom_room_id).spec_valid_slot(
                team as int,
                team_position as int,
            ),
            !old(self).pair_taken(
                old(self).slots@[k as int].custom_room_id,
                team as int,
                team_position as int,
            ) || (old(self).slots@[k as int].team == team && old(self).slots@[k as int].team_position == team_position),
        ensures
            final(self).inv(),
            final(self).rooms@ == old(self).rooms@,
            final(self).slots@ == old(self).slots@.update(
                k as int,
                CustomRoomSlot {
                    team: team,
                    team_position: team_position,
                    ..old(self).slots@[k as int]
                },
            ),
            final(self).next_room_id == old(self).next_room_id,
            final(self).next_slot_id == old(self).next_slot_id,
    {
        let mut s = self.slots[k];
        s.team = team;
        s.team_position = team_position;
        self.slots[k] = s;
        proof {
            let rs = self.rooms@;
            let ss = self.slots@;
            let rid = old(self).slots@[k as int].custom_room_id;
            assert forall|i: int| 0 <= i < rs.len() implies exists|l: int|
                0 <= l < ss.len() && (#[trigger] ss[l]).custom_room_id == (#[trigger] rs[i]).id
                    && ss[l].user_id == rs[i].user_id by {
                let l = choose|l: int|
                    0 <= l < old(self).slots@.len() && (#[trigger] old(self).slots@[l])
                        .custom_room_id == old(self).rooms@[i].id && old(self).slots@[l].user_id
                        == old(self).rooms@[i].user_id;
                assert(ss[l].custom_room_id == rs[i].id && ss[l].user_id == rs[i].user_id);
            }
            assert forall|l: int| 0 <= l < ss.len() implies 0 < (#[trigger] ss[l]).id
                < self.next_slot_id && self.has_room(ss[l].custom_room_id) by {
                assert(old(self).has_room(old(self).slots@[l].custom_room_id));
            }
            assert forall|i: int, l: int|
                0 <= i < rs.len() && 0 <= l < ss.len() && (#[trigger] rs[i]).id
                    == (#[trigger] ss[l]).custom_room_id implies rs[i].spec_valid_slot(
                ss[l].team as int,
                ss[l].team_position as int,
            ) by {
                if l == k {
                    old(self).lemma_room_index(i);
                }
            }
            // coordinates stay exclusive: the target was free or the slot's own
            assert forall|l: int, m: int|
                0 <= l < m < ss.len() implies !((#[trigger] ss[l]).custom_room_id
                    == (#[trigger] ss[m]).custom_room_id && ss[l].team == ss[m].team
                    && ss[l].team_position == ss[m].team_position) by {
                if l == k || m == k {
                    let o = if l == k { m } else { l };
                    if ss[o].custom_room_id == rid && ss[o].team == team && ss[o].team_position
                        == team_position {
                        assert(old(self).pair_taken(rid, team as int, team_position as int));
                        assert(old(self).slots@[k as int].team == team && old(self).slots@[k as int].team_position == team_position);
                    }
                }
            }
        }
    }

    /// Sets the archetype of the slot at table index `k`.
    pub fn set_slot_archetype(&mut self, k: usize, archetype: Archetypes)
        requires
            old(self).inv(),
            k < old(self).slots@.len(),
        ensures
            final(self).inv(),
            final(self).rooms@ == old(self).rooms@,
            final(self).slots@ == old(self).slots@.update(
                k as int,
                CustomRoomSlot { current_archetype: archetype, ..old(self).slots@[k as int] },
            ),
            final(self).next_room_id == old(self).next_room_id,
            final(self).next_slot_id == old(self).next_slot_id,
    {
        let mut s = self.slots[k];
        s.current_archetype = archetype;
        self.slots[k] = s;
        proof {
            let rs = self.rooms@;
            let ss = self.slots@;
            assert forall|i: int| 0 <= i < rs.len() implies exists|l: int|
                0 <= l < ss.len() && (#[trigger] ss[l]).custom_room_id == (#[trigger] rs[i]).id
                    && ss[l].user_id == rs[i].user_id by {
                let l = choose|l: int|
                    0 <= l < old(self).slots@.len() && (#[trigger] old(self).slots@[l])
                        .custom_room_id == old(self).rooms@[i].id && old(self).slots@[l].user_id
                        == old(self).rooms@[i].user_id;
                assert(ss[l].custom_room_id == rs[i].id && ss[l].user_id == rs[i].user_id);
            }
            assert forall|l: int| 0 <= l < ss.len() implies 0 < (#[trigger] ss[l]).id
                < self.next_slot_id && self.has_room(ss[l].custom_room_id) by {
                assert(old(self).has_room(old(self).slots@[l].custom_room_id));
            }
            assert forall|i: int, l: int|
                0 <= i < rs.len() && 0 <= l < ss.len() && (#[trigger] rs[i]).id
                    == (#[trigger] ss[l]).custom_room_id implies rs[i].spec_valid_slot(
                ss[l].team as int,
                ss[l].team_position as int,
            ) by {
                if l == k {
                    old(self).lemma_room_index(i);
                }
            }
        }
    }

    /// Sets or clears the ticket of the room row at index `i`.
    pub fn set_ticket(&mut self, i: usize, ticket: Option<u128>)
        requires
            old(self).inv(),
            i < old(self).rooms@.len(),
            ticket matches Some(t) ==> !old(self).has_room_by_ticket(t),
        ensures
            final(self).inv(),
            final(self).rooms@ == old(self).rooms@.update(
                i as int,
                CustomRoom { matchmaking_ticket: ticket, ..old(self).rooms@[i as int] },
            ),
            final(self).slots@ == old(self).slots@,
            final(self).next_room_id == old(self).next_room_id,
            final(self).next_slot_id == old(self).next_slot_id,
    {
        let mut room = self.rooms[i].clone();
        room.matchmaking_ticket = ticket;
        self.rooms[i] = room;
        proof {
            let rs = self.rooms@;
            let ss = self.slots@;
            assert forall|a: int, b: int| 0 <= a < b < rs.len() implies !((
            #[trigger] rs[a]).matchmaking_ticket is Some && rs[a].matchmaking_ticket
                == (#[trigger] rs[b]).matchmaking_ticket) by {
                if a == i || b == i {
                    let o = if a == i { b } else { a };
                    if ticket is Some && old(self).rooms@[o].matchmaking_ticket == ticket {
                        assert(old(self).has_room_by_ticket(ticket->Some_0));
                    }
                }
            }
            assert forall|k: int| 0 <= k < ss.len() implies 0 < (#[trigger] ss[k]).id
                < self.next_slot_id && self.has_room(ss[k].custom_room_id) by {
                let j = choose|j: int|
                    0 <= j < old(self).rooms@.len() && (#[trigger] old(self).rooms@[j]).id == old(self).slots@[k].custom_room_id;
                assert(rs[j].id == ss[k].custom_room_id);
            }
            assert forall|j: int, k: int|
                0 <= j < rs.len() && 0 <= k < ss.len() && (#[trigger] rs[j]).id
                    == (#[trigger] ss[k]).custom_room_id implies rs[j].spec_valid_slot(
                ss[k].team as int,
                ss[k].team_position as int,
            ) by {
                if j == i {
                    assert(old(self).rooms@[j].spec_valid_slot(
                        ss[k].team as int,
                        ss[k].team_position as int,
                    ));
                }
            }
            assert forall|j: int| 0 <= j < rs.len() implies exists|k: int|
                0 <= k < ss.len() && (#[trigger] ss[k]).custom_room_id == (#[trigger] rs[j]).id
                    && ss[k].user_id == rs[j].user_id by {
                let k = choose|k: int|
                    0 <= k < old(self).slots@.len() && (#[trigger] old(self).slots@[k])
                        .custom_room_id == old(self).rooms@[j].id && old(self).slots@[k].user_id
                        == old(self).rooms@[j].user_id;
                assert(ss[k].custom_room_id == rs[j].id && ss[k].user_id == rs[j].user_id);
            }
        }
    }

    /// Replaces the label, grid and selectors of the room row at index `i`
    /// with a request payload; identifier, owner and ticket stay.
    pub fn set_room_row(&mut self, i: usize, data: &CustomRoomData)
        requires
            old(self).inv(),
            i < old(self).rooms@.len(),
            data.valid(),
            old(self).rooms@[i as int].matchmaking_ticket is None,
            forall|k: int|
                0 <= k < old(self).slots@.len() && (#[trigger] old(self).slots@[k]).custom_room_id
                    == old(self).rooms@[i as int].id ==> old(self).slots@[k].team < data.nb_teams
                    && old(self).slots@[k].team_position < data.max_players_per_team,
        ensures
            final(self).inv(),
            final(self).rooms@ == old(self).rooms@.update(
                i as int,
                room_from_data(*data, old(self).rooms@[i as int].user_id, old(self).rooms@[i as int].id),
            ),
            final(self).slots@ == old(self).slots@,
            final(self).next_room_id == old(self).next_room_id,
            final(self).next_slot_id == old(self).next_slot_id,
    {
        let owner = self.rooms[i].user_id;
        let id = self.rooms[i].id;
        let room = CustomRoom {
            id: id,
            label: data.label.clone(),
            user_id: owner,
            nb_teams: data.nb_teams,
            max_player_per_team: data.max_players_per_team,
            current_game_mode: data.mode_or_default(),
            current_map: data.map_or_default(),
            matchmaking_ticket: None,
        };
        self.rooms[i] = room;
        proof {
            let rs = self.rooms@;
            let ss = self.slots@;
            assert forall|k: int| 0 <= k < ss.len() implies 0 < (#[trigger] ss[k]).id
                < self.next_slot_id && self.has_room(ss[k].custom_room_id) by {
                let j = choose|j: int|
                    0 <= j < old(self).rooms@.len() && (#[trigger] old(self).rooms@[j]).id == old(self).slots@[k].custom_room_id;
                assert(rs[j].id == ss[k].custom_room_id);
            }
            assert forall|j: int, k: int|
                0 <= j < rs.len() && 0 <= k < ss.len() && (#[trigger] rs[j]).id
                    == (#[trigger] ss[k]).custom_room_id implies rs[j].spec_valid_slot(
                ss[k].team as int,
                ss[k].team_position as int,
            ) by {
                if j == i {
                    assert(old(self).rooms@[j].spec_valid_slot(
                        ss[k].team as int,
                        ss[k].team_position as int,
                    ));
                }
            }
            assert forall|j: int| 0 <= j < rs.len() implies exists|k: int|
                0 <= k < ss.len() && (#[trigger] ss[k]).custom_room_id == (#[trigger] rs[j]).id
                    && ss[k].user_id == rs[j].user_id by {
                let k = choose|k: int|
                    0 <= k < old(self).slots@.len() && (#[trigger] old(self).slots@[k])
                        .custom_room_id == old(self).rooms@[j].id && old(self).slots@[k].user_id
                        == old(self).rooms@[j].user_id;
                assert(ss[k].custom_room_id == rs[j].id && ss[k].user_id == rs[j].user_id);
            }
        }
    }

    // ---- removals ---------------------------------------------------------

    /// Removes the slot at table index `k`; its occupant must not own the
    /// room, so every room keeps its owner seated.
    pub fn remove_nonowner_slot(&mut self, k: usize)
        requires
            old(self).inv(),
            k < old(self).slots@.len(),
            old(self).room(old(self).slots@[k as int].custom_room_id).user_id != old(self).slots@[k as int].user_id,
        ensures
            final(self).inv(),
            final(self).rooms@ == old(self).rooms@,
            final(self).slots@ == old(self).slots@.remove(k as int),
            final(self).next_room_id == old(self).next_room_id,
            final(self).next_slot_id == old(self).next_slot_id,
    {
        proof {
            old(self).lemma_nonowner_everywhere(k as int);
        }
        self.slots.remove(k);
        proof {
            Self::lemma_inv_after_slot_remove(*old(self), *self, k as int);
        }
    }

    /// Removing a slot whose occupant owns no room preserves the invariants.
    #[verifier::spinoff_prover]
    #[verifier::rlimit(100)]
    proof fn lemma_inv_after_slot_remove(pre: RoomStore, post: RoomStore, k: int)
        requires
            pre.inv(),
            0 <= k < pre.slots@.len(),
            forall|i: int|
                0 <= i < pre.rooms@.len() ==> (#[trigger] pre.rooms@[i]).user_id
                    != pre.slots@[k].user_id,
            post.rooms@ == pre.rooms@,
            post.slots@ == pre.slots@.remove(k),
            post.next_room_id == pre.next_room_id,
            post.next_slot_id == pre.next_slot_id,
        ensures
            post.inv(),
    {
        let rs = post.rooms@;
        let ss = post.slots@;
        let os = pre.slots@;
        assert(forall|m: int| 0 <= m < k ==> ss[m] == os[m]);
        assert(forall|m: int| k <= m < ss.len() ==> ss[m] == os[m + 1]);
        assert forall|m: int| 0 <= m < ss.len() implies 0 < (#[trigger] ss[m]).id
            < post.next_slot_id && post.has_room(ss[m].custom_room_id) by {
            let om: int = if m < k { m } else { m + 1 };
            assert(ss[m] == os[om]);
            assert(pre.has_room(os[om].custom_room_id));
            let i = choose|i: int|
                0 <= i < pre.rooms@.len() && (#[trigger] pre.rooms@[i]).id
                    == os[om].custom_room_id;
            assert(post.rooms@[i].id == ss[m].custom_room_id);
        }
        assert forall|m: int, m2: int| 0 <= m < m2 < ss.len() implies (#[trigger] ss[m]).id
            != (#[trigger] ss[m2]).id by {
            let om: int = if m < k { m } else { m + 1 };
            let om2: int = if m2 < k { m2 } else { m2 + 1 };
            assert(ss[m] == os[om] && ss[m2] == os[om2]);
        }
        assert forall|m: int, m2: int| 0 <= m < m2 < ss.len() implies (#[trigger] ss[m]).user_id
            != (#[trigger] ss[m2]).user_id by {
            let om: int = if m < k { m } else { m + 1 };
            let om2: int = if m2 < k { m2 } else { m2 + 1 };
            assert(ss[m] == os[om] && ss[m2] == os[om2]);
        }
        assert forall|m: int, m2: int| 0 <= m < m2 < ss.len() implies !((
        #[trigger] ss[m]).custom_room_id == (#[trigger] ss[m2]).custom_room_id && ss[m].team
            == ss[m2].team && ss[m].team_position == ss[m2].team_position) by {
            let om: int = if m < k { m } else { m + 1 };
            let om2: int = if m2 < k { m2 } else { m2 + 1 };
            assert(ss[m] == os[om] && ss[m2] == os[om2]);
        }
        assert forall|i: int, m: int|
            0 <= i < rs.len() && 0 <= m < ss.len() && (#[trigger] rs[i]).id
                == (#[trigger] ss[m]).custom_room_id implies rs[i].spec_valid_slot(
            ss[m].team as int,
            ss[m].team_position as int,
        ) by {
            let om: int = if m < k { m } else { m + 1 };
            assert(ss[m] == os[om]);
            assert(pre.rooms@[i].spec_valid_slot(os[om].team as int, os[om].team_position as int));
        }
        assert forall|i: int| 0 <= i < rs.len() implies exists|l: int|
            0 <= l < ss.len() && (#[trigger] ss[l]).custom_room_id == (#[trigger] rs[i]).id
                && ss[l].user_id == rs[i].user_id by {
            let l = choose|l: int|
                0 <= l < os.len() && (#[trigger] os[l]).custom_room_id == pre.rooms@[i].id
                    && os[l].user_id == pre.rooms@[i].user_id;
            assert(rs[i].user_id != os[k].user_id);
            assert(l != k);
            let nl: int = if l < k { l } else { l - 1 };
            assert(ss[nl] == os[l]);
            assert(ss[nl].custom_room_id == rs[i].id && ss[nl].user_id == rs[i].user_id);
        }
    }

    /// Removes the room row at index `i` together with every one of its slots.
    pub fn remove_room_cascade(&mut self, i: usize)
        requires
            old(self).inv(),
            i < old(self).rooms@.len(),
        ensures
            final(self).inv(),
            final(self).rooms@ == old(self).rooms@.remove(i as int),
            final(self).slots@ == old(self).slots@.filter(
                other_rooms_pred(old(self).rooms@[i as int].id),
            ),
            !final(self).has_room(old(self).rooms@[i as int].id),
            forall|m: int|
                0 <= m < final(self).slots@.len() ==> (
                #[trigger] final(self).slots@[m]).custom_room_id != old(
                    self,
                ).rooms@[i as int].id,
            final(self).next_room_id == old(self).next_room_id,
            final(self).next_slot_id == old(self).next_slot_id,
    {
        let rid = self.rooms[i].id;
        let ghost pred = other_rooms_pred(rid);
        self.rooms.remove(i);
        let n = self.slots.len();
        let mut kept: Vec<CustomRoomSlot> = Vec::new();
        let mut k: usize = 0;
        proof {
            reveal(Seq::filter);
            assert(self.slots@.take(0) =~= Seq::<CustomRoomSlot>::empty());
        }
        while k < n
            invariant
                0 <= k <= n,
                n == self.slots@.len(),
                self.slots@ == old(self).slots@,
                kept@ == self.slots@.take(k as int).filter(pred),
                pred == other_rooms_pred(rid),
            decreases n - k,
        {
            proof {
                lemma_filter_take_step(self.slots@, pred, k as int);
            }
            let s = self.slots[k];
            if s.custom_room_id != rid {
                kept.push(s);
            }
            k = k + 1;
        }
        proof {
            lemma_take_full(self.slots@);
        }
        self.slots = kept;
        proof {
            Self::lemma_inv_after_cascade(*old(self), *self, i as int);
        }
    }

    /// Removing a room row and every slot pointing at it preserves the
    /// invariants.
    #[verifier::spinoff_prover]
    #[verifier::rlimit(100)]
    proof fn lemma_inv_after_cascade(pre: RoomStore, post: RoomStore, i: int)
        requires
            pre.inv(),
            0 <= i < pre.rooms@.len(),
            post.rooms@ == pre.rooms@.remove(i),
            post.slots@ == pre.slots@.filter(other_rooms_pred(pre.rooms@[i].id)),
            post.next_room_id == pre.next_room_id,
            post.next_slot_id == pre.next_slot_id,
        ensures
            post.inv(),
            !post.has_room(pre.rooms@[i].id),
            forall|m: int|
                0 <= m < post.slots@.len() ==> (#[trigger] post.slots@[m]).custom_room_id
                    != pre.rooms@[i].id,
    {
        let rid = pre.rooms@[i].id;
        let pred = other_rooms_pred(rid);
        let rs = post.rooms@;
        let ss = post.slots@;
        let ors = pre.rooms@;
        let os = pre.slots@;
        assert(forall|a: int| 0 <= a < i ==> rs[a] == ors[a]);
        assert(forall|a: int| i <= a < rs.len() ==> rs[a] == ors[a + 1]);
        assert forall|a: int, b: int| 0 <= a < b < rs.len() implies (#[trigger] rs[a]).id
            != (#[trigger] rs[b]).id && !(rs[a].matchmaking_ticket is Some
            && rs[a].matchmaking_ticket == rs[b].matchmaking_ticket) by {
            let oa: int = if a < i { a } else { a + 1 };
            let ob: int = if b < i { b } else { b + 1 };
            assert(rs[a] == ors[oa] && rs[b] == ors[ob]);
        }
        lemma_filter_elements(os, pred);
        lemma_filter_slot_exclusive(os, pred);
        assert(forall|m: int| 0 <= m < ss.len() ==> ss[m] == #[trigger] os.filter(pred)[m]);
        assert forall|m: int, m2: int| 0 <= m < m2 < ss.len() implies (#[trigger] ss[m]).id
            != (#[trigger] ss[m2]).id && ss[m].user_id != ss[m2].user_id && !(ss[m].custom_room_id
            == ss[m2].custom_room_id && ss[m].team == ss[m2].team && ss[m].team_position
            == ss[m2].team_position) by {
            assert(ss[m] == os.filter(pred)[m] && ss[m2] == os.filter(pred)[m2]);
        }
        assert forall|m: int| 0 <= m < ss.len() implies 0 < (#[trigger] ss[m]).id
            < post.next_slot_id && post.has_room(ss[m].custom_room_id) by {
            assert(os.contains(os.filter(pred)[m]));
            assert(ss[m] == os.filter(pred)[m]);
            os.lemma_filter_pred(pred, m);
            let j = choose|j: int| 0 <= j < os.len() && os[j] == ss[m];
            assert(0 < os[j].id < pre.next_slot_id);
            assert(pre.has_room(os[j].custom_room_id));
            let oa = choose|oa: int|
                0 <= oa < ors.len() && (#[trigger] ors[oa]).id == os[j].custom_room_id;
            assert(ss[m].custom_room_id != rid);
            assert(oa != i);
            let na: int = if oa < i { oa } else { oa - 1 };
            assert(rs[na] == ors[oa]);
            assert(post.has_room(ss[m].custom_room_id));
        }
        assert forall|a: int, m: int|
            0 <= a < rs.len() && 0 <= m < ss.len() && (#[trigger] rs[a]).id
                == (#[trigger] ss[m]).custom_room_id implies rs[a].spec_valid_slot(
            ss[m].team as int,
            ss[m].team_position as int,
        ) by {
            assert(os.contains(os.filter(pred)[m]));
            assert(ss[m] == os.filter(pred)[m]);
            let j = choose|j: int| 0 <= j < os.len() && os[j] == ss[m];
            let oa: int = if a < i { a } else { a + 1 };
            assert(rs[a] == ors[oa]);
            assert(ors[oa].spec_valid_slot(os[j].team as int, os[j].team_position as int));
        }
        assert forall|a: int| 0 <= a < rs.len() implies exists|m: int|
            0 <= m < ss.len() && (#[trigger] ss[m]).custom_room_id == (#[trigger] rs[a]).id
                && ss[m].user_id == rs[a].user_id by {
            let oa: int = if a < i { a } else { a + 1 };
            assert(rs[a] == ors[oa]);
            let l = choose|l: int|
                0 <= l < os.len() && (#[trigger] os[l]).custom_room_id == ors[oa].id
                    && os[l].user_id == ors[oa].user_id;
            if ors[oa].id == rid {
                if oa < i {
                    assert(ors[oa].id != ors[i].id);
                } else {
                    assert(ors[i].id != ors[oa].id);
                }
            }
            assert(pred(os[l]));
            os.lemma_filter_contains(pred, l);
            assert(ss.contains(os[l]));
            let m = choose|m: int| 0 <= m < ss.len() && ss[m] == os[l];
            assert(ss[m].custom_room_id == rs[a].id && ss[m].user_id == rs[a].user_id);
        }
        assert forall|m: int| 0 <= m < ss.len() implies (#[trigger] ss[m]).custom_room_id
            != rid by {
            os.lemma_filter_pred(pred, m);
            assert(ss[m] == os.filter(pred)[m]);
        }
        assert forall|a: int| 0 <= a < rs.len() implies (#[trigger] rs[a]).id != rid by {
            let oa: int = if a < i { a } else { a + 1 };
            assert(rs[a] == ors[oa]);
            if oa < i {
                assert(ors[oa].id != ors[i].id);
            } else {
                assert(ors[i].id != ors[oa].id);
            }
        }
    }
}

} // verus!
