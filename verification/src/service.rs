//! The room service: the state machine over the room store.
//!
//! Each operation validates a request against the store, applies the
//! transition, and reports what to tell the connected clients: the refreshed
//! snapshot (or its absence, when the room was deleted) and the users to
//! notify. Every failed operation leaves the store exactly as it was, and
//! each contract says, for every input, whether the operation succeeds and
//! with which error it fails.

use vstd::prelude::*;
use crate::errors::AppError;
use crate::enums::Archetypes;
use crate::matchmaking::{matched_pred, player_of, roster, Player, StartMatchmakingInput};
use crate::models::{CustomRoom, CustomRoomData, CustomRoomSlot, SwitchSlotData, User};
use crate::lobby::Lobby;
use crate::store::{room_from_data, RoomStore};

verus! {

/// A room row together with its slots, as sent to clients.
#[derive(Debug)]
pub struct Snapshot {
    pub room: CustomRoom,
    pub slots: Vec<CustomRoomSlot>,
}

/// What a successful operation asks the connection registry to deliver:
/// the refreshed snapshot (`None` when the room was deleted) and the users
/// to address.
#[derive(Debug)]
pub struct Notice {
    pub snapshot: Option<Snapshot>,
    pub recipients: Vec<i32>,
}

/// Snapshot of the room row at table index `i`.
fn make_snapshot(store: &RoomStore, i: usize) -> (s: Snapshot)
    requires
        i < store.rooms@.len(),
    ensures
        s.room == store.rooms@[i as int],
        s.slots@ == store.room_slots(store.rooms@[i as int].id),
{
    let room = store.rooms[i].clone();
    let slots = store.collect_room_slots(room.id);
    Snapshot { room, slots }
}

/// All rooms with their slots, in table order.
pub fn get_all(store: &RoomStore) -> (v: Vec<Snapshot>)
    ensures
        v@.len() == store.rooms@.len(),
        forall|i: int|
            0 <= i < v@.len() ==> (#[trigger] v@[i]).room == store.rooms@[i] && v@[i].slots@
                == store.room_slots(store.rooms@[i].id),
{
    let n = store.rooms.len();
    let mut v: Vec<Snapshot> = Vec::new();
    let mut i: usize = 0;
    while i < n
        invariant
            0 <= i <= n,
            n == store.rooms@.len(),
            v@.len() == i,
            forall|j: int|
                0 <= j < i ==> (#[trigger] v@[j]).room == store.rooms@[j] && v@[j].slots@
                    == store.room_slots(store.rooms@[j].id),
        decreases n - i,
    {
        let s = make_snapshot(store, i);
        v.push(s);
        i = i + 1;
    }
    v
}

/// The room with identifier `custom_room_id` and its slots.
pub fn get(store: &RoomStore, custom_room_id: i32) -> (r: Result<Snapshot, AppError>)
    requires
        store.inv(),
    ensures
        r is Ok <==> store.has_room(custom_room_id),
        r matches Err(e) ==> e == AppError::NotFound,
        r matches Ok(s) ==> s.room == store.room(custom_room_id) && s.slots@ == store.room_slots(
            custom_room_id,
        ),
{
    match store.find_room_index(custom_room_id) {
        Some(i) => {
            proof {
                store.lemma_room_index(i as int);
            }
            Ok(make_snapshot(store, i))
        },
        None => Err(AppError::NotFound),
    }
}

/// Creates a room for `user_id` and seats them at (0, 0) of team 0.
///
/// Fails with `Conflict` when the user already occupies a slot anywhere, or
/// when the requested grid is empty or oversized.
pub fn create(store: &mut RoomStore, data: CustomRoomData, user_id: i32) -> (r: Result<
    Notice,
    AppError,
>)
    requires
        old(store).inv(),
        old(store).next_room_id < i32::MAX,
        old(store).next_slot_id < i32::MAX,
    ensures
        final(store).inv(),
        r is Err ==> *final(store) == *old(store),
        (r is Err) <==> (old(store).has_user_slot(user_id) || !data.valid()),
        r matches Err(e) ==> e == AppError::Conflict,
        r matches Ok(n) ==> ({
            let rid = old(store).next_room_id;
            &&& final(store).rooms@ == old(store).rooms@.push(room_from_data(data, user_id, rid))
            &&& final(store).slots@ == old(store).slots@.push(
                crate::store::fresh_slot(old(store).next_slot_id, rid, user_id, 0, 0),
            )
            &&& final(store).next_room_id == old(store).next_room_id + 1
            &&& final(store).next_slot_id == old(store).next_slot_id + 1
            &&& n.snapshot matches Some(s) && s.room == room_from_data(data, user_id, rid)
                && s.slots@ == final(store).room_slots(rid)
            &&& n.recipients@ == final(store).occupants(rid)
        }),
{
    if !data.validate() {
        return Err(AppError::Conflict);
    }
    match store.find_user_slot_index(user_id) {
        Some(_) => {
            return Err(AppError::Conflict);
        },
        None => {},
    }
    let rid = store.add_room_with_owner(&data, user_id);
    let i = store.rooms.len() - 1;
    let snap = make_snapshot(store, i);
    let recipients = store.occupant_ids(rid);
    Ok(Notice { snapshot: Some(snap), recipients })
}

/// Rewrites the label, grid and selectors of the caller's room.
///
/// Fails with `NotFound` when the room is absent, `Forbidden` when the caller
/// does not own it, and `Conflict` when the room is searching, the payload is
/// unacceptable, or the new grid would evict an occupied coordinate.
pub fn update(store: &mut RoomStore, data: CustomRoomData, user_id: i32, custom_room_id: i32) -> (r:
    Result<Notice, AppError>)
    requires
        old(store).inv(),
    ensures
        final(store).inv(),
        r is Err ==> *final(store) == *old(store),
        (r is Err) <==> (!old(store).has_room(custom_room_id) || old(store).room(
            custom_room_id,
        ).user_id != user_id || old(store).searching(custom_room_id) || !data.valid() || !(old(store).fits_resize(custom_room_id, data))),
        r matches Err(e) ==> e == (if !old(store).has_room(custom_room_id) {
            AppError::NotFound
        } else if old(store).room(custom_room_id).user_id != user_id {
            AppError::Forbidden
        } else {
            AppError::Conflict
        }),
        r matches Ok(n) ==> ({
            let i = old(store).room_index(custom_room_id);
            let room = room_from_data(data, user_id, custom_room_id);
            &&& final(store).rooms@ == old(store).rooms@.update(i, room)
            &&& final(store).slots@ == old(store).slots@
            &&& final(store).next_room_id == old(store).next_room_id
            &&& final(store).next_slot_id == old(store).next_slot_id
            &&& n.snapshot matches Some(s) && s.room == room && s.slots@ == final(store).room_slots(custom_room_id)
            &&& n.recipients@ == final(store).occupants(custom_room_id)
        }),
{
    let rid = custom_room_id;
    let oi = store.find_room_index(rid);
    let i: usize;
    match oi {
        Some(found) => {
            i = found;
        },
        None => {
            return Err(AppError::NotFound);
        },
    }
    proof {
        store.lemma_room_index(i as int);
    }
    if store.rooms[i].user_id != user_id {
        return Err(AppError::Forbidden);
    }
    match store.rooms[i].matchmaking_ticket {
        Some(_) => {
            return Err(AppError::Conflict);
        },
        None => {},
    }
    if !data.validate() {
        return Err(AppError::Conflict);
    }
    // every occupied coordinate must survive the resize
    let n = store.slots.len();
    let mut k: usize = 0;
    while k < n
        invariant
            0 <= k <= n,
            *store == *old(store),
            store.inv(),
            rid == custom_room_id,
            n == store.slots@.len(),
            0 <= i < store.rooms@.len(),
            store.rooms@[i as int].id == rid,
            store.room_index(rid) == i as int,
            store.has_room(rid),
            store.rooms@[i as int].user_id == user_id,
            store.rooms@[i as int].matchmaking_ticket is None,
            data.valid(),
            forall|j: int|
                0 <= j < k && (#[trigger] store.slots@[j]).custom_room_id == rid
                    ==> store.slots@[j].team < data.nb_teams && store.slots@[j].team_position
                    < data.max_players_per_team,
        decreases n - k,
    {
        let s = &store.slots[k];
        if s.custom_room_id == rid && (s.team >= data.nb_teams || s.team_position
            >= data.max_players_per_team) {
            return Err(AppError::Conflict);
        }
        k = k + 1;
    }
    store.set_room_row(i, &data);
    let snap = make_snapshot(store, i);
    let recipients = store.occupant_ids(rid);
    Ok(Notice { snapshot: Some(snap), recipients })
}

/// Seats `user_id` at the first free coordinate of the room, scanning the
/// grid in row-major order.
///
/// Fails with `NotFound` when the room is absent, and with `Conflict` when
/// the user already occupies a slot anywhere, the room is searching, or the
/// room is at capacity.
pub fn join(store: &mut RoomStore, custom_room_id: i32, user_id: i32) -> (r: Result<
    Notice,
    AppError,
>)
    requires
        old(store).inv(),
        old(store).next_slot_id < i32::MAX,
    ensures
        final(store).inv(),
        r is Err ==> *final(store) == *old(store),
        (r is Err) <==> (!old(store).has_room(custom_room_id) || old(store).has_user_slot(user_id)
            || old(store).searching(custom_room_id) || old(store).room_slots(
            custom_room_id,
        ).len() >= old(store).room(custom_room_id).spec_capacity()),
        r matches Err(e) ==> e == (if !old(store).has_room(custom_room_id) {
            AppError::NotFound
        } else {
            AppError::Conflict
        }),
        r matches Ok(n) ==> ({
            let room = old(store).room(custom_room_id);
            let mx = room.max_player_per_team as int;
            let ff = old(store).first_free(custom_room_id);
            &&& 0 <= ff < room.spec_capacity()
            &&& final(store).rooms@ == old(store).rooms@
            &&& final(store).slots@ == old(store).slots@.push(
                crate::store::fresh_slot(
                    old(store).next_slot_id,
                    custom_room_id,
                    user_id,
                    (ff / mx) as i32,
                    (ff % mx) as i32,
                ),
            )
            &&& final(store).next_room_id == old(store).next_room_id
            &&& final(store).next_slot_id == old(store).next_slot_id + 1
            &&& n.snapshot matches Some(s) && s.room == room && s.slots@ == final(store).room_slots(custom_room_id)
            &&& n.recipients@ == final(store).occupants(custom_room_id)
        }),
{
    let rid = custom_room_id;
    let i: usize;
    match store.find_room_index(rid) {
        Some(found) => {
            i = found;
        },
        None => {
            return Err(AppError::NotFound);
        },
    }
    proof {
        store.lemma_room_index(i as int);
    }
    match store.find_user_slot_index(user_id) {
        Some(_) => {
            return Err(AppError::Conflict);
        },
        None => {},
    }
    match store.rooms[i].matchmaking_ticket {
        Some(_) => {
            return Err(AppError::Conflict);
        },
        None => {},
    }
    let room_nb = store.rooms[i].nb_teams;
    let room_mx = store.rooms[i].max_player_per_team;
    let cap = store.rooms[i].get_capacity();
    let count = store.count_room_slots(rid);
    if count >= cap {
        return Err(AppError::Conflict);
    }
    let mx = room_mx as usize;
    let mut nidx: usize = 0;
    while nidx < cap
        invariant
            *store == *old(store),
            store.inv(),
            rid == custom_room_id,
            0 <= i < store.rooms@.len(),
            store.rooms@[i as int].id == rid,
            store.room_index(rid) == i as int,
            store.has_room(rid),
            store.rooms@[i as int].matchmaking_ticket is None,
            !store.has_user_slot(user_id),
            store.next_slot_id < i32::MAX,
            room_nb == store.rooms@[i as int].nb_teams,
            room_mx == store.rooms@[i as int].max_player_per_team,
            1 <= room_nb,
            1 <= room_mx,
            mx == room_mx as usize,
            cap == store.rooms@[i as int].spec_capacity(),
            count == store.room_slots(rid).len(),
            count < cap,
            0 <= nidx <= cap,
            store.first_free(rid) == store.first_free_from(
                rid,
                mx as int,
                cap as int,
                nidx as int,
            ),
            forall|m: int|
                0 <= m < nidx ==> #[trigger] store.pair_taken(rid, m / (mx as int), m % (mx as int)),
        decreases cap - nidx,
    {
        proof {
            assert((nidx / mx) as int == (nidx as int) / (mx as int));
            assert((nidx as int) / (mx as int) < (room_nb as int)) by (nonlinear_arith)
                requires
                    0 <= (nidx as int),
                    (nidx as int) < (room_nb as int) * (mx as int),
                    1 <= (mx as int),
            ;
        }
        let t = (nidx / mx) as i32;
        let p = (nidx % mx) as i32;
        match store.find_slot_at(rid, t, p) {
            None => {
                proof {
                    assert(store.first_free_from(rid, mx as int, cap as int, nidx as int)
                        == nidx as int);
                    assert(store.room(rid) == store.rooms@[i as int]);
                }
                store.add_slot(rid, user_id, t, p);
                proof {
                    store.lemma_room_index(i as int);
                }
                let snap = make_snapshot(store, i);
                let recipients = store.occupant_ids(rid);
                return Ok(Notice { snapshot: Some(snap), recipients });
            },
            Some(_) => {
                proof {
                    assert(store.first_free_from(rid, mx as int, cap as int, nidx as int)
                        == store.first_free_from(rid, mx as int, cap as int, nidx as int + 1));
                }
            },
        }
        nidx = nidx + 1;
    }
    proof {
        // every coordinate turned out occupied, yet the room was below
        // capacity: impossible
        assert forall|t: int, p: int|
            0 <= t < store.room(rid).nb_teams && 0 <= p < store.room(rid).max_player_per_team
                implies store.pair_taken(rid, t, p) by {
            let m = t * (mx as int) + p;
            assert(0 <= m < cap as int && m / (mx as int) == t && m % (mx as int) == p)
                by (nonlinear_arith)
                requires
                    0 <= t < (room_nb as int),
                    0 <= p < (mx as int),
                    1 <= (mx as int),
                    m == t * (mx as int) + p,
                    cap as int == (room_nb as int) * (mx as int),
            ;
            assert(store.pair_taken(rid, m / (mx as int), m % (mx as int)));
        }
        crate::counting::lemma_all_taken_at_capacity(*store, rid);
        assert(false);
    }
    Err(AppError::Conflict)
}

/// Removes the caller's slot from the room; a quitting owner deletes the
/// room and all of its slots.
///
/// Fails with `NotFound` when the room is absent or the caller holds no slot
/// in it, and with `Conflict` when the room is searching.
pub fn quit(store: &mut RoomStore, custom_room_id: i32, user_id: i32) -> (r: Result<
    Notice,
    AppError,
>)
    requires
        old(store).inv(),
    ensures
        final(store).inv(),
        r is Err ==> *final(store) == *old(store),
        (r is Err) <==> (!old(store).has_room(custom_room_id) || !old(store).user_in_room(
            user_id,
            custom_room_id,
        ) || old(store).searching(custom_room_id)),
        r matches Err(e) ==> e == (if !old(store).has_room(custom_room_id) || !old(store).user_in_room(user_id, custom_room_id) {
            AppError::NotFound
        } else {
            AppError::Conflict
        }),
        r matches Ok(n) ==> (old(store).room(custom_room_id).user_id == user_id ==> ({
            &&& final(store).rooms@ == old(store).rooms@.remove(
                old(store).room_index(custom_room_id),
            )
            &&& final(store).slots@ == old(store).slots@.filter(
                crate::store::other_rooms_pred(custom_room_id),
            )
            &&& n.snapshot is None
            &&& n.recipients@ == old(store).occupants_except(custom_room_id, user_id)
        })),
        r matches Ok(n) ==> (old(store).room(custom_room_id).user_id != user_id ==> ({
            &&& final(store).rooms@ == old(store).rooms@
            &&& final(store).slots@ == old(store).slots@.remove(
                old(store).user_slot_index(user_id),
            )
            &&& n.snapshot matches Some(s) && s.room == old(store).room(custom_room_id)
                && s.slots@ == final(store).room_slots(custom_room_id)
            &&& n.recipients@ == final(store).occupants(custom_room_id)
        })),
        r is Ok ==> final(store).next_room_id == old(store).next_room_id && final(store).next_slot_id == old(store).next_slot_id,
{
    let rid = custom_room_id;
    let i: usize;
    match store.find_room_index(rid) {
        Some(found) => {
            i = found;
        },
        None => {
            return Err(AppError::NotFound);
        },
    }
    proof {
        store.lemma_room_index(i as int);
    }
    let k: usize;
    match store.find_user_slot_index(user_id) {
        Some(found) => {
            k = found;
        },
        None => {
            return Err(AppError::NotFound);
        },
    }
    proof {
        store.lemma_user_slot_index(k as int);
    }
    if store.slots[k].custom_room_id != rid {
        return Err(AppError::NotFound);
    }
    match store.rooms[i].matchmaking_ticket {
        Some(_) => {
            return Err(AppError::Conflict);
        },
        None => {},
    }
    if store.rooms[i].user_id == user_id {
        let recipients = store.occupant_ids_except(rid, user_id);
        store.remove_room_cascade(i);
        Ok(Notice { snapshot: None, recipients })
    } else {
        store.remove_nonowner_slot(k);
        let snap = make_snapshot(store, i);
        let recipients = store.occupant_ids(rid);
        Ok(Notice { snapshot: Some(snap), recipients })
    }
}

/// Deletes the room owned by the caller, with all of its slots.
///
/// Fails with `NotFound` when the caller owns no room, and with `Conflict`
/// when that room is searching.
pub fn delete(store: &mut RoomStore, user_id: i32) -> (r: Result<Notice, AppError>)
    requires
        old(store).inv(),
    ensures
        final(store).inv(),
        r is Err ==> *final(store) == *old(store),
        (r is Err) <==> (!old(store).has_room_by_owner(user_id) || ({
            let i = old(store).room_by_owner_index(user_id);
            old(store).rooms@[i].matchmaking_ticket is Some
        })),
        r matches Err(e) ==> e == (if !old(store).has_room_by_owner(user_id) {
            AppError::NotFound
        } else {
            AppError::Conflict
        }),
        r matches Ok(n) ==> ({
            let i = old(store).room_by_owner_index(user_id);
            let rid = old(store).rooms@[i].id;
            &&& final(store).rooms@ == old(store).rooms@.remove(i)
            &&& final(store).slots@ == old(store).slots@.filter(
                crate::store::other_rooms_pred(rid),
            )
            &&& final(store).next_room_id == old(store).next_room_id
            &&& final(store).next_slot_id == old(store).next_slot_id
            &&& n.snapshot is None
            &&& n.recipients@ == old(store).occupants_except(rid, user_id)
        }),
{
    let i: usize;
    match store.find_room_by_owner(user_id) {
        Some(found) => {
            i = found;
        },
        None => {
            return Err(AppError::NotFound);
        },
    }
    proof {
        store.lemma_room_by_owner_index(i as int);
    }
    match store.rooms[i].matchmaking_ticket {
        Some(_) => {
            return Err(AppError::Conflict);
        },
        None => {},
    }
    let rid = store.rooms[i].id;
    let recipients = store.occupant_ids_except(rid, user_id);
    store.remove_room_cascade(i);
    Ok(Notice { snapshot: None, recipients })
}

/// Removes the target user's slot from the room, on behalf of the room owner
/// or of the system (no acting user). Kicking the owner deletes the room.
///
/// Fails with `NotFound` when the room is absent or the target holds no slot
/// in it, `Forbidden` when the acting user is not the owner, and `Conflict`
/// when the room is searching.
pub fn kick(
    store: &mut RoomStore,
    custom_room_id: i32,
    user_id_to_kick: i32,
    acting_user: Option<i32>,
) -> (r: Result<Notice, AppError>)
    requires
        old(store).inv(),
    ensures
        final(store).inv(),
        r is Err ==> *final(store) == *old(store),
        (r is Err) <==> (!old(store).has_room(custom_room_id) || (acting_user matches Some(a)
            && old(store).room(custom_room_id).user_id != a) || old(store).searching(
            custom_room_id,
        ) || !old(store).user_in_room(user_id_to_kick, custom_room_id)),
        r matches Err(e) ==> e == (if !old(store).has_room(custom_room_id) {
            AppError::NotFound
        } else if acting_user matches Some(a) && old(store).room(custom_room_id).user_id != a {
            AppError::Forbidden
        } else if old(store).searching(custom_room_id) {
            AppError::Conflict
        } else {
            AppError::NotFound
        }),
        r matches Ok(n) ==> (old(store).room(custom_room_id).user_id == user_id_to_kick ==> ({
            &&& final(store).rooms@ == old(store).rooms@.remove(
                old(store).room_index(custom_room_id),
            )
            &&& final(store).slots@ == old(store).slots@.filter(
                crate::store::other_rooms_pred(custom_room_id),
            )
            &&& n.snapshot is None
            &&& n.recipients@ == old(store).occupants_except(custom_room_id, user_id_to_kick)
        })),
        r matches Ok(n) ==> (old(store).room(custom_room_id).user_id != user_id_to_kick ==> ({
            &&& final(store).rooms@ == old(store).rooms@
            &&& final(store).slots@ == old(store).slots@.remove(
                old(store).user_slot_index(user_id_to_kick),
            )
            &&& n.snapshot matches Some(s) && s.room == old(store).room(custom_room_id)
                && s.slots@ == final(store).room_slots(custom_room_id)
            &&& n.recipients@ == final(store).occupants(custom_room_id)
        })),
        r is Ok ==> final(store).next_room_id == old(store).next_room_id && final(store).next_slot_id == old(store).next_slot_id,
{
    let rid = custom_room_id;
    let i: usize;
    match store.find_room_index(rid) {
        Some(found) => {
            i = found;
        },
        None => {
            return Err(AppError::NotFound);
        },
    }
    proof {
        store.lemma_room_index(i as int);
    }
    match acting_user {
        Some(a) => {
            if store.rooms[i].user_id != a {
                return Err(AppError::Forbidden);
            }
        },
        None => {},
    }
    match store.rooms[i].matchmaking_ticket {
        Some(_) => {
            return Err(AppError::Conflict);
        },
        None => {},
    }
    let k: usize;
    match store.find_user_slot_index(user_id_to_kick) {
        Some(found) => {
            k = found;
        },
        None => {
            return Err(AppError::NotFound);
        },
    }
    proof {
        store.lemma_user_slot_index(k as int);
    }
    if store.slots[k].custom_room_id != rid {
        return Err(AppError::NotFound);
    }
    if store.rooms[i].user_id == user_id_to_kick {
        let recipients = store.occupant_ids_except(rid, user_id_to_kick);
        store.remove_room_cascade(i);
        Ok(Notice { snapshot: None, recipients })
    } else {
        store.remove_nonowner_slot(k);
        let snap = make_snapshot(store, i);
        let recipients = store.occupant_ids(rid);
        Ok(Notice { snapshot: Some(snap), recipients })
    }
}

/// Moves the caller's slot to the requested coordinate of the same room.
///
/// Fails with `NotFound` when the room is absent or the caller holds no slot
/// in it, and with `Conflict` when the room is searching, the coordinate lies
/// outside the grid, or another user occupies it.
pub fn switch_slot(
    store: &mut RoomStore,
    custom_room_id: i32,
    user_id: i32,
    data: SwitchSlotData,
) -> (r: Result<Notice, AppError>)
    requires
        old(store).inv(),
    ensures
        final(store).inv(),
        r is Err ==> *final(store) == *old(store),
        (r is Err) <==> (!old(store).has_room(custom_room_id) || !old(store).user_in_room(
            user_id,
            custom_room_id,
        ) || old(store).searching(custom_room_id) || !old(store).room(
            custom_room_id,
        ).spec_valid_slot(data.team as int, data.team_position as int) || (old(store).pair_taken(
            custom_room_id,
            data.team as int,
            data.team_position as int,
        ) && !(old(store).user_slot(user_id).team == data.team && old(store).user_slot(
            user_id,
        ).team_position == data.team_position))),
        r matches Err(e) ==> e == (if !old(store).has_room(custom_room_id) || !old(store).user_in_room(user_id, custom_room_id) {
            AppError::NotFound
        } else {
            AppError::Conflict
        }),
        r matches Ok(n) ==> ({
            let k = old(store).user_slot_index(user_id);
            &&& final(store).rooms@ == old(store).rooms@
            &&& final(store).slots@ == old(store).slots@.update(
                k,
                CustomRoomSlot {
                    team: data.team,
                    team_position: data.team_position,
                    ..old(store).slots@[k]
                },
            )
            &&& final(store).next_room_id == old(store).next_room_id
            &&& final(store).next_slot_id == old(store).next_slot_id
            &&& n.snapshot matches Some(s) && s.room == old(store).room(custom_room_id)
                && s.slots@ == final(store).room_slots(custom_room_id)
            &&& n.recipients@ == final(store).occupants(custom_room_id)
        }),
{
    let rid = custom_room_id;
    let i: usize;
    match store.find_room_index(rid) {
        Some(found) => {
            i = found;
        },
        None => {
            return Err(AppError::NotFound);
        },
    }
    proof {
        store.lemma_room_index(i as int);
    }
    let k: usize;
    match store.find_user_slot_index(user_id) {
        Some(found) => {
            k = found;
        },
        None => {
            return Err(AppError::NotFound);
        },
    }
    proof {
        store.lemma_user_slot_index(k as int);
    }
    if store.slots[k].custom_room_id != rid {
        return Err(AppError::NotFound);
    }
    match store.rooms[i].matchmaking_ticket {
        Some(_) => {
            return Err(AppError::Conflict);
        },
        None => {},
    }
    let valid = store.rooms[i].is_valid_slot(&data.team, &data.team_position);
    if !valid {
        return Err(AppError::Conflict);
    }
    match store.find_slot_at(rid, data.team, data.team_position) {
        Some(k2) => {
            if store.slots[k2].user_id != user_id {
                return Err(AppError::Conflict);
            }
            proof {
                store.lemma_user_slot_index(k2 as int);
            }
        },
        None => {},
    }
    store.move_slot(k, data.team, data.team_position);
    let snap = make_snapshot(store, i);
    let recipients = store.occupant_ids(rid);
    Ok(Notice { snapshot: Some(snap), recipients })
}

/// Sets the archetype of the caller's slot.
///
/// Fails with `NotFound` when the room is absent or the caller holds no slot
/// in it, and with `Conflict` when the room is searching.
pub fn switch_archetype(
    store: &mut RoomStore,
    custom_room_id: i32,
    archetype: Archetypes,
    user_id: i32,
) -> (r: Result<Notice, AppError>)
    requires
        old(store).inv(),
    ensures
        final(store).inv(),
        r is Err ==> *final(store) == *old(store),
        (r is Err) <==> (!old(store).has_room(custom_room_id) || !old(store).user_in_room(
            user_id,
            custom_room_id,
        ) || old(store).searching(custom_room_id)),
        r matches Err(e) ==> e == (if !old(store).has_room(custom_room_id) || !old(store).user_in_room(user_id, custom_room_id) {
            AppError::NotFound
        } else {
            AppError::Conflict
        }),
        r matches Ok(n) ==> ({
            let k = old(store).user_slot_index(user_id);
            &&& final(store).rooms@ == old(store).rooms@
            &&& final(store).slots@ == old(store).slots@.update(
                k,
                CustomRoomSlot { current_archetype: archetype, ..old(store).slots@[k] },
            )
            &&& final(store).next_room_id == old(store).next_room_id
            &&& final(store).next_slot_id == old(store).next_slot_id
            &&& n.snapshot matches Some(s) && s.room == old(store).room(custom_room_id)
                && s.slots@ == final(store).room_slots(custom_room_id)
            &&& n.recipients@ == final(store).occupants(custom_room_id)
        }),
{
    let rid = custom_room_id;
    let i: usize;
    match store.find_room_index(rid) {
        Some(found) => {
            i = found;
        },
        None => {
            return Err(AppError::NotFound);
        },
    }
    proof {
        store.lemma_room_index(i as int);
    }
    let k: usize;
    match store.find_user_slot_index(user_id) {
        Some(found) => {
            k = found;
        },
        None => {
            return Err(AppError::NotFound);
        },
    }
    proof {
        store.lemma_user_slot_index(k as int);
    }
    if store.slots[k].custom_room_id != rid {
        return Err(AppError::NotFound);
    }
    match store.rooms[i].matchmaking_ticket {
        Some(_) => {
            return Err(AppError::Conflict);
        },
        None => {},
    }
    store.set_slot_archetype(k, archetype);
    let snap = make_snapshot(store, i);
    let recipients = store.occupant_ids(rid);
    Ok(Notice { snapshot: Some(snap), recipients })
}

/// What `stop_matchmaking` hands back: the ticket to cancel with the
/// external service (best-effort, after the local state is already cleared)
/// and the notification to deliver.
#[derive(Debug)]
pub struct StopOutcome {
    pub ticket: u128,
    pub notice: Notice,
}

/// What a disconnect cleanup hands back: the ticket of a search the room was
/// in, to cancel externally, and the notification for the remaining
/// occupants.
#[derive(Debug)]
pub struct DisconnectCleanup {
    pub cancelled_ticket: Option<u128>,
    pub notice: Notice,
}

/// Validates a search start and builds the request: the caller must own the
/// room, the room must be full and not already searching. The store is not
/// changed; the ticket inside the request is freshly generated, and
/// `commit_matchmaking` persists it once the external call went through.
///
/// Fails with `NotFound` when the room is absent, `Forbidden` when the caller
/// does not own it, and `Conflict` when the room is searching or not full.
pub fn start_matchmaking(
    store: &RoomStore,
    custom_room_id: i32,
    user_id: i32,
    users: &Vec<User>,
) -> (r: Result<StartMatchmakingInput, AppError>)
    requires
        store.inv(),
    ensures
        (r is Err) <==> (!store.has_room(custom_room_id) || store.room(custom_room_id).user_id
            != user_id || store.searching(custom_room_id) || store.room_slots(
            custom_room_id,
        ).len() < store.room(custom_room_id).spec_capacity()),
        r matches Err(e) ==> e == (if !store.has_room(custom_room_id) {
            AppError::NotFound
        } else if store.room(custom_room_id).user_id != user_id {
            AppError::Forbidden
        } else {
            AppError::Conflict
        }),
        r matches Ok(input) ==> ({
            &&& input.configuration_name@ == store.room(custom_room_id).current_map.spec_name()
            &&& input.players@ == roster(store.room_slots(custom_room_id), users@)
        }),
{
    let rid = custom_room_id;
    let i: usize;
    match store.find_room_index(rid) {
        Some(found) => {
            i = found;
        },
        None => {
            return Err(AppError::NotFound);
        },
    }
    proof {
        store.lemma_room_index(i as int);
    }
    if store.rooms[i].user_id != user_id {
        return Err(AppError::Forbidden);
    }
    match store.rooms[i].matchmaking_ticket {
        Some(_) => {
            return Err(AppError::Conflict);
        },
        None => {},
    }
    let cap = store.rooms[i].get_capacity();
    let count = store.count_room_slots(rid);
    if count < cap {
        return Err(AppError::Conflict);
    }
    let slots = store.collect_room_slots(rid);
    let n = slots.len();
    let mut tuples: Vec<(CustomRoomSlot, User)> = Vec::new();
    let mut j: usize = 0;
    proof {
        reveal(Seq::filter);
        assert(slots@.take(0) =~= Seq::<CustomRoomSlot>::empty());
        assert(tuples@ =~= Seq::<(CustomRoomSlot, User)>::empty());
        assert(tuples@.filter(matched_pred()).map_values(player_of()) =~= Seq::<Player>::empty());
    }
    while j < n
        invariant
            0 <= j <= n,
            n == slots@.len(),
            slots@ == store.room_slots(rid),
            tuples@.filter(matched_pred()).map_values(player_of()) == roster(
                slots@.take(j as int),
                users@,
            ),
        decreases n - j,
    {
        proof {
            assert(slots@.take(j + 1).drop_last() =~= slots@.take(j as int));
            assert(slots@.take(j + 1).last() == slots@[j as int]);
        }
        let slot = slots[j];
        match crate::matchmaking::find_user(users, slot.user_id) {
            Some(user) => {
                proof {
                    crate::counting::lemma_filter_push_true(
                        tuples@,
                        matched_pred(),
                        (slot, user),
                    );
                    crate::counting::lemma_map_values_push(
                        tuples@.filter(matched_pred()),
                        player_of(),
                        (slot, user),
                    );
                }
                tuples.push((slot, user));
            },
            None => {},
        }
        j = j + 1;
    }
    proof {
        crate::counting::lemma_take_full(slots@);
    }
    let ticket = crate::matchmaking::new_ticket();
    let input = store.rooms[i].get_start_matchmaking_input(&tuples, ticket);
    Ok(input)
}

/// Persists a ticket on the room once the external search started: the room
/// turns `Searching`.
///
/// Fails with `NotFound` when the room is absent, and with `Conflict` when
/// the room is already searching or the ticket is already carried by some
/// room.
pub fn commit_matchmaking(store: &mut RoomStore, custom_room_id: i32, ticket_id: u128) -> (r:
    Result<Notice, AppError>)
    requires
        old(store).inv(),
    ensures
        final(store).inv(),
        r is Err ==> *final(store) == *old(store),
        (r is Err) <==> (!old(store).has_room(custom_room_id) || old(store).searching(
            custom_room_id,
        ) || old(store).has_room_by_ticket(ticket_id)),
        r matches Err(e) ==> e == (if !old(store).has_room(custom_room_id) {
            AppError::NotFound
        } else {
            AppError::Conflict
        }),
        r matches Ok(n) ==> ({
            let i = old(store).room_index(custom_room_id);
            let room = (CustomRoom {
                matchmaking_ticket: Some(ticket_id),
                ..old(store).rooms@[i]
            });
            &&& final(store).rooms@ == old(store).rooms@.update(i, room)
            &&& final(store).slots@ == old(store).slots@
            &&& final(store).next_room_id == old(store).next_room_id
            &&& final(store).next_slot_id == old(store).next_slot_id
            &&& n.snapshot matches Some(s) && s.room == room && s.slots@ == final(store).room_slots(custom_room_id)
            &&& n.recipients@ == final(store).occupants(custom_room_id)
        }),
{
    let rid = custom_room_id;
    let i: usize;
    match store.find_room_index(rid) {
        Some(found) => {
            i = found;
        },
        None => {
            return Err(AppError::NotFound);
        },
    }
    proof {
        store.lemma_room_index(i as int);
    }
    match store.rooms[i].matchmaking_ticket {
        Some(_) => {
            return Err(AppError::Conflict);
        },
        None => {},
    }
    match store.find_room_by_ticket(ticket_id) {
        Some(_) => {
            return Err(AppError::Conflict);
        },
        None => {},
    }
    store.set_ticket(i, Some(ticket_id));
    proof {
        store.lemma_room_index(i as int);
    }
    let snap = make_snapshot(store, i);
    let recipients = store.occupant_ids(rid);
    Ok(Notice { snapshot: Some(snap), recipients })
}

/// Clears the room's ticket and returns it, so the caller can cancel the
/// external search best-effort; the room returns to `Forming` regardless of
/// whether that cancellation succeeds.
///
/// Fails with `NotFound` when the room is absent or not searching, and with
/// `Forbidden` when the caller does not own it.
pub fn stop_matchmaking(store: &mut RoomStore, custom_room_id: i32, user_id: i32) -> (r: Result<
    StopOutcome,
    AppError,
>)
    requires
        old(store).inv(),
    ensures
        final(store).inv(),
        r is Err ==> *final(store) == *old(store),
        (r is Err) <==> (!old(store).has_room(custom_room_id) || old(store).room(
            custom_room_id,
        ).user_id != user_id || !old(store).searching(custom_room_id)),
        r matches Err(e) ==> e == (if !old(store).has_room(custom_room_id) {
            AppError::NotFound
        } else if old(store).room(custom_room_id).user_id != user_id {
            AppError::Forbidden
        } else {
            AppError::NotFound
        }),
        r matches Ok(o) ==> ({
            let i = old(store).room_index(custom_room_id);
            let room = (CustomRoom { matchmaking_ticket: None, ..old(store).rooms@[i] });
            &&& Some(o.ticket) == old(store).rooms@[i].matchmaking_ticket
            &&& final(store).rooms@ == old(store).rooms@.update(i, room)
            &&& final(store).slots@ == old(store).slots@
            &&& final(store).next_room_id == old(store).next_room_id
            &&& final(store).next_slot_id == old(store).next_slot_id
            &&& o.notice.snapshot matches Some(s) && s.room == room && s.slots@ == final(store).room_slots(custom_room_id)
            &&& o.notice.recipients@ == final(store).occupants(custom_room_id)
        }),
{
    let rid = custom_room_id;
    let i: usize;
    match store.find_room_index(rid) {
        Some(found) => {
            i = found;
        },
        None => {
            return Err(AppError::NotFound);
        },
    }
    proof {
        store.lemma_room_index(i as int);
    }
    if store.rooms[i].user_id != user_id {
        return Err(AppError::Forbidden);
    }
    let ticket: u128;
    match store.rooms[i].matchmaking_ticket {
        Some(t) => {
            ticket = t;
        },
        None => {
            return Err(AppError::NotFound);
        },
    }
    store.set_ticket(i, None);
    proof {
        store.lemma_room_index(i as int);
    }
    let snap = make_snapshot(store, i);
    let recipients = store.occupant_ids(rid);
    Ok(StopOutcome { ticket, notice: Notice { snapshot: Some(snap), recipients } })
}

/// Translates an asynchronous match-found or match-failed notification from
/// the external service back into room state: the room carrying the ticket
/// returns to `Forming`, and its occupants are told.
///
/// Fails with `NotFound` when no room carries the ticket (the search was
/// already stopped or the room is gone: a stale notification is harmless).
pub fn resolve_matchmaking(store: &mut RoomStore, ticket_id: u128) -> (r: Result<Notice, AppError>)
    requires
        old(store).inv(),
    ensures
        final(store).inv(),
        r is Err ==> *final(store) == *old(store),
        (r is Err) <==> !old(store).has_room_by_ticket(ticket_id),
        r matches Err(e) ==> e == AppError::NotFound,
        r matches Ok(n) ==> ({
            let i = old(store).room_by_ticket_index(ticket_id);
            let room = (CustomRoom { matchmaking_ticket: None, ..old(store).rooms@[i] });
            &&& final(store).rooms@ == old(store).rooms@.update(i, room)
            &&& final(store).slots@ == old(store).slots@
            &&& final(store).next_room_id == old(store).next_room_id
            &&& final(store).next_slot_id == old(store).next_slot_id
            &&& n.snapshot matches Some(s) && s.room == room && s.slots@ == final(store).room_slots(old(store).rooms@[i].id)
            &&& n.recipients@ == final(store).occupants(old(store).rooms@[i].id)
        }),
{
    let i: usize;
    match store.find_room_by_ticket(ticket_id) {
        Some(found) => {
            i = found;
        },
        None => {
            return Err(AppError::NotFound);
        },
    }
    proof {
        store.lemma_room_by_ticket_index(i as int, ticket_id);
    }
    let rid = store.rooms[i].id;
    store.set_ticket(i, None);
    let snap = make_snapshot(store, i);
    let recipients = store.occupant_ids(rid);
    Ok(Notice { snapshot: Some(snap), recipients })
}

/// Cleanup after a user's connection closed: their slot is removed as if they
/// had quit, in whatever phase the room is. If the room was searching its
/// ticket is cleared and returned, so the caller cancels the external search;
/// if the user owned the room, the room and all its slots are deleted.
///
/// Returns `None` when the user occupies no slot: a disconnect of a user
/// outside any room is a no-op.
/// What a performed disconnect cleanup did to the store: the leaver's slot is
/// gone, a searching room's ticket is surrendered for cancellation, and an
/// owner's departure took the whole room with it.
pub open spec fn cleanup_applied(
    pre: RoomStore,
    post: RoomStore,
    user_id: i32,
    c: DisconnectCleanup,
) -> bool {
    let k = pre.user_slot_index(user_id);
    let rid = pre.user_slot(user_id).custom_room_id;
    let i = pre.room_index(rid);
    &&& c.cancelled_ticket == pre.room(rid).matchmaking_ticket
    &&& (pre.room(rid).user_id == user_id ==> ({
        &&& post.rooms@ == pre.rooms@.remove(i)
        &&& post.slots@ == pre.slots@.filter(crate::store::other_rooms_pred(rid))
        &&& c.notice.snapshot is None
        &&& c.notice.recipients@ == pre.occupants_except(rid, user_id)
    }))
    &&& (pre.room(rid).user_id != user_id ==> ({
        let room = (CustomRoom { matchmaking_ticket: None, ..pre.rooms@[i] });
        &&& post.rooms@ == pre.rooms@.update(i, room)
        &&& post.slots@ == pre.slots@.remove(k)
        &&& c.notice.snapshot matches Some(s) && s.room == room && s.slots@ == post.room_slots(
            rid,
        )
        &&& c.notice.recipients@ == post.occupants(rid)
    }))
    &&& post.next_room_id == pre.next_room_id
    &&& post.next_slot_id == pre.next_slot_id
}

pub fn handle_websocket_closing(store: &mut RoomStore, user_id: i32) -> (r: Option<
    DisconnectCleanup,
>)
    requires
        old(store).inv(),
    ensures
        final(store).inv(),
        r is None ==> *final(store) == *old(store),
        (r is Some) <==> old(store).has_user_slot(user_id),
        r matches Some(c) ==> cleanup_applied(*old(store), *final(store), user_id, c),
{
    let k: usize;
    match store.find_user_slot_index(user_id) {
        Some(found) => {
            k = found;
        },
        None => {
            return None;
        },
    }
    proof {
        store.lemma_user_slot_index(k as int);
    }
    let rid = store.slots[k].custom_room_id;
    let i: usize;
    match store.find_room_index(rid) {
        Some(found) => {
            i = found;
        },
        None => {
            proof {
                assert(false);
            }
            return None;
        },
    }
    proof {
        store.lemma_room_index(i as int);
    }
    let ticket = store.rooms[i].matchmaking_ticket;
    if store.rooms[i].user_id == user_id {
        let recipients = store.occupant_ids_except(rid, user_id);
        store.remove_room_cascade(i);
        Some(
            DisconnectCleanup {
                cancelled_ticket: ticket,
                notice: Notice { snapshot: None, recipients },
            },
        )
    } else {
        match ticket {
            Some(_) => {
                store.set_ticket(i, None);
            },
            None => {
                proof {
                    assert(old(store).rooms@.update(
                        i as int,
                        CustomRoom { matchmaking_ticket: None, ..old(store).rooms@[i as int] },
                    ) =~= old(store).rooms@);
                }
            },
        }
        proof {
            store.lemma_room_index(i as int);
        }
        store.remove_nonowner_slot(k);
        let snap = make_snapshot(store, i);
        let recipients = store.occupant_ids(rid);
        Some(
            DisconnectCleanup {
                cancelled_ticket: ticket,
                notice: Notice { snapshot: Some(snap), recipients },
            },
        )
    }
}

/// A closed connection, end to end: the registry drops the session exactly
/// when `handle` is still the one registered for `user_id`, and only then
/// the room service performs the disconnect cleanup. A stale disconnect of a
/// superseded connection touches nothing.
pub fn handle_disconnect(
    lobby: &mut Lobby,
    store: &mut RoomStore,
    user_id: i32,
    handle: u64,
) -> (r: Option<DisconnectCleanup>)
    requires
        old(lobby).inv(),
        old(store).inv(),
    ensures
        final(lobby).inv(),
        final(store).inv(),
        !(old(lobby).has_session(user_id) && old(lobby).handle_of(user_id) == handle) ==> (
        *final(lobby) == *old(lobby) && *final(store) == *old(store) && r is None),
        old(lobby).has_session(user_id) && old(lobby).handle_of(user_id) == handle ==> ({
            &&& final(lobby).sessions@ == old(lobby).sessions@.remove(
                old(lobby).session_index(user_id),
            )
            &&& !final(lobby).has_session(user_id)
            &&& (r is Some <==> old(store).has_user_slot(user_id))
            &&& (r is None ==> *final(store) == *old(store))
        }),
        r matches Some(c) ==> cleanup_applied(*old(store), *final(store), user_id, c),
{
    if lobby.disconnect(user_id, handle) {
        handle_websocket_closing(store, user_id)
    } else {
        None
    }
}

} // verus!
