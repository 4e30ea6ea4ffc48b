//! Counting arguments about room occupancy.
//!
//! A room's occupied coordinates, encoded as `team * max_per_team + position`,
//! form a set of distinct integers inside `[0, capacity)`. From that: a room
//! never holds more slots than its capacity, and when every coordinate of the
//! grid is occupied the room holds at least `capacity` slots — which is what
//! lets `join` conclude that its linear scan must find a free coordinate
//! whenever the room is not full.

use vstd::prelude::*;
use vstd::set_lib::{lemma_int_range, lemma_len_subset, set_int_range};
use crate::models::CustomRoomSlot;
use crate::store::{room_pred, RoomStore};

verus! {

/// Linear encoding of a slot's coordinate inside its room's grid.
pub open spec fn slot_key(s: CustomRoomSlot, mx: int) -> int {
    s.team * mx + s.team_position
}

/// The set of encoded coordinates taken by the slots of room `rid`.
pub open spec fn key_set(ss: Seq<CustomRoomSlot>, rid: i32, mx: int) -> Set<int>
    decreases ss.len(),
{
    if ss.len() == 0 {
        Set::empty()
    } else {
        let rest = key_set(ss.drop_last(), rid, mx);
        if ss.last().custom_room_id == rid {
            rest.insert(slot_key(ss.last(), mx))
        } else {
            rest
        }
    }
}

/// The coordinate encoding is injective on a grid column range.
pub proof fn lemma_key_injective(t1: int, p1: int, t2: int, p2: int, mx: int)
    requires
        0 <= p1 < mx,
        0 <= p2 < mx,
        t1 * mx + p1 == t2 * mx + p2,
    ensures
        t1 == t2,
        p1 == p2,
{
    assert(t1 == t2 && p1 == p2) by (nonlinear_arith)
        requires
            0 <= p1 < mx,
            0 <= p2 < mx,
            t1 * mx + p1 == t2 * mx + p2,
    ;
}

/// `key_set` holds exactly the keys of the room's slots.
pub proof fn lemma_key_set_contains(ss: Seq<CustomRoomSlot>, rid: i32, mx: int)
    ensures
        forall|n: int|
            key_set(ss, rid, mx).contains(n) <==> exists|k: int|
                0 <= k < ss.len() && (#[trigger] ss[k]).custom_room_id == rid && slot_key(
                    ss[k],
                    mx,
                ) == n,
    decreases ss.len(),
{
    if ss.len() == 0 {
    } else {
        let rest = ss.drop_last();
        lemma_key_set_contains(rest, rid, mx);
        assert forall|n: int| key_set(ss, rid, mx).contains(n) implies exists|k: int|
            0 <= k < ss.len() && (#[trigger] ss[k]).custom_room_id == rid && slot_key(ss[k], mx)
                == n by {
            if ss.last().custom_room_id == rid && slot_key(ss.last(), mx) == n {
                assert(ss[ss.len() - 1].custom_room_id == rid && slot_key(ss[ss.len() - 1], mx)
                    == n);
            } else {
                assert(key_set(rest, rid, mx).contains(n));
                let k = choose|k: int|
                    0 <= k < rest.len() && (#[trigger] rest[k]).custom_room_id == rid && slot_key(
                        rest[k],
                        mx,
                    ) == n;
                assert(ss[k] == rest[k]);
                assert(ss[k].custom_room_id == rid && slot_key(ss[k], mx) == n);
            }
        }
        assert forall|n: int|
            (exists|k: int|
                0 <= k < ss.len() && (#[trigger] ss[k]).custom_room_id == rid && slot_key(
                    ss[k],
                    mx,
                ) == n) implies key_set(ss, rid, mx).contains(n) by {
            let k = choose|k: int|
                0 <= k < ss.len() && (#[trigger] ss[k]).custom_room_id == rid && slot_key(
                    ss[k],
                    mx,
                ) == n;
            if k == ss.len() - 1 {
            } else {
                assert(rest[k] == ss[k]);
                assert(rest[k].custom_room_id == rid && slot_key(rest[k], mx) == n);
                assert(key_set(rest, rid, mx).contains(n));
            }
        }
    }
}

/// With slots in bounds and coordinates pairwise distinct, `key_set` is a
/// finite subset of `[0, nb * mx)` whose size is exactly the number of the
/// room's slots.
pub proof fn lemma_key_set_card(ss: Seq<CustomRoomSlot>, rid: i32, mx: int, nb: int)
    requires
        1 <= mx,
        1 <= nb,
        forall|k: int|
            0 <= k < ss.len() && (#[trigger] ss[k]).custom_room_id == rid ==> 0 <= ss[k].team < nb
                && 0 <= ss[k].team_position < mx,
        forall|k: int, l: int|
            0 <= k < l < ss.len() ==> !((#[trigger] ss[k]).custom_room_id
                == (#[trigger] ss[l]).custom_room_id && ss[k].team == ss[l].team
                && ss[k].team_position == ss[l].team_position),
    ensures
        key_set(ss, rid, mx).finite(),
        key_set(ss, rid, mx).len() == ss.filter(room_pred(rid)).len(),
        key_set(ss, rid, mx).subset_of(set_int_range(0, nb * mx)),
    decreases ss.len(),
{
    reveal(Seq::filter);
    if ss.len() == 0 {
    } else {
        let rest = ss.drop_last();
        assert(forall|k: int| 0 <= k < rest.len() ==> rest[k] == ss[k]);
        lemma_key_set_card(rest, rid, mx, nb);
        let last = ss.last();
        if last.custom_room_id == rid {
            let n = slot_key(last, mx);
            // the last slot's key is new: an equal key in the rest would mean
            // an equal coordinate, against pairwise distinctness
            lemma_key_set_contains(rest, rid, mx);
            if key_set(rest, rid, mx).contains(n) {
                let k = choose|k: int|
                    0 <= k < rest.len() && (#[trigger] rest[k]).custom_room_id == rid && slot_key(
                        rest[k],
                        mx,
                    ) == n;
                lemma_key_injective(
                    rest[k].team as int,
                    rest[k].team_position as int,
                    last.team as int,
                    last.team_position as int,
                    mx,
                );
                assert(ss[k] == rest[k]);
                assert(ss[ss.len() - 1] == last);
                assert(false);
            }
            // the key lies inside the grid range
            assert(0 <= n < nb * mx) by (nonlinear_arith)
                requires
                    0 <= last.team < nb,
                    0 <= last.team_position < mx,
                    n == last.team * mx + last.team_position,
            ;
        }
    }
}

/// If every coordinate of the grid of room `rid` is occupied, the room holds
/// at least `capacity` slots.
pub proof fn lemma_all_taken_at_capacity(store: RoomStore, rid: i32)
    requires
        store.inv(),
        store.has_room(rid),
        forall|t: int, p: int|
            0 <= t < store.room(rid).nb_teams && 0 <= p < store.room(rid).max_player_per_team
                ==> store.pair_taken(rid, t, p),
    ensures
        store.room_slots(rid).len() >= store.room(rid).spec_capacity(),
{
    let room = store.room(rid);
    let nb = room.nb_teams as int;
    let mx = room.max_player_per_team as int;
    let i = store.room_index(rid);
    assert(0 <= i < store.rooms@.len() && store.rooms@[i].id == rid);
    assert(room.wf());
    assert(forall|k: int|
        0 <= k < store.slots@.len() && (#[trigger] store.slots@[k]).custom_room_id == rid ==> 0
            <= store.slots@[k].team < nb && 0 <= store.slots@[k].team_position < mx);
    lemma_key_set_card(store.slots@, rid, mx, nb);
    lemma_key_set_contains(store.slots@, rid, mx);
    let keys = key_set(store.slots@, rid, mx);
    let range = set_int_range(0, nb * mx);
    lemma_int_range(0, nb * mx);
    assert forall|n: int| range.contains(n) implies keys.contains(n) by {
        let t = n / mx;
        let p = n % mx;
        assert(0 <= t < nb && 0 <= p < mx && t * mx + p == n) by (nonlinear_arith)
            requires
                0 <= n < nb * mx,
                1 <= mx,
                t == n / mx,
                p == n % mx,
        ;
        assert(store.pair_taken(rid, t, p));
        let k = choose|k: int|
            0 <= k < store.slots@.len() && (#[trigger] store.slots@[k]).custom_room_id == rid
                && store.slots@[k].team == t && store.slots@[k].team_position == p;
        assert(slot_key(store.slots@[k], mx) == n);
    }
    lemma_len_subset(range, keys);
    assert(range.len() <= keys.len());
}

// ---- small sequence helpers used by the table-scanning loops --------------

/// One step of filtering a prefix: extending the prefix by one element either
/// appends that element to the filtered sequence or leaves it unchanged.
pub proof fn lemma_filter_take_step<A>(s: Seq<A>, pred: spec_fn(A) -> bool, k: int)
    requires
        0 <= k < s.len(),
    ensures
        s.take(k + 1).filter(pred) == (if pred(s[k]) {
            s.take(k).filter(pred).push(s[k])
        } else {
            s.take(k).filter(pred)
        }),
{
    reveal(Seq::filter);
    assert(s.take(k + 1).drop_last() =~= s.take(k));
    assert(s.take(k + 1).last() == s[k]);
}

/// Taking the whole sequence is the identity.
pub proof fn lemma_take_full<A>(s: Seq<A>)
    ensures
        s.take(s.len() as int) == s,
{
    assert(s.take(s.len() as int) =~= s);
}

/// Every element of a filtered sequence occurs in the original.
pub proof fn lemma_filter_elements<A>(s: Seq<A>, pred: spec_fn(A) -> bool)
    ensures
        forall|i: int|
            0 <= i < s.filter(pred).len() ==> s.contains(#[trigger] s.filter(pred)[i]),
    decreases s.len(),
{
    reveal(Seq::filter);
    if s.len() == 0 {
    } else {
        let rest = s.drop_last();
        lemma_filter_elements(rest, pred);
        let f = s.filter(pred);
        assert forall|i: int| 0 <= i < f.len() implies s.contains(f[i]) by {
            if pred(s.last()) && i == f.len() - 1 {
                assert(s[s.len() - 1] == s.last());
            } else {
                assert(f[i] == rest.filter(pred)[i]);
                assert(rest.contains(rest.filter(pred)[i]));
                let j = choose|j: int| 0 <= j < rest.len() && rest[j] == rest.filter(pred)[i];
                assert(s[j] == f[i]);
            }
        }
    }
}

/// Slots pairwise exclusive in identifier, occupant and coordinate stay so
/// after filtering.
pub proof fn lemma_filter_slot_exclusive(s: Seq<CustomRoomSlot>, pred: spec_fn(CustomRoomSlot) -> bool)
    requires
        forall|k: int, l: int|
            0 <= k < l < s.len() ==> (#[trigger] s[k]).id != (#[trigger] s[l]).id,
        forall|k: int, l: int|
            0 <= k < l < s.len() ==> (#[trigger] s[k]).user_id != (#[trigger] s[l]).user_id,
        forall|k: int, l: int|
            0 <= k < l < s.len() ==> !((#[trigger] s[k]).custom_room_id
                == (#[trigger] s[l]).custom_room_id && s[k].team == s[l].team
                && s[k].team_position == s[l].team_position),
    ensures
        forall|m: int, m2: int|
            0 <= m < m2 < s.filter(pred).len() ==> (#[trigger] s.filter(pred)[m]).id
                != (#[trigger] s.filter(pred)[m2]).id,
        forall|m: int, m2: int|
            0 <= m < m2 < s.filter(pred).len() ==> (#[trigger] s.filter(pred)[m]).user_id
                != (#[trigger] s.filter(pred)[m2]).user_id,
        forall|m: int, m2: int|
            0 <= m < m2 < s.filter(pred).len() ==> !((
            #[trigger] s.filter(pred)[m]).custom_room_id == (
            #[trigger] s.filter(pred)[m2]).custom_room_id && s.filter(pred)[m].team == s.filter(
                pred,
            )[m2].team && s.filter(pred)[m].team_position == s.filter(pred)[m2].team_position),
    decreases s.len(),
{
    reveal(Seq::filter);
    if s.len() == 0 {
    } else {
        let rest = s.drop_last();
        assert(forall|k: int| 0 <= k < rest.len() ==> rest[k] == s[k]);
        lemma_filter_slot_exclusive(rest, pred);
        let f = s.filter(pred);
        let rf = rest.filter(pred);
        if pred(s.last()) {
            lemma_filter_elements(rest, pred);
            assert forall|m: int, m2: int| 0 <= m < m2 < f.len() implies (#[trigger] f[m]).id
                != (#[trigger] f[m2]).id && f[m].user_id != f[m2].user_id && !(f[m].custom_room_id
                == f[m2].custom_room_id && f[m].team == f[m2].team && f[m].team_position
                == f[m2].team_position) by {
                if m2 == f.len() - 1 {
                    assert(f[m] == rf[m]);
                    assert(rest.contains(rf[m]));
                    let j = choose|j: int| 0 <= j < rest.len() && rest[j] == rf[m];
                    assert(s[j] == f[m]);
                    assert(f[m2] == s[s.len() - 1]);
                    assert(s[j].id != s[s.len() - 1].id);
                    assert(s[j].user_id != s[s.len() - 1].user_id);
                } else {
                    assert(f[m] == rf[m] && f[m2] == rf[m2]);
                }
            }
        }
    }
}

/// Pushing an element that satisfies the predicate appends it to the filter.
pub proof fn lemma_filter_push_true<A>(s: Seq<A>, pred: spec_fn(A) -> bool, x: A)
    requires
        pred(x),
    ensures
        s.push(x).filter(pred) == s.filter(pred).push(x),
{
    reveal(Seq::filter);
    assert(s.push(x).drop_last() =~= s);
}

/// `map_values` distributes over `push`.
pub proof fn lemma_map_values_push<A, B>(s: Seq<A>, f: spec_fn(A) -> B, x: A)
    ensures
        s.push(x).map_values(f) == s.map_values(f).push(f(x)),
{
    assert(s.push(x).map_values(f) =~= s.map_values(f).push(f(x)));
}

} // verus!
