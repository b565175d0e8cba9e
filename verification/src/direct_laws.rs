//! Laws about the mapping for direct messages, stated over the rooms of both users.

use vstd::prelude::*;

use crate::direct::{
    direct_changes, gains_rooms, is_migrated, joined_rooms, law_direct_rooms_are_added,
    merged_rooms, migrated_direct, rooms_with,
};
use crate::plan::RoomPlanView;

verus! {

/// Whether a mapping has a room for a user.
pub open spec fn has_room(
    map: Map<Seq<char>, Seq<Seq<char>>>,
    user: Seq<char>,
    room: Seq<char>,
) -> bool {
    map.contains_key(user) && map[user].contains(room)
}

/// After the migration, the new user has a room for direct messages with somebody exactly if they
/// had it before, or the old user had it and the new user is in it already or is to join it. Only
/// the rooms that the old user has with the new user are not taken over.
pub proof fn law_direct_rooms_follow_the_new_user(
    old: Map<Seq<char>, Seq<Seq<char>>>,
    new: Map<Seq<char>, Seq<Seq<char>>>,
    new_user: Seq<char>,
    joined: Seq<Seq<char>>,
    rooms: Map<Seq<char>, RoomPlanView>,
    user: Seq<char>,
    room: Seq<char>,
)
    ensures
        ({
            let after = migrated_direct(old, new, new_user, joined_rooms(joined, rooms));
            let will_be_in = joined.contains(room) || rooms.contains_key(room) && rooms[room].join;
            has_room(after, user, room) <==> {
                ||| has_room(new, user, room)
                ||| user != new_user && has_room(old, user, room) && will_be_in
            }
        }),
{
    let kept = joined_rooms(joined, rooms);
    law_direct_rooms_are_added(old, new, new_user, kept, user);
    let before = rooms_with(new, user);
    let after = rooms_with(migrated_direct(old, new, new_user, kept), user);
    if after.contains(room) {
        let i = choose|i: int| 0 <= i < after.len() && after[i] == room;
        if i < before.len() {
            assert(after.take(before.len() as int)[i] == before[i]);
        }
    }
    if before.contains(room) {
        let i = choose|i: int| 0 <= i < before.len() && before[i] == room;
        assert(after.take(before.len() as int)[i] == after[i]);
    }
    if user != new_user && has_room(old, user, room) && kept(room) {
        let i = choose|i: int| 0 <= i < old[user].len() && old[user][i] == room;
        assert(kept(old[user][i]));
    }
}

/// The migration keeps the list that the new user has for somebody at the start of the list that
/// they have afterwards, and begins a list for somebody else only to put a room into it.
pub proof fn law_direct_lists_grow(
    old: Map<Seq<char>, Seq<Seq<char>>>,
    new: Map<Seq<char>, Seq<Seq<char>>>,
    new_user: Seq<char>,
    joined: Seq<Seq<char>>,
    rooms: Map<Seq<char>, RoomPlanView>,
    user: Seq<char>,
)
    ensures
        ({
            let after = migrated_direct(old, new, new_user, joined_rooms(joined, rooms));
            &&& new.contains_key(user) ==> {
                &&& after.contains_key(user)
                &&& new[user].is_prefix_of(after[user])
                &&& !old.contains_key(user) || user == new_user ==> after[user] == new[user]
            }
            &&& after.contains_key(user) && !new.contains_key(user) ==> {
                &&& after[user].len() > 0
                &&& old.contains_key(user) && user != new_user
            }
        }),
{
    let kept = joined_rooms(joined, rooms);
    law_direct_rooms_are_added(old, new, new_user, kept, user);
    let after = migrated_direct(old, new, new_user, kept);
    if new.contains_key(user) {
        assert(after[user] == rooms_with(after, user));
        assert(new[user] =~= after[user].subrange(0, new[user].len() as int));
    } else if after.contains_key(user) {
        assert(gains_rooms(old, new, new_user, kept, user));
        if after[user].len() == 0 {
            assert(after[user] =~= Seq::empty());
        }
    }
}

/// The mapping is set exactly if it gains a room: one that the old user has for somebody other than
/// the new user, that the new user is or will be in, and that they do not have for them yet.
pub proof fn law_direct_is_set_for_a_reason(
    old: Map<Seq<char>, Seq<Seq<char>>>,
    new: Map<Seq<char>, Seq<Seq<char>>>,
    new_user: Seq<char>,
    joined: Seq<Seq<char>>,
    rooms: Map<Seq<char>, RoomPlanView>,
)
    ensures
        direct_changes(old, new, new_user, joined_rooms(joined, rooms)) <==> exists|
            user: Seq<char>,
            room: Seq<char>,
        |
            {
                &&& user != new_user
                &&& #[trigger] has_room(old, user, room)
                &&& !has_room(new, user, room)
                &&& joined.contains(room) || rooms.contains_key(room) && rooms[room].join
            },
{
    let kept = joined_rooms(joined, rooms);
    let after = migrated_direct(old, new, new_user, kept);
    if direct_changes(old, new, new_user, kept) {
        let user = choose|user: Seq<char>| #[trigger] gains_rooms(old, new, new_user, kept, user);
        law_direct_rooms_are_added(old, new, new_user, kept, user);
        let before = rooms_with(new, user);
        let rooms_after = rooms_with(after, user);
        if rooms_after.len() == before.len() {
            assert(rooms_after =~= rooms_after.take(before.len() as int));
        }
        let room = rooms_after[before.len() as int];
        assert(kept(room));
        assert(has_room(old, user, room));
        if has_room(new, user, room) {
            let i = choose|i: int| 0 <= i < before.len() && before[i] == room;
            assert(rooms_after.take(before.len() as int)[i] == rooms_after[i]);
        }
    }
    assert forall|user: Seq<char>, room: Seq<char>|
        {
            &&& user != new_user
            &&& #[trigger] has_room(old, user, room)
            &&& !has_room(new, user, room)
            &&& joined.contains(room) || rooms.contains_key(room) && rooms[room].join
        } implies direct_changes(old, new, new_user, kept) by {
        law_direct_rooms_follow_the_new_user(old, new, new_user, joined, rooms, user, room);
        law_direct_rooms_are_added(old, new, new_user, kept, user);
        assert(rooms_with(after, user).contains(room));
        assert(!rooms_with(new, user).contains(room));
        assert(gains_rooms(old, new, new_user, kept, user));
    }
}

proof fn lemma_merged_in_order(
    old: Seq<Seq<char>>,
    new: Seq<Seq<char>>,
    kept: spec_fn(Seq<char>) -> bool,
    i: int,
    j: int,
    p: int,
)
    requires
        new.len() <= i < j < merged_rooms(old, new, kept).len(),
        0 <= p < old.len(),
        old[p] == merged_rooms(old, new, kept)[j],
    ensures
        merged_rooms(old, new, kept).len() >= new.len(),
        exists|q: int| 0 <= q < p && #[trigger] old[q] == merged_rooms(old, new, kept)[i],
    decreases old.len(),
{
    let so_far = merged_rooms(old.drop_last(), new, kept);
    let all = merged_rooms(old, new, kept);
    let first = old.drop_last();
    if j < so_far.len() {
        assert(so_far[i] == all[i] && so_far[j] == all[j]);
        if p < first.len() {
            assert(first[p] == so_far[j]);
            lemma_merged_in_order(first, new, kept, i, j, p);
            let q = choose|q: int| 0 <= q < p && #[trigger] first[q] == so_far[i];
            assert(old[q] == all[i]);
        } else {
            lemma_added_from_old(first, new, kept, i);
            let q = choose|q: int| 0 <= q < first.len() && #[trigger] first[q] == so_far[i];
            assert(old[q] == all[i]);
        }
    } else {
        assert(all[j] == old.last());
        assert(so_far[i] == all[i]);
        if p < first.len() {
            assert(first[p] == old.last());
            lemma_kept_is_there(first, new, kept, p);
            assert(false);
        }
        lemma_added_from_old(first, new, kept, i);
        let q = choose|q: int| 0 <= q < first.len() && #[trigger] first[q] == so_far[i];
        assert(old[q] == all[i]);
    }
}

proof fn lemma_added_from_old(
    old: Seq<Seq<char>>,
    new: Seq<Seq<char>>,
    kept: spec_fn(Seq<char>) -> bool,
    i: int,
)
    requires
        new.len() <= i < merged_rooms(old, new, kept).len(),
    ensures
        exists|q: int| 0 <= q < old.len() && #[trigger] old[q] == merged_rooms(old, new, kept)[i],
    decreases old.len(),
{
    if old.len() > 0 {
        let first = old.drop_last();
        let so_far = merged_rooms(first, new, kept);
        if i < so_far.len() {
            lemma_added_from_old(first, new, kept, i);
            let q = choose|q: int| 0 <= q < first.len() && #[trigger] first[q] == so_far[i];
            assert(old[q] == merged_rooms(old, new, kept)[i]);
        } else {
            assert(old[old.len() - 1] == merged_rooms(old, new, kept)[i]);
        }
    }
}

proof fn lemma_kept_is_there(
    old: Seq<Seq<char>>,
    new: Seq<Seq<char>>,
    kept: spec_fn(Seq<char>) -> bool,
    p: int,
)
    requires
        0 <= p < old.len(),
        kept(old[p]),
    ensures
        merged_rooms(old, new, kept).contains(old[p]),
    decreases old.len(),
{
    let first = old.drop_last();
    let so_far = merged_rooms(first, new, kept);
    let all = merged_rooms(old, new, kept);
    if p < first.len() {
        assert(first[p] == old[p]);
        lemma_kept_is_there(first, new, kept, p);
        let k = choose|k: int| 0 <= k < so_far.len() && so_far[k] == old[p];
        assert(all[k] == old[p]);
    } else if !so_far.contains(old[p]) {
        assert(all[all.len() - 1] == old[p]);
    }
}

/// Rooms are added in the order in which the old user has them, and none twice: wherever the old
/// user has a room that is added later, they have one that is added earlier before it.
pub proof fn law_direct_rooms_keep_their_order(
    old: Map<Seq<char>, Seq<Seq<char>>>,
    new: Map<Seq<char>, Seq<Seq<char>>>,
    new_user: Seq<char>,
    joined: Seq<Seq<char>>,
    rooms: Map<Seq<char>, RoomPlanView>,
    user: Seq<char>,
    i: int,
    j: int,
    p: int,
)
    requires
        old.contains_key(user),
        user != new_user,
        0 <= p < old[user].len(),
        ({
            let after = migrated_direct(old, new, new_user, joined_rooms(joined, rooms));
            let added_from: nat = if new.contains_key(user) {
                new[user].len()
            } else {
                0
            };
            &&& after.contains_key(user)
            &&& added_from <= i < j < after[user].len()
            &&& old[user][p] == after[user][j]
        }),
    ensures
        ({
            let after = migrated_direct(old, new, new_user, joined_rooms(joined, rooms));
            &&& after[user][i] != after[user][j]
            &&& exists|q: int| 0 <= q < p && #[trigger] old[user][q] == after[user][i]
        }),
{
    let kept = joined_rooms(joined, rooms);
    assert(is_migrated(old, user, new_user));
    law_direct_rooms_are_added(old, new, new_user, kept, user);
    lemma_merged_in_order(old[user], rooms_with(new, user), kept, i, j, p);
}

} // verus!
