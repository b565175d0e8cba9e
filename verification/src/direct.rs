//! Migrating the mapping from users to the rooms for direct messages with them.

use vstd::prelude::*;

use crate::ids::UserId;
use crate::plan::{direct_rooms, room_views, DirectMap, RoomPlan, RoomPlanView};
use crate::text::{contains_str, same_str, texts};
use crate::text_map::{ascending, keys_of, lemma_map_of, map_of, TextMap};

verus! {

/// Whether the new user is expected to be in a room after the migration: they are in it already,
/// or the plan is that they join.
pub open spec fn will_be_joined(
    joined: Seq<Seq<char>>,
    rooms: Map<Seq<char>, RoomPlanView>,
    room: Seq<char>,
) -> bool {
    joined.contains(room) || rooms.contains_key(room) && rooms[room].join
}

/// Returns whether the new user is expected to be joined to a given room after the migration is
/// executed.
pub fn will_join(joined: &Vec<String>, rooms: &TextMap<RoomPlan>, room: &str) -> (will: bool)
    ensures
        will == will_be_joined(texts(joined@), room_views(rooms@), room@),
        texts(joined@).contains(room@) ==> will,
        rooms@.contains_key(room@) && rooms@[room@].join ==> will,
{
    if contains_str(joined, room) {
        return true;
    }
    match rooms.get(room) {
        Some(plan) => plan.join,
        None => false,
    }
}

/// The rooms of `new`, followed by those of `old` that are kept and not there yet.
pub open spec fn merged_rooms(
    old: Seq<Seq<char>>,
    new: Seq<Seq<char>>,
    kept: spec_fn(Seq<char>) -> bool,
) -> Seq<Seq<char>>
    decreases old.len(),
{
    if old.len() == 0 {
        new
    } else {
        let so_far = merged_rooms(old.drop_last(), new, kept);
        if kept(old.last()) && !so_far.contains(old.last()) {
            so_far.push(old.last())
        } else {
            so_far
        }
    }
}

/// The rooms that a mapping has for a user.
pub open spec fn rooms_with(map: Map<Seq<char>, Seq<Seq<char>>>, user: Seq<char>) -> Seq<
    Seq<char>,
> {
    if map.contains_key(user) {
        map[user]
    } else {
        Seq::empty()
    }
}

/// Whether the rooms for a user are migrated. Direct messages between the old and the new user are
/// not: the new user would have direct messages with themselves.
pub open spec fn is_migrated(
    old: Map<Seq<char>, Seq<Seq<char>>>,
    user: Seq<char>,
    new_user: Seq<char>,
) -> bool {
    old.contains_key(user) && user != new_user
}

/// The rooms for a user after the migration.
pub open spec fn migrated_rooms(
    old: Map<Seq<char>, Seq<Seq<char>>>,
    new: Map<Seq<char>, Seq<Seq<char>>>,
    new_user: Seq<char>,
    kept: spec_fn(Seq<char>) -> bool,
    user: Seq<char>,
) -> Seq<Seq<char>> {
    if is_migrated(old, user, new_user) {
        merged_rooms(old[user], rooms_with(new, user), kept)
    } else {
        rooms_with(new, user)
    }
}

/// Whether the rooms for a user change.
pub open spec fn gains_rooms(
    old: Map<Seq<char>, Seq<Seq<char>>>,
    new: Map<Seq<char>, Seq<Seq<char>>>,
    new_user: Seq<char>,
    kept: spec_fn(Seq<char>) -> bool,
    user: Seq<char>,
) -> bool {
    migrated_rooms(old, new, new_user, kept, user) != rooms_with(new, user)
}

/// Whether the migration changes the mapping.
pub open spec fn direct_changes(
    old: Map<Seq<char>, Seq<Seq<char>>>,
    new: Map<Seq<char>, Seq<Seq<char>>>,
    new_user: Seq<char>,
    kept: spec_fn(Seq<char>) -> bool,
) -> bool {
    exists|user: Seq<char>| #[trigger] gains_rooms(old, new, new_user, kept, user)
}

/// The mapping after the migration.
pub open spec fn migrated_direct(
    old: Map<Seq<char>, Seq<Seq<char>>>,
    new: Map<Seq<char>, Seq<Seq<char>>>,
    new_user: Seq<char>,
    kept: spec_fn(Seq<char>) -> bool,
) -> Map<Seq<char>, Seq<Seq<char>>> {
    Map::new(
        |user: Seq<char>|
            new.contains_key(user) || gains_rooms(old, new, new_user, kept, user),
        |user: Seq<char>| migrated_rooms(old, new, new_user, kept, user),
    )
}

/// The rooms that are kept: those that the new user will be in.
pub open spec fn joined_rooms(
    joined: Seq<Seq<char>>,
    rooms: Map<Seq<char>, RoomPlanView>,
) -> spec_fn(Seq<char>) -> bool {
    |room: Seq<char>| will_be_joined(joined, rooms, room)
}

proof fn lemma_merged_rooms_grow(
    old: Seq<Seq<char>>,
    new: Seq<Seq<char>>,
    kept: spec_fn(Seq<char>) -> bool,
)
    ensures
        merged_rooms(old, new, kept).len() >= new.len(),
        merged_rooms(old, new, kept).take(new.len() as int) == new,
        forall|i: int|
            new.len() <= i < merged_rooms(old, new, kept).len() ==> {
                &&& kept(#[trigger] merged_rooms(old, new, kept)[i])
                &&& old.contains(merged_rooms(old, new, kept)[i])
                &&& forall|j: int|
                    0 <= j < i ==> merged_rooms(old, new, kept)[j] != merged_rooms(
                        old,
                        new,
                        kept,
                    )[i]
            },
        forall|i: int|
            0 <= i < old.len() && kept(#[trigger] old[i]) ==> merged_rooms(
                old,
                new,
                kept,
            ).contains(old[i]),
    decreases old.len(),
{
    let all = merged_rooms(old, new, kept);
    if old.len() == 0 {
        assert(new.take(new.len() as int) =~= new);
    } else {
        lemma_merged_rooms_grow(old.drop_last(), new, kept);
        let so_far = merged_rooms(old.drop_last(), new, kept);
        assert(all.take(new.len() as int) =~= so_far.take(new.len() as int));
        assert forall|i: int| new.len() <= i < all.len() implies {
            &&& kept(#[trigger] all[i])
            &&& old.contains(all[i])
            &&& forall|j: int| 0 <= j < i ==> all[j] != all[i]
        } by {
            if i < so_far.len() {
                assert(so_far[i] == all[i]);
                assert(old.drop_last().contains(all[i]));
                let k = choose|k: int| 0 <= k < old.len() - 1 && old.drop_last()[k] == all[i];
                assert(old[k] == all[i]);
                assert forall|j: int| 0 <= j < i implies all[j] != all[i] by {
                    assert(so_far[j] == all[j]);
                }
            } else {
                assert(all[i] == old.last());
                assert(old[old.len() - 1] == all[i]);
                assert forall|j: int| 0 <= j < i implies all[j] != all[i] by {
                    assert(so_far[j] == all[j]);
                }
            }
        }
        assert forall|i: int| 0 <= i < old.len() && kept(#[trigger] old[i]) implies all.contains(
            old[i],
        ) by {
            if i < old.len() - 1 {
                assert(old.drop_last()[i] == old[i]);
                assert(so_far.contains(old[i]));
                let k = choose|k: int| 0 <= k < so_far.len() && so_far[k] == old[i];
                assert(all[k] == old[i]);
            } else if !so_far.contains(old[i]) {
                assert(all[all.len() - 1] == old[i]);
            }
        }
    }
}

/// The migration adds to the rooms for a user and takes nothing away: the rooms that the new user
/// had come first, in their order. Every room that is added is one of the old user's that the new
/// user will be in, and is added once. Every such room is there in the end, except for the direct
/// messages between the two users.
pub proof fn law_direct_rooms_are_added(
    old: Map<Seq<char>, Seq<Seq<char>>>,
    new: Map<Seq<char>, Seq<Seq<char>>>,
    new_user: Seq<char>,
    kept: spec_fn(Seq<char>) -> bool,
    user: Seq<char>,
)
    ensures
        ({
            let before = rooms_with(new, user);
            let after = rooms_with(migrated_direct(old, new, new_user, kept), user);
            &&& new.contains_key(user) ==> migrated_direct(
                old,
                new,
                new_user,
                kept,
            ).contains_key(user)
            &&& after.len() >= before.len()
            &&& after.take(before.len() as int) == before
            &&& forall|i: int|
                before.len() <= i < after.len() ==> {
                    &&& kept(#[trigger] after[i])
                    &&& is_migrated(old, user, new_user)
                    &&& old[user].contains(after[i])
                    &&& forall|j: int| 0 <= j < i ==> after[j] != after[i]
                }
            &&& is_migrated(old, user, new_user) ==> forall|i: int|
                0 <= i < old[user].len() && kept(#[trigger] old[user][i]) ==> after.contains(
                    old[user][i],
                )
        }),
{
    let before = rooms_with(new, user);
    if is_migrated(old, user, new_user) {
        lemma_merged_rooms_grow(old[user], before, kept);
    } else {
        assert(before.take(before.len() as int) =~= before);
    }
    assert(rooms_with(migrated_direct(old, new, new_user, kept), user) == migrated_rooms(
        old,
        new,
        new_user,
        kept,
        user,
    ));
}

proof fn lemma_merged_rooms_settled(
    old: Seq<Seq<char>>,
    new: Seq<Seq<char>>,
    kept: spec_fn(Seq<char>) -> bool,
)
    requires
        forall|i: int| 0 <= i < old.len() && kept(#[trigger] old[i]) ==> new.contains(old[i]),
    ensures
        merged_rooms(old, new, kept) == new,
    decreases old.len(),
{
    if old.len() > 0 {
        assert forall|i: int|
            0 <= i < old.drop_last().len() && kept(
                #[trigger] old.drop_last()[i],
            ) implies new.contains(old.drop_last()[i]) by {
            assert(old.drop_last()[i] == old[i]);
        }
        lemma_merged_rooms_settled(old.drop_last(), new, kept);
        assert(old[old.len() - 1] == old.last());
    }
}

/// Migrating the mapping a second time changes nothing.
pub proof fn law_direct_migration_settles(
    old: Map<Seq<char>, Seq<Seq<char>>>,
    new: Map<Seq<char>, Seq<Seq<char>>>,
    new_user: Seq<char>,
    kept: spec_fn(Seq<char>) -> bool,
)
    ensures
        !direct_changes(old, migrated_direct(old, new, new_user, kept), new_user, kept),
{
    let after = migrated_direct(old, new, new_user, kept);
    assert forall|user: Seq<char>| !#[trigger] gains_rooms(old, after, new_user, kept, user) by {
        law_direct_rooms_are_added(old, new, new_user, kept, user);
        if is_migrated(old, user, new_user) {
            lemma_merged_rooms_settled(old[user], rooms_with(after, user), kept);
        }
    }
}

/// Adds the rooms that the new user will be in and that are not in the list yet.
fn add_rooms(
    old_rooms: Vec<String>,
    joined: &Vec<String>,
    plans: &TextMap<RoomPlan>,
    rooms: &mut Vec<String>,
) -> (changed: bool)
    ensures
        texts(final(rooms)@) == merged_rooms(
            texts(old_rooms@),
            texts(old(rooms)@),
            joined_rooms(texts(joined@), room_views(plans@)),
        ),
        changed == (texts(final(rooms)@) != texts(old(rooms)@)),
{
    let ghost before = texts(rooms@);
    let ghost kept = joined_rooms(texts(joined@), room_views(plans@));
    let ghost all = texts(old_rooms@);
    let mut changed = false;
    let mut i: usize = 0;
    proof {
        assert(all.take(0) =~= Seq::empty());
    }
    while i < old_rooms.len()
        invariant
            0 <= i <= old_rooms@.len(),
            all == texts(old_rooms@),
            kept == joined_rooms(texts(joined@), room_views(plans@)),
            texts(rooms@) == merged_rooms(all.take(i as int), before, kept),
            changed ==> rooms@.len() > before.len(),
            !changed ==> texts(rooms@) == before,
            rooms@.len() >= before.len(),
        decreases old_rooms@.len() - i,
    {
        proof {
            assert(all.take(i + 1).drop_last() =~= all.take(i as int));
            assert(all.take(i + 1).last() == old_rooms@[i as int]@);
        }
        let room = &old_rooms[i];
        if will_join(joined, plans, room.as_str()) && !contains_str(rooms, room.as_str()) {
            let ghost so_far = texts(rooms@);
            rooms.push(room.clone());
            assert(texts(rooms@) =~= so_far.push(room@));
            changed = true;
        }
        i = i + 1;
    }
    proof {
        assert(all.take(all.len() as int) =~= all);
    }
    changed
}

/// Whether a user is among the entries from the `n`th on.
spec fn seen<V>(entries: Seq<(String, V)>, n: int, user: Seq<char>) -> bool {
    exists|j: int| n <= j < entries.len() && (#[trigger] entries[j]).0@ == user
}

/// Copies the rooms for direct messages that the new user will be in from the old user to the new
/// one; `None` if the new user has them all.
pub fn migrate_direct(
    old: DirectMap,
    new: DirectMap,
    new_user: &UserId,
    joined: &Vec<String>,
    plans: &TextMap<RoomPlan>,
) -> (result: Option<DirectMap>)
    ensures
        ({
            let kept = joined_rooms(texts(joined@), room_views(plans@));
            let before = direct_rooms(old@);
            let after = direct_rooms(new@);
            match result {
                Some(map) => direct_changes(before, after, new_user@, kept) && direct_rooms(map@)
                    == migrated_direct(before, after, new_user@, kept),
                None => !direct_changes(before, after, new_user@, kept),
            }
        }),
{
    let ghost kept = joined_rooms(texts(joined@), room_views(plans@));
    let ghost before = direct_rooms(old@);
    let ghost after = direct_rooms(new@);
    let ghost all = old.entries();
    let ghost old_map = old@;
    let mut rest = old.into_entries();
    let mut map = new;
    let mut changed = false;
    assert(all.take(all.len() as int) =~= all);
    while rest.len() > 0
        invariant
            old_map == map_of(all),
            before == direct_rooms(old_map),
            ascending(keys_of(all)),
            kept == joined_rooms(texts(joined@), room_views(plans@)),
            rest@.len() <= all.len(),
            rest@ == all.take(rest@.len() as int),
            forall|user: Seq<char>| #[trigger]
                rooms_with(direct_rooms(map@), user) == if seen(all, rest@.len() as int, user) {
                    migrated_rooms(before, after, new_user@, kept, user)
                } else {
                    rooms_with(after, user)
                },
            forall|user: Seq<char>| #[trigger]
                map@.contains_key(user) <==> after.contains_key(user) || seen(
                    all,
                    rest@.len() as int,
                    user,
                ) && gains_rooms(
                    before,
                    after,
                    new_user@,
                    kept,
                    user,
                ),
            changed <==> exists|user: Seq<char>|
                seen(all, rest@.len() as int, user) && #[trigger] gains_rooms(
                    before,
                    after,
                    new_user@,
                    kept,
                    user,
                ),
        decreases rest@.len(),
    {
        let ghost n = rest@.len() - 1;
        let ghost map_before = map@;
        let (user, old_rooms) = rest.pop().unwrap();
        proof {
            assert(all[n] == (user, old_rooms));
            lemma_map_of(all, n);
            assert(before.contains_key(user@));
            assert(before[user@] == texts(old_rooms@));
            assert(!seen(all, n + 1, user@)) by {
                assert forall|j: int| n < j < all.len() implies (#[trigger] all[j]).0@ != user@ by {
                    assert(keys_of(all)[j] == all[j].0@);
                    assert(keys_of(all)[n] == user@);
                    crate::text::lemma_text_order(user@, all[j].0@);
                }
            }
            assert forall|other: Seq<char>| #[trigger]
                seen(all, n, other) <==> other == user@ || seen(all, n + 1, other) by {
                if other == user@ {
                    assert(all[n].0@ == other);
                }
            }
            assert(rooms_with(direct_rooms(map@), user@) == rooms_with(after, user@));
        }
        if !same_str(user.as_str(), new_user.as_str()) {
            let mut rooms: Vec<String> = match map.get(user.as_str()) {
                Some(rooms) => rooms.clone(),
                None => Vec::new(),
            };
            assert(texts(rooms@) =~= rooms_with(after, user@));
            if add_rooms(old_rooms, joined, plans, &mut rooms) {
                map.insert(user, rooms);
                changed = true;
                proof {
                    assert(gains_rooms(before, after, new_user@, kept, all[n].0@));
                    assert forall|other: Seq<char>| other != all[n].0@ implies #[trigger] rooms_with(
                        direct_rooms(map@),
                        other,
                    ) == rooms_with(direct_rooms(map_before), other) by {}
                }
            }
        }
    }
    proof {
        assert forall|user: Seq<char>| before.contains_key(user) implies #[trigger] seen(
            all,
            0,
            user,
        ) by {
            let j = choose|j: int| 0 <= j < keys_of(all).len() && keys_of(all)[j] == user;
            assert(all[j].0@ == user);
        }
    }
    if changed {
        assert forall|user: Seq<char>| map@.contains_key(user) implies direct_rooms(map@)[user]
            == migrated_rooms(before, after, new_user@, kept, user) by {
            assert(rooms_with(direct_rooms(map@), user) == direct_rooms(map@)[user]);
        }
        assert(direct_rooms(map@) =~= migrated_direct(before, after, new_user@, kept));
        Some(map)
    } else {
        None
    }
}

} // verus!
