//! Showing the rooms of a plan under made-up IDs and aliases, so that it can be shared.

use vstd::prelude::*;

use crate::ids::{
    after_colon, anonymize_room_alias, anonymize_room_id, anonymous_server, is_random_room,
    is_room_alias, is_server_name, numbered_alias, ALIAS_NUMBERS,
};
use crate::plan::{Plan, RoomPlan};
use crate::report::ShownRoom;
use crate::text_map::TextMap;

verus! {

/// The first `n` rooms under new names. Where two rooms get the same ID, the later one stays.
pub open spec fn renamed<'a>(
    rooms: Seq<(String, RoomPlan)>,
    names: Seq<(String, Option<String>)>,
    n: int,
) -> Map<Seq<char>, ShownRoom<'a>>
    decreases n,
{
    if n <= 0 {
        Map::empty()
    } else {
        renamed(rooms, names, n - 1).insert(
            names[n - 1].0@,
            ShownRoom { alias: names[n - 1].1, plan: &rooms[n - 1].1 },
        )
    }
}

/// Shows every room of a plan under a new ID and alias, in the order of the rooms. The plan itself
/// stays as it is.
pub fn rename_rooms<'a>(plan: &'a Plan, names: &Vec<(String, Option<String>)>) -> (shown: TextMap<
    ShownRoom<'a>,
>)
    requires
        names@.len() == plan.rooms.entries().len(),
    ensures
        shown@ == renamed(plan.rooms.entries(), names@, names@.len() as int),
{
    let mut shown: TextMap<ShownRoom<'a>> = TextMap::new();
    let mut i: usize = 0;
    while i < plan.rooms.len()
        invariant
            names@.len() == plan.rooms.entries().len(),
            0 <= i <= names@.len(),
            shown@ == renamed(plan.rooms.entries(), names@, i as int),
        decreases names@.len() - i,
    {
        let alias = match &names[i].1 {
            Some(alias) => Some(alias.clone()),
            None => None,
        };
        shown.insert(names[i].0.clone(), ShownRoom { alias, plan: plan.rooms.value_at(i) });
        i = i + 1;
    }
    shown
}

/// Whether names are made up for some rooms: every ID is a random one on the same server, and
/// every alias is a numbered one on the same server.
pub open spec fn are_made_up(
    rooms: Seq<(String, RoomPlan)>,
    names: Seq<(String, Option<String>)>,
) -> bool {
    &&& names.len() == rooms.len()
    &&& forall|i: int|
        0 <= i < rooms.len() ==> is_random_room(
            (#[trigger] names[i]).0@,
            anonymous_server(rooms[i].0@),
        ) && match rooms[i].1.alias {
            Some(alias) => names[i].1 is Some && exists|number: int|
                0 <= number < ALIAS_NUMBERS && names[i].1->0@ == #[trigger] numbered_alias(
                    number,
                    after_colon(alias@)->0,
                ),
            None => names[i].1 is None,
        }
}

/// Whether a name can be made up for a room, whatever number is drawn for its alias.
pub open spec fn is_replaceable(room: (String, RoomPlan)) -> bool {
    &&& is_server_name(anonymous_server(room.0@))
    &&& room.1.alias matches Some(alias) ==> is_room_alias(alias@) && forall|number: int|
        0 <= number < ALIAS_NUMBERS ==> is_room_alias(
            #[trigger] numbered_alias(number, after_colon(alias@)->0),
        )
}

/// Makes up IDs and aliases for all rooms, on the same servers; `None` if that is not possible for
/// some room.
pub fn anonymize_plan(plan: &Plan) -> (result: Option<Vec<(String, Option<String>)>>)
    ensures
        result matches Some(names) ==> are_made_up(plan.rooms.entries(), names@),
        result is None ==> exists|i: int|
            0 <= i < plan.rooms.entries().len() && !is_replaceable(
                #[trigger] plan.rooms.entries()[i],
            ),
{
    let ghost rooms = plan.rooms.entries();
    let mut names: Vec<(String, Option<String>)> = Vec::new();
    let mut i: usize = 0;
    while i < plan.rooms.len()
        invariant
            rooms == plan.rooms.entries(),
            0 <= i <= rooms.len(),
            names@.len() == i,
            are_made_up(rooms.take(i as int), names@),
        decreases rooms.len() - i,
    {
        let id = match anonymize_room_id(plan.rooms.key_at(i).as_str()) {
            Some(id) => id,
            None => {
                assert(!is_replaceable(rooms[i as int]));
                return None;
            },
        };
        let alias = match &plan.rooms.value_at(i).alias {
            Some(alias) => match anonymize_room_alias(alias.as_str()) {
                Some(alias) => Some(alias),
                None => {
                    assert(!is_replaceable(rooms[i as int]));
                    return None;
                },
            },
            None => None,
        };
        let ghost before = names@;
        names.push((id, alias));
        proof {
            let first = rooms.take(i + 1);
            assert forall|j: int| 0 <= j < first.len() implies is_random_room(
                (#[trigger] names@[j]).0@,
                anonymous_server(first[j].0@),
            ) && match first[j].1.alias {
                Some(alias) => names@[j].1 is Some && exists|number: int|
                    0 <= number < ALIAS_NUMBERS && names@[j].1->0@ == #[trigger] numbered_alias(
                        number,
                        after_colon(alias@)->0,
                    ),
                None => names@[j].1 is None,
            } by {
                if j < i {
                    assert(names@[j] == before[j]);
                    assert(rooms.take(i as int)[j] == first[j]);
                }
            }
        }
        i = i + 1;
    }
    assert(rooms.take(rooms.len() as int) =~= rooms);
    Some(names)
}

} // verus!
