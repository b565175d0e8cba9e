//! Laws about power levels, stated over what the events of a room hold.

use vstd::prelude::*;

use crate::power_levels::{
    are_effective, creators_of, rules_of, AuthorizationRules, PowerLevels, PowerLevelsContent,
    PowerLevelsContentView, RoomCreate, UserPowerLevel,
};
use crate::state::{found, AccessError};
use crate::text::texts;

verus! {

/// Levels are ordered like integers, and an infinite one is greater than all of them but not than
/// itself.
pub proof fn law_levels_are_ordered(a: UserPowerLevel, b: UserPowerLevel, c: UserPowerLevel)
    ensures
        !a.spec_less(a),
        a.spec_less(b) || b.spec_less(a) || a == b,
        a.spec_less(b) ==> !b.spec_less(a),
        a.spec_less(b) && b.spec_less(c) ==> a.spec_less(c),
        a is Infinite ==> !a.spec_less(b),
        a is Int && b is Int ==> (a.spec_less(b) <==> a->Int_0 < b->Int_0),
{
}

/// A level that is an integer is that integer. An infinite one is taken to be the greatest integer
/// that an event can hold, so no user with an integer level is given more.
pub proof fn law_levels_are_approximated(a: UserPowerLevel)
    ensures
        a is Int ==> UserPowerLevel::Int(a.spec_as_int()) == a,
        a is Infinite ==> a.spec_as_int() == 0x1f_ffff_ffff_ffff,
{
}

/// The level of a user depends on nothing but their own entry, the default, and whether they are a
/// privileged creator: an entry counts before the default, and being a privileged creator counts
/// before both.
pub proof fn law_own_level_counts(levels: PowerLevels, user: Seq<char>)
    ensures
        ({
            let users = levels.content.users@;
            let level = levels.level_of(user);
            let privileged = levels.privileged_creators is Some && exists|i: int|
                0 <= i < levels.privileged_creators->0@.len() && (
                #[trigger] levels.privileged_creators->0@[i])@ == user;
            &&& level is Infinite <==> privileged
            &&& !privileged && users.contains_key(user) ==> level == UserPowerLevel::Int(users[user])
            &&& !privileged && !users.contains_key(user) ==> level == UserPowerLevel::Int(
                levels.content.users_default,
            )
        }),
{
    if let Some(creators) = levels.privileged_creators {
        if texts(creators@).contains(user) {
            let i = choose|i: int| 0 <= i < texts(creators@).len() && texts(creators@)[i] == user;
            assert(levels.privileged_creators->0@[i]@ == user);
        }
        if exists|i: int| 0 <= i < creators@.len() && (#[trigger] creators@[i])@ == user {
            let i = choose|i: int| 0 <= i < creators@.len() && (#[trigger] creators@[i])@ == user;
            assert(texts(creators@)[i] == user);
        }
    }
}

/// A user reaches a required level exactly if their own is infinite or at least as great.
pub proof fn law_required_levels_are_reached(levels: PowerLevels, user: Seq<char>, required: i64)
    ensures
        levels.reaches(user, required) <==> match levels.level_of(user) {
            UserPowerLevel::Infinite => true,
            UserPowerLevel::Int(own) => own >= required,
        },
{
}

/// A user may change the level of another user who has no entry exactly if they may send the event
/// that sets power levels: their level is infinite, or at least the one that is required for that
/// event, or for state events in general if there is none for it. Of a user who has an entry, their
/// level must be greater, too, unless it is their own. Nobody may change the level of a privileged
/// creator.
pub proof fn law_levels_are_changed_from_above(
    levels: PowerLevels,
    acting: Seq<char>,
    target: Seq<char>,
)
    ensures
        ({
            let events = levels.content.events@;
            let users = levels.content.users@;
            let required = if events.contains_key("m.room.power_levels"@) {
                events["m.room.power_levels"@]
            } else {
                levels.content.state_default
            };
            let own = levels.level_of(acting);
            let may_send = own is Infinite || own->Int_0 >= required;
            let is_above = own is Infinite || !users.contains_key(target) || own->Int_0
                > users[target];
            levels.may_change_level(acting, target) <==> {
                &&& may_send
                &&& !(levels.level_of(target) is Infinite)
                &&& acting == target || is_above
            }
        }),
{
    law_own_level_counts(levels, acting);
    law_own_level_counts(levels, target);
}

/// Setting the level of one user changes nothing but their entry: every other user keeps their
/// entry or keeps having none, and what is required for everything stays.
pub proof fn law_only_one_level_is_set(
    content: PowerLevelsContentView,
    user: Seq<char>,
    level: i64,
    other: Seq<char>,
)
    ensures
        ({
            let after = content.with_level(user, level);
            &&& after.users.contains_key(user) && after.users[user] == level
            &&& other != user ==> {
                &&& after.users.contains_key(other) <==> content.users.contains_key(other)
                &&& content.users.contains_key(other) ==> after.users[other]
                    == content.users[other]
            }
            &&& after.users_default == content.users_default
            &&& after.events == content.events
            &&& after.events_default == content.events_default
            &&& after.state_default == content.state_default
            &&& after.ban == content.ban
            &&& after.invite == content.invite
            &&& after.kick == content.kick
            &&& after.redact == content.redact
        }),
{
}

/// What is read from an event of power levels is all that the event says.
pub proof fn law_contents_are_complete(content: PowerLevelsContent)
    ensures
        content@.users == content.users@,
        content@.users_default == content.users_default,
        content@.events == content.events@,
        content@.events_default == content.events_default,
        content@.state_default == content.state_default,
        content@.ban == content.ban,
        content@.invite == content.invite,
        content@.kick == content.kick,
        content@.redact == content.redact,
{
}

/// Power levels cannot be sent exactly if some privileged creator has an entry of their own. In
/// rooms without privileged creators they always can.
pub proof fn law_creators_must_not_be_listed(levels: PowerLevels)
    ensures
        levels.lists_creator() <==> exists|user: Seq<char>|
            levels.level_of(user) is Infinite && #[trigger] levels.content.users@.contains_key(user),
        levels.privileged_creators is None ==> !levels.lists_creator(),
{
    if levels.lists_creator() {
        let creators = levels.privileged_creators->0@;
        let i = choose|i: int|
            0 <= i < creators.len() && levels.content.users@.contains_key(
                (#[trigger] creators[i])@,
            );
        law_own_level_counts(levels, creators[i]@);
        assert(levels.content.users@.contains_key(creators[i]@));
    }
    assert forall|user: Seq<char>|
        levels.level_of(user) is Infinite && #[trigger] levels.content.users@.contains_key(
            user,
        ) implies levels.lists_creator() by {
        law_own_level_counts(levels, user);
        let creators = levels.privileged_creators->0@;
        let i = choose|i: int| 0 <= i < creators.len() && (#[trigger] creators[i])@ == user;
        assert(levels.content.users@.contains_key(creators[i]@));
    }
}

/// The creators of a room are the original one and all additional ones, and nobody else.
pub proof fn law_all_creators_are_known(create: Option<RoomCreate>, user: String)
    ensures
        creators_of(create).contains(user) <==> create is Some && (create->0.creator == Some(user)
            || create->0.additional_creators@.contains(user)),
{
    if let Some(create) = create {
        let more = create.additional_creators@;
        if let Some(creator) = create.creator {
            let all = seq![creator] + more;
            assert(all[0] == creator);
            if more.contains(user) {
                let i = choose|i: int| 0 <= i < more.len() && more[i] == user;
                assert(all[i + 1] == user);
            }
            if all.contains(user) {
                let i = choose|i: int| 0 <= i < all.len() && all[i] == user;
                if i > 0 {
                    assert(more[i - 1] == user);
                }
            }
        }
    }
}

/// Where a room has an event of power levels, what it says holds as it stands. Where it has none,
/// everybody may invite, only users with level 50 may do anything else that is restricted, and
/// nobody has a level of their own but the creators, who have 100, unless theirs is infinite.
pub proof fn law_events_hold_as_they_stand(
    levels: PowerLevels,
    content: Option<PowerLevelsContent>,
    rules: AuthorizationRules,
    creators: Seq<Seq<char>>,
    user: Seq<char>,
)
    requires
        are_effective(levels, content, rules, creators),
    ensures
        content matches Some(content) ==> levels.content == content,
        content is None ==> {
            let held = levels.content;
            &&& held.invite == 0
            &&& held.events_default == 0
            &&& held.users_default == 0
            &&& held.state_default == 50
            &&& held.ban == 50
            &&& held.kick == 50
            &&& held.redact == 50
            &&& !held.events@.contains_key(user)
            &&& held.users@.contains_key(user) <==> !(rules is V12) && creators.contains(user)
            &&& held.users@.contains_key(user) ==> held.users@[user] == 100
        },
        rules is V12 ==> (levels.level_of(user) is Infinite <==> creators.contains(user)),
        !(rules is V12) ==> !(levels.level_of(user) is Infinite),
{
}

proof fn lemma_versions()
    ensures
        "1"@.len() == 1 && "2"@.len() == 1 && "3"@.len() == 1 && "4"@.len() == 1,
        "5"@.len() == 1 && "6"@.len() == 1 && "7"@.len() == 1 && "8"@.len() == 1,
        "9"@.len() == 1 && "10"@.len() == 2 && "11"@.len() == 2 && "12"@.len() == 2,
        "1"@[0] == '1' && "2"@[0] == '2' && "3"@[0] == '3' && "4"@[0] == '4',
        "5"@[0] == '5' && "6"@[0] == '6' && "7"@[0] == '7' && "8"@[0] == '8',
        "9"@[0] == '9' && "10"@[1] == '0' && "11"@[1] == '1' && "12"@[1] == '2',
{
    reveal_strlit("1");
    reveal_strlit("2");
    reveal_strlit("3");
    reveal_strlit("4");
    reveal_strlit("5");
    reveal_strlit("6");
    reveal_strlit("7");
    reveal_strlit("8");
    reveal_strlit("9");
    reveal_strlit("10");
    reveal_strlit("11");
    reveal_strlit("12");
}

/// Each set of rules applies in its own room versions and in no others; a version that is unknown
/// or missing has those of version 11.
pub proof fn law_versions_have_their_rules(version: Option<Seq<char>>)
    ensures
        ({
            let rules = rules_of(version);
            let is_one_of = |names: Seq<Seq<char>>| version is Some && names.contains(version->0);
            &&& rules is V1 <==> is_one_of(seq!["1"@, "2"@])
            &&& rules is V3 <==> is_one_of(seq!["3"@, "4"@, "5"@])
            &&& rules is V6 <==> is_one_of(seq!["6"@])
            &&& rules is V7 <==> is_one_of(seq!["7"@])
            &&& rules is V8 <==> is_one_of(seq!["8"@, "9"@])
            &&& rules is V10 <==> is_one_of(seq!["10"@])
            &&& rules is V12 <==> is_one_of(seq!["12"@])
            &&& version is None || version == Some("11"@) ==> rules is V11
        }),
{
    lemma_versions();
    let one = seq!["1"@, "2"@];
    assert(one[0] == "1"@ && one[1] == "2"@);
    let three = seq!["3"@, "4"@, "5"@];
    assert(three[0] == "3"@ && three[1] == "4"@ && three[2] == "5"@);
    let six = seq!["6"@];
    assert(six[0] == "6"@);
    let seven = seq!["7"@];
    assert(seven[0] == "7"@);
    let eight = seq!["8"@, "9"@];
    assert(eight[0] == "8"@ && eight[1] == "9"@);
    let ten = seq!["10"@];
    assert(ten[0] == "10"@);
    let twelve = seq!["12"@];
    assert(twelve[0] == "12"@);
}

/// What a read found is what came back, and a failed read found nothing.
pub proof fn law_failed_reads_find_nothing<T>(read: Result<Option<T>, AccessError>)
    ensures
        read is Err ==> found(read) is None,
        read matches Ok(value) ==> found(read) == value,
{
}

} // verus!
