//! Laws about what the user is shown.

use vstd::prelude::*;
use vstd::utf8::{encode_utf8, is_ascii_chars, is_ascii_chars_encode_utf8};

use crate::anonymize::{are_made_up, is_replaceable, renamed};
use crate::execute::GlobalData;
use crate::id_laws::{fits, law_text_is_split_at_the_first_colon};
use crate::ids::{
    after_colon, anonymous_server, identity_text, is_alphanumeric, is_room_alias, is_room_id,
    is_server_name, numbered_alias, server_of_room,
};
use crate::json::array_object_text;
use crate::members::IGNORED_USERS_MEMBER;
use crate::messages::joined;
use crate::plan::{Plan, PlanError, RoomPlan, RoomPlanError};
use crate::report::{
    column, global_text, key_text, name_cell, overview_text, own_rows, plan_errors_text,
    problems_text, room_errors_text, room_line, room_lines, room_name, room_problems_text,
    rooms_problems_text, rows_of, summary_line, summary_lines, summary_text, Row, ShownRoom,
};
use crate::text::{decimal, decimal_nat};

verus! {

/// Whether a text is part of another.
pub open spec fn is_part(part: Seq<char>, text: Seq<char>) -> bool {
    exists|at: int|
        0 <= at && at + part.len() <= text.len() && #[trigger] text.subrange(at, at + part.len())
            == part
}

pub proof fn lemma_part_at(part: Seq<char>, text: Seq<char>, at: int)
    requires
        0 <= at,
        at + part.len() <= text.len(),
        text.subrange(at, at + part.len()) == part,
    ensures
        is_part(part, text),
{
}

pub proof fn lemma_middle(before: Seq<char>, part: Seq<char>, after: Seq<char>)
    ensures
        is_part(part, before + part + after),
{
    let text = before + part + after;
    let at = before.len() as int;
    assert(text.subrange(at, at + part.len()) =~= part);
}

proof fn lemma_part_of_part(part: Seq<char>, text: Seq<char>, whole: Seq<char>)
    requires
        is_part(part, text),
        is_part(text, whole),
    ensures
        is_part(part, whole),
{
    let a = choose|at: int|
        0 <= at && at + part.len() <= text.len() && #[trigger] text.subrange(at, at + part.len())
            == part;
    let b = choose|at: int|
        0 <= at && at + text.len() <= whole.len() && #[trigger] whole.subrange(at, at + text.len())
            == text;
    assert(whole.subrange(a + b, a + b + part.len()) =~= part) by {
        assert forall|k: int| 0 <= k < part.len() implies whole.subrange(
            a + b,
            a + b + part.len(),
        )[k] == part[k] by {
            assert(text.subrange(a, a + part.len())[k] == part[k]);
            assert(whole.subrange(b, b + text.len())[a + k] == text[a + k]);
        }
    }
}

/// Under new names, each name stands for a room of the plan at the position of that name, with the
/// new alias; where a name occurs more than once, for the last such room. Nothing else is shown,
/// and no name is left out.
pub proof fn law_names_stand_for_rooms(
    rooms: Seq<(String, RoomPlan)>,
    names: Seq<(String, Option<String>)>,
    n: int,
    name: Seq<char>,
)
    requires
        0 <= n <= names.len(),
    ensures
        ({
            let shown = renamed(rooms, names, n);
            &&& shown.contains_key(name) <==> exists|i: int|
                0 <= i < n && (#[trigger] names[i]).0@ == name
            &&& forall|i: int|
                0 <= i < n && (#[trigger] names[i]).0@ == name && (forall|j: int|
                    i < j < n ==> (#[trigger] names[j]).0@ != name) ==> {
                    &&& shown[name].alias == names[i].1
                    &&& *shown[name].plan == rooms[i].1
                }
        }),
    decreases n,
{
    if n > 0 {
        law_names_stand_for_rooms(rooms, names, n - 1, name);
    }
}

/// A made-up name says nothing about a room but its server: an ID has 18 letters and digits before
/// it, and there is an alias exactly if the room has one, with a number and the server of that one.
pub proof fn law_made_up_names_hide_rooms(
    rooms: Seq<(String, RoomPlan)>,
    names: Seq<(String, Option<String>)>,
    i: int,
)
    requires
        are_made_up(rooms, names),
        0 <= i < rooms.len(),
    ensures
        ({
            let id = names[i].0@;
            let server = match after_colon(rooms[i].0@) {
                Some(server) => if is_room_id(rooms[i].0@) && is_server_name(server) {
                    server
                } else {
                    "invalid-server-name.com"@
                },
                None => "invalid-server-name.com"@,
            };
            &&& names.len() == rooms.len()
            &&& id.len() == 20 + server.len()
            &&& id[0] == '!' && id[19] == ':'
            &&& id.skip(20) == server
            &&& forall|k: int|
                1 <= k < 19 ==> {
                    let c = #[trigger] id[k];
                    '0' <= c && c <= '9' || 'A' <= c && c <= 'Z' || 'a' <= c && c <= 'z'
                }
            &&& match rooms[i].1.alias {
                Some(alias) => names[i].1 is Some && exists|number: int|
                    0 <= number < 1024 && names[i].1->0@ == "#alias-"@ + #[trigger] decimal(number)
                        + ":"@ + after_colon(alias@)->0,
                None => names[i].1 is None,
            }
        }),
{
    let id = names[i].0@;
    let server = anonymous_server(rooms[i].0@);
    match rooms[i].1.alias {
        Some(alias) => {
            let number = choose|number: int|
                0 <= number < 1024 && names[i].1->0@ == #[trigger] numbered_alias(
                    number,
                    after_colon(alias@)->0,
                );
            assert(names[i].1->0@ == "#alias-"@ + decimal(number) + ":"@ + after_colon(alias@)->0);
        },
        None => {},
    }
    assert(server_of_room(rooms[i].0@) is Some || server == "invalid-server-name.com"@);
    reveal_strlit("!");
    reveal_strlit(":");
    let local = choose|local: Seq<char>|
        {
            &&& local.len() == 18
            &&& forall|k: int| 0 <= k < 18 ==> is_alphanumeric(#[trigger] local[k])
            &&& id == #[trigger] ("!"@ + local) + ":"@ + server
        };
    assert(id == ("!"@ + local) + ":"@ + server);
    assert(id.skip(20) =~= server);
    assert forall|k: int| 1 <= k < 19 implies {
        let c = #[trigger] id[k];
        '0' <= c && c <= '9' || 'A' <= c && c <= 'Z' || 'a' <= c && c <= 'z'
    } by {
        assert(id[k] == local[k - 1]);
    }
}

proof fn lemma_digits(n: nat)
    ensures
        !decimal_nat(n).contains(':'),
    decreases n,
{
    if n >= 10 {
        lemma_digits(n / 10);
    }
    let text = decimal_nat(n);
    assert forall|i: int| 0 <= i < text.len() implies text[i] != ':' by {
        if n >= 10 && i < text.len() - 1 {
            assert(text[i] == decimal_nat(n / 10)[i]);
            assert(decimal_nat(n / 10).contains(decimal_nat(n / 10)[i]));
        }
    }
}

/// A name can be made up for every room whose server is known, or for which the stand-in is taken,
/// if none of the aliases that can be drawn for it is too long.
pub proof fn law_names_can_be_made_up(room: (String, RoomPlan))
    requires
        server_of_room(room.0@) is Some || is_server_name("invalid-server-name.com"@),
        room.1.alias matches Some(alias) ==> is_room_alias(alias@) && forall|number: int|
            0 <= number < 1024 ==> fits(
                "#alias-"@ + #[trigger] decimal(number) + ":"@ + after_colon(alias@)->0,
            ),
    ensures
        is_replaceable(room),
{
    match room.1.alias {
        Some(alias) => {
            let server = after_colon(alias@)->0;
            assert forall|number: int| 0 <= number < 1024 implies is_room_alias(
                #[trigger] numbered_alias(number, server),
            ) by {
                reveal_strlit("#alias-");
                reveal_strlit(":");
                let text = "#alias-"@ + decimal(number) + ":"@ + server;
                let before = "#alias-"@ + decimal(number);
                assert(fits(text));
                lemma_digits(number as nat);
                assert(!before.contains(':')) by {
                    if before.contains(':') {
                        let i = choose|i: int| 0 <= i < before.len() && before[i] == ':';
                        if i >= 7 {
                            assert(decimal(number)[i - 7] == ':');
                        }
                    }
                }
                assert(text =~= before + seq![':'] + server);
                law_text_is_split_at_the_first_colon(text, before, server);
                assert(numbered_alias(number, server) == text);
            }
        },
        None => {},
    }
}

/// A room is identified by its ID, behind its alias if it has one.
pub proof fn law_rooms_are_identified(id: Seq<char>, alias: Option<String>)
    ensures
        is_part(id, identity_text(id, alias)),
        alias is None ==> identity_text(id, alias) == id,
        alias matches Some(alias) ==> alias@.is_prefix_of(identity_text(id, Some(alias))),
{
    match alias {
        Some(alias) => {
            lemma_middle(alias@ + " ("@, id, ")"@);
            assert(alias@ =~= identity_text(id, Some(alias)).subrange(0, alias@.len() as int));
        },
        None => {
            assert(id.subrange(0, id.len() as int) =~= id);
            lemma_part_at(id, id, 0);
        },
    }
}

proof fn lemma_labels()
    ensures
        "errors"@ =~= seq!['e', 'r', 'r', 'o', 'r', 's'],
        "invite"@ =~= seq!['i', 'n', 'v', 'i', 't', 'e'],
        "join"@ =~= seq!['j', 'o', 'i', 'n'],
        "leave"@ =~= seq!['l', 'e', 'a', 'v', 'e'],
        "power_level"@ =~= seq!['p', 'o', 'w', 'e', 'r', '_', 'l', 'e', 'v', 'e', 'l'],
        "tags"@ =~= seq!['t', 'a', 'g', 's'],
        "  "@ =~= seq![' ', ' '],
        "\n"@ =~= seq!['\n'],
{
    reveal_strlit("errors");
    reveal_strlit("invite");
    reveal_strlit("join");
    reveal_strlit("leave");
    reveal_strlit("power_level");
    reveal_strlit("tags");
    reveal_strlit("  ");
    reveal_strlit("\n");
}

proof fn lemma_column(label: Seq<char>, enabled: bool)
    requires
        is_ascii_chars(label),
    ensures
        column(label, enabled).len() == label.len() + 2,
        enabled ==> column(label, enabled).skip(2) == label,
        !enabled ==> forall|i: int|
            0 <= i < label.len() + 2 ==> #[trigger] column(label, enabled)[i] == ' ',
{
    is_ascii_chars_encode_utf8(label);
    lemma_labels();
    if enabled {
        assert(column(label, enabled).skip(2) =~= label);
    }
}

/// Whether a stretch of a line says a word, or is blank.
pub open spec fn says(line: Seq<char>, from: int, word: Seq<char>, enabled: bool) -> bool {
    let cell = line.subrange(from + 2, from + 2 + word.len());
    if enabled {
        cell == word
    } else {
        forall|i: int| 0 <= i < cell.len() ==> #[trigger] cell[i] == ' '
    }
}

/// The line for a room starts with its alias, or with its ID if it has none, and ends with six
/// columns that say whether there are errors, whether the new user is invited and joins, whether
/// the old user leaves, and whether a power level and tags are set. Each stands in the same place
/// in every line, and is blank if it does not apply.
pub proof fn law_lines_say_what_is_planned(row: Row)
    ensures
        ({
            let line = room_line(row);
            let start = line.len() - 49;
            let name = match row.alias {
                Some(alias) => alias@,
                None => row.room,
            };
            &&& start >= 0
            &&& name.is_prefix_of(line)
            &&& says(line, start, "errors"@, row.plan.errors@.len() > 0)
            &&& says(line, start + 8, "invite"@, row.plan.invite)
            &&& says(line, start + 16, "join"@, row.plan.join)
            &&& says(line, start + 22, "leave"@, row.plan.leave)
            &&& says(line, start + 29, "power_level"@, row.plan.power_level is Some)
            &&& says(line, start + 42, "tags"@, row.plan.account_data is Some)
            &&& line.last() == '\n'
        }),
{
    lemma_labels();
    let plan = row.plan;
    let line = room_line(row);
    let name = name_cell(room_name(row.room, row.alias));
    let a = column("errors"@, plan.errors@.len() > 0);
    let b = column("invite"@, plan.invite);
    let c = column("join"@, plan.join);
    let d = column("leave"@, plan.leave);
    let e = column("power_level"@, plan.power_level is Some);
    let f = column("tags"@, plan.account_data is Some);
    lemma_column("errors"@, plan.errors@.len() > 0);
    lemma_column("invite"@, plan.invite);
    lemma_column("join"@, plan.join);
    lemma_column("leave"@, plan.leave);
    lemma_column("power_level"@, plan.power_level is Some);
    lemma_column("tags"@, plan.account_data is Some);
    assert(line == name + a + b + c + d + e + f + "\n"@);
    let n = name.len() as int;
    assert(line.len() == n + 49);
    assert(room_name(row.room, row.alias) =~= line.subrange(
        0,
        room_name(row.room, row.alias).len() as int,
    ));
    lemma_says(line, n, a, "errors"@, plan.errors@.len() > 0);
    lemma_says(line, n + 8, b, "invite"@, plan.invite);
    lemma_says(line, n + 16, c, "join"@, plan.join);
    lemma_says(line, n + 22, d, "leave"@, plan.leave);
    lemma_says(line, n + 29, e, "power_level"@, plan.power_level is Some);
    lemma_says(line, n + 42, f, "tags"@, plan.account_data is Some);
}

/// The columns stand below each other: a name of up to 48 bytes is filled up with spaces to 48
/// characters, and a longer one gets a line of its own.
pub proof fn law_columns_stand_below_each_other(row: Row)
    ensures
        ({
            let line = room_line(row);
            let start = line.len() - 49;
            let name = match row.alias {
                Some(alias) => alias@,
                None => row.room,
            };
            if encode_utf8(name).len() <= 48 {
                name.len() <= 48 ==> start == 48 && forall|i: int|
                    name.len() <= i < 48 ==> #[trigger] line[i] == ' '
            } else {
                start == name.len() + 49 && line[name.len() as int] == '\n'
            }
        }),
{
    lemma_labels();
    let plan = row.plan;
    let line = room_line(row);
    let name = room_name(row.room, row.alias);
    let cell = name_cell(name);
    lemma_column("errors"@, plan.errors@.len() > 0);
    lemma_column("invite"@, plan.invite);
    lemma_column("join"@, plan.join);
    lemma_column("leave"@, plan.leave);
    lemma_column("power_level"@, plan.power_level is Some);
    lemma_column("tags"@, plan.account_data is Some);
    assert(line.len() == cell.len() + 49);
    assert forall|i: int| 0 <= i < cell.len() implies #[trigger] line[i] == cell[i] by {}
}

proof fn lemma_says(line: Seq<char>, from: int, cell: Seq<char>, word: Seq<char>, enabled: bool)
    requires
        is_ascii_chars(word),
        cell == column(word, enabled),
        0 <= from,
        from + word.len() + 2 <= line.len(),
        forall|i: int| 0 <= i < cell.len() ==> #[trigger] line[from + i] == cell[i],
    ensures
        says(line, from, word, enabled),
{
    lemma_column(word, enabled);
    let stretch = line.subrange(from + 2, from + 2 + word.len());
    assert forall|i: int| 0 <= i < word.len() implies #[trigger] stretch[i] == cell[i + 2] by {
        assert(line[from + (i + 2)] == cell[i + 2]);
    }
    if enabled {
        assert forall|i: int| 0 <= i < word.len() implies stretch[i] == word[i] by {
            assert(cell.skip(2)[i] == cell[i + 2]);
        }
        assert(stretch =~= word);
    }
}

proof fn lemma_line_is_part(rows: Seq<Row>, i: int, n: int)
    requires
        0 <= i < n <= rows.len(),
    ensures
        is_part(room_line(rows[i]), room_lines(rows, n)),
    decreases n,
{
    let before = room_lines(rows, n - 1);
    let line = room_line(rows[n - 1]);
    assert(room_lines(rows, n) =~= before + line + Seq::empty());
    if i == n - 1 {
        lemma_middle(before, line, Seq::empty());
    } else {
        lemma_line_is_part(rows, i, n - 1);
        assert(room_lines(rows, n) =~= Seq::empty() + before + line);
        lemma_middle(Seq::empty(), before, line);
        lemma_part_of_part(room_line(rows[i]), before, room_lines(rows, n));
    }
}

proof fn lemma_problems_are_part(rows: Seq<Row>, i: int, n: int)
    requires
        0 <= i < n <= rows.len(),
    ensures
        is_part(room_problems_text(rows[i]), rooms_problems_text(rows, n)),
    decreases n,
{
    let before = rooms_problems_text(rows, n - 1);
    let text = room_problems_text(rows[n - 1]);
    assert(rooms_problems_text(rows, n) =~= before + text + Seq::empty());
    if i == n - 1 {
        lemma_middle(before, text, Seq::empty());
    } else {
        lemma_problems_are_part(rows, i, n - 1);
        assert(rooms_problems_text(rows, n) =~= Seq::empty() + before + text);
        lemma_middle(Seq::empty(), before, text);
        lemma_part_of_part(room_problems_text(rows[i]), before, rooms_problems_text(rows, n));
    }
}

proof fn lemma_plan_error_is_part(errors: Seq<PlanError>, i: int, n: int)
    requires
        0 <= i < n <= errors.len(),
    ensures
        is_part(joined(errors[i].spec_messages(), "\n    "@), plan_errors_text(errors, n)),
    decreases n,
{
    let before = plan_errors_text(errors, n - 1);
    let text = joined(errors[n - 1].spec_messages(), "\n    "@);
    let part = joined(errors[i].spec_messages(), "\n    "@);
    if i == n - 1 {
        lemma_middle(before + "\n  "@, text, "\n"@);
    } else {
        lemma_plan_error_is_part(errors, i, n - 1);
        let after = "\n  "@ + text + "\n"@;
        assert(plan_errors_text(errors, n) =~= Seq::empty() + before + after);
        lemma_middle(Seq::empty(), before, after);
        lemma_part_of_part(part, before, plan_errors_text(errors, n));
    }
}

proof fn lemma_room_error_is_part(errors: Seq<RoomPlanError>, i: int, n: int)
    requires
        0 <= i < n <= errors.len(),
    ensures
        is_part(joined(errors[i].spec_messages(), "\n      "@), room_errors_text(errors, n)),
    decreases n,
{
    let before = room_errors_text(errors, n - 1);
    let text = joined(errors[n - 1].spec_messages(), "\n      "@);
    let part = joined(errors[i].spec_messages(), "\n      "@);
    if i == n - 1 {
        lemma_middle(before + "    "@, text, "\n"@);
    } else {
        lemma_room_error_is_part(errors, i, n - 1);
        let after = "    "@ + text + "\n"@;
        assert(room_errors_text(errors, n) =~= Seq::empty() + before + after);
        lemma_middle(Seq::empty(), before, after);
        lemma_part_of_part(part, before, room_errors_text(errors, n));
    }
}

/// The overview of a plan has a line for every room.
pub proof fn law_every_room_is_listed(plan: Plan, rows: Seq<Row>, i: int)
    requires
        0 <= i < rows.len(),
    ensures
        is_part(room_line(rows[i]), overview_text(plan, rows)),
{
    let lines = room_lines(rows, rows.len() as int);
    lemma_line_is_part(rows, i, rows.len() as int);
    let first = "Attempting to migrate the following rooms:\n\n"@;
    let rest = key_text() + global_text(plan)
        + problems_text(plan, rows) + "\n"@;
    assert(overview_text(plan, rows) =~= first + lines + rest);
    lemma_middle(first, lines, rest);
    lemma_part_of_part(room_line(rows[i]), lines, overview_text(plan, rows));
}

/// The overview of a plan tells every error that has to do with the accounts, with its causes.
pub proof fn law_every_plan_error_is_told(plan: Plan, rows: Seq<Row>, i: int)
    requires
        0 <= i < plan.errors@.len(),
    ensures
        is_part(
            joined(plan.errors@[i].spec_messages(), "\n    "@),
            overview_text(plan, rows),
        ),
{
    let part = joined(plan.errors@[i].spec_messages(), "\n    "@);
    let errors = plan_errors_text(plan.errors@, plan.errors@.len() as int);
    lemma_plan_error_is_part(plan.errors@, i, plan.errors@.len() as int);
    let before = "Attempting to migrate the following rooms:\n\n"@ + room_lines(
        rows,
        rows.len() as int,
    ) + key_text() + global_text(plan)
        + "\nEncountered the following errors:\n"@;
    let after = rooms_problems_text(rows, rows.len() as int) + "\n"@;
    assert(overview_text(plan, rows) =~= before + errors + after);
    lemma_middle(before, errors, after);
    lemma_part_of_part(part, errors, overview_text(plan, rows));
}

/// The overview of a plan tells every error that has to do with a room, with its causes, below what
/// the room is identified by.
pub proof fn law_every_room_error_is_told(plan: Plan, rows: Seq<Row>, i: int, k: int)
    requires
        0 <= i < rows.len(),
        0 <= k < rows[i].plan.errors@.len(),
    ensures
        ({
            let text = overview_text(plan, rows);
            let row = rows[i];
            &&& is_part(identity_text(row.room, row.alias), text)
            &&& is_part(joined(row.plan.errors@[k].spec_messages(), "\n      "@), text)
        }),
{
    let row = rows[i];
    let part = joined(row.plan.errors@[k].spec_messages(), "\n      "@);
    let identity = identity_text(row.room, row.alias);
    let errors = room_errors_text(row.plan.errors@, row.plan.errors@.len() as int);
    let problems = room_problems_text(row);
    let all = rooms_problems_text(rows, rows.len() as int);
    let text = overview_text(plan, rows);
    lemma_room_error_is_part(row.plan.errors@, k, row.plan.errors@.len() as int);
    lemma_problems_are_part(rows, i, rows.len() as int);
    let head = "\n  In room "@;
    assert(problems =~= head + identity + (":\n"@ + errors));
    lemma_middle(head, identity, ":\n"@ + errors);
    assert(problems =~= head + identity + ":\n"@ + errors + Seq::empty());
    lemma_middle(head + identity + ":\n"@, errors, Seq::empty());
    assert(rows[i].plan.errors@.len() > 0);
    let before = "Attempting to migrate the following rooms:\n\n"@ + room_lines(
        rows,
        rows.len() as int,
    ) + key_text() + global_text(plan)
        + "\nEncountered the following errors:\n"@ + plan_errors_text(
        plan.errors@,
        plan.errors@.len() as int,
    );
    assert(text =~= before + all + "\n"@);
    lemma_middle(before, all, "\n"@);
    lemma_part_of_part(problems, all, text);
    lemma_part_of_part(identity, problems, text);
    lemma_part_of_part(errors, problems, text);
    lemma_part_of_part(part, errors, text);
}

/// The rooms of a plan are all shown, in their order, each with what the plan says about it, under
/// its own names or under those that it is given.
pub proof fn law_rows_are_rooms(plan: Plan, rooms: Seq<(String, ShownRoom<'_>)>, i: int)
    ensures
        own_rows(plan).len() == plan.rooms.entries().len(),
        0 <= i < plan.rooms.entries().len() ==> {
            let (id, said) = plan.rooms.entries()[i];
            let row = own_rows(plan)[i];
            row.room == id@ && row.alias == said.alias && row.plan == said
        },
        rows_of(rooms).len() == rooms.len(),
        0 <= i < rooms.len() ==> {
            let (id, shown) = rooms[i];
            let row = rows_of(rooms)[i];
            row.room == id@ && row.alias == shown.alias && row.plan == *shown.plan
        },
{
}

/// A made-up alias has its number in it, and ends in the server that it is on.
pub proof fn law_made_up_aliases_are_numbered(number: int, server: Seq<char>)
    ensures
        numbered_alias(number, server) == "#alias-"@ + decimal(number) + ":"@ + server,
        is_part(decimal(number), numbered_alias(number, server)),
{
    lemma_middle("#alias-"@, decimal(number), ":"@ + server);
    assert(numbered_alias(number, server) =~= "#alias-"@ + decimal(number) + (":"@ + server));
}

/// The global data that is migrated is announced: the direct message mapping and the ignored users,
/// each in a line of its own, exactly if it is set. Without either, nothing is said.
pub proof fn law_global_data_is_announced(plan: Plan, rows: Seq<Row>)
    ensures
        plan.direct is Some ==> is_part("  - m.direct\n"@, overview_text(plan, rows)),
        plan.ignored_users is Some ==> is_part(
            "  - m.ignored_user_list\n"@,
            overview_text(plan, rows),
        ),
        plan.direct is None && plan.ignored_users is None ==> global_text(plan).len() == 0,
        plan.direct is Some || plan.ignored_users is Some ==> global_text(plan).len() == 53 + (
        if plan.direct is Some {
            13int
        } else {
            0
        }) + (if plan.ignored_users is Some {
            24int
        } else {
            0
        }),
{
    reveal_strlit("  - ");
    reveal_strlit("\n");
    reveal_strlit("m.direct");
    reveal_strlit("m.ignored_user_list");
    reveal_strlit("  - m.direct\n");
    reveal_strlit("  - m.ignored_user_list\n");
    reveal_strlit("\nMigrating the following global account data events:\n");
    let head = "\nMigrating the following global account data events:\n"@;
    let direct = "  - m.direct\n"@;
    let users = "  - m.ignored_user_list\n"@;
    let text = global_text(plan);
    let before = "Attempting to migrate the following rooms:\n\n"@ + room_lines(
        rows,
        rows.len() as int,
    ) + key_text();
    let after = problems_text(plan, rows) + "\n"@;
    assert(overview_text(plan, rows) =~= before + text + after);
    lemma_middle(before, text, after);
    assert("  - "@ + GlobalData::Direct.spec_event_type() + "\n"@ =~= direct);
    assert("  - "@ + GlobalData::IgnoredUsers.spec_event_type() + "\n"@ =~= users);
    if plan.direct is Some {
        let rest = if plan.ignored_users is Some {
            users
        } else {
            Seq::empty()
        };
        assert(text =~= head + direct + rest);
        lemma_middle(head, direct, rest);
        lemma_part_of_part(direct, text, overview_text(plan, rows));
    }
    if plan.ignored_users is Some {
        let start = if plan.direct is Some {
            head + direct
        } else {
            head
        };
        assert(text =~= start + users + Seq::empty());
        lemma_middle(start, users, Seq::empty());
        lemma_part_of_part(users, text, overview_text(plan, rows));
    }
}

proof fn lemma_summary_line_is_part(rooms: Seq<(String, RoomPlan)>, i: int, n: int)
    requires
        0 <= i < n <= rooms.len(),
    ensures
        is_part(summary_line(rooms[i].0@, rooms[i].1), summary_lines(rooms, n)),
    decreases n,
{
    let before = summary_lines(rooms, n - 1);
    let line = summary_line(rooms[n - 1].0@, rooms[n - 1].1);
    assert(summary_lines(rooms, n) =~= before + line + Seq::empty());
    if i == n - 1 {
        lemma_middle(before, line, Seq::empty());
    } else {
        lemma_summary_line_is_part(rooms, i, n - 1);
        assert(summary_lines(rooms, n) =~= Seq::empty() + before + line);
        lemma_middle(Seq::empty(), before, line);
        lemma_part_of_part(
            summary_line(rooms[i].0@, rooms[i].1),
            before,
            summary_lines(rooms, n),
        );
    }
}

/// The summary of a plan names the new user, and holds the global data as it is written.
pub proof fn law_summaries_hold_global_data(plan: Plan)
    ensures
        is_part(plan.new_user_id@, summary_text(plan)),
        plan.direct matches Some(direct) ==> is_part(
            array_object_text(direct.entries()),
            summary_text(plan),
        ),
        plan.ignored_users matches Some(users) ==> is_part(
            users.text(IGNORED_USERS_MEMBER@),
            summary_text(plan),
        ),
{
    let text = summary_text(plan);
    let a = "New userid: "@;
    let user = plan.new_user_id@;
    let lines = summary_lines(plan.rooms.entries(), plan.rooms.entries().len() as int);
    let b = "\nRooms:\n"@ + lines + "Global account data:\n"@;
    let direct = match plan.direct {
        Some(direct) => GlobalData::Direct.spec_event_type() + ": "@ + array_object_text(
            direct.entries(),
        ) + "\n"@,
        None => Seq::empty(),
    };
    let users = match plan.ignored_users {
        Some(users) => GlobalData::IgnoredUsers.spec_event_type() + ": "@ + users.text(
            IGNORED_USERS_MEMBER@,
        ) + "\n"@,
        None => Seq::empty(),
    };
    assert(text =~= a + user + (b + direct + users));
    lemma_middle(a, user, b + direct + users);
    if plan.direct is Some {
        let content = array_object_text(plan.direct->0.entries());
        let before = a + user + b + GlobalData::Direct.spec_event_type() + ": "@;
        assert(text =~= before + content + ("\n"@ + users));
        lemma_middle(before, content, "\n"@ + users);
    }
    if plan.ignored_users is Some {
        let content = plan.ignored_users->0.text(IGNORED_USERS_MEMBER@);
        let before = a + user + b + direct + GlobalData::IgnoredUsers.spec_event_type() + ": "@;
        assert(text =~= before + content + "\n"@);
        lemma_middle(before, content, "\n"@);
    }
}

/// The summary of a plan has a line for every room.
pub proof fn law_summaries_tell_every_room(plan: Plan, i: int)
    requires
        0 <= i < plan.rooms.entries().len(),
    ensures
        is_part(
            summary_line(plan.rooms.entries()[i].0@, plan.rooms.entries()[i].1),
            summary_text(plan),
        ),
{
    let (room, said) = plan.rooms.entries()[i];
    let line = summary_line(room@, said);
    let n = plan.rooms.entries().len() as int;
    lemma_summary_line_is_part(plan.rooms.entries(), i, n);
    let lines = summary_lines(plan.rooms.entries(), n);
    let before = "New userid: "@ + plan.new_user_id@ + "\nRooms:\n"@;
    let direct = match plan.direct {
        Some(direct) => GlobalData::Direct.spec_event_type() + ": "@ + array_object_text(
            direct.entries(),
        ) + "\n"@,
        None => Seq::empty(),
    };
    let users = match plan.ignored_users {
        Some(users) => GlobalData::IgnoredUsers.spec_event_type() + ": "@ + users.text(
            IGNORED_USERS_MEMBER@,
        ) + "\n"@,
        None => Seq::empty(),
    };
    let after = "Global account data:\n"@ + direct + users;
    assert(summary_text(plan) =~= before + lines + after);
    lemma_middle(before, lines, after);
    lemma_part_of_part(line, lines, summary_text(plan));
}

proof fn lemma_at(before: Seq<char>, part: Seq<char>, after: Seq<char>)
    ensures
        (before + part + after).subrange(
            before.len() as int,
            (before.len() + part.len()) as int,
        ) == part,
{
    assert((before + part + after).subrange(
        before.len() as int,
        (before.len() + part.len()) as int,
    ) =~= part);
}

proof fn lemma_places(
    a: Seq<char>,
    b: Seq<char>,
    c: Seq<char>,
    d: Seq<char>,
    e: Seq<char>,
    f: Seq<char>,
    g: Seq<char>,
    h: Seq<char>,
)
    ensures
        ({
            let line = a + b + c + d + e + f + g + h;
            let b0 = a.len() as int;
            let c0 = b0 + b.len();
            let d0 = c0 + c.len();
            let e0 = d0 + d.len();
            let f0 = e0 + e.len();
            let g0 = f0 + f.len();
            &&& line.subrange(b0, c0) == b
            &&& line.subrange(d0, e0) == d
            &&& line.subrange(e0, f0) == e
            &&& line.subrange(f0, g0) == f
            &&& line.subrange(g0, g0 + g.len()) == g
        }),
{
    let line = a + b + c + d + e + f + g + h;
    assert(line =~= a + b + (c + d + e + f + g + h));
    lemma_at(a, b, c + d + e + f + g + h);
    assert(line =~= a + b + c + d + (e + f + g + h));
    lemma_at(a + b + c, d, e + f + g + h);
    assert(line =~= a + b + c + d + e + (f + g + h));
    lemma_at(a + b + c + d, e, f + g + h);
    assert(line =~= a + b + c + d + e + f + (g + h));
    lemma_at(a + b + c + d + e, f, g + h);
    lemma_at(a + b + c + d + e + f, g, h);
}

proof fn lemma_inner(
    before: Seq<char>,
    opening: Seq<char>,
    part: Seq<char>,
    closing: Seq<char>,
    after: Seq<char>,
)
    ensures
        is_part(part, before + (opening + part + closing) + after),
{
    assert(before + (opening + part + closing) + after =~= (before + opening) + part + (closing
        + after));
    lemma_middle(before + opening, part, closing + after);
}

/// The line for a room in the summary of a plan tells its ID, then in brackets whether the new user
/// is invited and joins and whether the old user leaves.
pub proof fn law_summary_lines_say_what_is_planned(room: Seq<char>, said: RoomPlan)
    ensures
        ({
            let line = summary_line(room, said);
            let named = 6 + room.len() as int;
            let invited = named + if said.invite {
                7int
            } else {
                0
            };
            let joins = invited + if said.join {
                4int
            } else {
                0
            };
            let leaves = joins + if said.leave {
                5int
            } else {
                0
            };
            &&& line.subrange(4, named - 2) == room
            &&& said.invite ==> line.subrange(named, invited) == "invite,"@
            &&& said.join ==> line.subrange(invited, joins) == "join"@
            &&& said.leave ==> line.subrange(joins, leaves) == "leave"@
            &&& line.subrange(leaves, leaves + 1) == ")"@
        }),
{
    let line = summary_line(room, said);
    reveal_strlit("  - ");
    reveal_strlit(" (");
    reveal_strlit(")");
    reveal_strlit("invite,");
    reveal_strlit("join");
    reveal_strlit("leave");
    let head = "  - "@ + room + " ("@;
    let invite = if said.invite {
        "invite,"@
    } else {
        Seq::empty()
    };
    let join = if said.join {
        "join"@
    } else {
        Seq::empty()
    };
    let leave = if said.leave {
        "leave"@
    } else {
        Seq::empty()
    };
    let alias = match said.alias {
        Some(alias) => " ["@ + alias@ + "]"@,
        None => Seq::empty(),
    };
    let level = match said.power_level {
        Some(level) => " (power="@ + decimal(level as int) + ")"@,
        None => Seq::empty(),
    };
    let start = head + invite + join + leave + ")"@;
    let end = alias + level + "\n"@;
    assert(line =~= start + end);
    lemma_places("  - "@, room, " ("@, invite, join, leave, ")"@, end);
}

/// The line for a room in the summary of a plan tells its alias and the power level that is set.
pub proof fn law_summary_lines_tell_names_and_levels(room: Seq<char>, said: RoomPlan)
    ensures
        said.alias matches Some(alias) ==> is_part(alias@, summary_line(room, said)),
        said.power_level matches Some(level) ==> is_part(
            decimal(level as int),
            summary_line(room, said),
        ),
{
    let line = summary_line(room, said);
    let start = "  - "@ + room + " ("@ + (if said.invite {
        "invite,"@
    } else {
        Seq::empty()
    }) + (if said.join {
        "join"@
    } else {
        Seq::empty()
    }) + (if said.leave {
        "leave"@
    } else {
        Seq::empty()
    }) + ")"@;
    let alias = match said.alias {
        Some(alias) => " ["@ + alias@ + "]"@,
        None => Seq::empty(),
    };
    let level = match said.power_level {
        Some(level) => " (power="@ + decimal(level as int) + ")"@,
        None => Seq::empty(),
    };
    assert(line == start + alias + level + "\n"@);
    if said.alias is Some {
        lemma_inner(start, " ["@, said.alias->0@, "]"@, level + "\n"@);
        assert(start + alias + (level + "\n"@) =~= line);
    }
    if said.power_level is Some {
        let number = decimal(said.power_level->0 as int);
        lemma_inner(start + alias, " (power="@, number, ")"@, "\n"@);
    }
}

} // verus!
