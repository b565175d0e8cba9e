//! What is shown to the user about a plan.

use vstd::prelude::*;
use vstd::utf8::encode_utf8;

use crate::execute::GlobalData;
use crate::ids::{identity_text, RoomIdentity};
use crate::json::{array_object_text, array_object_to_text};
use crate::members::IGNORED_USERS_MEMBER;
use crate::messages::{display_with_sources, joined};
use crate::plan::{Plan, PlanError, RoomPlan, RoomPlanError};
use crate::text::{append_decimal, decimal};
use crate::text_map::{
    ascending, keys_of, law_contents_determine_entries, lemma_one_more, map_of, TextMap,
};

verus! {

/// The width of the column that holds the names of rooms.
pub const ROOM_WIDTH: usize = 48;

/// A number of spaces.
pub open spec fn spaces(n: int) -> Seq<char> {
    if n <= 0 {
        Seq::empty()
    } else {
        Seq::new(n as nat, |i: int| ' ')
    }
}

fn append_spaces(out: &mut String, n: usize)
    ensures
        final(out)@ == old(out)@ + spaces(n as int),
{
    let ghost before = out@;
    let mut i: usize = 0;
    assert(out@ =~= before + spaces(0));
    while i < n
        invariant
            0 <= i <= n,
            out@ == before + spaces(i as int),
        decreases n - i,
    {
        proof {
            reveal_strlit(" ");
        }
        out.append(" ");
        i = i + 1;
        assert(out@ =~= before + spaces(i as int));
    }
}

/// A cell of the table of rooms: the label, or as much space as the label takes.
pub open spec fn column(label: Seq<char>, enabled: bool) -> Seq<char> {
    if enabled {
        "  "@ + label
    } else {
        spaces(encode_utf8(label).len() as int + 2)
    }
}

/// Appends a cell to the table of rooms.
pub fn print_column(out: &mut String, label: &str, enabled: bool)
    ensures
        final(out)@ == old(out)@ + column(label@, enabled),
{
    if enabled {
        out.append("  ");
        out.append(label);
    } else {
        append_spaces(out, label.as_bytes().len());
        append_spaces(out, 2);
    }
    assert(out@ =~= old(out)@ + column(label@, enabled));
}

/// The name of a room, and space up to the next column. A name that is too long gets a line of its
/// own.
pub open spec fn name_cell(name: Seq<char>) -> Seq<char> {
    if encode_utf8(name).len() <= ROOM_WIDTH {
        name + spaces(ROOM_WIDTH - name.len())
    } else {
        name + "\n"@ + spaces(ROOM_WIDTH as int)
    }
}

fn print_name(out: &mut String, name: &str)
    ensures
        final(out)@ == old(out)@ + name_cell(name@),
{
    out.append(name);
    if name.as_bytes().len() <= ROOM_WIDTH {
        let len: usize = name.unicode_len();
        if len < ROOM_WIDTH {
            append_spaces(out, ROOM_WIDTH - len);
        }
    } else {
        out.append("\n");
        append_spaces(out, ROOM_WIDTH);
    }
    assert(out@ =~= old(out)@ + name_cell(name@));
}

/// What a room is called: its alias, or its ID.
pub open spec fn room_name(room: Seq<char>, alias: Option<String>) -> Seq<char> {
    match alias {
        Some(alias) => alias@,
        None => room,
    }
}

/// A room as it is shown: under its own alias, or under another.
pub struct ShownRoom<'a> {
    pub alias: Option<String>,
    pub plan: &'a RoomPlan,
}

/// What is shown about a room.
pub struct Row {
    pub room: Seq<char>,
    pub alias: Option<String>,
    pub plan: RoomPlan,
}

/// The rows for rooms that are shown.
pub open spec fn rows_of(rooms: Seq<(String, ShownRoom<'_>)>) -> Seq<Row> {
    rooms.map_values(
        |room: (String, ShownRoom<'_>)|
            Row { room: room.0@, alias: room.1.alias, plan: *room.1.plan },
    )
}

/// The rows for the rooms of a plan, under their own names.
pub open spec fn own_rows(plan: Plan) -> Seq<Row> {
    plan.rooms.entries().map_values(
        |room: (String, RoomPlan)| Row { room: room.0@, alias: room.1.alias, plan: room.1 },
    )
}

/// The line for a room.
pub open spec fn room_line(row: Row) -> Seq<char> {
    let plan = row.plan;
    name_cell(room_name(row.room, row.alias)) + column("errors"@, plan.errors@.len() > 0) + column(
        "invite"@,
        plan.invite,
    ) + column("join"@, plan.join) + column("leave"@, plan.leave) + column(
        "power_level"@,
        plan.power_level is Some,
    ) + column("tags"@, plan.account_data is Some) + "\n"@
}

/// Appending after some text is appending to what comes after that text.
proof fn lemma_append(start: Seq<char>, line: Seq<char>, more: Seq<char>)
    ensures
        start + line + more == start + (line + more),
{
    assert(start + line + more =~= start + (line + more));
}

fn print_room(out: &mut String, room: &str, shown: &ShownRoom<'_>)
    ensures
        final(out)@ == old(out)@ + room_line(
            Row { room: room@, alias: shown.alias, plan: *shown.plan },
        ),
{
    let plan = shown.plan;
    let ghost start = out@;
    let ghost name = name_cell(room_name(room@, shown.alias));
    let ghost errors = column("errors"@, plan.errors@.len() > 0);
    let ghost invite = column("invite"@, plan.invite);
    let ghost join = column("join"@, plan.join);
    let ghost leave = column("leave"@, plan.leave);
    let ghost level = column("power_level"@, plan.power_level is Some);
    let ghost tags = column("tags"@, plan.account_data is Some);
    match &shown.alias {
        Some(alias) => print_name(out, alias.as_str()),
        None => print_name(out, room),
    }
    print_column(out, "errors", plan.errors.len() > 0);
    print_column(out, "invite", plan.invite);
    print_column(out, "join", plan.join);
    print_column(out, "leave", plan.leave);
    print_column(out, "power_level", plan.power_level.is_some());
    print_column(out, "tags", plan.account_data.is_some());
    out.append("\n");
    proof {
        lemma_append(start, name, errors);
        lemma_append(start, name + errors, invite);
        lemma_append(start, name + errors + invite, join);
        lemma_append(start, name + errors + invite + join, leave);
        lemma_append(start, name + errors + invite + join + leave, level);
        lemma_append(start, name + errors + invite + join + leave + level, tags);
        lemma_append(start, name + errors + invite + join + leave + level + tags, "\n"@);
    }
}

/// The lines for the first `n` rooms.
pub open spec fn room_lines(rows: Seq<Row>, n: int) -> Seq<char>
    decreases n,
{
    if n <= 0 {
        Seq::empty()
    } else {
        room_lines(rows, n - 1) + room_line(rows[n - 1])
    }
}

/// What the columns of the table of rooms mean.
pub open spec fn key_text() -> Seq<char> {
    "\nKey:\n\
     \x20 errors: one or more errors were encountered, which may prevent completely \
     migrating this room\n\
     \x20 invite: the old user will invite the new user to this room\n\
     \x20 join: the new user will join this room\n\
     \x20 leave: the old user will leave this room\n\
     \x20 power_level: the old user will promote the new user to their current power level\n\
     \x20 tags: room tags (from the m.room.tags account data event) will be copied from the \
     old user to the new user\n"@
}

/// The list of global data that is migrated.
pub open spec fn global_text(plan: Plan) -> Seq<char> {
    if plan.direct is None && plan.ignored_users is None {
        Seq::empty()
    } else {
        "\nMigrating the following global account data events:\n"@ + (if plan.direct is Some {
            "  - "@ + GlobalData::Direct.spec_event_type() + "\n"@
        } else {
            Seq::empty()
        }) + (if plan.ignored_users is Some {
            "  - "@ + GlobalData::IgnoredUsers.spec_event_type() + "\n"@
        } else {
            Seq::empty()
        })
    }
}

fn print_global(out: &mut String, plan: &Plan)
    ensures
        final(out)@ == old(out)@ + global_text(*plan),
{
    if plan.direct.is_some() || plan.ignored_users.is_some() {
        out.append("\nMigrating the following global account data events:\n");
        if plan.direct.is_some() {
            out.append("  - ");
            out.append(GlobalData::Direct.event_type());
            out.append("\n");
        }
        if plan.ignored_users.is_some() {
            out.append("  - ");
            out.append(GlobalData::IgnoredUsers.event_type());
            out.append("\n");
        }
    }
    assert(out@ =~= old(out)@ + global_text(*plan));
}

/// The first `n` errors of a plan.
pub open spec fn plan_errors_text(errors: Seq<PlanError>, n: int) -> Seq<char>
    decreases n,
{
    if n <= 0 {
        Seq::empty()
    } else {
        plan_errors_text(errors, n - 1) + "\n  "@ + joined(
            errors[n - 1].spec_messages(),
            "\n    "@,
        ) + "\n"@
    }
}

/// The first `n` errors of a room.
pub open spec fn room_errors_text(errors: Seq<RoomPlanError>, n: int) -> Seq<char>
    decreases n,
{
    if n <= 0 {
        Seq::empty()
    } else {
        room_errors_text(errors, n - 1) + "    "@ + joined(
            errors[n - 1].spec_messages(),
            "\n      "@,
        ) + "\n"@
    }
}

/// The errors of a room, if there are any.
pub open spec fn room_problems_text(row: Row) -> Seq<char> {
    if row.plan.errors@.len() == 0 {
        Seq::empty()
    } else {
        "\n  In room "@ + identity_text(row.room, row.alias) + ":\n"@ + room_errors_text(
            row.plan.errors@,
            row.plan.errors@.len() as int,
        )
    }
}

/// The errors of the first `n` rooms.
pub open spec fn rooms_problems_text(rows: Seq<Row>, n: int) -> Seq<char>
    decreases n,
{
    if n <= 0 {
        Seq::empty()
    } else {
        rooms_problems_text(rows, n - 1) + room_problems_text(rows[n - 1])
    }
}

/// Whether there is any error to show.
pub open spec fn any_errors(plan: Plan, rows: Seq<Row>) -> bool {
    plan.errors@.len() > 0 || exists|i: int|
        0 <= i < rows.len() && (#[trigger] rows[i]).plan.errors@.len() > 0
}

/// All errors, if there are any.
pub open spec fn problems_text(plan: Plan, rows: Seq<Row>) -> Seq<char> {
    if any_errors(plan, rows) {
        "\nEncountered the following errors:\n"@ + plan_errors_text(
            plan.errors@,
            plan.errors@.len() as int,
        ) + rooms_problems_text(rows, rows.len() as int)
    } else {
        Seq::empty()
    }
}

/// The overview of a plan, with some rows for its rooms.
pub open spec fn overview_text(plan: Plan, rows: Seq<Row>) -> Seq<char> {
    "Attempting to migrate the following rooms:\n\n"@ + room_lines(rows, rows.len() as int)
        + key_text() + global_text(plan) + problems_text(plan, rows) + "\n"@
}

/// The overview of a plan.
pub open spec fn plan_text(plan: Plan) -> Seq<char> {
    overview_text(plan, own_rows(plan))
}

fn print_plan_errors(out: &mut String, errors: &Vec<PlanError>)
    ensures
        final(out)@ == old(out)@ + plan_errors_text(errors@, errors@.len() as int),
{
    let ghost before = out@;
    let mut i: usize = 0;
    assert(out@ =~= before + plan_errors_text(errors@, 0));
    while i < errors.len()
        invariant
            0 <= i <= errors@.len(),
            out@ == before + plan_errors_text(errors@, i as int),
        decreases errors@.len() - i,
    {
        out.append("\n  ");
        out.append(display_with_sources(&errors[i].messages(), "\n    ").as_str());
        out.append("\n");
        i = i + 1;
        assert(out@ =~= before + plan_errors_text(errors@, i as int));
    }
}

fn print_room_errors(out: &mut String, room: &str, shown: &ShownRoom<'_>)
    ensures
        final(out)@ == old(out)@ + room_problems_text(
            Row { room: room@, alias: shown.alias, plan: *shown.plan },
        ),
{
    let errors = &shown.plan.errors;
    if errors.len() > 0 {
        let alias = match &shown.alias {
            Some(alias) => Some(alias.clone()),
            None => None,
        };
        let identity = RoomIdentity { id: room.to_owned(), alias };
        out.append("\n  In room ");
        out.append(identity.to_text().as_str());
        out.append(":\n");
        let ghost before = out@;
        let mut i: usize = 0;
        assert(out@ =~= before + room_errors_text(errors@, 0));
        while i < errors.len()
            invariant
                0 <= i <= errors@.len(),
                out@ == before + room_errors_text(errors@, i as int),
            decreases errors@.len() - i,
        {
            out.append("    ");
            out.append(display_with_sources(&errors[i].messages(), "\n      ").as_str());
            out.append("\n");
            i = i + 1;
            assert(out@ =~= before + room_errors_text(errors@, i as int));
        }
    }
    assert(out@ =~= old(out)@ + room_problems_text(
        Row { room: room@, alias: shown.alias, plan: *shown.plan },
    ));
}

fn has_errors(plan: &Plan, rooms: &TextMap<ShownRoom<'_>>) -> (any: bool)
    ensures
        any == any_errors(*plan, rows_of(rooms.entries())),
{
    if plan.errors.len() > 0 {
        return true;
    }
    let ghost rows = rows_of(rooms.entries());
    let mut i: usize = 0;
    while i < rooms.len()
        invariant
            rows == rows_of(rooms.entries()),
            0 <= i <= rows.len(),
            forall|j: int| 0 <= j < i ==> (#[trigger] rows[j]).plan.errors@.len() == 0,
        decreases rows.len() - i,
    {
        if rooms.value_at(i).plan.errors.len() > 0 {
            assert(rows[i as int].plan.errors@.len() > 0);
            return true;
        }
        i = i + 1;
    }
    false
}

/// Writes the overview of a plan: what is done about each room, which global data is migrated, and
/// what went wrong so far. The rooms are shown as they are given.
pub fn print_overview(plan: &Plan, rooms: &TextMap<ShownRoom<'_>>) -> (text: String)
    ensures
        text@ == overview_text(*plan, rows_of(rooms.entries())),
{
    let mut out = String::from_str("Attempting to migrate the following rooms:\n\n");
    let ghost start = out@;
    let ghost rows = rows_of(rooms.entries());
    let mut i: usize = 0;
    assert(out@ =~= start + room_lines(rows, 0));
    while i < rooms.len()
        invariant
            rows == rows_of(rooms.entries()),
            0 <= i <= rows.len(),
            out@ == start + room_lines(rows, i as int),
        decreases rows.len() - i,
    {
        print_room(&mut out, rooms.key_at(i).as_str(), rooms.value_at(i));
        i = i + 1;
        assert(out@ =~= start + room_lines(rows, i as int));
    }
    out.append(
        "\nKey:\n\
     \x20 errors: one or more errors were encountered, which may prevent completely \
     migrating this room\n\
     \x20 invite: the old user will invite the new user to this room\n\
     \x20 join: the new user will join this room\n\
     \x20 leave: the old user will leave this room\n\
     \x20 power_level: the old user will promote the new user to their current power level\n\
     \x20 tags: room tags (from the m.room.tags account data event) will be copied from the \
     old user to the new user\n",
    );
    print_global(&mut out, plan);
    if has_errors(plan, rooms) {
        let ghost before = out@;
        out.append("\nEncountered the following errors:\n");
        print_plan_errors(&mut out, &plan.errors);
        let ghost listed = out@;
        let mut i: usize = 0;
        assert(out@ =~= listed + rooms_problems_text(rows, 0));
        while i < rooms.len()
            invariant
                rows == rows_of(rooms.entries()),
                0 <= i <= rows.len(),
                out@ == listed + rooms_problems_text(rows, i as int),
            decreases rows.len() - i,
        {
            print_room_errors(&mut out, rooms.key_at(i).as_str(), rooms.value_at(i));
            i = i + 1;
            assert(out@ =~= listed + rooms_problems_text(rows, i as int));
        }
        assert(out@ =~= before + problems_text(*plan, rows));
    }
    out.append("\n");
    assert(out@ =~= overview_text(*plan, rows));
    out
}

/// The rooms of a plan, to be shown under their own names.
fn list_rooms(plan: &Plan) -> (rooms: TextMap<ShownRoom<'_>>)
    ensures
        rows_of(rooms.entries()) == own_rows(*plan),
{
    let ghost all = plan.rooms.entries();
    let ghost wanted = all.map_values(
        |room: (String, RoomPlan)| (room.0, ShownRoom { alias: room.1.alias, plan: &room.1 }),
    );
    proof {
        use_type_invariant(&plan.rooms);
        assert(keys_of(wanted) =~= keys_of(all));
    }
    let mut rooms: TextMap<ShownRoom<'_>> = TextMap::new();
    let mut i: usize = 0;
    assert(rooms@ =~= map_of(wanted.take(0)));
    while i < plan.rooms.len()
        invariant
            all == plan.rooms.entries(),
            wanted == all.map_values(
                |room: (String, RoomPlan)|
                    (room.0, ShownRoom { alias: room.1.alias, plan: &room.1 }),
            ),
            ascending(keys_of(wanted)),
            0 <= i <= all.len(),
            rooms@ == map_of(wanted.take(i as int)),
        decreases all.len() - i,
    {
        let room = plan.rooms.value_at(i);
        let alias = match &room.alias {
            Some(alias) => Some(alias.clone()),
            None => None,
        };
        proof {
            lemma_one_more(wanted, i as int);
        }
        rooms.insert(plan.rooms.key_at(i).clone(), ShownRoom { alias, plan: room });
        i = i + 1;
    }
    proof {
        assert(wanted.take(wanted.len() as int) =~= wanted);
        use_type_invariant(&rooms);
        law_contents_determine_entries(rooms.entries(), wanted);
        assert(rows_of(rooms.entries()) =~= own_rows(*plan)) by {
            assert forall|j: int| 0 <= j < all.len() implies #[trigger] rows_of(
                rooms.entries(),
            )[j] == own_rows(*plan)[j] by {
                assert(rooms.entries()[j].0@ == wanted[j].0@);
            }
        }
    }
    rooms
}

/// Writes the overview of a plan, with the rooms under their own names.
pub fn print_plan(plan: &Plan) -> (text: String)
    ensures
        text@ == plan_text(*plan),
{
    let rooms = list_rooms(plan);
    print_overview(plan, &rooms)
}

/// What the tool cannot see or do.
pub open spec fn warnings_text() -> Seq<char> {
    "Warning: the tool will only attempt to migrate the following account data event types. It is \
     possible that there are other account data events that should be migrated, but the tool \
     doesn't have support for. There is no efficient way to determine a full list of account data \
     events for a user, so there will be no warnings for unrecognized types:\n \
     - m.direct (global)\n \
     - m.ignored_user_list (global)\n \
     - m.tag (per-room)\n\n\
     Warning: the tool will warn about rooms where the current history visibility setting may \
     result in lost history when the old user leaves the room. There is no efficient way to \
     determine whether a previous history visibility setting may result in lost history, so this \
     check may have false negatives.\n\n\
     Warning: the tool does not currently attempt to migrate per-room avatars or displaynames.\n"@
}

/// Writes what the tool cannot see or do.
pub fn print_warnings() -> (text: String)
    ensures
        text@ == warnings_text(),
{
    String::from_str(
        "Warning: the tool will only attempt to migrate the following account data event types. It is \
     possible that there are other account data events that should be migrated, but the tool \
     doesn't have support for. There is no efficient way to determine a full list of account data \
     events for a user, so there will be no warnings for unrecognized types:\n \
     - m.direct (global)\n \
     - m.ignored_user_list (global)\n \
     - m.tag (per-room)\n\n\
     Warning: the tool will warn about rooms where the current history visibility setting may \
     result in lost history when the old user leaves the room. There is no efficient way to \
     determine whether a previous history visibility setting may result in lost history, so this \
     check may have false negatives.\n\n\
     Warning: the tool does not currently attempt to migrate per-room avatars or displaynames.\n",
    )
}

/// The line for a room in the summary of a plan.
pub open spec fn summary_line(room: Seq<char>, plan: RoomPlan) -> Seq<char> {
    "  - "@ + room + " ("@ + (if plan.invite {
        "invite,"@
    } else {
        Seq::empty()
    }) + (if plan.join {
        "join"@
    } else {
        Seq::empty()
    }) + (if plan.leave {
        "leave"@
    } else {
        Seq::empty()
    }) + ")"@ + (match plan.alias {
        Some(alias) => " ["@ + alias@ + "]"@,
        None => Seq::empty(),
    }) + (match plan.power_level {
        Some(level) => " (power="@ + decimal(level as int) + ")"@,
        None => Seq::empty(),
    }) + "\n"@
}

/// The lines for the first `n` rooms in the summary of a plan.
pub open spec fn summary_lines(rooms: Seq<(String, RoomPlan)>, n: int) -> Seq<char>
    decreases n,
{
    if n <= 0 {
        Seq::empty()
    } else {
        summary_lines(rooms, n - 1) + summary_line(rooms[n - 1].0@, rooms[n - 1].1)
    }
}

/// The summary of a plan: the new user, the rooms, and the global data that is set.
pub open spec fn summary_text(plan: Plan) -> Seq<char> {
    "New userid: "@ + plan.new_user_id@ + "\nRooms:\n"@ + summary_lines(
        plan.rooms.entries(),
        plan.rooms.entries().len() as int,
    ) + "Global account data:\n"@ + (match plan.direct {
        Some(direct) => GlobalData::Direct.spec_event_type() + ": "@ + array_object_text(
            direct.entries(),
        ) + "\n"@,
        None => Seq::empty(),
    }) + (match plan.ignored_users {
        Some(users) => GlobalData::IgnoredUsers.spec_event_type() + ": "@ + users.text(
            IGNORED_USERS_MEMBER@,
        ) + "\n"@,
        None => Seq::empty(),
    })
}

fn summary_room(room: &str, plan: &RoomPlan) -> (line: String)
    ensures
        line@ == summary_line(room@, *plan),
{
    let mut line = String::from_str("  - ");
    line.append(room);
    line.append(" (");
    let ghost mut so_far = "  - "@ + room@ + " ("@;
    if plan.invite {
        line.append("invite,");
    }
    proof {
        so_far = so_far + (if plan.invite {
            "invite,"@
        } else {
            Seq::empty()
        });
        assert(line@ =~= so_far);
    }
    if plan.join {
        line.append("join");
    }
    proof {
        so_far = so_far + (if plan.join {
            "join"@
        } else {
            Seq::empty()
        });
        assert(line@ =~= so_far);
    }
    if plan.leave {
        line.append("leave");
    }
    proof {
        so_far = so_far + (if plan.leave {
            "leave"@
        } else {
            Seq::empty()
        });
        assert(line@ =~= so_far);
    }
    line.append(")");
    proof {
        so_far = so_far + ")"@;
    }
    match &plan.alias {
        Some(alias) => {
            line.append(" [");
            line.append(alias.as_str());
            line.append("]");
            proof {
                so_far = so_far + (" ["@ + alias@ + "]"@);
            }
        },
        None => {
            proof {
                so_far = so_far + Seq::<char>::empty();
            }
        },
    }
    assert(line@ =~= so_far);
    match plan.power_level {
        Some(level) => {
            line.append(" (power=");
            append_decimal(&mut line, level);
            line.append(")");
            proof {
                so_far = so_far + (" (power="@ + decimal(level as int) + ")"@);
            }
        },
        None => {
            proof {
                so_far = so_far + Seq::<char>::empty();
            }
        },
    }
    assert(line@ =~= so_far);
    line.append("\n");
    line
}

/// Writes the summary of a plan.
pub fn summarize_plan(plan: &Plan) -> (text: String)
    ensures
        text@ == summary_text(*plan),
{
    let mut out = String::from_str("New userid: ");
    out.append(plan.new_user_id.as_str());
    out.append("\nRooms:\n");
    let ghost start = out@;
    let ghost rooms = plan.rooms.entries();
    let mut i: usize = 0;
    assert(out@ =~= start + summary_lines(rooms, 0));
    while i < plan.rooms.len()
        invariant
            rooms == plan.rooms.entries(),
            0 <= i <= rooms.len(),
            out@ == start + summary_lines(rooms, i as int),
        decreases rooms.len() - i,
    {
        out.append(
            summary_room(plan.rooms.key_at(i).as_str(), plan.rooms.value_at(i)).as_str(),
        );
        i = i + 1;
        assert(out@ =~= start + summary_lines(rooms, i as int));
    }
    out.append("Global account data:\n");
    let ghost before_direct = out@;
    match &plan.direct {
        Some(direct) => {
            out.append(GlobalData::Direct.event_type());
            out.append(": ");
            out.append(array_object_to_text(direct).as_str());
            out.append("\n");
            assert(out@ =~= before_direct + (GlobalData::Direct.spec_event_type() + ": "@
                + array_object_text(direct.entries()) + "\n"@));
        },
        None => {
            assert(out@ =~= before_direct + Seq::<char>::empty());
        },
    }
    let ghost before_ignored = out@;
    match &plan.ignored_users {
        Some(users) => {
            out.append(GlobalData::IgnoredUsers.event_type());
            out.append(": ");
            out.append(users.to_text(IGNORED_USERS_MEMBER).as_str());
            out.append("\n");
            assert(out@ =~= before_ignored + (GlobalData::IgnoredUsers.spec_event_type() + ": "@
                + users.text(IGNORED_USERS_MEMBER@) + "\n"@));
        },
        None => {
            assert(out@ =~= before_ignored + Seq::<char>::empty());
        },
    }
    out
}

} // verus!
