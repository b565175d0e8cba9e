# matrix-user-swap

A tool to migrate between matrix user accounts on the same homeserver.

## Migrated state

 - Joined rooms
 - User power level in each joined room
 - Tags in each joined room (the `m.tag` room account data event)
 - Direct message mappings (the `m.direct` global account data event)
 - Ignored users (the `m.ignored_user_list` global account data event)

Profiles, invited, left and knocked rooms, room history, push rules and client settings are not
migrated.

## Layout

The library under `src/` makes all decisions and is verified with Verus. It does no I/O: planning,
execution and the course of a run are state machines that ask for one thing at a time.

 - `text`, `text_map`: strings in order, and maps with string keys
 - `json`, `members`: raw JSON objects, merging and writing them
 - `ids`, `power_levels`, `state`: what the server says about users and rooms
 - `plan`, `room`, `direct`, `planner`: making a migration plan
 - `room_outcome`, `plan_outcome`: what planning arrives at, and laws about plans
 - `execute`, `execute_outcome`, `leave_outcome`: executing a plan, and what an execution does
 - `anonymize`, `messages`, `report`: what is shown to the user
 - `session`: the course of a run
 - `rate_limit`, `sync`: when requests may be made, and which invitations have arrived

The program under `app/` talks to the server and to the user.

## Usage

Acquire access tokens of the old and new accounts, or log in with user names and passwords:

```bash
matrix-user-swap --old-hs-url https://example.org --old-access-token ... \
    --new-hs-url https://example.org --new-user bob
```

`--dry-run` shows the plan without executing it. `--leave` lets the old user leave the rooms that
are fully migrated.
