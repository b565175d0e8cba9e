//! Which rooms a user has been invited to, and which invitations are being waited for.

use vstd::prelude::*;

use crate::text::texts;
use crate::text_map::TextMap;

verus! {

/// What is known about invitations to a room.
#[derive(Clone, Copy, PartialEq, Eq, Structural, Debug)]
pub enum InviteState {
    /// The user has not been invited to this room yet, and somebody is waiting for that.
    Pending,
    /// The user has already been invited to this room.
    Invited,
}

/// What is known about invitations.
pub struct Invites {
    rooms: TextMap<InviteState>,
}

impl View for Invites {
    type V = Map<Seq<char>, InviteState>;

    closed spec fn view(&self) -> Map<Seq<char>, InviteState> {
        self.rooms@
    }
}

/// What is known once somebody waits for an invitation.
pub open spec fn awaited(
    invites: Map<Seq<char>, InviteState>,
    room: Seq<char>,
) -> Map<Seq<char>, InviteState> {
    if invites.contains_key(room) {
        invites
    } else {
        invites.insert(room, InviteState::Pending)
    }
}

/// Whether the user was invited to a room.
pub open spec fn is_invited(invites: Map<Seq<char>, InviteState>, room: Seq<char>) -> bool {
    invites.contains_key(room) && invites[room] == InviteState::Invited
}

/// Whether somebody waits for an invitation to a room.
pub open spec fn is_pending(invites: Map<Seq<char>, InviteState>, room: Seq<char>) -> bool {
    invites.contains_key(room) && invites[room] == InviteState::Pending
}

/// What is known once invitations have arrived.
pub open spec fn received(
    invites: Map<Seq<char>, InviteState>,
    rooms: Seq<Seq<char>>,
) -> Map<Seq<char>, InviteState> {
    Map::new(
        |room: Seq<char>| invites.contains_key(room) || rooms.contains(room),
        |room: Seq<char>|
            if rooms.contains(room) {
                InviteState::Invited
            } else {
                invites[room]
            },
    )
}

/// The rooms whose invitations were waited for, in the order in which they arrived.
pub open spec fn notified(
    invites: Map<Seq<char>, InviteState>,
    rooms: Seq<Seq<char>>,
) -> Seq<Seq<char>>
    decreases rooms.len(),
{
    if rooms.len() == 0 {
        Seq::empty()
    } else {
        let earlier = rooms.drop_last();
        if is_pending(received(invites, earlier), rooms.last()) {
            notified(invites, earlier).push(rooms.last())
        } else {
            notified(invites, earlier)
        }
    }
}

impl Invites {
    /// No invitation has arrived, and none is waited for.
    pub fn new() -> (invites: Invites)
        ensures
            invites@ == Map::<Seq<char>, InviteState>::empty(),
    {
        Invites { rooms: TextMap::new() }
    }

    /// Somebody waits for an invitation. Returns whether it has arrived already.
    pub fn wait_for_invite(&mut self, room: String) -> (invited: bool)
        ensures
            final(self)@ == awaited(old(self)@, room@),
            invited == is_invited(old(self)@, room@),
    {
        match self.rooms.get(room.as_str()) {
            Some(state) => *state == InviteState::Invited,
            None => {
                self.rooms.insert(room, InviteState::Pending);
                false
            },
        }
    }

    /// Invitations have arrived. Returns the rooms whose invitations were waited for.
    pub fn receive(&mut self, rooms: Vec<String>) -> (waiting: Vec<String>)
        ensures
            final(self)@ == received(old(self)@, texts(rooms@)),
            texts(waiting@) == notified(old(self)@, texts(rooms@)),
    {
        let ghost before = self@;
        let ghost all = texts(rooms@);
        let mut waiting: Vec<String> = Vec::new();
        let mut i: usize = 0;
        proof {
            assert(all.take(0) =~= Seq::empty());
            assert(self@ =~= received(before, all.take(0)));
            assert(texts(waiting@) =~= Seq::empty());
        }
        while i < rooms.len()
            invariant
                all == texts(rooms@),
                0 <= i <= rooms@.len(),
                self@ == received(before, all.take(i as int)),
                texts(waiting@) == notified(before, all.take(i as int)),
            decreases rooms@.len() - i,
        {
            let room = &rooms[i];
            proof {
                assert(all.take(i + 1).drop_last() =~= all.take(i as int));
                assert(all.take(i + 1).last() == room@);
                assert(all.take(i + 1) =~= all.take(i as int).push(room@));
                broadcast use vstd::seq_lib::group_seq_properties;

                assert(received(before, all.take(i + 1)) =~= received(
                    before,
                    all.take(i as int),
                ).insert(room@, InviteState::Invited));
            }
            let pending = match self.rooms.get(room.as_str()) {
                Some(state) => *state == InviteState::Pending,
                None => false,
            };
            if pending {
                let ghost so_far = texts(waiting@);
                waiting.push(room.clone());
                assert(texts(waiting@) =~= so_far.push(room@));
            }
            self.rooms.insert(room.clone(), InviteState::Invited);
            i = i + 1;
        }
        assert(all.take(all.len() as int) =~= all);
        waiting
    }
}

/// What came of asking the server for news.
pub enum SyncEvent {
    /// The rooms that the user is invited to, and where the news continue.
    Response { invited: Vec<String>, next_batch: String },
    Failed,
}

/// What to do after asking the server for news.
pub enum SyncStep {
    /// Ask again for what comes after some point.
    Continue { since: String },
    Stop,
}

/// Takes in what came of asking the server for news. Besides what to do next, returns the rooms
/// whose invitations were waited for.
pub fn after_sync(invites: &mut Invites, event: SyncEvent) -> (next: (SyncStep, Vec<String>))
    ensures
        match event {
            SyncEvent::Response { invited, next_batch } => {
                &&& next.0 == (SyncStep::Continue { since: next_batch })
                &&& texts(next.1@) == notified(old(invites)@, texts(invited@))
                &&& final(invites)@ == received(old(invites)@, texts(invited@))
            },
            SyncEvent::Failed => {
                &&& next.0 is Stop
                &&& next.1@.len() == 0
                &&& *final(invites) == *old(invites)
            },
        },
{
    match event {
        SyncEvent::Response { invited, next_batch } => {
            let waiting = invites.receive(invited);
            (SyncStep::Continue { since: next_batch }, waiting)
        },
        SyncEvent::Failed => (SyncStep::Stop, Vec::new()),
    }
}

/// An invitation that has arrived stays known: waiting for it later takes no time, whatever
/// arrives and whoever waits in between.
pub proof fn law_invitations_are_remembered(
    invites: Map<Seq<char>, InviteState>,
    rooms: Seq<Seq<char>>,
    other: Seq<char>,
    room: Seq<char>,
)
    ensures
        rooms.contains(room) ==> is_invited(received(invites, rooms), room),
        is_invited(invites, room) ==> is_invited(received(invites, rooms), room) && is_invited(
            awaited(invites, other),
            room,
        ),
{
}

/// Whoever waits for an invitation is told when it arrives, and nobody else is; each room is told
/// once.
pub proof fn law_waiting_is_answered(
    invites: Map<Seq<char>, InviteState>,
    rooms: Seq<Seq<char>>,
    room: Seq<char>,
)
    ensures
        notified(invites, rooms).contains(room) <==> is_pending(invites, room) && rooms.contains(
            room,
        ),
        notified(invites, rooms).no_duplicates(),
    decreases rooms.len(),
{
    if rooms.len() > 0 {
        let earlier = rooms.drop_last();
        let last = rooms.last();
        law_waiting_is_answered(invites, earlier, room);
        law_waiting_is_answered(invites, earlier, last);
        assert(rooms =~= earlier.push(last));
        broadcast use vstd::seq_lib::group_seq_properties;

    }
}

} // verus!
