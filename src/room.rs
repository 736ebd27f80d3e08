//! A room: an open/closed flag, two timestamps and an ordered, bounded list of
//! members.
use vstd::prelude::*;

verus! {

/// The most members that a room holds at once.
pub const MAX_ROOM_SIZE: usize = 15;

/// One connected client, as a room records it.
pub struct Member {
    pub id: u128,
    pub username: String,
}

impl Member {
    pub fn new(id: u128, username: String) -> (r: Member)
        ensures
            r.id == id,
            r.username == username,
    {
        Member { id, username }
    }

    /// A copy of this member record.
    pub fn duplicate(&self) -> (r: Member)
        ensures
            r == *self,
    {
        Member { id: self.id, username: self.username.clone() }
    }
}

/// A broadcast group. Timestamps are ticks of a monotonic clock.
pub struct Room {
    pub id: u128,
    pub is_open: bool,
    pub created_at: u64,
    pub last_active: u64,
    pub members: Vec<Member>,
}

/// Why a join was refused.
#[derive(Debug, Clone, Copy, PartialEq, Eq, Structural)]
pub enum JoinError {
    RoomNotFound,
    RoomClosed,
    RoomFull,
}

impl JoinError {
    /// The human-readable reason sent to a client.
    pub fn reason(&self) -> (r: String)
        ensures
            r@ == self.reason_text(),
    {
        match self {
            JoinError::RoomNotFound => "Room not found".to_string(),
            JoinError::RoomClosed => "Room is closed".to_string(),
            JoinError::RoomFull => "Room is full".to_string(),
        }
    }
}

impl JoinError {
    pub open spec fn reason_text(&self) -> Seq<char> {
        match self {
            JoinError::RoomNotFound => "Room not found"@,
            JoinError::RoomClosed => "Room is closed"@,
            JoinError::RoomFull => "Room is full"@,
        }
    }
}

impl Room {
    /// A room's own invariant: bounded membership, and activity never before
    /// creation.
    pub open spec fn wf(&self) -> bool {
        &&& self.members@.len() <= MAX_ROOM_SIZE
        &&& self.created_at <= self.last_active
    }

    /// An empty open room created at `now`.
    pub fn new(id: u128, now: u64) -> (r: Room)
        ensures
            r.wf(),
            r.id == id,
            r.is_open,
            r.created_at == now,
            r.last_active == now,
            r.members@ == Seq::<Member>::empty(),
    {
        Room { id, is_open: true, created_at: now, last_active: now, members: Vec::new() }
    }

    /// Moves the activity time forward to `now`; a clock reading older than the
    /// last one leaves it as it is.
    pub fn touch(&mut self, now: u64)
        ensures
            final(self).last_active == later(old(self).last_active, now),
            final(self).id == old(self).id,
            final(self).is_open == old(self).is_open,
            final(self).created_at == old(self).created_at,
            final(self).members == old(self).members,
    {
        if now > self.last_active {
            self.last_active = now;
        }
    }
}

/// The later of two clock readings.
pub open spec fn later(a: u64, b: u64) -> u64 {
    if a >= b { a } else { b }
}

/// The member list with every member of id `id` taken out, the order of the
/// others kept.
pub open spec fn without(members: Seq<Member>, id: u128) -> Seq<Member> {
    members.filter(|m: Member| m.id != id)
}

/// Leaving is harmless for a stranger: taking out an id that no member has
/// leaves the member list exactly as it was.
pub proof fn lemma_leave_non_member(members: Seq<Member>, id: u128)
    requires
        forall|i: int| 0 <= i < members.len() ==> #[trigger] members[i].id != id,
    ensures
        without(members, id) == members,
    decreases members.len(),
{
    reveal(Seq::filter);
    if members.len() > 0 {
        let d = members.drop_last();
        assert forall|i: int| 0 <= i < d.len() implies #[trigger] d[i].id != id by {
            assert(d[i] == members[i]);
        }
        lemma_leave_non_member(d, id);
        assert(members.last().id != id);
        assert(d.push(members.last()) =~= members);
    }
}

} // verus!
