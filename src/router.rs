//! Broadcast fan-out: one envelope per member of a room, in membership order.
use vstd::prelude::*;

use crate::protocol::{Envelope, ServerMessage};
use crate::registry::RoomRegistry;
use crate::room::Member;

verus! {

/// The envelopes that carry `message` to each of `members`, in their order.
pub open spec fn fanned(members: Seq<Member>, message: ServerMessage) -> Seq<Envelope> {
    members.map_values(|m: Member| Envelope { to: m.id, message })
}

/// The envelopes of a run of broadcasts to the same members, one after another.
pub open spec fn fanned_all(members: Seq<Member>, messages: Seq<ServerMessage>) -> Seq<Envelope>
    decreases messages.len(),
{
    if messages.len() == 0 {
        Seq::empty()
    } else {
        fanned_all(members, messages.drop_last()) + fanned(members, messages.last())
    }
}

/// What the queue of member `who` receives from a run of envelopes, in order.
pub open spec fn inbox(out: Seq<Envelope>, who: u128) -> Seq<ServerMessage>
    decreases out.len(),
{
    if out.len() == 0 {
        Seq::empty()
    } else if out.last().to == who {
        inbox(out.drop_last(), who).push(out.last().message)
    } else {
        inbox(out.drop_last(), who)
    }
}

/// No two members share an id.
pub open spec fn distinct_ids(members: Seq<Member>) -> bool {
    forall|a: int, b: int|
        0 <= a < members.len() && 0 <= b < members.len() && a != b ==> members[a].id
            != members[b].id
}

/// Some member has id `who`.
pub open spec fn has_member(members: Seq<Member>, who: u128) -> bool {
    exists|i: int| 0 <= i < members.len() && #[trigger] members[i].id == who
}

proof fn lemma_inbox_concat(a: Seq<Envelope>, b: Seq<Envelope>, who: u128)
    ensures
        inbox(a + b, who) == inbox(a, who) + inbox(b, who),
    decreases b.len(),
{
    if b.len() == 0 {
        assert(a + b =~= a);
        assert(inbox(b, who) =~= Seq::<ServerMessage>::empty());
        assert(inbox(a, who) + inbox(b, who) =~= inbox(a, who));
    } else {
        assert((a + b).drop_last() =~= a + b.drop_last());
        assert((a + b).last() == b.last());
        lemma_inbox_concat(a, b.drop_last(), who);
        if b.last().to == who {
            assert(inbox(a, who) + inbox(b.drop_last(), who).push(b.last().message) =~= (inbox(
                a,
                who,
            ) + inbox(b.drop_last(), who)).push(b.last().message));
        }
    }
}

proof fn lemma_inbox_fanned(members: Seq<Member>, message: ServerMessage, who: u128)
    requires
        distinct_ids(members),
    ensures
        inbox(fanned(members, message), who) == if has_member(members, who) {
            seq![message]
        } else {
            Seq::<ServerMessage>::empty()
        },
    decreases members.len(),
{
    let out = fanned(members, message);
    if members.len() > 0 {
        let d = members.drop_last();
        assert(out.drop_last() =~= fanned(d, message));
        assert(distinct_ids(d));
        lemma_inbox_fanned(d, message, who);
        if has_member(d, who) {
            let i = choose|i: int| 0 <= i < d.len() && #[trigger] d[i].id == who;
            assert(members[i].id == who);
        }
        if has_member(members, who) && members.last().id != who {
            let i = choose|i: int| 0 <= i < members.len() && #[trigger] members[i].id == who;
            assert(d[i].id == who);
        }
        if members.last().id == who {
            assert(members[members.len() - 1].id == who);
            assert(!has_member(d, who));
            assert(Seq::<ServerMessage>::empty().push(message) =~= seq![message]);
        }
    }
}

/// Broadcasts reach every member in the order they were issued: after a run of
/// broadcasts to a room whose membership does not change, each member's queue
/// receives exactly the messages of the run, in send order, the sender's own
/// queue included.
pub proof fn lemma_broadcast_order(
    members: Seq<Member>,
    messages: Seq<ServerMessage>,
    who: u128,
)
    requires
        distinct_ids(members),
        has_member(members, who),
    ensures
        inbox(fanned_all(members, messages), who) == messages,
    decreases messages.len(),
{
    if messages.len() > 0 {
        lemma_broadcast_order(members, messages.drop_last(), who);
        lemma_inbox_concat(
            fanned_all(members, messages.drop_last()),
            fanned(members, messages.last()),
            who,
        );
        lemma_inbox_fanned(members, messages.last(), who);
        assert(messages.drop_last().push(messages.last()) =~= messages);
        assert(messages.drop_last() + seq![messages.last()] =~= messages);
    } else {
        assert(messages =~= Seq::<ServerMessage>::empty());
    }
}

/// The envelopes that carry `message` to each member of `members`, in order.
pub fn fan_out(members: &Vec<Member>, message: &ServerMessage) -> (r: Vec<Envelope>)
    ensures
        r@ == fanned(members@, *message),
{
    let mut out: Vec<Envelope> = Vec::new();
    let mut i: usize = 0;
    while i < members.len()
        invariant
            i <= members@.len(),
            out@ == fanned(members@.take(i as int), *message),
        decreases members@.len() - i,
    {
        out.push(Envelope { to: members[i].id, message: message.duplicate() });
        proof {
            assert(fanned(members@.take(i + 1), *message) =~= fanned(
                members@.take(i as int),
                *message,
            ).push(Envelope { to: members@[i as int].id, message: *message }));
        }
        i += 1;
    }
    proof {
        assert(members@.take(i as int) =~= members@);
    }
    out
}

/// Fans `message` out to the current members of room `room_id`: nothing where
/// the room is not live.
pub fn deliver(registry: &RoomRegistry, room_id: u128, message: &ServerMessage) -> (r: Vec<
    Envelope,
>)
    requires
        registry.wf(),
    ensures
        registry@.contains_key(room_id) ==> r@ == fanned(registry@[room_id].members@, *message),
        !registry@.contains_key(room_id) ==> r@.len() == 0,
{
    match registry.room(room_id) {
        Some(room) => fan_out(&room.members, message),
        None => Vec::new(),
    }
}

} // verus!
