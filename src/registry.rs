//! The registry of live rooms: the single table of rooms that every session
//! reads and changes.
use vstd::prelude::*;

use crate::ids::fresh_uuid;
use crate::room::{later, without, JoinError, Member, Room, MAX_ROOM_SIZE};

verus! {

/// No two rooms of the list share an id.
pub open spec fn ids_unique(rooms: Seq<Room>) -> bool {
    forall|a: int, b: int|
        0 <= a < rooms.len() && 0 <= b < rooms.len() && a != b ==> rooms[a].id != rooms[b].id
}

/// The list holds a room of id `id`.
pub open spec fn has_room(rooms: Seq<Room>, id: u128) -> bool {
    exists|i: int| 0 <= i < rooms.len() && #[trigger] rooms[i].id == id
}

/// The room of id `id` in the list.
pub open spec fn room_of(rooms: Seq<Room>, id: u128) -> Room {
    rooms[choose|i: int| 0 <= i < rooms.len() && #[trigger] rooms[i].id == id]
}

/// A list of rooms read as a table from room id to room.
pub open spec fn rooms_map(rooms: Seq<Room>) -> Map<u128, Room> {
    Map::new(|id: u128| has_room(rooms, id), |id: u128| room_of(rooms, id))
}

/// `after` is `before` with `member` appended and activity moved to `now`.
pub open spec fn joined(before: Room, after: Room, member: Member, now: u64) -> bool {
    &&& after.id == before.id
    &&& after.is_open == before.is_open
    &&& after.created_at == before.created_at
    &&& after.last_active == later(before.last_active, now)
    &&& after.members@ == before.members@.push(member)
}

/// `after` is `before` without the members of id `member_id`, activity moved to
/// `now`.
pub open spec fn left(before: Room, after: Room, member_id: u128, now: u64) -> bool {
    &&& after.id == before.id
    &&& after.is_open == before.is_open
    &&& after.created_at == before.created_at
    &&& after.last_active == later(before.last_active, now)
    &&& after.members@ == without(before.members@, member_id)
}

/// `after` is `before` with its activity moved to `now`.
pub open spec fn touched(before: Room, after: Room, now: u64) -> bool {
    &&& after.id == before.id
    &&& after.is_open == before.is_open
    &&& after.created_at == before.created_at
    &&& after.last_active == later(before.last_active, now)
    &&& after.members == before.members
}

/// `after` is a fresh, empty, open room of id `id` created at `now`.
pub open spec fn fresh_room(after: Room, id: u128, now: u64) -> bool {
    &&& after.id == id
    &&& after.is_open
    &&& after.created_at == now
    &&& after.last_active == now
    &&& after.members@.len() == 0
}

/// The two tables agree on every room but `id`, and hold the same ids.
pub open spec fn same_except(a: Map<u128, Room>, b: Map<u128, Room>, id: u128) -> bool {
    &&& a.dom() == b.dom()
    &&& forall|k: u128| #[trigger] a.contains_key(k) && k != id ==> a[k] == b[k]
}

proof fn lemma_room_at(s: Seq<Room>, i: int)
    requires
        ids_unique(s),
        0 <= i < s.len(),
    ensures
        has_room(s, s[i].id),
        rooms_map(s).contains_key(s[i].id),
        rooms_map(s)[s[i].id] == s[i],
{
    assert(has_room(s, s[i].id));
    let j = choose|j: int| 0 <= j < s.len() && #[trigger] s[j].id == s[i].id;
    assert(j == i);
}

proof fn lemma_push(s: Seq<Room>, r: Room)
    requires
        ids_unique(s),
        !has_room(s, r.id),
    ensures
        ids_unique(s.push(r)),
        rooms_map(s.push(r)) == rooms_map(s).insert(r.id, r),
{
    let t = s.push(r);
    assert forall|a: int| 0 <= a < s.len() implies t[a].id != r.id by {
        assert(t[a] == s[a]);
    }
    assert(ids_unique(t));
    assert forall|k: u128| #[trigger] has_room(t, k) == (has_room(s, k) || k == r.id) by {
        if has_room(s, k) {
            let i = choose|i: int| 0 <= i < s.len() && #[trigger] s[i].id == k;
            assert(t[i].id == k);
        }
        if k == r.id {
            assert(t[s.len() as int].id == k);
        }
        if has_room(t, k) && k != r.id {
            let i = choose|i: int| 0 <= i < t.len() && #[trigger] t[i].id == k;
            assert(s[i].id == k);
        }
    }
    assert forall|k: u128| has_room(t, k) implies #[trigger] room_of(t, k) == rooms_map(
        s,
    ).insert(r.id, r)[k] by {
        if k == r.id {
            lemma_room_at(t, s.len() as int);
        } else {
            let i = choose|i: int| 0 <= i < s.len() && #[trigger] s[i].id == k;
            lemma_room_at(s, i);
            lemma_room_at(t, i);
        }
    }
    assert(rooms_map(t) =~= rooms_map(s).insert(r.id, r));
}

proof fn lemma_update(s: Seq<Room>, i: int, r: Room)
    requires
        ids_unique(s),
        0 <= i < s.len(),
        r.id == s[i].id,
    ensures
        ids_unique(s.update(i, r)),
        rooms_map(s.update(i, r)) == rooms_map(s).insert(r.id, r),
{
    let t = s.update(i, r);
    assert(ids_unique(t));
    assert forall|k: u128| #[trigger] has_room(t, k) == has_room(s, k) by {
        if has_room(s, k) {
            let j = choose|j: int| 0 <= j < s.len() && #[trigger] s[j].id == k;
            assert(t[j].id == k);
        }
        if has_room(t, k) {
            let j = choose|j: int| 0 <= j < t.len() && #[trigger] t[j].id == k;
            assert(s[j].id == k);
        }
    }
    assert forall|k: u128| has_room(t, k) implies #[trigger] room_of(t, k) == rooms_map(
        s,
    ).insert(r.id, r)[k] by {
        let j = choose|j: int| 0 <= j < s.len() && #[trigger] s[j].id == k;
        lemma_room_at(s, j);
        lemma_room_at(t, j);
    }
    assert(rooms_map(t) =~= rooms_map(s).insert(r.id, r));
}

/// The rooms that the pruning keeps: those with at least one member.
pub open spec fn occupied() -> spec_fn(Room) -> bool {
    |r: Room| r.members@.len() > 0
}

proof fn lemma_filter_rooms(s: Seq<Room>, p: spec_fn(Room) -> bool)
    requires
        ids_unique(s),
    ensures
        ids_unique(s.filter(p)),
        forall|k: u128|
            #![trigger has_room(s.filter(p), k)]
            has_room(s.filter(p), k) <==> has_room(s, k) && p(room_of(s, k)),
        forall|k: u128| #[trigger]
            has_room(s.filter(p), k) ==> room_of(s.filter(p), k) == room_of(s, k),
    decreases s.len(),
{
    reveal(Seq::filter);
    let f = s.filter(p);
    if s.len() > 0 {
        let d = s.drop_last();
        assert(ids_unique(d));
        lemma_filter_rooms(d, p);
        let fd = d.filter(p);
        if p(s.last()) {
            assert forall|a: int| 0 <= a < fd.len() implies fd[a].id != s.last().id by {
                assert(fd.contains(fd[a]));
                d.lemma_filter_contains_rev(p, fd[a]);
                let i = choose|i: int| 0 <= i < d.len() && d[i] == fd[a];
                assert(s[i] == d[i]);
            }
            assert(f == fd.push(s.last()));
            assert(ids_unique(f));
        } else {
            assert(f == fd);
        }
    }
    broadcast use vstd::seq_lib::group_filter_ensures;

    assert forall|k: u128| #[trigger]
        has_room(f, k) implies has_room(s, k) && p(room_of(s, k)) && room_of(f, k) == room_of(
        s,
        k,
    ) by {
        let j = choose|j: int| 0 <= j < f.len() && #[trigger] f[j].id == k;
        assert(f.contains(f[j]));
        s.lemma_filter_contains_rev(p, f[j]);
        let i = choose|i: int| 0 <= i < s.len() && s[i] == f[j];
        lemma_room_at(s, i);
        lemma_room_at(f, j);
    }
    assert forall|k: u128| has_room(s, k) && p(room_of(s, k)) implies #[trigger] has_room(
        f,
        k,
    ) by {
        let i = choose|i: int| 0 <= i < s.len() && #[trigger] s[i].id == k;
        lemma_room_at(s, i);
        assert(f.contains(s[i]));
        let j = choose|j: int| 0 <= j < f.len() && f[j] == s[i];
        assert(f[j].id == k);
    }
}

/// Capacity holds in every reachable state: every operation keeps the
/// registry well formed, and in a well-formed registry no room has more than
/// `MAX_ROOM_SIZE` members.
pub proof fn lemma_rooms_within_capacity(registry: &RoomRegistry)
    requires
        registry.wf(),
    ensures
        forall|k: u128| #[trigger]
            registry@.contains_key(k) ==> registry@[k].members@.len() <= MAX_ROOM_SIZE,
{
    registry.lemma_view();
}

/// Room ids are never reused: an id that named a room at some point, even one
/// pruned since, is never the id of a room created later. `later` is any
/// registry that the operations reach from `earlier` (each keeps or grows the
/// issued ids), and `created` an id that `create_room` returned there.
pub proof fn lemma_room_id_not_reused(
    earlier: &RoomRegistry,
    later: &RoomRegistry,
    old_id: u128,
    created: u128,
)
    requires
        earlier.wf(),
        earlier@.contains_key(old_id),
        earlier.issued().subset_of(later.issued()),
        !later.issued().contains(created),
    ensures
        created != old_id,
{
    earlier.lemma_view();
}

/// Every live room, and every room id ever handed out.
pub struct RoomRegistry {
    rooms: Vec<Room>,
    issued: Vec<u128>,
}

impl View for RoomRegistry {
    type V = Map<u128, Room>;

    closed spec fn view(&self) -> Map<u128, Room> {
        rooms_map(self.rooms@)
    }
}

/// How many fresh ids `create_room` draws before it gives up.
pub const CREATE_ATTEMPTS: usize = 8;

impl RoomRegistry {
    /// Every room id that this registry has ever handed out.
    pub closed spec fn issued(&self) -> Set<u128> {
        self.issued@.to_set()
    }

    /// The registry's invariant: room ids are unique, each room keeps its own
    /// invariant, and every live room's id was issued.
    pub closed spec fn wf(&self) -> bool {
        &&& ids_unique(self.rooms@)
        &&& forall|i: int| 0 <= i < self.rooms@.len() ==> (#[trigger] self.rooms@[i]).wf()
        &&& forall|i: int|
            0 <= i < self.rooms@.len() ==> self.issued@.contains(#[trigger] self.rooms@[i].id)
    }

    /// What a well-formed registry says of its table: each room is filed under
    /// its own id, keeps its invariant, and has an issued id.
    pub proof fn lemma_view(&self)
        requires
            self.wf(),
        ensures
            forall|k: u128| #[trigger]
                self@.contains_key(k) ==> self@[k].id == k && self@[k].wf() && self.issued().contains(k),
    {
        assert forall|k: u128| #[trigger]
            self@.contains_key(k) implies self@[k].id == k && self@[k].wf() && self.issued().contains(
            k,
        ) by {
            let i = choose|i: int| 0 <= i < self.rooms@.len() && #[trigger] self.rooms@[i].id == k;
            lemma_room_at(self.rooms@, i);
        }
    }

    /// An empty registry.
    pub fn new() -> (r: RoomRegistry)
        ensures
            r.wf(),
            r@ == Map::<u128, Room>::empty(),
            r.issued() == Set::<u128>::empty(),
    {
        let r = RoomRegistry { rooms: Vec::new(), issued: Vec::new() };
        assert(r@ =~= Map::<u128, Room>::empty());
        assert(r.issued() =~= Set::<u128>::empty());
        r
    }

    /// The position of the room of id `id`, if there is one.
    fn find(&self, id: u128) -> (r: Option<usize>)
        requires
            self.wf(),
        ensures
            match r {
                Some(i) => i < self.rooms@.len() && self.rooms@[i as int].id == id,
                None => !has_room(self.rooms@, id),
            },
    {
        let mut i: usize = 0;
        while i < self.rooms.len()
            invariant
                i <= self.rooms@.len(),
                forall|j: int| 0 <= j < i ==> #[trigger] self.rooms@[j].id != id,
            decreases self.rooms@.len() - i,
        {
            if self.rooms[i].id == id {
                return Some(i);
            }
            i += 1;
        }
        None
    }

    /// Whether `id` was ever handed out.
    fn was_issued(&self, id: u128) -> (r: bool)
        ensures
            r == self.issued().contains(id),
    {
        let mut i: usize = 0;
        while i < self.issued.len()
            invariant
                i <= self.issued@.len(),
                forall|j: int| 0 <= j < i ==> #[trigger] self.issued@[j] != id,
            decreases self.issued@.len() - i,
        {
            if self.issued[i] == id {
                assert(self.issued@.contains(id));
                return true;
            }
            i += 1;
        }
        false
    }

    /// Whether a room of id `id` is live.
    pub fn contains_room(&self, id: u128) -> (r: bool)
        requires
            self.wf(),
        ensures
            r == self@.contains_key(id),
    {
        self.find(id).is_some()
    }

    /// Opens an empty room under `candidate`, unless that id was ever handed out
    /// before, live or pruned: then nothing changes and the result is `None`.
    pub fn create_room_with_id(&mut self, candidate: u128, now: u64) -> (r: Option<u128>)
        requires
            old(self).wf(),
        ensures
            final(self).wf(),
            r is None <==> old(self).issued().contains(candidate),
            r is None ==> final(self)@ == old(self)@ && final(self).issued() == old(self).issued(),
            r is Some ==> {
                &&& r == Some(candidate)
                &&& final(self).issued() == old(self).issued().insert(candidate)
                &&& !old(self)@.contains_key(candidate)
                &&& final(self)@.dom() == old(self)@.dom().insert(candidate)
                &&& forall|k: u128| #[trigger]
                    old(self)@.contains_key(k) ==> final(self)@[k] == old(self)@[k]
                &&& fresh_room(final(self)@[candidate], candidate, now)
            },
    {
        if self.was_issued(candidate) {
            return None;
        }
        let room = Room::new(candidate, now);
        proof {
            if has_room(self.rooms@, candidate) {
                let i = choose|i: int|
                    0 <= i < self.rooms@.len() && #[trigger] self.rooms@[i].id == candidate;
                assert(self.issued@.contains(self.rooms@[i].id));
            }
            lemma_push(self.rooms@, room);
        }
        let ghost old_issued = self.issued@;
        self.rooms.push(room);
        self.issued.push(candidate);
        proof {
            assert(self.issued@.to_set() =~= old_issued.to_set().insert(candidate)) by {
                assert forall|x: u128| self.issued@.contains(x) <==> (old_issued.contains(x) || x
                    == candidate) by {
                    if old_issued.contains(x) {
                        let j = choose|j: int| 0 <= j < old_issued.len() && old_issued[j] == x;
                        assert(self.issued@[j] == x);
                    }
                    if self.issued@.contains(x) && x != candidate {
                        let j = choose|j: int| 0 <= j < self.issued@.len() && self.issued@[j] == x;
                        assert(old_issued[j] == x);
                    }
                    if x == candidate {
                        assert(self.issued@[old_issued.len() as int] == x);
                    }
                }
            }
            assert forall|i: int| 0 <= i < self.rooms@.len() implies self.issued@.contains(
                #[trigger] self.rooms@[i].id,
            ) by {
                if i < self.rooms@.len() - 1 {
                    assert(old_issued.contains(self.rooms@[i].id));
                    let j = choose|j: int|
                        0 <= j < old_issued.len() && old_issued[j] == self.rooms@[i].id;
                    assert(self.issued@[j] == old_issued[j]);
                } else {
                    assert(self.issued@[old_issued.len() as int] == candidate);
                }
            }
        }
        Some(candidate)
    }

    /// Opens an empty room under a freshly drawn UUID. A drawn id that was
    /// handed out before is drawn again, up to `CREATE_ATTEMPTS` times; `None`
    /// says that every draw collided and nothing changed.
    pub fn create_room(&mut self, now: u64) -> (r: Option<u128>)
        requires
            old(self).wf(),
        ensures
            final(self).wf(),
            r is None ==> final(self)@ == old(self)@ && final(self).issued() == old(self).issued(),
            r matches Some(id) ==> {
                &&& !old(self).issued().contains(id)
                &&& final(self).issued() == old(self).issued().insert(id)
                &&& !old(self)@.contains_key(id)
                &&& final(self)@.dom() == old(self)@.dom().insert(id)
                &&& forall|k: u128| #[trigger]
                    old(self)@.contains_key(k) ==> final(self)@[k] == old(self)@[k]
                &&& fresh_room(final(self)@[id], id, now)
            },
    {
        let mut attempt: usize = 0;
        while attempt < CREATE_ATTEMPTS
            invariant
                self.wf(),
                self@ == old(self)@,
                self.issued() == old(self).issued(),
            decreases CREATE_ATTEMPTS - attempt,
        {
            let candidate = fresh_uuid();
            let r = self.create_room_with_id(candidate, now);
            if r.is_some() {
                return r;
            }
            attempt += 1;
        }
        None
    }

    /// Adds `member` at the end of the room of id `room_id` and refreshes its
    /// activity. Refused, with nothing changed, when the room is not live, is
    /// closed, or already holds `MAX_ROOM_SIZE` members.
    pub fn join_room(&mut self, room_id: u128, member: Member, now: u64) -> (r: Result<
        (),
        JoinError,
    >)
        requires
            old(self).wf(),
        ensures
            final(self).wf(),
            final(self).issued() == old(self).issued(),
            !old(self)@.contains_key(room_id) ==> r == Err::<(), JoinError>(
                JoinError::RoomNotFound,
            ),
            old(self)@.contains_key(room_id) && !old(self)@[room_id].is_open ==> r == Err::<
                (),
                JoinError,
            >(JoinError::RoomClosed),
            old(self)@.contains_key(room_id) && old(self)@[room_id].is_open
                && old(self)@[room_id].members@.len() >= MAX_ROOM_SIZE ==> r == Err::<
                (),
                JoinError,
            >(JoinError::RoomFull),
            old(self)@.contains_key(room_id) && old(self)@[room_id].is_open
                && old(self)@[room_id].members@.len() < MAX_ROOM_SIZE ==> r is Ok,
            r is Err ==> final(self)@ == old(self)@,
            r is Ok ==> {
                &&& old(self)@.contains_key(room_id)
                &&& old(self)@[room_id].is_open
                &&& old(self)@[room_id].members@.len() < MAX_ROOM_SIZE
                &&& same_except(final(self)@, old(self)@, room_id)
                &&& joined(old(self)@[room_id], final(self)@[room_id], member, now)
            },
    {
        let i = match self.find(room_id) {
            None => {
                return Err(JoinError::RoomNotFound);
            },
            Some(i) => i,
        };
        proof {
            lemma_room_at(self.rooms@, i as int);
        }
        if !self.rooms[i].is_open {
            return Err(JoinError::RoomClosed);
        }
        if self.rooms[i].members.len() >= MAX_ROOM_SIZE {
            return Err(JoinError::RoomFull);
        }
        let ghost before = self.rooms@;
        self.rooms[i].members.push(member);
        self.rooms[i].touch(now);
        proof {
            assert(self.rooms@ == before.update(i as int, self.rooms@[i as int]));
            lemma_update(before, i as int, self.rooms@[i as int]);
            assert(self@.dom() =~= old(self)@.dom());
            assert(self@[room_id] == self.rooms@[i as int]);
            assert(old(self)@[room_id] == before[i as int]);
        }
        Ok(())
    }
    /// The room of id `room_id`, if it is live.
    pub fn room(&self, room_id: u128) -> (r: Option<&Room>)
        requires
            self.wf(),
        ensures
            r is Some <==> self@.contains_key(room_id),
            r matches Some(room) ==> *room == self@[room_id],
    {
        match self.find(room_id) {
            Some(i) => {
                proof {
                    lemma_room_at(self.rooms@, i as int);
                }
                Some(&self.rooms[i])
            },
            None => None,
        }
    }

    /// Refreshes the activity time of room `room_id`, if it is live.
    pub fn touch_room(&mut self, room_id: u128, now: u64)
        requires
            old(self).wf(),
        ensures
            final(self).wf(),
            final(self).issued() == old(self).issued(),
            !old(self)@.contains_key(room_id) ==> final(self)@ == old(self)@,
            old(self)@.contains_key(room_id) ==> {
                &&& same_except(final(self)@, old(self)@, room_id)
                &&& touched(old(self)@[room_id], final(self)@[room_id], now)
            },
    {
        let i = match self.find(room_id) {
            None => {
                return ;
            },
            Some(i) => i,
        };
        proof {
            lemma_room_at(self.rooms@, i as int);
        }
        let ghost before = self.rooms@;
        self.rooms[i].touch(now);
        proof {
            assert(self.rooms@ == before.update(i as int, self.rooms@[i as int]));
            lemma_update(before, i as int, self.rooms@[i as int]);
            assert(self@.dom() =~= old(self)@.dom());
            assert(self@[room_id] == self.rooms@[i as int]);
            assert(old(self)@[room_id] == before[i as int]);
        }
    }

    /// Takes every member of id `member_id` out of the room of id `room_id` and
    /// refreshes its activity. A room that is not live, or a member that is not
    /// in it, is no error: nothing else changes.
    pub fn leave_room(&mut self, room_id: u128, member_id: u128, now: u64)
        requires
            old(self).wf(),
        ensures
            final(self).wf(),
            final(self).issued() == old(self).issued(),
            !old(self)@.contains_key(room_id) ==> final(self)@ == old(self)@,
            old(self)@.contains_key(room_id) ==> {
                &&& same_except(final(self)@, old(self)@, room_id)
                &&& left(old(self)@[room_id], final(self)@[room_id], member_id, now)
            },
    {
        let i = match self.find(room_id) {
            None => {
                return ;
            },
            Some(i) => i,
        };
        proof {
            lemma_room_at(self.rooms@, i as int);
        }
        let ghost before = self.rooms@;
        let ghost members = self.rooms@[i as int].members@;
        let mut kept: Vec<Member> = Vec::new();
        let mut j: usize = 0;
        while j < self.rooms[i].members.len()
            invariant
                i < self.rooms@.len(),
                self.rooms@ == before,
                members == self.rooms@[i as int].members@,
                j <= members.len(),
                kept@ == without(members.take(j as int), member_id),
            decreases members.len() - j,
        {
            if self.rooms[i].members[j].id != member_id {
                kept.push(self.rooms[i].members[j].duplicate());
            }
            proof {
                reveal(Seq::filter);
                assert(members.take(j + 1).drop_last() =~= members.take(j as int));
            }
            j += 1;
        }
        proof {
            assert(members.take(j as int) =~= members);
            members.lemma_filter_len(|m: Member| m.id != member_id);
        }
        self.rooms[i].members = kept;
        self.rooms[i].touch(now);
        proof {
            assert(self.rooms@ == before.update(i as int, self.rooms@[i as int]));
            lemma_update(before, i as int, self.rooms@[i as int]);
            assert(self@.dom() =~= old(self)@.dom());
            assert(self@[room_id] == self.rooms@[i as int]);
            assert(old(self)@[room_id] == before[i as int]);
        }
    }

    /// Removes every room that has no member. The other rooms stay as they are.
    pub fn prune_empty_rooms(&mut self)
        requires
            old(self).wf(),
        ensures
            final(self).wf(),
            final(self).issued() == old(self).issued(),
            forall|k: u128| #[trigger]
                final(self)@.contains_key(k) <==> old(self)@.contains_key(k)
                    && old(self)@[k].members@.len() > 0,
            forall|k: u128| #[trigger]
                final(self)@.contains_key(k) ==> final(self)@[k] == old(self)@[k],
    {
        let ghost orig = self.rooms@;
        let ghost mut k: int = 0;
        let mut i: usize = 0;
        while i < self.rooms.len()
            invariant
                0 <= k <= orig.len(),
                self.rooms@ == orig.take(k).filter(occupied()) + orig.skip(k),
                i == orig.take(k).filter(occupied()).len(),
                self.issued@ == old(self).issued@,
            decreases self.rooms@.len() - i,
        {
            let ghost f = orig.take(k).filter(occupied());
            proof {
                assert(self.rooms@[i as int] == orig[k]);
                reveal(Seq::filter);
                assert(orig.take(k + 1).drop_last() =~= orig.take(k));
            }
            if self.rooms[i].members.len() == 0 {
                self.rooms.remove(i);
                proof {
                    assert(self.rooms@ =~= orig.take(k + 1).filter(occupied()) + orig.skip(k + 1));
                }
            } else {
                proof {
                    assert(self.rooms@ =~= orig.take(k + 1).filter(occupied()) + orig.skip(k + 1));
                }
                i += 1;
            }
            proof {
                k = k + 1;
            }
        }
        proof {
            assert(k == orig.len());
            assert(orig.take(k) =~= orig);
            assert(self.rooms@ =~= orig.filter(occupied()));
            lemma_filter_rooms(orig, occupied());
            assert forall|a: int| 0 <= a < self.rooms@.len() implies (#[trigger] self.rooms@[a]).wf()
                && self.issued@.contains(self.rooms@[a].id) by {
                assert(self.rooms@.contains(self.rooms@[a]));
                orig.lemma_filter_contains_rev(occupied(), self.rooms@[a]);
            }
            assert forall|key: u128| #[trigger]
                self@.contains_key(key) <==> old(self)@.contains_key(key) && old(
                    self,
                )@[key].members@.len() > 0 by {}
        }
    }
}

} // verus!
