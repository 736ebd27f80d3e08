//! The per-connection session: a state machine driven by client messages,
//! acting on the shared registry and answering with server messages.
use vstd::prelude::*;

use crate::ids::{fresh_uuid, id_text, parse_id, uuid_parse, uuid_text};
use crate::protocol::{ClientMessage, Envelope, ServerMessage};
use crate::registry::{fresh_room, left, touched, RoomRegistry};
use crate::room::{without, JoinError, Member, Room, MAX_ROOM_SIZE};
use crate::router::{deliver, fanned};

verus! {

/// Where a connection stands in the protocol.
pub enum Session {
    Unauthenticated,
    Authenticated { user_id: u128, username: String },
    InRoom { user_id: u128, username: String, room_id: u128 },
    Closed,
}

/// What handling one client message produces: a reply to the sender, and
/// envelopes for members' queues.
pub struct Outcome {
    pub reply: Option<ServerMessage>,
    pub fanout: Vec<Envelope>,
}

pub open spec fn not_greeted_text() -> Seq<char> {
    "Say hello first"@
}

pub open spec fn already_greeted_text() -> Seq<char> {
    "Already greeted"@
}

pub open spec fn not_in_room_text() -> Seq<char> {
    "Join a room first"@
}

pub open spec fn create_failed_text() -> Seq<char> {
    "Could not create a room"@
}

/// The registry's table and issued ids are as they were.
pub open spec fn unchanged(a: RoomRegistry, b: RoomRegistry) -> bool {
    a@ == b@ && a.issued() == b.issued()
}

/// Neither a reply nor any envelope.
pub open spec fn quiet(o: Outcome) -> bool {
    o.reply is None && o.fanout@.len() == 0
}

/// An error reply with text `text`, and no envelope.
pub open spec fn error_with(o: Outcome, text: Seq<char>) -> bool {
    &&& o.reply matches Some(ServerMessage::Error { message }) && message@ == text
    &&& o.fanout@.len() == 0
}

/// `m` is the room message that carries `text` from `from` in room `room_id`.
pub open spec fn is_room_message(m: ServerMessage, room_id: u128, from: String, text: String) -> bool {
    m matches ServerMessage::RoomMessage { room_id: r, from: f, text: t } && r@ == uuid_text(room_id)
        && f == from && t == text
}

/// The room a session is in, if any.
pub open spec fn current_room(s: Session) -> Option<u128> {
    match s {
        Session::InRoom { room_id, .. } => Some(room_id),
        _ => None,
    }
}

/// The members of room `t` once the member `user_id` has left the room
/// `prior` that it is in (or none).
pub open spec fn remaining(m: Map<u128, Room>, t: u128, prior: Option<u128>, user_id: u128) -> Seq<
    Member,
> {
    if prior == Some(t) {
        without(m[t].members@, user_id)
    } else {
        m[t].members@
    }
}

/// How many members would be in room `t` once the member `user_id` has left
/// the room `prior` that it is in.
pub open spec fn seats_taken(m: Map<u128, Room>, t: u128, prior: Option<u128>, user_id: u128) -> nat {
    remaining(m, t, prior, user_id).len()
}

/// Why a session that is in room `prior` (or none) cannot move to the room that
/// `target` names, if it cannot.
pub open spec fn join_refusal(
    m: Map<u128, Room>,
    target: Option<u128>,
    prior: Option<u128>,
    user_id: u128,
) -> Option<JoinError> {
    match target {
        None => Some(JoinError::RoomNotFound),
        Some(t) => if !m.contains_key(t) {
            Some(JoinError::RoomNotFound)
        } else if !m[t].is_open {
            Some(JoinError::RoomClosed)
        } else if seats_taken(m, t, prior, user_id) >= MAX_ROOM_SIZE {
            Some(JoinError::RoomFull)
        } else {
            None
        },
    }
}

/// The member `user_id` has left room `room_id`, and the registry was pruned.
pub open spec fn departed(a: RoomRegistry, b: RoomRegistry, room_id: u128, user_id: u128, now: u64) -> bool {
    &&& b.issued() == a.issued()
    &&& forall|k: u128| #[trigger]
        b@.contains_key(k) ==> a@.contains_key(k) && (k != room_id ==> b@[k] == a@[k])
    &&& forall|k: u128| #[trigger]
        a@.contains_key(k) && k != room_id && a@[k].members@.len() > 0 ==> b@.contains_key(k)
    &&& a@.contains_key(room_id) ==> (b@.contains_key(room_id) <==> without(
        a@[room_id].members@,
        user_id,
    ).len() > 0)
    &&& b@.contains_key(room_id) ==> left(a@[room_id], b@[room_id], user_id, now)
}

/// What `Hello` does in a session that is not closed.
pub open spec fn hello_spec(before: Session, after: Session, username: String, r: Outcome) -> bool {
    if before is Unauthenticated {
        &&& r.fanout@.len() == 0
        &&& match (after, r.reply) {
            (
                Session::Authenticated { user_id, username: u },
                Some(ServerMessage::Welcome { user_id: t }),
            ) => u == username && t@ == uuid_text(user_id),
            _ => false,
        }
    } else {
        after == before && error_with(r, already_greeted_text())
    }
}

/// What `CreateRoom` does in a session that is not closed.
pub open spec fn create_spec(
    before: Session,
    after: Session,
    a: RoomRegistry,
    b: RoomRegistry,
    r: Outcome,
    now: u64,
) -> bool {
    &&& after == before
    &&& if before is Unauthenticated {
        error_with(r, not_greeted_text()) && unchanged(a, b)
    } else {
        ||| error_with(r, create_failed_text()) && unchanged(a, b)
        ||| exists|id: u128|
            {
                &&& r.reply matches Some(ServerMessage::RoomCreated { room_id }) && room_id@
                    == uuid_text(id)
                &&& r.fanout@.len() == 0
                &&& !a.issued().contains(id)
                &&& b.issued() == a.issued().insert(id)
                &&& b@.dom() == a@.dom().insert(id)
                &&& forall|k: u128| #[trigger] a@.contains_key(k) ==> b@[k] == a@[k]
                &&& fresh_room(b@[id], id, now)
            }
    }
}

/// What `JoinRoom` with room text `text` does in a session that is not closed.
/// A session in a room leaves it first; when the join is then refused, the
/// session is in no room and stands greeted.
pub open spec fn join_spec(
    before: Session,
    after: Session,
    a: RoomRegistry,
    b: RoomRegistry,
    text: String,
    r: Outcome,
    now: u64,
) -> bool {
    match before {
        Session::Authenticated { user_id, username } => join_result(
            after,
            a,
            b,
            text,
            r,
            user_id,
            username,
            None,
            now,
        ),
        Session::InRoom { user_id, username, room_id } => join_result(
            after,
            a,
            b,
            text,
            r,
            user_id,
            username,
            Some(room_id),
            now,
        ),
        _ => after == before && error_with(r, not_greeted_text()) && unchanged(a, b),
    }
}

/// The result of a join by member `user_id`, coming from room `prior` (or none).
/// No room appears; the prior room is left (and pruned once empty); every
/// other room but the target stays as it was or, where the prior room was
/// left, is pruned if empty.
pub open spec fn join_result(
    after: Session,
    a: RoomRegistry,
    b: RoomRegistry,
    text: String,
    r: Outcome,
    user_id: u128,
    username: String,
    prior: Option<u128>,
    now: u64,
) -> bool {
    let target = uuid_parse(text@);
    &&& b.issued() == a.issued()
    &&& forall|k: u128| #[trigger] b@.contains_key(k) ==> a@.contains_key(k)
    &&& forall|k: u128| #[trigger]
        b@.contains_key(k) && target != Some(k) && prior != Some(k) ==> b@[k] == a@[k]
    &&& prior is None ==> forall|k: u128| #[trigger]
        a@.contains_key(k) && target != Some(k) ==> b@.contains_key(k)
    &&& forall|p: u128| #[trigger]
        b@.contains_key(p) && prior == Some(p) && target != Some(p) ==> left(
            a@[p],
            b@[p],
            user_id,
            now,
        )
    &&& prior is None && join_refusal(a@, target, prior, user_id) is Some ==> unchanged(a, b)
    &&& match join_refusal(a@, target, prior, user_id) {
        Some(e) => after == (Session::Authenticated { user_id, username }) && error_with(
            r,
            e.reason_text(),
        ),
        None => match target {
            Some(t) => {
                &&& after == (Session::InRoom { user_id, username, room_id: t })
                &&& r.reply matches Some(ServerMessage::JoinedRoom { room_id }) && room_id@
                    == uuid_text(t)
                &&& r.fanout@.len() == 0
                &&& b@.contains_key(t)
                &&& b@[t].members@ == remaining(a@, t, prior, user_id).push(
                    Member { id: user_id, username },
                )
                &&& b@[t].is_open && b@[t].created_at == a@[t].created_at
            },
            None => false,
        },
    }
}

/// What `Message` with text `text` does in a session that is not closed.
pub open spec fn say_spec(
    before: Session,
    after: Session,
    a: RoomRegistry,
    b: RoomRegistry,
    text: String,
    r: Outcome,
    now: u64,
) -> bool {
    &&& after == before
    &&& match before {
        Session::InRoom { user_id, username, room_id } => {
            &&& r.reply is None
            &&& b.issued() == a.issued()
            &&& !a@.contains_key(room_id) ==> r.fanout@.len() == 0 && b@ == a@
            &&& a@.contains_key(room_id) ==> {
                &&& exists|m: ServerMessage|
                    is_room_message(m, room_id, username, text) && r.fanout@ == fanned(
                        a@[room_id].members@,
                        m,
                    )
                &&& b@.dom() == a@.dom()
                &&& forall|k: u128| #[trigger] a@.contains_key(k) && k != room_id ==> b@[k] == a@[k]
                &&& touched(a@[room_id], b@[room_id], now)
            }
        },
        Session::Authenticated { .. } => error_with(r, not_in_room_text()) && unchanged(a, b),
        _ => error_with(r, not_greeted_text()) && unchanged(a, b),
    }
}

fn error_reply(text: &str) -> (r: Outcome)
    ensures
        error_with(r, text@),
{
    Outcome { reply: Some(ServerMessage::Error { message: text.to_string() }), fanout: Vec::new() }
}

impl Session {
    /// A connection that has not said hello yet.
    pub fn new() -> (r: Session)
        ensures
            r is Unauthenticated,
    {
        Session::Unauthenticated
    }

    /// The member id, name and current room of a greeted session.
    fn identity(&self) -> (r: Option<(u128, String, Option<u128>)>)
        ensures
            match *self {
                Session::Authenticated { user_id, username } => r == Some(
                    (user_id, username, None::<u128>),
                ),
                Session::InRoom { user_id, username, room_id } => r == Some(
                    (user_id, username, Some(room_id)),
                ),
                _ => r is None,
            },
    {
        match self {
            Session::Authenticated { user_id, username } => Some((*user_id, username.clone(), None)),
            Session::InRoom { user_id, username, room_id } => Some(
                (*user_id, username.clone(), Some(*room_id)),
            ),
            _ => None,
        }
    }

    fn hello(&mut self, username: String) -> (r: Outcome)
        requires
            !(*old(self) is Closed),
        ensures
            hello_spec(*old(self), *final(self), username, r),
    {
        if let Session::Unauthenticated = self {
            let user_id = fresh_uuid();
            let text = id_text(user_id);
            *self = Session::Authenticated { user_id, username };
            Outcome { reply: Some(ServerMessage::Welcome { user_id: text }), fanout: Vec::new() }
        } else {
            error_reply("Already greeted")
        }
    }

    fn create(&mut self, registry: &mut RoomRegistry, now: u64) -> (r: Outcome)
        requires
            !(*old(self) is Closed),
            old(registry).wf(),
        ensures
            final(registry).wf(),
            create_spec(*old(self), *final(self), *old(registry), *final(registry), r, now),
    {
        if let Session::Unauthenticated = self {
            return error_reply("Say hello first");
        }
        match registry.create_room(now) {
            Some(id) => {
                let text = id_text(id);
                Outcome { reply: Some(ServerMessage::RoomCreated { room_id: text }), fanout: Vec::new() }
            },
            None => error_reply("Could not create a room"),
        }
    }

    fn join(&mut self, registry: &mut RoomRegistry, text: String, now: u64) -> (r: Outcome)
        requires
            !(*old(self) is Closed),
            old(registry).wf(),
        ensures
            final(registry).wf(),
            join_spec(*old(self), *final(self), *old(registry), *final(registry), text, r, now),
    {
        let (user_id, username, prior) = match self.identity() {
            Some(who) => who,
            None => {
                return error_reply("Say hello first");
            },
        };
        let ghost a = *registry;
        if let Some(p) = prior {
            registry.leave_room(p, user_id, now);
        }
        let ghost mid = *registry;
        let target = parse_id(text.as_str());
        proof {
            if let Some(t) = target {
                if a@.contains_key(t) {
                    assert(mid@.contains_key(t));
                }
                if mid@.contains_key(t) {
                    assert(a@.contains_key(t));
                }
            }
        }
        let result = match target {
            None => Err(JoinError::RoomNotFound),
            Some(t) => registry.join_room(t, Member::new(user_id, username.clone()), now),
        };
        let ghost joined_reg = *registry;
        if prior.is_some() {
            registry.prune_empty_rooms();
        }
        match result {
            Ok(()) => {
                let t = target.unwrap();
                proof {
                    assert(mid@.contains_key(t));
                    if prior == Some(t) {
                        assert(mid@[t].members@ == without(a@[t].members@, user_id));
                    } else {
                        assert(mid@[t] == a@[t]);
                    }
                    assert(join_refusal(a@, target, prior, user_id) is None);
                    assert(joined_reg@.contains_key(t));
                    assert(joined_reg@[t].members@.len() > 0);
                    assert(joined_reg@[t].members@.last() == (Member { id: user_id, username }));
                    assert(registry@.contains_key(t));
                    assert(registry@[t] == joined_reg@[t]);
                    assert(registry.issued() == a.issued());
                }
                *self = Session::InRoom { user_id, username, room_id: t };
                Outcome {
                    reply: Some(ServerMessage::JoinedRoom { room_id: id_text(t) }),
                    fanout: Vec::new(),
                }
            },
            Err(e) => {
                proof {
                    if let Some(t) = target {
                        if mid@.contains_key(t) {
                            if prior == Some(t) {
                                assert(mid@[t].members@ == without(a@[t].members@, user_id));
                            } else {
                                assert(mid@[t] == a@[t]);
                            }
                        }
                    }
                    assert(join_refusal(a@, target, prior, user_id) == Some(e));
                }
                *self = Session::Authenticated { user_id, username };
                error_reply_for(e)
            },
        }
    }

    fn say(&mut self, registry: &mut RoomRegistry, text: String, now: u64) -> (r: Outcome)
        requires
            !(*old(self) is Closed),
            old(registry).wf(),
        ensures
            final(registry).wf(),
            say_spec(*old(self), *final(self), *old(registry), *final(registry), text, r, now),
    {
        let (username, room_id) = match self.identity() {
            Some((_, username, Some(room_id))) => (username, room_id),
            Some(_) => {
                return error_reply("Join a room first");
            },
            None => {
                return error_reply("Say hello first");
            },
        };
        let ghost from = username;
        let ghost said = text;
        let message = ServerMessage::RoomMessage { room_id: id_text(room_id), from: username, text };
        proof {
            assert(is_room_message(message, room_id, from, said));
        }
        let fanout = deliver(registry, room_id, &message);
        registry.touch_room(room_id, now);
        Outcome { reply: None, fanout }
    }

    /// Handles one client message: answers the sender, fans room messages out,
    /// and moves the session along the protocol. A closed session ignores
    /// everything.
    pub fn handle(&mut self, registry: &mut RoomRegistry, message: ClientMessage, now: u64) -> (r:
        Outcome)
        requires
            old(registry).wf(),
        ensures
            final(registry).wf(),
            *old(self) is Closed ==> *final(self) == *old(self) && quiet(r) && unchanged(
                *old(registry),
                *final(registry),
            ),
            !(*old(self) is Closed) ==> match message {
                ClientMessage::Hello { username } => hello_spec(*old(self), *final(self), username, r)
                    && unchanged(*old(registry), *final(registry)),
                ClientMessage::CreateRoom => create_spec(
                    *old(self),
                    *final(self),
                    *old(registry),
                    *final(registry),
                    r,
                    now,
                ),
                ClientMessage::JoinRoom { room_id } => join_spec(
                    *old(self),
                    *final(self),
                    *old(registry),
                    *final(registry),
                    room_id,
                    r,
                    now,
                ),
                ClientMessage::Message { text } => say_spec(
                    *old(self),
                    *final(self),
                    *old(registry),
                    *final(registry),
                    text,
                    r,
                    now,
                ),
            },
    {
        if let Session::Closed = self {
            return Outcome { reply: None, fanout: Vec::new() };
        }
        match message {
            ClientMessage::Hello { username } => self.hello(username),
            ClientMessage::CreateRoom => self.create(registry, now),
            ClientMessage::JoinRoom { room_id } => self.join(registry, room_id, now),
            ClientMessage::Message { text } => self.say(registry, text, now),
        }
    }

    /// Ends the session: a session in a room leaves it, and the registry drops
    /// the rooms that are left empty.
    pub fn close(&mut self, registry: &mut RoomRegistry, now: u64)
        requires
            old(registry).wf(),
        ensures
            *final(self) is Closed,
            final(registry).wf(),
            match *old(self) {
                Session::InRoom { user_id, room_id, .. } => departed(
                    *old(registry),
                    *final(registry),
                    room_id,
                    user_id,
                    now,
                ),
                _ => unchanged(*old(registry), *final(registry)),
            },
    {
        if let Some((user_id, _, Some(room_id))) = self.identity() {
            registry.leave_room(room_id, user_id, now);
            registry.prune_empty_rooms();
        }
        *self = Session::Closed;
    }
}

fn error_reply_for(e: JoinError) -> (r: Outcome)
    ensures
        error_with(r, e.reason_text()),
{
    Outcome { reply: Some(ServerMessage::Error { message: e.reason() }), fanout: Vec::new() }
}

} // verus!
