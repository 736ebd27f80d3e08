use room_relay::protocol::{ClientMessage, Envelope, ServerMessage};
use room_relay::registry::RoomRegistry;
use room_relay::room::{JoinError, Member, Room, MAX_ROOM_SIZE};
use room_relay::router::{deliver, fan_out};
use room_relay::session::{Outcome, Session};

fn id_text(id: u128) -> String {
    uuid::Uuid::from_u128(id).to_string()
}

fn parse_id(text: &str) -> Option<u128> {
    uuid::Uuid::parse_str(text).ok().map(|u| u.as_u128())
}

fn member(id: u128, name: &str) -> Member {
    Member::new(id, name.to_string())
}

fn error_text(o: &Outcome) -> Option<String> {
    match &o.reply {
        Some(ServerMessage::Error { message }) => Some(message.clone()),
        _ => None,
    }
}

fn greet(session: &mut Session, registry: &mut RoomRegistry, name: &str) -> String {
    let out = session.handle(registry, ClientMessage::Hello { username: name.to_string() }, 1);
    match out.reply {
        Some(ServerMessage::Welcome { user_id }) => user_id,
        _ => panic!("no welcome"),
    }
}

fn user_of(session: &Session) -> u128 {
    match session {
        Session::Authenticated { user_id, .. } | Session::InRoom { user_id, .. } => *user_id,
        _ => panic!("not greeted"),
    }
}

fn member_ids(registry: &RoomRegistry, room: u128) -> Vec<u128> {
    registry.room(room).unwrap().members.iter().map(|m| m.id).collect()
}

#[test]
fn create_room_is_empty_and_open() {
    let mut reg = RoomRegistry::new();
    let id = reg.create_room(7).unwrap();
    let room = reg.room(id).unwrap();
    assert_eq!(room.id, id);
    assert!(room.is_open);
    assert_eq!(room.created_at, 7);
    assert_eq!(room.last_active, 7);
    assert!(room.members.is_empty());
}

#[test]
fn create_with_issued_id_is_refused() {
    let mut reg = RoomRegistry::new();
    assert_eq!(reg.create_room_with_id(42, 1), Some(42));
    assert_eq!(reg.create_room_with_id(42, 2), None);
    assert_eq!(reg.room(42).unwrap().created_at, 1);
}

#[test]
fn join_at_fourteen_reaches_fifteen_then_full() {
    let mut reg = RoomRegistry::new();
    let id = reg.create_room(0).unwrap();
    for i in 0..14u128 {
        assert_eq!(reg.join_room(id, member(i, "m"), 1), Ok(()));
    }
    assert_eq!(reg.room(id).unwrap().members.len(), 14);
    assert_eq!(reg.join_room(id, member(100, "late"), 2), Ok(()));
    assert_eq!(reg.room(id).unwrap().members.len(), MAX_ROOM_SIZE);
    assert_eq!(reg.join_room(id, member(101, "later"), 3), Err(JoinError::RoomFull));
    assert_eq!(reg.room(id).unwrap().members.len(), 15);
    assert_eq!(reg.room(id).unwrap().last_active, 2);
}

#[test]
fn join_unknown_room_is_not_found() {
    let mut reg = RoomRegistry::new();
    assert_eq!(reg.join_room(5, member(1, "a"), 0), Err(JoinError::RoomNotFound));
    assert!(!reg.contains_room(5));
}

#[test]
fn join_keeps_insertion_order() {
    let mut reg = RoomRegistry::new();
    let id = reg.create_room(0).unwrap();
    reg.join_room(id, member(3, "c"), 1).unwrap();
    reg.join_room(id, member(1, "a"), 2).unwrap();
    reg.join_room(id, member(2, "b"), 3).unwrap();
    assert_eq!(member_ids(&reg, id), vec![3, 1, 2]);
}

#[test]
fn leave_absent_room_or_member_changes_no_membership() {
    let mut reg = RoomRegistry::new();
    let id = reg.create_room(0).unwrap();
    reg.join_room(id, member(1, "a"), 1).unwrap();
    reg.leave_room(id + 1, 1, 2);
    reg.leave_room(id, 99, 3);
    assert_eq!(member_ids(&reg, id), vec![1]);
    assert_eq!(reg.room(id).unwrap().last_active, 3);
    assert!(!reg.contains_room(id + 1));
}

#[test]
fn leave_removes_every_entry_of_the_member() {
    let mut reg = RoomRegistry::new();
    let id = reg.create_room(0).unwrap();
    reg.join_room(id, member(1, "a"), 1).unwrap();
    reg.join_room(id, member(2, "b"), 1).unwrap();
    reg.join_room(id, member(1, "a"), 1).unwrap();
    reg.leave_room(id, 1, 4);
    assert_eq!(member_ids(&reg, id), vec![2]);
}

#[test]
fn last_active_never_moves_back() {
    let mut reg = RoomRegistry::new();
    let id = reg.create_room(10).unwrap();
    reg.join_room(id, member(1, "a"), 5).unwrap();
    assert_eq!(reg.room(id).unwrap().last_active, 10);
    reg.touch_room(id, 12);
    assert_eq!(reg.room(id).unwrap().last_active, 12);
}

#[test]
fn prune_removes_only_empty_rooms_and_ids_are_not_reused() {
    let mut reg = RoomRegistry::new();
    let empty = reg.create_room(0).unwrap();
    let busy = reg.create_room(0).unwrap();
    reg.join_room(busy, member(1, "a"), 1).unwrap();
    reg.join_room(empty, member(2, "b"), 1).unwrap();
    reg.leave_room(empty, 2, 2);
    reg.prune_empty_rooms();
    assert!(!reg.contains_room(empty));
    assert!(reg.contains_room(busy));
    assert_eq!(reg.create_room_with_id(empty, 3), None);
    let next = reg.create_room(3).unwrap();
    assert_ne!(next, empty);
    assert_ne!(next, busy);
}

#[test]
fn fan_out_one_envelope_per_member_in_order() {
    let members = vec![member(4, "d"), member(2, "b"), member(9, "i")];
    let msg = ServerMessage::Error { message: "x".to_string() };
    let out: Vec<Envelope> = fan_out(&members, &msg);
    let to: Vec<u128> = out.iter().map(|e| e.to).collect();
    assert_eq!(to, vec![4, 2, 9]);
    assert!(out.iter().all(|e| matches!(&e.message, ServerMessage::Error { message } if message == "x")));
}

#[test]
fn deliver_to_missing_room_is_empty() {
    let reg = RoomRegistry::new();
    let msg = ServerMessage::Error { message: "x".to_string() };
    assert!(deliver(&reg, 1, &msg).is_empty());
}

#[test]
fn created_room_text_names_the_live_room() {
    let mut reg = RoomRegistry::new();
    let mut s = Session::new();
    greet(&mut s, &mut reg, "A");
    let out = s.handle(&mut reg, ClientMessage::CreateRoom, 1);
    let text = match out.reply {
        Some(ServerMessage::RoomCreated { room_id }) => room_id,
        _ => panic!("no room"),
    };
    assert_eq!(text.len(), 36);
    assert_eq!(text.matches('-').count(), 4);
    let id = parse_id(&text).unwrap();
    assert!(reg.contains_room(id));
    assert_eq!(reg.room(id).unwrap().created_at, 1);
}

#[test]
fn welcome_text_names_the_member_id() {
    let mut reg = RoomRegistry::new();
    let mut s = Session::new();
    let text = greet(&mut s, &mut reg, "A");
    assert_eq!(parse_id(&text), Some(user_of(&s)));
}

#[test]
fn join_error_reasons() {
    assert_eq!(JoinError::RoomNotFound.reason(), "Room not found");
    assert_eq!(JoinError::RoomClosed.reason(), "Room is closed");
    assert_eq!(JoinError::RoomFull.reason(), "Room is full");
}

#[test]
fn new_room_value() {
    let r = Room::new(3, 9);
    assert!(r.is_open && r.members.is_empty() && r.created_at == 9 && r.last_active == 9);
}

#[test]
fn hello_twice_is_an_error() {
    let mut reg = RoomRegistry::new();
    let mut s = Session::new();
    let uid = greet(&mut s, &mut reg, "A");
    assert_eq!(uid.len(), 36);
    assert_eq!(id_text(user_of(&s)), uid);
    let out = s.handle(&mut reg, ClientMessage::Hello { username: "B".to_string() }, 2);
    assert_eq!(error_text(&out).as_deref(), Some("Already greeted"));
    assert!(matches!(&s, Session::Authenticated { username, .. } if username == "A"));
}

#[test]
fn anything_before_hello_is_an_error() {
    let mut reg = RoomRegistry::new();
    let mut s = Session::new();
    let out = s.handle(&mut reg, ClientMessage::CreateRoom, 1);
    assert_eq!(error_text(&out).as_deref(), Some("Say hello first"));
    let out = s.handle(&mut reg, ClientMessage::Message { text: "x".to_string() }, 1);
    assert_eq!(error_text(&out).as_deref(), Some("Say hello first"));
    assert!(matches!(s, Session::Unauthenticated));
}

#[test]
fn message_before_join_is_an_error_and_changes_no_room() {
    let mut reg = RoomRegistry::new();
    let id = reg.create_room(0).unwrap();
    reg.join_room(id, member(1, "x"), 0).unwrap();
    let mut s = Session::new();
    greet(&mut s, &mut reg, "A");
    let out = s.handle(&mut reg, ClientMessage::Message { text: "hi".to_string() }, 5);
    assert_eq!(error_text(&out).as_deref(), Some("Join a room first"));
    assert!(out.fanout.is_empty());
    assert_eq!(member_ids(&reg, id), vec![1]);
    assert_eq!(reg.room(id).unwrap().last_active, 0);
}

#[test]
fn join_bad_or_unknown_room_text_is_not_found() {
    let mut reg = RoomRegistry::new();
    let mut s = Session::new();
    greet(&mut s, &mut reg, "A");
    let out = s.handle(&mut reg, ClientMessage::JoinRoom { room_id: "nope".to_string() }, 1);
    assert_eq!(error_text(&out).as_deref(), Some("Room not found"));
    let out = s.handle(&mut reg, ClientMessage::JoinRoom { room_id: id_text(77) }, 1);
    assert_eq!(error_text(&out).as_deref(), Some("Room not found"));
    assert!(matches!(s, Session::Authenticated { .. }));
}

#[test]
fn session_join_full_room_is_refused() {
    let mut reg = RoomRegistry::new();
    let id = reg.create_room(0).unwrap();
    for i in 0..15u128 {
        reg.join_room(id, member(i, "m"), 0).unwrap();
    }
    let mut s = Session::new();
    greet(&mut s, &mut reg, "A");
    let out = s.handle(&mut reg, ClientMessage::JoinRoom { room_id: id_text(id) }, 1);
    assert_eq!(error_text(&out).as_deref(), Some("Room is full"));
}

#[test]
fn switching_rooms_leaves_the_old_one() {
    let mut reg = RoomRegistry::new();
    let mut s = Session::new();
    greet(&mut s, &mut reg, "A");
    let r1 = reg.create_room(0).unwrap();
    let r2 = reg.create_room(0).unwrap();
    reg.join_room(r1, member(5, "other"), 0).unwrap();
    s.handle(&mut reg, ClientMessage::JoinRoom { room_id: id_text(r1) }, 1);
    s.handle(&mut reg, ClientMessage::JoinRoom { room_id: id_text(r2) }, 2);
    let me = user_of(&s);
    assert_eq!(member_ids(&reg, r1), vec![5]);
    assert_eq!(member_ids(&reg, r2), vec![me]);
    // rejoining the room one is in keeps a single entry
    s.handle(&mut reg, ClientMessage::JoinRoom { room_id: id_text(r2) }, 3);
    assert_eq!(member_ids(&reg, r2), vec![me]);
}

#[test]
fn broadcast_reaches_all_members_in_send_order() {
    let mut reg = RoomRegistry::new();
    let id = reg.create_room(0).unwrap();
    let mut sessions: Vec<Session> = Vec::new();
    for name in ["A", "B", "C"] {
        let mut s = Session::new();
        greet(&mut s, &mut reg, name);
        s.handle(&mut reg, ClientMessage::JoinRoom { room_id: id_text(id) }, 1);
        sessions.push(s);
    }
    let ids: Vec<u128> = sessions.iter().map(user_of).collect();
    let mut queues: Vec<Vec<String>> = vec![Vec::new(); 3];
    for text in ["one", "two", "three"] {
        let out = sessions[1].handle(&mut reg, ClientMessage::Message { text: text.to_string() }, 2);
        assert!(out.reply.is_none());
        for env in out.fanout {
            let k = ids.iter().position(|&u| u == env.to).unwrap();
            if let ServerMessage::RoomMessage { text, from, .. } = env.message {
                assert_eq!(from, "B");
                queues[k].push(text);
            }
        }
    }
    for q in queues {
        assert_eq!(q, vec!["one", "two", "three"]);
    }
}

#[test]
fn two_clients_chat_then_leave_and_room_is_pruned() {
    let mut reg = RoomRegistry::new();
    let mut a = Session::new();
    greet(&mut a, &mut reg, "A");
    let out = a.handle(&mut reg, ClientMessage::CreateRoom, 1);
    let room_text = match out.reply {
        Some(ServerMessage::RoomCreated { room_id }) => room_id,
        _ => panic!("no room"),
    };
    let room = parse_id(&room_text).unwrap();
    let out = a.handle(&mut reg, ClientMessage::JoinRoom { room_id: room_text.clone() }, 2);
    assert!(matches!(out.reply, Some(ServerMessage::JoinedRoom { ref room_id }) if *room_id == room_text));
    let mut b = Session::new();
    greet(&mut b, &mut reg, "B");
    let out = b.handle(&mut reg, ClientMessage::JoinRoom { room_id: room_text.clone() }, 3);
    assert!(matches!(out.reply, Some(ServerMessage::JoinedRoom { .. })));
    let (ua, ub) = (user_of(&a), user_of(&b));
    let out = a.handle(&mut reg, ClientMessage::Message { text: "hi".to_string() }, 4);
    let to: Vec<u128> = out.fanout.iter().map(|e| e.to).collect();
    assert_eq!(to, vec![ua, ub]);
    for env in &out.fanout {
        match &env.message {
            ServerMessage::RoomMessage { room_id, from, text } => {
                assert_eq!(room_id, &room_text);
                assert_eq!(from, "A");
                assert_eq!(text, "hi");
            }
            _ => panic!("not a room message"),
        }
    }
    b.close(&mut reg, 5);
    assert!(matches!(b, Session::Closed));
    assert_eq!(member_ids(&reg, room), vec![ua]);
    a.close(&mut reg, 6);
    assert!(!reg.contains_room(room));
    let out = a.handle(&mut reg, ClientMessage::CreateRoom, 7);
    assert!(out.reply.is_none() && out.fanout.is_empty());
}
