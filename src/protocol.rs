//! The messages of the session protocol, as values. Their text encoding is
//! the transport's concern.
use vstd::prelude::*;

verus! {

/// What a client sends.
pub enum ClientMessage {
    Hello { username: String },
    CreateRoom,
    JoinRoom { room_id: String },
    Message { text: String },
}

/// What the server sends to a client.
pub enum ServerMessage {
    Welcome { user_id: String },
    RoomCreated { room_id: String },
    JoinedRoom { room_id: String },
    RoomMessage { room_id: String, from: String, text: String },
    Error { message: String },
}

impl ServerMessage {
    /// A copy of this message.
    pub fn duplicate(&self) -> (r: ServerMessage)
        ensures
            r == *self,
    {
        match self {
            ServerMessage::Welcome { user_id } => ServerMessage::Welcome { user_id: user_id.clone() },
            ServerMessage::RoomCreated { room_id } => ServerMessage::RoomCreated {
                room_id: room_id.clone(),
            },
            ServerMessage::JoinedRoom { room_id } => ServerMessage::JoinedRoom {
                room_id: room_id.clone(),
            },
            ServerMessage::RoomMessage { room_id, from, text } => ServerMessage::RoomMessage {
                room_id: room_id.clone(),
                from: from.clone(),
                text: text.clone(),
            },
            ServerMessage::Error { message } => ServerMessage::Error { message: message.clone() },
        }
    }
}

/// A server message addressed to one member's outbound queue.
pub struct Envelope {
    pub to: u128,
    pub message: ServerMessage,
}

} // verus!
