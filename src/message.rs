use crate::game::PlayerState;
use crate::player::Player;
use vstd::prelude::*;

verus! {

/// A player's turn intent: it changes the sign of the heading change only.
#[derive(Copy, Clone, Debug, PartialEq, Eq, Structural)]
pub enum Direction {
    Left,
    Right,
    Unchanged,
}

/// Field dimensions and trail thickness, as announced to a joining client.
#[derive(Copy, Clone, Debug, PartialEq, Eq, Structural)]
pub struct GridInfo {
    pub width: u32,
    pub height: u32,
    pub line_width: u32,
}

/// An intent sent by a client.
#[derive(Clone, Debug, PartialEq, Eq)]
pub enum ClientMessage {
    /// Create a room, joining it under this display name.
    CreateRoom(String),
    /// Join the room with this code (second) under this display name (first).
    JoinRoom(String, String),
    /// Start a round; only the host may.
    StartGame,
    /// The connection's stream has ended.
    Disconnected,
    /// Change the turn intent.
    Move(Direction),
}

/// An event sent to clients.
#[derive(Clone, Debug, PartialEq, Eq)]
pub enum ServerMessage {
    JoinFailed(String),
    JoinSuccess { room_name: String, grid_info: GridInfo, players: Vec<Player>, uuid: u128 },
    NewPlayer(Player),
    /// The departed player's id, then the host's id.
    PlayerDisconnected(u128, u128),
    RoundStarted,
    /// The winner's id, and `(id, points)` of every player.
    RoundEnded(u128, Vec<(u128, u64)>),
    GameState(Vec<PlayerState>),
}

/// A message to deliver to each connection of `to`.
#[derive(Clone, Debug, PartialEq, Eq)]
pub struct Delivery {
    pub to: Vec<u64>,
    pub message: ServerMessage,
}

} // verus!
