//! The typed messages exchanged with clients. Positions are in thousandths of
//! a game unit; the parts of a frame that the server only relays are kept as
//! the bytes the client sent.
use crate::chat::AnnouncementMsg;
use crate::flag::{FlagMsg, Position};
use vstd::prelude::*;

verus! {

/// One client's world state for one frame.
#[derive(Clone, Debug)]
pub struct MarioMsg {
    /// Stamped by the server with the sender's socket id.
    pub socket_id: u32,
    pub pos: Position,
    /// The remaining fields of the frame, as sent; the server only relays them.
    pub body: Vec<u8>,
}

/// Cosmetic data of a player, relayed as sent.
#[derive(Clone, Debug)]
pub struct SkinData {
    pub bytes: Vec<u8>,
}

/// A room snapshot: every flag and every live player's latest frame.
#[derive(Clone, Debug)]
pub struct MarioListMsg {
    pub flag: Vec<FlagMsg>,
    pub mario: Vec<MarioMsg>,
}

#[derive(Clone, Debug)]
pub struct SkinMsg {
    pub socket_id: u32,
    pub skin_data: Option<SkinData>,
    pub player_name: String,
    pub num_coins: i32,
}

#[derive(Clone, Debug)]
pub struct ChatMsg {
    pub message: String,
    pub sender: String,
    pub socket_id: u32,
    pub is_server: bool,
    pub is_admin: bool,
}

#[derive(Clone, Copy, Debug)]
pub struct AttackMsg {
    pub flag_id: u32,
    pub target_socket_id: u32,
}

#[derive(Clone, Copy, Debug)]
pub struct GrabFlagMsg {
    pub flag_id: u32,
    pub pos: Position,
}

#[derive(Clone, Debug)]
pub struct JoinGameMsg {
    pub level: u32,
    pub name: String,
    pub use_discord_name: bool,
}

#[derive(Clone, Debug)]
pub struct InitGameDataMsg {
    pub accepted: bool,
    pub level: u32,
    pub name: String,
    pub socket_id: u32,
}

/// The players present in one level.
#[derive(Clone, Debug)]
pub struct ValidPlayersMsg {
    pub level_id: u32,
    pub valid_players: Vec<u32>,
}

#[derive(Clone, Debug)]
pub struct PlayerListsMsg {
    pub game: Vec<ValidPlayersMsg>,
}

/// Every message of the protocol; the initialization messages are flattened.
#[derive(Clone, Debug)]
pub enum Sm64JsMsg {
    Ping,
    Mario(MarioMsg),
    List(MarioListMsg),
    Skin(SkinMsg),
    Chat(ChatMsg),
    Attack(AttackMsg),
    Grab(GrabFlagMsg),
    JoinGame(JoinGameMsg),
    InitGameData(InitGameDataMsg),
    RequestCosmetics,
    Announcement(AnnouncementMsg),
    PlayerLists(PlayerListsMsg),
}

/// One message for a set of sessions.
#[derive(Clone, Debug)]
pub struct Delivery {
    pub recipients: Vec<u32>,
    pub msg: Sm64JsMsg,
}

} // verus!
