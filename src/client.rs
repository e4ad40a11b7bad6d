//! Connected sessions and the players they become once they join a level.
use crate::auth::AuthInfo;
use crate::flag::Position;
use crate::protocol::{MarioMsg, SkinData};
use vstd::prelude::*;

verus! {

/// The server's record of one connected session.
#[derive(Clone, Debug)]
pub struct Client {
    pub socket_id: u32,
    pub auth_info: AuthInfo,
    pub ip: String,
    /// The latest frame the session sent, stamped with its socket id.
    pub data: Option<MarioMsg>,
    /// The player of this session, once it joined a level.
    pub player: Option<Player>,
}

impl Client {
    pub open spec fn spec_new(auth_info: AuthInfo, ip: String, socket_id: u32) -> Client {
        Client { socket_id, auth_info, ip, data: None, player: None }
    }

    pub fn new(auth_info: AuthInfo, ip: String, socket_id: u32) -> (r: Client)
        ensures
            r == Client::spec_new(auth_info, ip, socket_id),
    {
        Client { socket_id, auth_info, ip, data: None, player: None }
    }

    /// Stores a frame, stamped with this session's socket id.
    pub fn set_data(&mut self, data: MarioMsg)
        ensures
            final(self).data == Some(MarioMsg { socket_id: old(self).socket_id, ..data }),
            final(self).socket_id == old(self).socket_id,
            final(self).auth_info == old(self).auth_info,
            final(self).ip == old(self).ip,
            final(self).player == old(self).player,
    {
        let mut data = data;
        data.socket_id = self.socket_id;
        self.data = Some(data);
    }

    pub fn get_pos(&self) -> (r: Option<Position>)
        ensures
            r == (match self.data {
                Some(d) => Some(d.pos),
                None => None,
            }),
    {
        match &self.data {
            Some(d) => Some(d.pos),
            None => None,
        }
    }

    pub fn get_account_id(&self) -> (r: i32)
        ensures
            r == self.auth_info.account_id,
    {
        self.auth_info.account_id
    }

    pub fn get_socket_id(&self) -> (r: u32)
        ensures
            r == self.socket_id,
    {
        self.socket_id
    }

    pub open spec fn level_spec(&self) -> Option<u32> {
        match self.player {
            Some(p) => Some(p.level),
            None => None,
        }
    }

    /// The level this session's player joined, if any.
    pub fn get_level(&self) -> (r: Option<u32>)
        ensures
            r == self.level_spec(),
    {
        match &self.player {
            Some(p) => Some(p.level),
            None => None,
        }
    }
}

/// The bytes of an optional skin.
pub open spec fn skin_view(s: Option<SkinData>) -> Option<Seq<u8>> {
    match s {
        Some(d) => Some(d.bytes@),
        None => None,
    }
}

/// A copy of an optional skin.
pub fn copy_skin(s: &Option<SkinData>) -> (r: Option<SkinData>)
    ensures
        skin_view(r) == skin_view(*s),
{
    match s {
        Some(d) => Some(SkinData { bytes: d.bytes.clone() }),
        None => None,
    }
}

/// A session that has joined a level.
#[derive(Clone, Debug)]
pub struct Player {
    pub socket_id: u32,
    pub level: u32,
    pub name: String,
    pub skin_data: Option<SkinData>,
    /// Whether the skin changed since it was last broadcast.
    pub skin_data_updated: bool,
}

impl Player {
    pub open spec fn spec_new(socket_id: u32, level: u32, name: String) -> Player {
        Player { socket_id, level, name, skin_data: None, skin_data_updated: false }
    }

    pub fn new(socket_id: u32, level: u32, name: String) -> (r: Player)
        ensures
            r == Player::spec_new(socket_id, level, name),
    {
        Player { socket_id, level, name, skin_data: None, skin_data_updated: false }
    }

    pub fn get_socket_id(&self) -> (r: u32)
        ensures
            r == self.socket_id,
    {
        self.socket_id
    }

    pub fn get_level(&self) -> (r: u32)
        ensures
            r == self.level,
    {
        self.level
    }

    pub fn get_name(&self) -> (r: &String)
        ensures
            *r == self.name,
    {
        &self.name
    }

    pub fn get_skin_data(&self) -> (r: &Option<SkinData>)
        ensures
            *r == self.skin_data,
    {
        &self.skin_data
    }

    /// Stores a skin and marks it for the next skin broadcast.
    pub fn set_skin_data(&mut self, skin_data: Option<SkinData>)
        ensures
            *final(self) == (Player { skin_data, skin_data_updated: true, ..*old(self) }),
    {
        self.skin_data = skin_data;
        self.skin_data_updated = true;
    }

    /// The skin, if it changed since the last call and the player has one;
    /// the mark is cleared either way.
    pub fn get_updated_skin_data(&mut self) -> (r: Option<SkinData>)
        ensures
            r is Some <==> old(self).skin_data_updated && old(self).skin_data is Some,
            r is Some ==> skin_view(r) == skin_view(old(self).skin_data),
            *final(self) == (Player { skin_data_updated: false, ..*old(self) }),
    {
        if self.skin_data_updated {
            self.skin_data_updated = false;
            copy_skin(&self.skin_data)
        } else {
            None
        }
    }
}

} // verus!
