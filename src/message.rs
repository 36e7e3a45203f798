use vstd::prelude::*;

use crate::entity::PacketEntity;
use crate::usermessage::SayText2Message;

verus! {

/// A player died.
#[derive(Debug)]
pub struct PlayerDeathEvent {
    pub user_id: u16,
    pub attacker: u16,
    /// 16384 or more when nobody assisted.
    pub assister: u16,
    pub weapon: String,
}

/// A player spawned.
#[derive(Clone, Copy, Debug, PartialEq, Eq, Structural)]
pub struct PlayerSpawnEvent {
    pub user_id: u16,
    pub team: u16,
    pub class: u16,
}

/// A round was won.
#[derive(Clone, Copy, Debug, PartialEq, Eq, Structural)]
pub struct TeamPlayRoundWinEvent {
    pub team: u8,
    pub win_reason: u8,
    /// The round's length in seconds, as an IEEE-754 single-precision bit
    /// pattern.
    pub round_time: u32,
}

/// A player was hurt.
#[derive(Clone, Copy, Debug, PartialEq, Eq, Structural)]
pub struct PlayerHurtEvent {
    pub user_id: u16,
    pub health: u16,
}

/// The game events the analysis reads; the rest are `Other`.
#[derive(Debug)]
pub enum GameEvent {
    PlayerDeath(PlayerDeathEvent),
    PlayerSpawn(PlayerSpawnEvent),
    TeamPlayRoundWin(TeamPlayRoundWinEvent),
    PlayerHurt(PlayerHurtEvent),
    Other,
}

/// The user messages the analysis reads; the rest are `Other`.
#[derive(Debug)]
pub enum UserMessage {
    SayText2(SayText2Message),
    Other,
}

/// A decoded network message, as handed to a message handler.
#[derive(Debug)]
pub enum Message {
    /// The server's tick counter.
    NetTick(u32),
    /// Server information; carries the seconds per tick as an IEEE-754
    /// single-precision bit pattern.
    ServerInfo(u32),
    GameEvent(GameEvent),
    UserMessage(UserMessage),
    /// Pause switched on (`true`) or off.
    SetPause(bool),
    /// Entity updates, with the tick they are a delta from, if any.
    PacketEntities(Option<u32>, Vec<PacketEntity>),
    Other,
}

/// The kinds of message a handler may ask to see.
#[derive(Clone, Copy, Debug, PartialEq, Eq, Hash, Structural)]
pub enum MessageType {
    GameEvent,
    UserMessage,
    ServerInfo,
    NetTick,
    SetPause,
    PacketEntities,
    StringTable,
    Other,
}

} // verus!
