//! The session server's inbound and outbound message types.
//!
//! The transport hands the server fully formed inbound intents and takes
//! fully formed outbound events; framing and delivery live outside the
//! core.

use vstd::prelude::*;

use crate::arena::{Arena, ArenaModel, ArenaOverview, ArenaOverviewModel};
use crate::primitives::{ArenaId, ClientId, Direction, Player, PlayerId, PlayerModel};
use crate::updates::{updates_view, ArenaUpdate, UpdateModel};

verus! {

/// An inbound message: an intent, tagged with the client it came from.
#[derive(Debug)]
pub struct MessageIn {
    pub client_id: ClientId,
    pub payload: MessagePayload,
}

/// A client's intent.
#[derive(Debug)]
pub enum MessagePayload {
    Connect(Option<String>),
    Disconnect,
    GetArenaList,
    Join { player: Player, arena_id: Option<ArenaId> },
    Start,
    Turn(Direction),
}

/// The mathematical value of an intent.
#[verifier::ext_equal]
pub enum MessagePayloadModel {
    Connect(Option<Seq<char>>),
    Disconnect,
    GetArenaList,
    Join { player: PlayerModel, arena_id: Option<ArenaId> },
    Start,
    Turn(Direction),
}

impl View for MessagePayload {
    type V = MessagePayloadModel;

    open spec fn view(&self) -> MessagePayloadModel {
        match self {
            MessagePayload::Connect(ip) => MessagePayloadModel::Connect(
                match ip {
                    Some(s) => Some(s@),
                    None => None,
                },
            ),
            MessagePayload::Disconnect => MessagePayloadModel::Disconnect,
            MessagePayload::GetArenaList => MessagePayloadModel::GetArenaList,
            MessagePayload::Join { player, arena_id } => MessagePayloadModel::Join {
                player: player@,
                arena_id: *arena_id,
            },
            MessagePayload::Start => MessagePayloadModel::Start,
            MessagePayload::Turn(d) => MessagePayloadModel::Turn(*d),
        }
    }
}

impl MessageIn {
    /// The inbound message a newly opened connection produces.
    pub fn connect(client_id: ClientId, ip_address: Option<String>) -> (r: MessageIn)
        ensures
            r.client_id == client_id,
            r.payload@ == (MessagePayloadModel::Connect(
                match ip_address {
                    Some(s) => Some(s@),
                    None => None::<Seq<char>>,
                },
            )),
    {
        MessageIn { client_id, payload: MessagePayload::Connect(ip_address) }
    }

    /// The inbound message a dropped connection produces.
    pub fn disconnect(client_id: ClientId) -> (r: MessageIn)
        ensures
            r.client_id == client_id,
            r.payload@ == MessagePayloadModel::Disconnect,
    {
        MessageIn { client_id, payload: MessagePayload::Disconnect }
    }
}

/// An outbound message for one client.
#[derive(Debug)]
pub enum MessageOut {
    ArenaList(Vec<ArenaOverview>),
    ArenaJoined(ArenaId, PlayerId),
    ArenaState(Arena),
    ArenaStatePatch(Vec<ArenaUpdate>),
}

/// The mathematical value of an outbound message.
#[verifier::ext_equal]
pub enum MessageOutModel {
    ArenaList(Seq<ArenaOverviewModel>),
    ArenaJoined(ArenaId, PlayerId),
    ArenaState(ArenaModel),
    ArenaStatePatch(Seq<UpdateModel>),
}

/// The mathematical values of a sequence of overviews.
pub open spec fn overviews_view(s: Seq<ArenaOverview>) -> Seq<ArenaOverviewModel> {
    s.map_values(|o: ArenaOverview| o@)
}

impl View for MessageOut {
    type V = MessageOutModel;

    open spec fn view(&self) -> MessageOutModel {
        match self {
            MessageOut::ArenaList(os) => MessageOutModel::ArenaList(overviews_view(os@)),
            MessageOut::ArenaJoined(aid, pid) => MessageOutModel::ArenaJoined(*aid, *pid),
            MessageOut::ArenaState(a) => MessageOutModel::ArenaState(a@),
            MessageOut::ArenaStatePatch(evs) => MessageOutModel::ArenaStatePatch(
                updates_view(evs@),
            ),
        }
    }
}

} // verus!
