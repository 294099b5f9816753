//! What players send to the game and what the game sends back.
use crate::math::{Num, Vec2};
use vstd::prelude::*;

verus! {

/// A message from a player.
#[derive(Clone, Debug, PartialEq, Eq)]
pub enum ClientMsg {
    /// Orders, each for the unit with the given id.
    Commands(Vec<(usize, UnitCmd)>),
}

impl ClientMsg {
    /// The orders the message holds, in order.
    pub open spec fn commands(&self) -> Seq<(usize, UnitCmd)> {
        match self {
            ClientMsg::Commands(cmds) => cmds@,
        }
    }
}

/// An order for one unit.
#[derive(Clone, Copy, Debug, PartialEq, Eq, Structural)]
pub enum UnitCmd {
    /// Head for this point.
    Target(Vec2),
    /// Summon a unit of this type.
    Summon(usize),
}

/// A message to a player.
#[derive(Clone, Debug, PartialEq, Eq)]
pub enum ServerMsg {
    Room(RoomMsg),
    Update(UpdateMsg),
}

/// Tells a player which slot of which room it has.
#[derive(Clone, Debug, PartialEq, Eq)]
pub struct RoomMsg {
    pub client_id: usize,
    pub room: String,
}

/// What happened in a tick, or, for a player who joins, the whole field.
#[derive(Clone, Debug, PartialEq, Eq)]
pub struct UpdateMsg {
    /// The units a player has not been told of before.
    pub unit_create: Vec<UnitCreateMsg>,
    /// One entry for each unit on the field, in the field's order.
    pub unit_change: Vec<UnitChangeMsg>,
    /// The hits of the tick, in the order they fell.
    pub damage: Vec<DamageMsg>,
}

/// Announces a unit.
#[derive(Clone, Copy, Debug, PartialEq, Eq, Structural)]
pub struct UnitCreateMsg {
    pub id: usize,
    pub ty: usize,
    pub client: usize,
}

/// Where a unit is, where it is going, and how it is.
#[derive(Clone, Copy, Debug, PartialEq, Eq, Structural)]
pub struct UnitChangeMsg {
    pub pos: Vec2,
    pub disp: Vec2,
    pub hp: Num,
    pub dead: bool,
}

/// One hit. `from` and `to` are the places of attacker and target in the
/// field's order at the time of the hit, which is the order of `unit_change`
/// in the same update. They are not unit ids.
#[derive(Clone, Copy, Debug, PartialEq, Eq, Structural)]
pub struct DamageMsg {
    pub from: usize,
    pub to: usize,
}

/// An `UpdateMsg` as a value of mathematics.
pub struct UpdateView {
    pub unit_create: Seq<UnitCreateMsg>,
    pub unit_change: Seq<UnitChangeMsg>,
    pub damage: Seq<DamageMsg>,
}

/// A `ServerMsg` as a value of mathematics.
pub enum ServerView {
    Room { client_id: usize, room: Seq<char> },
    Update(UpdateView),
}

impl View for UpdateMsg {
    type V = UpdateView;

    open spec fn view(&self) -> UpdateView {
        UpdateView {
            unit_create: self.unit_create@,
            unit_change: self.unit_change@,
            damage: self.damage@,
        }
    }
}

impl View for ServerMsg {
    type V = ServerView;

    open spec fn view(&self) -> ServerView {
        match self {
            ServerMsg::Room(m) => ServerView::Room { client_id: m.client_id, room: m.room@ },
            ServerMsg::Update(m) => ServerView::Update(m@),
        }
    }
}

} // verus!
