//! The stages of a tick, and what passes between the game and the numerics
//! at each of them.
//!
//! A tick has four stages. The game opens it by retiring the dead. The
//! numerics then move the units and work out the forces on them, and the
//! game judges who has arrived and who is at rest, and carries out the
//! summons that are due. The numerics measure how far the units are from
//! each other, and the game decides who hits whom. The numerics take the
//! damage off and integrate the velocities, and the game marks the dead and
//! reports.
use crate::math::{Num, Vec2};
use crate::msg::{DamageMsg, ServerMsg, ServerView};
use vstd::prelude::*;

verus! {

/// How far the current tick has come.
#[derive(Clone, Copy, Debug, PartialEq, Eq, Structural)]
pub enum Phase {
    /// Between ticks.
    Ready,
    /// The tick is open; the units are to be moved.
    Moving,
    /// The units have moved; the weapons are to be aimed.
    Aiming,
    /// The hits are decided; damage and velocities are to be settled.
    Settling,
}

/// The bits of one thousandth: a unit nearer than this to its target has
/// arrived.
pub const ARRIVAL_DISTANCE_BITS: u32 = 0x3a83_126f;

/// The bits of one: a unit slower than this may be at rest.
pub const REST_SPEED_BITS: u32 = 0x3f80_0000;

/// The bits of one half: a unit under less acceleration than this may be at
/// rest.
pub const REST_FORCE_BITS: u32 = 0x3f00_0000;

/// What the numerics found for one unit after moving it.
#[derive(Clone, Copy, Debug, PartialEq, Eq, Structural)]
pub struct MotionReport {
    /// The unit's position, its displacement added.
    pub pos: Vec2,
    /// The acceleration on the unit: steering and separation together.
    pub acc: Vec2,
    /// How far the unit is from its target. Read only if it is moving.
    pub target_distance: Num,
    /// The length of the unit's velocity.
    pub speed: Num,
    /// The length of `acc`.
    pub force: Num,
    /// The seconds left of the unit's summon, the tick taken off. Read only
    /// if it is summoning.
    pub summon_delay: Num,
    /// Where a unit summoned by this one appears.
    pub spawn_pos: Vec2,
}

/// At this distance from its target a unit is as good as there: nearer than
/// a thousandth.
pub open spec fn is_arrival(distance: Num) -> bool {
    distance.lt_spec(Num { bits: ARRIVAL_DISTANCE_BITS })
}

/// Whether a unit at this distance from its target is as good as there.
pub fn within_arrival(distance: Num) -> (r: bool)
    ensures
        r == is_arrival(distance),
{
    distance.lt(Num { bits: ARRIVAL_DISTANCE_BITS })
}

impl MotionReport {
    /// The unit is as good as at its target.
    pub open spec fn arrived(self) -> bool {
        is_arrival(self.target_distance)
    }

    /// The unit is at rest: slower than one and under less acceleration
    /// than one half.
    pub open spec fn at_rest(self) -> bool {
        self.speed.lt_spec(Num { bits: REST_SPEED_BITS }) && self.force.lt_spec(
            Num { bits: REST_FORCE_BITS },
        )
    }

    /// No time is left of the unit's summon.
    pub open spec fn summon_due(self) -> bool {
        self.summon_delay.le_zero()
    }

    /// Whether the unit is as good as at its target.
    pub fn has_arrived(&self) -> (r: bool)
        ensures
            r == self.arrived(),
    {
        within_arrival(self.target_distance)
    }

    /// Whether the unit is at rest.
    pub fn is_at_rest(&self) -> (r: bool)
        ensures
            r == self.at_rest(),
    {
        self.speed.lt(Num { bits: REST_SPEED_BITS }) && self.force.lt(
            Num { bits: REST_FORCE_BITS },
        )
    }

    /// Whether no time is left of the unit's summon.
    pub fn is_summon_due(&self) -> (r: bool)
        ensures
            r == self.summon_due(),
    {
        self.summon_delay.le(Num::zero())
    }
}

/// What the numerics found for one unit after aiming its weapon.
#[derive(Clone, Debug, PartialEq, Eq)]
pub struct AimReport {
    /// The seconds left until the weapon is ready, the tick taken off.
    pub reload: Num,
    /// For each unit on the field, in the field's order: how far it is from
    /// this one.
    pub distance: Vec<Num>,
}

/// What the numerics found for one unit after taking the damage off and
/// integrating its velocity.
#[derive(Clone, Copy, Debug, PartialEq, Eq, Structural)]
pub struct SettleReport {
    /// The hit points left.
    pub hp: Num,
    /// The new velocity.
    pub vel: Vec2,
    /// The displacement for the next tick.
    pub disp: Vec2,
}

/// What the numerics hand to the game at a stage of a tick. Each list has one
/// entry for each unit on the field, in the field's order.
#[derive(Clone, Debug, PartialEq, Eq)]
pub enum TickEvent {
    /// A tick starts.
    Begin,
    /// The units have been moved.
    Moved(Vec<MotionReport>),
    /// The weapons have been aimed.
    Aimed(Vec<AimReport>),
    /// Damage and velocities have been settled.
    Settled(Vec<SettleReport>),
}

/// What the game asks of the numerics next.
#[derive(Clone, Debug, PartialEq, Eq)]
pub enum TickAction {
    /// The event does not fit the game as it stands. Nothing has changed.
    Rejected,
    /// Move the units and report with `Moved`.
    Move,
    /// Aim the weapons and report with `Aimed`.
    Aim,
    /// Take the damage of these hits off, in this order, integrate the
    /// velocities, and report with `Settled`.
    Settle(Vec<DamageMsg>),
    /// The tick is over. Send this to the players.
    Send(ServerMsg),
}

/// A `TickAction` as a value of mathematics.
pub enum ActionView {
    Rejected,
    Move,
    Aim,
    Settle(Seq<DamageMsg>),
    Send(ServerView),
}

impl View for TickAction {
    type V = ActionView;

    open spec fn view(&self) -> ActionView {
        match self {
            TickAction::Rejected => ActionView::Rejected,
            TickAction::Move => ActionView::Move,
            TickAction::Aim => ActionView::Aim,
            TickAction::Settle(hits) => ActionView::Settle(hits@),
            TickAction::Send(msg) => ActionView::Send(msg@),
        }
    }
}

} // verus!
