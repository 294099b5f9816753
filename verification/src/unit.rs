//! A unit on the field.
use crate::math::{Num, Vec2};
use vstd::prelude::*;

verus! {

/// What a unit is doing.
#[derive(Clone, Copy, Debug, PartialEq, Eq, Structural)]
pub enum UnitState {
    /// Standing, or braking to a stand.
    Idle,
    /// Heading for a point.
    Move(Vec2),
}

/// A summon under way: the type that will appear and the seconds left.
#[derive(Clone, Copy, Debug, PartialEq, Eq, Structural)]
pub struct Summon {
    pub unit_ty: usize,
    pub delay: Num,
}

/// A unit on the field.
#[derive(Clone, Copy, Debug, PartialEq, Eq)]
pub struct Unit {
    /// The unit's id: given once, never given again in the same game.
    pub id: usize,
    /// The player slot that owns the unit.
    pub client: usize,
    /// The unit's type: an index into the game's unit types.
    pub ty: usize,
    /// Position.
    pub pos: Vec2,
    /// Velocity.
    pub vel: Vec2,
    /// Acceleration of the current tick.
    pub acc: Vec2,
    /// The displacement the next tick will add to the position.
    pub disp: Vec2,
    /// What the unit is doing.
    pub state: UnitState,
    /// The summon the unit is working on, if any.
    pub summon: Option<Summon>,
    /// Hit points left.
    pub hp: Num,
    /// Seconds until the weapon is ready again.
    pub reload: Num,
    /// Set from the unit's appearance until players have been told of it.
    pub new: bool,
    /// Set once the unit has no hit points left. The next tick removes it.
    pub dead: bool,
}

impl Unit {
    /// A unit as it enters the field: at rest, idle, unhurt, ready to fire,
    /// and not yet announced.
    pub open spec fn fresh(id: usize, ty: usize, client: usize, pos: Vec2, hp: Num) -> Unit {
        Unit {
            id,
            client,
            ty,
            pos,
            vel: Vec2::zero_spec(),
            acc: Vec2::zero_spec(),
            disp: Vec2::zero_spec(),
            state: UnitState::Idle,
            summon: None,
            hp,
            reload: Num::zero_spec(),
            new: true,
            dead: false,
        }
    }

    /// The unit once players have been told of it.
    pub open spec fn announced(self) -> Unit {
        Unit { new: false, ..self }
    }
}

} // verus!
