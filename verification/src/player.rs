//! The entities the simulation core works with: players, teams, and pass
//! targets. Players and teams are owned by the surrounding game; the core
//! reads their fields and mutates only a player's hold-off timer and a
//! team's active-control reference.

use vstd::prelude::*;
use crate::geom::{Vec2, bounded};

verus! {

/// Largest coordinate magnitude allowed for entity positions; generous
/// compared with any playing field, it keeps squared distances inside the
/// machine integer range.
pub const MAX_ENTITY_COORD: i64 = 0x2000_0000;

/// A match participant. The core reads position, facing and team membership,
/// and mutates only the hold-off timer.
#[derive(Clone, Copy, PartialEq, Eq, Structural, Debug)]
pub struct Player {
    /// Fixed-point world position.
    pub pos: Vec2,
    /// Facing direction in eighth turns (0 = up, clockwise).
    pub dir: u8,
    /// Index of the player's team.
    pub team: usize,
    /// Frames until this player may acquire the ball again; the player is
    /// eligible only while this is strictly negative.
    pub timer: i64,
}

/// A player whose position is in range and whose facing direction is one of
/// the eight compass points.
pub open spec fn player_wf(p: Player) -> bool {
    &&& bounded(p.pos, MAX_ENTITY_COORD as int)
    &&& p.dir < 8
}

/// A team: whether a human drives it, and which of its players currently
/// receives control input.
#[derive(Clone, Copy, PartialEq, Eq, Structural, Debug)]
pub struct Team {
    pub human: bool,
    pub active_control_player: Option<usize>,
}

/// A candidate pass destination: a live player's position, or a synthetic
/// point such as a goal mouth, labelled with the team it belongs to.
#[derive(Clone, Copy, PartialEq, Eq, Structural, Debug)]
pub struct PassTarget {
    pub pos: Vec2,
    pub team: usize,
}

} // verus!
