//! Axis-aligned ball physics: one integration step with boundary bounce and
//! drag, and the estimator for how many ticks a kicked ball needs to cover a
//! distance.

use vstd::prelude::*;
use vstd::arithmetic::div_mod::{
    lemma_div_is_ordered, lemma_div_multiples_vanish, lemma_div_pos_is_pos,
};
use crate::geom::SCALE;

verus! {

/// Per-tick velocity decay: each step the speed is scaled by
/// `DRAG_NUM / DRAG_DEN`.
pub const DRAG_NUM: i64 = 49;

/// See `DRAG_NUM`.
pub const DRAG_DEN: i64 = 50;

/// Initial fixed-point speed of a kicked ball (11.5 world units per tick).
pub const KICK_STRENGTH: i64 = 11 * SCALE + 500;

/// A kicked ball is treated as stopped at or below this fixed-point speed
/// (a quarter of a world unit per tick).
pub const STOP_SPEED: i64 = 250;

/// Largest speed magnitude the physics routines accept.
pub const MAX_SPEED: i64 = 0x10_0000;

/// Largest position magnitude the physics routines accept.
pub const MAX_POS: i64 = 0x100_0000_0000;

/// An axis-aligned pair of bounds, `min <= max`.
#[derive(Clone, Copy, PartialEq, Eq, Structural, Debug)]
pub struct Bounds {
    pub min: i64,
    pub max: i64,
}

/// One tick of velocity decay, truncating toward zero.
pub open spec fn drag_spec(vel: int) -> int {
    if vel >= 0 {
        vel * DRAG_NUM / (DRAG_DEN as int)
    } else {
        -((-vel) * DRAG_NUM / (DRAG_DEN as int))
    }
}

/// Drag never grows a speed, never flips its sign, and strictly shrinks any
/// speed of at least one tenth of a world unit.
pub proof fn lemma_drag_shrinks(vel: int)
    ensures
        vel >= 0 ==> 0 <= drag_spec(vel) <= vel,
        vel < 0 ==> vel <= drag_spec(vel) <= 0,
        vel >= 100 ==> drag_spec(vel) < vel,
{
    if vel >= 0 {
        lemma_div_pos_is_pos(vel * DRAG_NUM, DRAG_DEN as int);
        lemma_div_is_ordered(vel * DRAG_NUM, vel * DRAG_DEN, DRAG_DEN as int);
        lemma_div_multiples_vanish(vel, DRAG_DEN as int);
        assert(vel * DRAG_DEN == DRAG_DEN * vel);
        if vel >= 100 {
            lemma_div_is_ordered(vel * DRAG_NUM, (vel - 1) * DRAG_DEN, DRAG_DEN as int);
            lemma_div_multiples_vanish(vel - 1, DRAG_DEN as int);
            assert((vel - 1) * DRAG_DEN == DRAG_DEN * (vel - 1));
        }
    } else {
        let a = -vel;
        lemma_div_pos_is_pos(a * DRAG_NUM, DRAG_DEN as int);
        lemma_div_is_ordered(a * DRAG_NUM, a * DRAG_DEN, DRAG_DEN as int);
        lemma_div_multiples_vanish(a, DRAG_DEN as int);
        assert(a * DRAG_DEN == DRAG_DEN * a);
    }
}

/// One tick of velocity decay.
pub fn drag(vel: i64) -> (r: i64)
    requires
        -MAX_POS <= vel <= MAX_POS,
    ensures
        r == drag_spec(vel as int),
{
    proof {
        lemma_drag_shrinks(vel as int);
    }
    if vel >= 0 {
        ((vel as u64 * 49) / 50) as i64
    } else {
        -((((-vel) as u64 * 49) / 50) as i64)
    }
}

/// The position after one physics step: the move is committed when it stays
/// inside the bounds and rejected (wall stop) when it would cross them.
pub open spec fn axis_step_pos(pos: int, vel: int, b: Bounds) -> int {
    if pos + vel < b.min || pos + vel > b.max {
        pos
    } else {
        pos + vel
    }
}

/// The velocity after one physics step: negated by a bounce, then decayed
/// by drag either way.
pub open spec fn axis_step_vel(pos: int, vel: int, b: Bounds) -> int {
    if pos + vel < b.min || pos + vel > b.max {
        drag_spec(-vel)
    } else {
        drag_spec(vel)
    }
}

/// One physics step along a single axis: integrate the velocity into the
/// position, reject the move and reflect the velocity if it leaves `b`, and
/// apply drag.
pub fn axis_step(pos: i64, vel: i64, b: Bounds) -> (r: (i64, i64))
    requires
        -MAX_POS <= pos <= MAX_POS,
        -MAX_SPEED <= vel <= MAX_SPEED,
    ensures
        r.0 == axis_step_pos(pos as int, vel as int, b),
        r.1 == axis_step_vel(pos as int, vel as int, b),
        r.0 == pos || b.min <= r.0 <= b.max,
        -MAX_SPEED <= r.1 <= MAX_SPEED,
{
    proof {
        lemma_drag_shrinks(vel as int);
        lemma_drag_shrinks(-(vel as int));
    }
    let moved = pos + vel;
    if moved < b.min || moved > b.max {
        (pos, drag(-vel))
    } else {
        (moved, drag(vel))
    }
}

/// A step from strictly inside the bounds integrates and drags; a step that
/// would cross them keeps the original position and reflects the velocity
/// before the drag.
pub proof fn lemma_axis_step_cases(pos: int, vel: int, b: Bounds)
    ensures
        b.min <= pos + vel <= b.max ==> axis_step_pos(pos, vel, b) == pos + vel
            && axis_step_vel(pos, vel, b) == drag_spec(vel),
        !(b.min <= pos + vel <= b.max) ==> axis_step_pos(pos, vel, b) == pos
            && axis_step_vel(pos, vel, b) == drag_spec(-vel),
{
}

/// The number of physics ticks a ball kicked at `vel` needs to cover
/// `distance`, stopping once the ball is slower than `STOP_SPEED`.
pub open spec fn steps_rec(distance: int, vel: int) -> nat
    decreases (if vel >= 0 { vel } else { 0 }),
    when vel > STOP_SPEED ==> 0 <= drag_spec(vel) < vel
    via steps_rec_decreases
{
    if distance <= 0 || vel <= STOP_SPEED {
        0
    } else {
        1 + steps_rec(distance - vel, drag_spec(vel))
    }
}

#[via_fn]
proof fn steps_rec_decreases(distance: int, vel: int) {
    lemma_drag_shrinks(vel);
}

/// `steps_rec` needs at most `vel` ticks.
pub proof fn lemma_steps_bounded(distance: int, vel: int)
    ensures
        vel >= 0 ==> steps_rec(distance, vel) <= vel,
        vel < 0 ==> steps_rec(distance, vel) == 0,
    decreases (if vel >= 0 { vel } else { 0 }),
{
    lemma_drag_shrinks(vel);
    if !(distance <= 0 || vel <= STOP_SPEED) {
        lemma_steps_bounded(distance - vel, drag_spec(vel));
    }
}

/// Estimates how many physics ticks a freshly kicked ball needs to travel
/// `distance`, by simulating the decaying velocity sequence.
pub fn steps_to_travel(distance: i64) -> (n: u16)
    requires
        -MAX_POS <= distance <= MAX_POS,
    ensures
        n == steps_rec(distance as int, KICK_STRENGTH as int),
{
    let mut d = distance;
    let mut vel: i64 = KICK_STRENGTH;
    let mut n: u16 = 0;
    proof {
        lemma_steps_bounded(d as int, vel as int);
    }
    while d > 0 && vel > STOP_SPEED
        invariant
            n + steps_rec(d as int, vel as int) == steps_rec(
                distance as int,
                KICK_STRENGTH as int,
            ),
            steps_rec(distance as int, KICK_STRENGTH as int) <= KICK_STRENGTH,
            0 <= vel <= KICK_STRENGTH,
            -MAX_POS - KICK_STRENGTH <= d <= MAX_POS,
        decreases vel,
    {
        proof {
            lemma_drag_shrinks(vel as int);
        }
        d = d - vel;
        n = n + 1;
        vel = drag(vel);
    }
    n
}

/// A zero distance needs zero ticks, and a longer pass never needs fewer
/// ticks than a shorter one.
pub proof fn lemma_steps_monotone(d1: int, d2: int, vel: int)
    requires
        d1 <= d2,
    ensures
        steps_rec(0, vel) == 0,
        steps_rec(d1, vel) <= steps_rec(d2, vel),
    decreases (if vel >= 0 { vel } else { 0 }),
{
    lemma_drag_shrinks(vel);
    if d2 <= 0 || vel <= STOP_SPEED {
    } else if d1 <= 0 {
    } else {
        lemma_steps_monotone(d1 - vel, d2 - vel, drag_spec(vel));
    }
}

} // verus!
