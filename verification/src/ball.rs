//! The ball entity and its per-tick update: dribble carry while owned, free
//! flight with channel-dependent bounds while unowned, and the acquisition
//! scan that transfers possession.

use vstd::prelude::*;
use crate::geom::{Vec2, SCALE, bounded, diff, dir_vec, lemma_dir_vec_unit, len2, angle_to_vector};
use crate::physics::{Bounds, MAX_SPEED, axis_step, axis_step_pos, axis_step_vel};
use crate::player::{MAX_ENTITY_COORD, Player, Team, player_wf};

verus! {

broadcast use vstd::seq::group_seq_axioms;

/// Half the level width, fixed point.
pub const HALF_LEVEL_W: i64 = 500 * SCALE;

/// Half the level height, fixed point.
pub const HALF_LEVEL_H: i64 = 700 * SCALE;

/// Half the pitch width, fixed point.
pub const HALF_PITCH_W: i64 = 442 * SCALE;

/// Half the pitch height, fixed point.
pub const HALF_PITCH_H: i64 = 622 * SCALE;

/// Half the goal-mouth width, fixed point.
pub const HALF_GOAL_W: i64 = 93 * SCALE;

/// Depth of each goal behind the pitch, fixed point.
pub const GOAL_DEPTH: i64 = 52 * SCALE;

/// Left edge of the pitch.
pub const PITCH_MIN_X: i64 = HALF_LEVEL_W - HALF_PITCH_W;

/// Right edge of the pitch.
pub const PITCH_MAX_X: i64 = HALF_LEVEL_W + HALF_PITCH_W;

/// Top edge of the pitch.
pub const PITCH_MIN_Y: i64 = HALF_LEVEL_H - HALF_PITCH_H;

/// Bottom edge of the pitch.
pub const PITCH_MAX_Y: i64 = HALF_LEVEL_H + HALF_PITCH_H;

/// Left edge of the goal mouths.
pub const GOAL_MIN_X: i64 = HALF_LEVEL_W - HALF_GOAL_W;

/// Right edge of the goal mouths.
pub const GOAL_MAX_X: i64 = HALF_LEVEL_W + HALF_GOAL_W;

/// Back of the top goal.
pub const GOAL_MIN_Y: i64 = PITCH_MIN_Y - GOAL_DEPTH;

/// Back of the bottom goal.
pub const GOAL_MAX_Y: i64 = PITCH_MAX_Y + GOAL_DEPTH;

/// Carry offset ahead of the owner along the X axis, world units. The X and
/// Y magnitudes differ so the carry path is an ellipse, reflecting the
/// game's not-quite-top-down perspective.
pub const DRIBBLE_DIST_X: i64 = 18;

/// Carry offset ahead of the owner along the Y axis, world units.
pub const DRIBBLE_DIST_Y: i64 = 16;

/// Possession contact distance, fixed point.
pub const DRIBBLE_RANGE: i64 = 18 * SCALE;

/// Frames a player who just lost the ball must wait before taking it back.
pub const LOSS_HOLDOFF: i64 = 60;

/// Speed imparted to the ball when its carrier loses it, world units/tick.
pub const LOSS_KICK: i64 = 3;

/// The ball. At most one owner at a time; while owned, the velocity is not
/// used for free flight, it is only set as an impulse at dispossession.
#[derive(Clone, Copy, PartialEq, Eq, Structural, Debug)]
pub struct Ball {
    /// Fixed-point world position.
    pub pos: Vec2,
    /// Fixed-point velocity, used only while unowned.
    pub vel: Vec2,
    /// Index into the player pool of the current owner, if any.
    pub owner: Option<usize>,
    /// Frames until the ball may be passed again after a transfer.
    pub timer: i64,
    /// The visual shadow, mirroring the ball's position each tick.
    pub shadow_pos: Vec2,
}

/// The mutable simulation state the per-tick update works on.
pub struct Game {
    pub ball: Ball,
    /// The full player pool; the ball update mutates only hold-off timers.
    pub players: Vec<Player>,
    /// One entry per team.
    pub teams: Vec<Team>,
    /// Difficulty-derived hold-off stamped on the ball at each transfer.
    pub holdoff_timer: i64,
}

/// A mathematical snapshot of a `Game`.
#[verifier::ext_equal]
pub ghost struct State {
    pub ball: Ball,
    pub players: Seq<Player>,
    pub teams: Seq<Team>,
    pub holdoff: int,
}

impl View for Game {
    type V = State;

    open spec fn view(&self) -> State {
        State {
            ball: self.ball,
            players: self.players@,
            teams: self.teams@,
            holdoff: self.holdoff_timer as int,
        }
    }
}

/// The ball position stays inside the union of pitch and goal boxes.
pub open spec fn ball_pos_wf(p: Vec2) -> bool {
    &&& PITCH_MIN_X <= p.x <= PITCH_MAX_X
    &&& GOAL_MIN_Y <= p.y <= GOAL_MAX_Y
}

/// Well-formedness of the whole simulation state: ball in the playing box
/// with a sane speed, every index in range, every player well formed.
pub open spec fn state_wf(s: State) -> bool {
    &&& ball_pos_wf(s.ball.pos)
    &&& bounded(s.ball.vel, MAX_SPEED as int)
    &&& match s.ball.owner {
        Some(j) => j < s.players.len(),
        None => true,
    }
    &&& forall|i: int|
        0 <= i < s.players.len() ==> player_wf(#[trigger] s.players[i]) && s.players[i].team
            < s.teams.len()
    &&& forall|i: int|
        0 <= i < s.teams.len() ==> match (#[trigger] s.teams[i]).active_control_player {
            Some(j) => j < s.players.len(),
            None => true,
        }
    &&& 0 <= s.holdoff
}

/// Midpoint easing with snap: within one world unit of the target the value
/// snaps to it, otherwise it moves to the midpoint (truncating toward zero),
/// which avoids asymptotic jitter around the target.
pub open spec fn avg_spec(a: int, b: int) -> int {
    if -SCALE < b - a < SCALE {
        b
    } else if a + b >= 0 {
        (a + b) / 2
    } else {
        -((-(a + b)) / 2)
    }
}

/// Average of two coordinates, snapping to `b` when already within one world
/// unit of it.
pub fn avg(a: i64, b: i64) -> (r: i64)
    requires
        -0x100_0000_0000 <= a <= 0x100_0000_0000,
        -0x100_0000_0000 <= b <= 0x100_0000_0000,
    ensures
        r == avg_spec(a as int, b as int),
{
    let d = b - a;
    if -SCALE < d && d < SCALE {
        b
    } else {
        let s = a + b;
        if s >= 0 {
            ((s as u64) / 2) as i64
        } else {
            -((((-s) as u64) / 2) as i64)
        }
    }
}

/// Whether a point is inside the legal playing area: the pitch rectangle or
/// either goal box.
pub open spec fn on_pitch_spec(x: int, y: int) -> bool {
    ||| (PITCH_MIN_X <= x <= PITCH_MAX_X && PITCH_MIN_Y <= y <= PITCH_MAX_Y)
    ||| (GOAL_MIN_X <= x <= GOAL_MAX_X && GOAL_MIN_Y <= y <= PITCH_MIN_Y)
    ||| (GOAL_MIN_X <= x <= GOAL_MAX_X && PITCH_MAX_Y <= y <= GOAL_MAX_Y)
}

/// Whether a point is inside the legal playing area; used while dribbling.
pub fn on_pitch(x: i64, y: i64) -> (r: bool)
    ensures
        r == on_pitch_spec(x as int, y as int),
{
    (PITCH_MIN_X <= x && x <= PITCH_MAX_X && PITCH_MIN_Y <= y && y <= PITCH_MAX_Y) || (GOAL_MIN_X
        <= x && x <= GOAL_MAX_X && GOAL_MIN_Y <= y && y <= PITCH_MIN_Y) || (GOAL_MIN_X <= x && x
        <= GOAL_MAX_X && PITCH_MAX_Y <= y && y <= GOAL_MAX_Y)
}

/// X-axis bounds for a free ball: inside the goal channel (beyond the pitch
/// vertically) the ball can only move between the goal posts.
pub open spec fn bounds_x_for(y: int) -> Bounds {
    let d = if y >= HALF_LEVEL_H {
        y - HALF_LEVEL_H
    } else {
        HALF_LEVEL_H - y
    };
    if d > HALF_PITCH_H {
        Bounds { min: GOAL_MIN_X, max: GOAL_MAX_X }
    } else {
        Bounds { min: PITCH_MIN_X, max: PITCH_MAX_X }
    }
}

/// Y-axis bounds for a free ball: within the goal mouth horizontally the
/// ball may run to the back of the net, otherwise only to the pitch edge.
pub open spec fn bounds_y_for(x: int) -> Bounds {
    let d = if x >= HALF_LEVEL_W {
        x - HALF_LEVEL_W
    } else {
        HALF_LEVEL_W - x
    };
    if d < HALF_GOAL_W {
        Bounds { min: GOAL_MIN_Y, max: GOAL_MAX_Y }
    } else {
        Bounds { min: PITCH_MIN_Y, max: PITCH_MAX_Y }
    }
}

/// The X coordinate of the dribble carry point just ahead of the owner.
pub open spec fn carry_target_x(o: Player) -> int {
    o.pos.x + DRIBBLE_DIST_X * dir_vec(o.dir as int).0
}

/// The Y coordinate of the dribble carry point just ahead of the owner.
pub open spec fn carry_target_y(o: Player) -> int {
    o.pos.y + DRIBBLE_DIST_Y * dir_vec(o.dir as int).1
}

/// Phase one of a tick: the unconditional count-down of the ball's hold-off
/// timer.
pub open spec fn tick_timer(s: State) -> State {
    State { ball: Ball { timer: (s.ball.timer - 1) as i64, ..s.ball }, ..s }
}

/// Owned-mode movement for owner index `j`: ease the ball toward the carry
/// point; a carry point outside the playing area costs possession, stamping
/// the owner's hold-off timer and kicking the ball along their facing.
pub open spec fn move_owned(s: State, j: int) -> State {
    let o = s.players[j];
    let nx = avg_spec(s.ball.pos.x as int, carry_target_x(o));
    let ny = avg_spec(s.ball.pos.y as int, carry_target_y(o));
    if on_pitch_spec(nx, ny) {
        State { ball: Ball { pos: Vec2 { x: nx as i64, y: ny as i64 }, ..s.ball }, ..s }
    } else {
        let d = dir_vec(o.dir as int);
        State {
            ball: Ball {
                vel: Vec2 { x: (LOSS_KICK * d.0) as i64, y: (LOSS_KICK * d.1) as i64 },
                owner: None,
                ..s.ball
            },
            players: s.players.update(j, Player { timer: LOSS_HOLDOFF, ..o }),
            ..s
        }
    }
}

/// Free-mode movement: one independent physics step per axis, each with the
/// bounds selected by the other axis's channel.
pub open spec fn move_free(s: State) -> State {
    let bx = bounds_x_for(s.ball.pos.y as int);
    let by = bounds_y_for(s.ball.pos.x as int);
    let px = axis_step_pos(s.ball.pos.x as int, s.ball.vel.x as int, bx);
    let vx = axis_step_vel(s.ball.pos.x as int, s.ball.vel.x as int, bx);
    let py = axis_step_pos(s.ball.pos.y as int, s.ball.vel.y as int, by);
    let vy = axis_step_vel(s.ball.pos.y as int, s.ball.vel.y as int, by);
    State {
        ball: Ball {
            pos: Vec2 { x: px as i64, y: py as i64 },
            vel: Vec2 { x: vx as i64, y: vy as i64 },
            ..s.ball
        },
        ..s
    }
}

/// The movement phase of a tick, followed by the shadow mirroring the new
/// ball position.
pub open spec fn move_phase(s: State) -> State {
    let s1 = match s.ball.owner {
        Some(j) => move_owned(s, j as int),
        None => move_free(s),
    };
    State { ball: Ball { shadow_pos: s1.ball.pos, ..s1.ball }, ..s1 }
}

/// The ball collides with `p` when `p`'s hold-off timer has expired and `p`
/// is within possession contact distance.
pub open spec fn collide_spec(b: Ball, p: Player) -> bool {
    &&& p.timer < 0
    &&& len2(diff(p.pos, b.pos)) <= DRIBBLE_RANGE * DRIBBLE_RANGE
}

/// Player `i` may take the ball: nobody owns it or `i` plays against the
/// owner, and the ball collides with `i`.
pub open spec fn can_acquire(s: State, i: int) -> bool {
    &&& match s.ball.owner {
        Some(j) => s.players[j as int].team != s.players[i].team,
        None => true,
    }
    &&& collide_spec(s.ball, s.players[i])
}

/// One possession transfer to player `i`: the previous owner, if any, is
/// stamped with the loss hold-off; the ball gets the difficulty hold-off and
/// the new owner; the new owner becomes their team's active control player.
pub open spec fn transfer(s: State, i: int) -> State {
    let p = s.players[i];
    let ps = match s.ball.owner {
        Some(j) => if j < s.players.len() {
            s.players.update(j as int, Player { timer: LOSS_HOLDOFF, ..s.players[j as int] })
        } else {
            s.players
        },
        None => s.players,
    };
    State {
        ball: Ball { timer: s.holdoff as i64, owner: Some(i as usize), ..s.ball },
        players: ps,
        teams: s.teams.update(
            p.team as int,
            Team { active_control_player: Some(i as usize), ..s.teams[p.team as int] },
        ),
        holdoff: s.holdoff,
    }
}

/// The acquisition scan from player index `i` on: the first qualifying
/// candidate in pool order takes the ball, and the owner context is read
/// fresh after every transfer, so later candidates are judged against the
/// new owner's team.
pub open spec fn scan_from(s: State, i: int) -> State
    decreases s.players.len() - i,
    via scan_from_decreases
{
    if i < 0 || i >= s.players.len() {
        s
    } else if can_acquire(s, i) {
        scan_from(transfer(s, i), i + 1)
    } else {
        scan_from(s, i + 1)
    }
}

#[via_fn]
proof fn scan_from_decreases(s: State, i: int) {
    if 0 <= i < s.players.len() && can_acquire(s, i) {
        assert(transfer(s, i).players.len() == s.players.len());
    }
}

/// One full simulation tick of the ball.
pub open spec fn tick(s: State) -> State {
    scan_from(move_phase(tick_timer(s)), 0)
}

/// A scan in which no candidate from index `i` on can take the ball leaves
/// the state untouched.
pub proof fn lemma_scan_idle(s: State, i: int)
    requires
        forall|k: int| i <= k < s.players.len() ==> !can_acquire(s, k),
    ensures
        scan_from(s, i) == s,
    decreases s.players.len() - i,
{
    if 0 <= i < s.players.len() {
        lemma_scan_idle(s, i + 1);
    }
}

/// The scan passes unchanged over a stretch of candidates that cannot take
/// the ball.
pub proof fn lemma_scan_skip(s: State, i: int, w: int)
    requires
        0 <= i <= w <= s.players.len(),
        forall|k: int| i <= k < w ==> !can_acquire(s, k),
    ensures
        scan_from(s, i) == scan_from(s, w),
    decreases w - i,
{
    if i < w {
        lemma_scan_skip(s, i + 1, w);
    }
}

/// While a player's hold-off timer has not expired, the scan never hands
/// them the ball and never touches their entry.
pub proof fn lemma_scan_no_reacquire(s: State, i: int, j: int)
    requires
        0 <= j < s.players.len(),
        s.players.len() <= usize::MAX,
        s.players[j].timer >= 0,
        s.ball.owner != Some(j as usize),
    ensures
        scan_from(s, i).ball.owner != Some(j as usize),
        scan_from(s, i).players[j] == s.players[j],
    decreases s.players.len() - i,
{
    if 0 <= i < s.players.len() {
        if can_acquire(s, i) {
            assert(i != j);
            let s2 = transfer(s, i);
            assert(s2.players[j] == s.players[j]);
            lemma_scan_no_reacquire(s2, i + 1, j);
        } else {
            lemma_scan_no_reacquire(s, i + 1, j);
        }
    }
}

/// Whenever the scan takes the ball away from its current owner, the old
/// owner comes out stamped with the loss hold-off; otherwise they keep the
/// ball and their entry untouched.
pub proof fn lemma_scan_stamps_old_owner(s: State, i: int, j: int)
    requires
        0 <= j < s.players.len(),
        s.players.len() <= usize::MAX,
        s.ball.owner == Some(j as usize),
    ensures
        (scan_from(s, i).ball.owner == Some(j as usize) && scan_from(s, i).players[j]
            == s.players[j]) || scan_from(s, i).players[j].timer == LOSS_HOLDOFF,
    decreases s.players.len() - i,
{
    if 0 <= i < s.players.len() {
        if can_acquire(s, i) {
            assert(i != j);
            let s2 = transfer(s, i);
            assert(s2.players[j].timer == LOSS_HOLDOFF);
            assert(s2.ball.owner == Some(i as usize));
            lemma_scan_no_reacquire(s2, i + 1, j);
        } else {
            lemma_scan_stamps_old_owner(s, i + 1, j);
        }
    }
}

/// With an unowned ball and exactly one player in possession contact, the
/// scan gives that player the ball and makes them their team's active
/// control player.
pub proof fn lemma_scan_single_acquirer(s: State, w: int)
    requires
        s.ball.owner is None,
        s.players.len() <= usize::MAX,
        0 <= w < s.players.len(),
        s.players[w].team < s.teams.len(),
        can_acquire(s, w),
        forall|k: int|
            0 <= k < s.players.len() && k != w ==> !collide_spec(s.ball, #[trigger] s.players[k]),
    ensures
        scan_from(s, 0).ball.owner == Some(w as usize),
        scan_from(s, 0).players == s.players,
        scan_from(s, 0).teams[s.players[w].team as int].active_control_player == Some(w as usize),
{
    lemma_scan_skip(s, 0, w);
    let s2 = transfer(s, w);
    assert(scan_from(s, w) == scan_from(s2, w + 1));
    assert(s2.players == s.players);
    assert(forall|k: int| w + 1 <= k < s2.players.len() ==> !can_acquire(s2, k));
    lemma_scan_idle(s2, w + 1);
}

/// An unowned ball and a single eligible player within dribble distance:
/// after one tick that player owns the ball, and their team's active control
/// reference names them. Contact is judged against the ball's position after
/// its free flight this tick.
pub proof fn lemma_acquisition(s: State, w: int)
    requires
        s.ball.owner is None,
        s.players.len() <= usize::MAX,
        0 <= w < s.players.len(),
        s.players[w].team < s.teams.len(),
        can_acquire(move_phase(tick_timer(s)), w),
        forall|k: int|
            0 <= k < s.players.len() && k != w ==> !collide_spec(
                move_phase(tick_timer(s)).ball,
                #[trigger] s.players[k],
            ),
    ensures
        tick(s).ball.owner == Some(w as usize),
        tick(s).teams[s.players[w].team as int].active_control_player == Some(w as usize),
{
    let s1 = move_phase(tick_timer(s));
    assert(s1.players == s.players);
    assert(s1.teams == s.teams);
    assert(s1.ball.owner is None);
    lemma_scan_single_acquirer(s1, w);
}

/// An owned ball whose eased carry position would leave the playing area:
/// after one tick (with no other player in contact) the ball is unowned, the
/// previous owner's hold-off timer is the full loss hold-off, and the ball's
/// velocity is nonzero and points along the previous owner's facing.
pub proof fn lemma_dispossession(s: State, j: int)
    requires
        0 <= j < s.players.len(),
        s.players.len() <= usize::MAX,
        s.ball.owner == Some(j as usize),
        player_wf(s.players[j]),
        !on_pitch_spec(
            avg_spec(s.ball.pos.x as int, carry_target_x(s.players[j])),
            avg_spec(s.ball.pos.y as int, carry_target_y(s.players[j])),
        ),
        forall|k: int|
            0 <= k < s.players.len() && k != j ==> !collide_spec(s.ball, #[trigger] s.players[k]),
    ensures
        tick(s).ball.owner is None,
        tick(s).players[j].timer == LOSS_HOLDOFF,
        tick(s).ball.vel.x == LOSS_KICK * dir_vec(s.players[j].dir as int).0,
        tick(s).ball.vel.y == LOSS_KICK * dir_vec(s.players[j].dir as int).1,
        tick(s).ball.vel.x != 0 || tick(s).ball.vel.y != 0,
{
    let s0 = tick_timer(s);
    let s1 = move_phase(s0);
    let d = dir_vec(s.players[j].dir as int);
    lemma_dir_vec_unit(s.players[j].dir as int);
    assert(s1.ball.owner is None);
    assert(s1.ball.pos == s.ball.pos);
    assert(s1.players == s.players.update(j, Player { timer: LOSS_HOLDOFF, ..s.players[j] }));
    assert(s1.ball.vel.x == LOSS_KICK * d.0 && s1.ball.vel.y == LOSS_KICK * d.1);
    assert(forall|k: int| 0 <= k < s1.players.len() ==> !can_acquire(s1, k)) by {
        assert forall|k: int| 0 <= k < s1.players.len() implies !can_acquire(s1, k) by {
            if k == j {
                assert(s1.players[j].timer == LOSS_HOLDOFF);
            } else {
                assert(s1.players[k] == s.players[k]);
                assert(!collide_spec(s.ball, s.players[k]));
                assert(s1.ball.pos == s.ball.pos);
            }
        }
    }
    lemma_scan_idle(s1, 0);
}

/// Immediately after a tick takes the ball away from its owner, that owner's
/// hold-off timer equals the full loss hold-off (and is in particular
/// positive).
pub proof fn lemma_lockout_timer_set(s: State, j: int)
    requires
        0 <= j < s.players.len(),
        s.players.len() <= usize::MAX,
        s.ball.owner == Some(j as usize),
        tick(s).ball.owner != Some(j as usize),
    ensures
        tick(s).players[j].timer == LOSS_HOLDOFF,
{
    let s0 = tick_timer(s);
    let s1 = move_phase(s0);
    let o = s.players[j];
    let nx = avg_spec(s.ball.pos.x as int, carry_target_x(o));
    let ny = avg_spec(s.ball.pos.y as int, carry_target_y(o));
    if on_pitch_spec(nx, ny) {
        assert(s1.ball.owner == Some(j as usize));
        assert(s1.players == s.players);
        lemma_scan_stamps_old_owner(s1, 0, j);
    } else {
        assert(s1.ball.owner is None);
        assert(s1.players[j].timer == LOSS_HOLDOFF);
        lemma_scan_no_reacquire(s1, 0, j);
    }
}

/// A player whose hold-off timer has not expired cannot end a tick as the
/// ball's owner, however close to the ball they stand.
pub proof fn lemma_no_reacquisition(s: State, j: int)
    requires
        0 <= j < s.players.len(),
        s.players.len() <= usize::MAX,
        match s.ball.owner {
            Some(u) => u < s.players.len(),
            None => true,
        },
        s.players[j].timer >= 0,
        s.ball.owner != Some(j as usize),
    ensures
        tick(s).ball.owner != Some(j as usize),
{
    let s0 = tick_timer(s);
    let s1 = move_phase(s0);
    match s.ball.owner {
        Some(u) => {
            assert(u != j);
            assert(s1.players[j] == s.players[j]);
            assert(s1.ball.owner == Some(u) || s1.ball.owner is None);
        },
        None => {
            assert(s1.players[j] == s.players[j]);
            assert(s1.ball.owner is None);
        },
    }
    lemma_scan_no_reacquire(s1, 0, j);
}

impl Ball {
    /// A fresh ball at the centre of the level: no velocity, no owner, timer
    /// zero, shadow on the ball.
    pub fn new() -> (b: Ball)
        ensures
            b.pos.x == HALF_LEVEL_W,
            b.pos.y == HALF_LEVEL_H,
            b.vel.x == 0 && b.vel.y == 0,
            b.owner is None,
            b.timer == 0,
            b.shadow_pos == b.pos,
            ball_pos_wf(b.pos),
    {
        let pos = Vec2 { x: HALF_LEVEL_W, y: HALF_LEVEL_H };
        Ball { pos, vel: Vec2 { x: 0, y: 0 }, owner: None, timer: 0, shadow_pos: pos }
    }

    /// Whether this ball collides with player `p`.
    pub fn collide(&self, p: &Player) -> (r: bool)
        requires
            bounded(self.pos, MAX_ENTITY_COORD as int + DRIBBLE_RANGE as int),
            bounded(p.pos, MAX_ENTITY_COORD as int),
        ensures
            r == collide_spec(*self, *p),
    {
        if p.timer >= 0 {
            return false;
        }
        let dx = p.pos.x - self.pos.x;
        let dy = p.pos.y - self.pos.y;
        proof {
            assert(diff(p.pos, self.pos).x == dx && diff(p.pos, self.pos).y == dy);
            assert(0 <= dx * dx <= 0x4800_0000 * 0x4800_0000) by (nonlinear_arith)
                requires
                    -0x4800_0000 <= dx <= 0x4800_0000,
            ;
            assert(0 <= dy * dy <= 0x4800_0000 * 0x4800_0000) by (nonlinear_arith)
                requires
                    -0x4800_0000 <= dy <= 0x4800_0000,
            ;
            assert(len2(diff(p.pos, self.pos)) == dx * dx + dy * dy);
        }
        dx * dx + dy * dy <= DRIBBLE_RANGE * DRIBBLE_RANGE
    }

    /// One simulation tick: count the ball's hold-off timer down, move the
    /// ball (dribble carry while owned, bouncing free flight while unowned),
    /// mirror the shadow, then run the acquisition scan over all players.
    pub fn update(game: &mut Game)
        requires
            state_wf(old(game)@),
            old(game).ball.timer > i64::MIN,
        ensures
            final(game)@ == tick(old(game)@),
            state_wf(final(game)@),
    {
        game.ball.timer = game.ball.timer - 1;
        let ghost s0 = tick_timer(old(game)@);
        proof {
            assert(game@ =~= s0);
        }
        match game.ball.owner {
            Some(j) => {
                let o = game.players[j];
                let fv = angle_to_vector(o.dir);
                let nx = avg(game.ball.pos.x, o.pos.x + DRIBBLE_DIST_X * fv.x);
                let ny = avg(game.ball.pos.y, o.pos.y + DRIBBLE_DIST_Y * fv.y);
                if on_pitch(nx, ny) {
                    game.ball.pos = Vec2 { x: nx, y: ny };
                } else {
                    let mut pj = game.players[j];
                    pj.timer = LOSS_HOLDOFF;
                    game.players[j] = pj;
                    game.ball.vel = Vec2 { x: LOSS_KICK * fv.x, y: LOSS_KICK * fv.y };
                    game.ball.owner = None;
                }
                proof {
                    assert(game@ =~= move_owned(s0, j as int));
                }
            },
            None => {
                let dy = if game.ball.pos.y >= HALF_LEVEL_H {
                    game.ball.pos.y - HALF_LEVEL_H
                } else {
                    HALF_LEVEL_H - game.ball.pos.y
                };
                let bx = if dy > HALF_PITCH_H {
                    Bounds { min: GOAL_MIN_X, max: GOAL_MAX_X }
                } else {
                    Bounds { min: PITCH_MIN_X, max: PITCH_MAX_X }
                };
                let dx = if game.ball.pos.x >= HALF_LEVEL_W {
                    game.ball.pos.x - HALF_LEVEL_W
                } else {
                    HALF_LEVEL_W - game.ball.pos.x
                };
                let by = if dx < HALF_GOAL_W {
                    Bounds { min: GOAL_MIN_Y, max: GOAL_MAX_Y }
                } else {
                    Bounds { min: PITCH_MIN_Y, max: PITCH_MAX_Y }
                };
                let (px, vx) = axis_step(game.ball.pos.x, game.ball.vel.x, bx);
                let (py, vy) = axis_step(game.ball.pos.y, game.ball.vel.y, by);
                game.ball.pos = Vec2 { x: px, y: py };
                game.ball.vel = Vec2 { x: vx, y: vy };
                proof {
                    assert(game@ =~= move_free(s0));
                }
            },
        }
        game.ball.shadow_pos = game.ball.pos;
        let ghost s1 = move_phase(tick_timer(old(game)@));
        proof {
            assert(game@ =~= s1);
            assert(state_wf(game@));
        }
        let mut i: usize = 0;
        while i < game.players.len()
            invariant
                i <= game@.players.len(),
                scan_from(game@, i as int) == scan_from(s1, 0),
                state_wf(game@),
            decreases game@.players.len() - i,
        {
            let ghost sb = game@;
            let p = game.players[i];
            let owner_ok = match game.ball.owner {
                Some(j) => game.players[j].team != p.team,
                None => true,
            };
            let grabbed = owner_ok && game.ball.collide(&p);
            proof {
                assert(grabbed == can_acquire(sb, i as int));
            }
            if grabbed {
                if let Some(j) = game.ball.owner {
                    let mut pj = game.players[j];
                    pj.timer = LOSS_HOLDOFF;
                    game.players[j] = pj;
                }
                game.ball.timer = game.holdoff_timer;
                game.ball.owner = Some(i);
                let t = p.team;
                let mut tm = game.teams[t];
                tm.active_control_player = Some(i);
                game.teams[t] = tm;
                proof {
                    assert(game@ =~= transfer(sb, i as int));
                    assert(state_wf(game@));
                }
            }
            proof {
                assert(scan_from(game@, i as int + 1) == scan_from(s1, 0));
            }
            i = i + 1;
        }
        proof {
            assert(scan_from(game@, game@.players.len() as int) == game@);
            assert(game@ == tick(old(game)@));
        }
    }
}

} // verus!
