//! The pass-target heuristic: whether a candidate target is a tactically
//! sound destination for a pass from a source player.

use vstd::prelude::*;
use crate::geom::{
    Vec2, SCALE, bounded, diff, dir_vec, dot, dot_spec, safe_normalize, sn_len, sn_unit_x,
    sn_unit_y, vsub, angle_to_vector,
};
use crate::player::{MAX_ENTITY_COORD, PassTarget, Player, player_wf};

verus! {

/// Passes longer than this fixed-point distance are never sound.
pub const TARGET_RANGE: i64 = 300 * SCALE;

/// Cosine-similarity threshold for "roughly the same direction", scaled by
/// `SCALE * SCALE`: a cone of about 37 degrees half-angle.
pub const DOT_THRESHOLD: i64 = 800 * SCALE;

/// Player `p` is positioned to intercept a pass from `source` to `target`:
/// on the opposing team, strictly between the two (closer to the source than
/// the target is, but not coincident with the source), and at a similar
/// angular position as seen from the source.
pub open spec fn intercepts(p: Player, source: Player, target: PassTarget) -> bool {
    let dv0 = diff(target.pos, source.pos);
    let dv1 = diff(p.pos, source.pos);
    &&& p.team != target.team
    &&& 0 < sn_len(dv1) < sn_len(dv0)
    &&& dot_spec(sn_unit_x(dv0), sn_unit_y(dv0), sn_unit_x(dv1), sn_unit_y(dv1)) > DOT_THRESHOLD
}

/// Some player in the pool is positioned to intercept the pass.
pub open spec fn pass_blocked(players: Seq<Player>, source: Player, target: PassTarget) -> bool {
    exists|i: int| 0 <= i < players.len() && intercepts(players[i], source, target)
}

/// The pass judgment: the target must be on the source's team, not
/// coincident with the source, within range, and roughly ahead of the
/// source's facing; and for a computer-driven source team no opponent may be
/// positioned to intercept (a human source is trusted to judge that itself).
pub open spec fn targetable_spec(
    target: PassTarget,
    source: Player,
    players: Seq<Player>,
    source_team_human: bool,
) -> bool {
    let dv0 = diff(target.pos, source.pos);
    let facing = dir_vec(source.dir as int);
    &&& (source_team_human || !pass_blocked(players, source, target))
    &&& target.team == source.team
    &&& 0 < sn_len(dv0) < TARGET_RANGE
    &&& dot_spec(sn_unit_x(dv0), sn_unit_y(dv0), facing.0, facing.1) > DOT_THRESHOLD
}

/// Decides whether `target` is a good target for a pass from `source`.
/// `players` is the full player pool (the source itself may be in it) and
/// `source_team_human` says whether a human drives the source's team.
pub fn targetable(
    target: &PassTarget,
    source: &Player,
    players: &Vec<Player>,
    source_team_human: bool,
) -> (r: bool)
    requires
        player_wf(*source),
        bounded(target.pos, MAX_ENTITY_COORD as int),
        forall|i: int| 0 <= i < players@.len() ==> player_wf(#[trigger] players@[i]),
    ensures
        r == targetable_spec(*target, *source, players@, source_team_human),
{
    let dv0 = vsub(target.pos, source.pos);
    proof {
        assert(dv0 == diff(target.pos, source.pos));
    }
    let (v0, d0) = safe_normalize(dv0);
    if !source_team_human {
        let mut i: usize = 0;
        while i < players.len()
            invariant
                !source_team_human,
                0 <= i <= players@.len(),
                forall|j: int| 0 <= j < i ==> !intercepts(#[trigger] players@[j], *source, *target),
                forall|j: int| 0 <= j < players@.len() ==> player_wf(#[trigger] players@[j]),
                player_wf(*source),
                bounded(target.pos, MAX_ENTITY_COORD as int),
                dv0 == diff(target.pos, source.pos),
                v0.x == sn_unit_x(dv0),
                v0.y == sn_unit_y(dv0),
                -SCALE <= v0.x <= SCALE,
                -SCALE <= v0.y <= SCALE,
                d0 == sn_len(dv0),
            decreases players@.len() - i,
        {
            let p = players[i];
            let dv1 = vsub(p.pos, source.pos);
            proof {
                assert(dv1 == diff(p.pos, source.pos));
            }
            let (v1, d1) = safe_normalize(dv1);
            if p.team != target.team && d1 > 0 && d1 < d0 && dot(v0, v1) > DOT_THRESHOLD {
                proof {
                    assert(intercepts(players@[i as int], *source, *target));
                    assert(pass_blocked(players@, *source, *target));
                }
                return false;
            }
            i = i + 1;
        }
        proof {
            assert(!pass_blocked(players@, *source, *target));
        }
    }
    target.team == source.team && d0 > 0 && d0 < TARGET_RANGE && dot(
        v0,
        angle_to_vector(source.dir),
    ) > DOT_THRESHOLD
}

/// A human-driven source team skips interception avoidance entirely: a
/// same-team, in-range, well-faced target is sound whatever the opposing
/// players' positions are.
pub proof fn lemma_human_source_skips_interception(
    target: PassTarget,
    source: Player,
    players: Seq<Player>,
)
    requires
        target.team == source.team,
        0 < sn_len(diff(target.pos, source.pos)) < TARGET_RANGE,
        dot_spec(
            sn_unit_x(diff(target.pos, source.pos)),
            sn_unit_y(diff(target.pos, source.pos)),
            dir_vec(source.dir as int).0,
            dir_vec(source.dir as int).1,
        ) > DOT_THRESHOLD,
    ensures
        targetable_spec(target, source, players, true),
{
}

/// For a computer-driven source team one positioned interceptor suffices to
/// refuse the pass, however good the geometry toward the target is.
pub proof fn lemma_interceptor_blocks_computer_pass(
    target: PassTarget,
    source: Player,
    players: Seq<Player>,
    i: int,
)
    requires
        0 <= i < players.len(),
        intercepts(players[i], source, target),
    ensures
        !targetable_spec(target, source, players, false),
{
    assert(pass_blocked(players, source, target));
}

} // verus!
