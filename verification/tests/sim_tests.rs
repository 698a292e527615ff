use soccer_sim::ball::{Ball, Game, DRIBBLE_RANGE, HALF_LEVEL_H, HALF_LEVEL_W, PITCH_MIN_X, avg,
    on_pitch};
use soccer_sim::geom::{Vec2, angle_to_vector, dot, safe_normalize, vsub};
use soccer_sim::physics::{Bounds, axis_step, steps_to_travel};
use soccer_sim::player::{PassTarget, Player, Team};
use soccer_sim::target::targetable;

fn player(x: i64, y: i64, dir: u8, team: usize, timer: i64) -> Player {
    Player { pos: Vec2 { x, y }, dir, team, timer }
}

#[test]
fn normalize_zero_vector_is_zero_with_zero_length() {
    let (unit, len) = safe_normalize(Vec2 { x: 0, y: 0 });
    assert_eq!(unit, Vec2 { x: 0, y: 0 });
    assert_eq!(len, 0);
}

#[test]
fn normalize_three_four_five() {
    // 3-4-5 triangle in world units: exact unit vector and length
    let (unit, len) = safe_normalize(Vec2 { x: 3000, y: 4000 });
    assert_eq!(len, 5000);
    assert_eq!(unit, Vec2 { x: 600, y: 800 });
    assert_eq!(unit.x * unit.x + unit.y * unit.y, 1_000_000);
}

#[test]
fn normalize_diagonal_and_negative() {
    let (unit, len) = safe_normalize(Vec2 { x: 1, y: 1 });
    assert_eq!(len, 1);
    assert_eq!(unit, Vec2 { x: 707, y: 707 });
    let (unit2, len2) = safe_normalize(Vec2 { x: -3000, y: 4000 });
    assert_eq!(len2, 5000);
    assert_eq!(unit2, Vec2 { x: -600, y: 800 });
}

#[test]
fn normalized_length_near_one_for_awkward_vectors() {
    for &(x, y) in &[(2i64, 1i64), (999, 1000), (123_456, 7), (5, 400_000), (-17, 19)] {
        let (unit, _) = safe_normalize(Vec2 { x, y });
        let l2 = unit.x * unit.x + unit.y * unit.y;
        assert!(l2 > 1_000_000 - 4002, "squared length {} for ({}, {})", l2, x, y);
        assert!(l2 <= 1_002_000, "squared length {} for ({}, {})", l2, x, y);
    }
}

#[test]
fn facing_vectors_match_the_compass() {
    assert_eq!(angle_to_vector(0), Vec2 { x: 0, y: -1000 });
    assert_eq!(angle_to_vector(2), Vec2 { x: 1000, y: 0 });
    assert_eq!(angle_to_vector(3), Vec2 { x: 707, y: 707 });
    assert_eq!(angle_to_vector(6), Vec2 { x: -1000, y: 0 });
}

#[test]
fn dot_product_is_cosine_proxy() {
    let a = Vec2 { x: 1000, y: 0 };
    assert_eq!(dot(a, Vec2 { x: 1000, y: 0 }), 1_000_000);
    assert_eq!(dot(a, Vec2 { x: 0, y: 1000 }), 0);
    assert_eq!(dot(a, Vec2 { x: -1000, y: 0 }), -1_000_000);
    assert_eq!(vsub(Vec2 { x: 5, y: 7 }, Vec2 { x: 2, y: 10 }), Vec2 { x: 3, y: -3 });
}

#[test]
fn axis_step_integrates_inside_bounds() {
    // strictly inside, small velocity: plain integration, velocity decayed
    let b = Bounds { min: 58_000, max: 942_000 };
    let (pos, vel) = axis_step(100_000, 1000, b);
    assert_eq!(pos, 101_000);
    assert_eq!(vel, 980);
}

#[test]
fn axis_step_bounces_at_the_wall() {
    // the move would cross the upper bound: position unchanged,
    // velocity reflected and decayed
    let b = Bounds { min: 58_000, max: 942_000 };
    let (pos, vel) = axis_step(941_500, 1000, b);
    assert_eq!(pos, 941_500);
    assert_eq!(vel, -980);
    let (pos2, vel2) = axis_step(58_200, -1000, b);
    assert_eq!(pos2, 58_200);
    assert_eq!(vel2, 980);
}

#[test]
fn steps_to_travel_zero_is_zero() {
    assert_eq!(steps_to_travel(0), 0);
    assert_eq!(steps_to_travel(-5000), 0);
    assert_eq!(steps_to_travel(1), 1);
    assert_eq!(steps_to_travel(11_500), 1);
    assert_eq!(steps_to_travel(11_501), 2);
}

#[test]
fn steps_to_travel_is_monotone() {
    let mut prev = 0u16;
    let mut d: i64 = 0;
    while d <= 2_000_000 {
        let n = steps_to_travel(d);
        assert!(n >= prev, "steps dropped from {} to {} at {}", prev, n, d);
        prev = n;
        d += 7013;
    }
}

#[test]
fn pass_in_range_and_faced_is_targetable() {
    // same team, facing straight at the target, 100 world units away
    let source = player(300_000, 300_000, 2, 0, -1);
    let target_player = player(400_000, 300_000, 2, 0, -1);
    let players = vec![source, target_player];
    let target = PassTarget { pos: target_player.pos, team: target_player.team };
    assert!(targetable(&target, &source, &players, false));
    assert!(targetable(&target, &source, &players, true));
}

#[test]
fn pass_beyond_range_cap_is_refused() {
    // same setup at 400 world units: beyond the range cap
    let source = player(300_000, 300_000, 2, 0, -1);
    let target_player = player(700_000, 300_000, 2, 0, -1);
    let players = vec![source, target_player];
    let target = PassTarget { pos: target_player.pos, team: target_player.team };
    assert!(!targetable(&target, &source, &players, false));
    assert!(!targetable(&target, &source, &players, true));
}

#[test]
fn interceptor_blocks_computer_but_not_human() {
    // an opponent standing right on the passing line
    let source = player(300_000, 300_000, 2, 0, -1);
    let target_player = player(400_000, 300_000, 2, 0, -1);
    let interceptor = player(350_000, 300_000, 0, 1, -1);
    let players = vec![source, target_player, interceptor];
    let target = PassTarget { pos: target_player.pos, team: target_player.team };
    assert!(!targetable(&target, &source, &players, false));
    assert!(targetable(&target, &source, &players, true));
}

#[test]
fn coincident_or_badly_faced_targets_are_refused() {
    let source = player(300_000, 300_000, 2, 0, -1);
    let players = vec![source];
    // coincident point: no meaningful direction
    let same_spot = PassTarget { pos: source.pos, team: 0 };
    assert!(!targetable(&same_spot, &source, &players, false));
    // behind the source's back
    let behind = PassTarget { pos: Vec2 { x: 200_000, y: 300_000 }, team: 0 };
    assert!(!targetable(&behind, &source, &players, false));
    // wrong team
    let foe = PassTarget { pos: Vec2 { x: 400_000, y: 300_000 }, team: 1 };
    assert!(!targetable(&foe, &source, &players, false));
}

#[test]
fn new_ball_rests_at_the_centre() {
    let b = Ball::new();
    assert_eq!(b.pos, Vec2 { x: HALF_LEVEL_W, y: HALF_LEVEL_H });
    assert_eq!(b.vel, Vec2 { x: 0, y: 0 });
    assert_eq!(b.owner, None);
    assert_eq!(b.timer, 0);
    assert_eq!(b.shadow_pos, b.pos);
}

#[test]
fn ball_collides_within_dribble_distance_only() {
    let b = Ball::new();
    let near = player(b.pos.x + DRIBBLE_RANGE, b.pos.y, 0, 0, -1);
    let far = player(b.pos.x + DRIBBLE_RANGE + 1, b.pos.y, 0, 0, -1);
    let waiting = player(b.pos.x, b.pos.y, 0, 0, 0);
    assert!(b.collide(&near));
    assert!(!b.collide(&far));
    assert!(!b.collide(&waiting));
}

#[test]
fn averaging_snaps_when_close() {
    assert_eq!(avg(0, 500), 500);
    assert_eq!(avg(0, 999), 999);
    assert_eq!(avg(0, 2000), 1000);
    assert_eq!(avg(-2000, -5000), -3500);
    assert_eq!(on_pitch(HALF_LEVEL_W, HALF_LEVEL_H), true);
    assert_eq!(on_pitch(0, 0), false);
    // inside the top goal box, beyond the pitch edge
    assert_eq!(on_pitch(500_000, 30_000), true);
    assert_eq!(on_pitch(100_000, 30_000), false);
}

#[test]
fn lone_eligible_player_acquires_the_ball() {
    let p0 = player(HALF_LEVEL_W + 5000, HALF_LEVEL_H, 0, 0, -1);
    let mut game = Game {
        ball: Ball::new(),
        players: vec![p0],
        teams: vec![Team { human: false, active_control_player: None }],
        holdoff_timer: 10,
    };
    Ball::update(&mut game);
    assert_eq!(game.ball.owner, Some(0));
    assert_eq!(game.ball.timer, 10);
    assert_eq!(game.teams[0].active_control_player, Some(0));
    // the ball itself did not move: it had no velocity
    assert_eq!(game.ball.pos, Vec2 { x: HALF_LEVEL_W, y: HALF_LEVEL_H });
    assert_eq!(game.ball.shadow_pos, game.ball.pos);
}

#[test]
fn carry_over_the_edge_loses_possession() {
    // owner on the left pitch edge facing off the pitch: the eased carry
    // position leaves the playing area
    let owner = player(PITCH_MIN_X, HALF_LEVEL_H, 6, 0, 99);
    let mut ball = Ball::new();
    ball.pos = Vec2 { x: PITCH_MIN_X, y: HALF_LEVEL_H };
    ball.shadow_pos = ball.pos;
    ball.owner = Some(0);
    ball.timer = 5;
    let mut game = Game {
        ball,
        players: vec![owner],
        teams: vec![Team { human: true, active_control_player: Some(0) }],
        holdoff_timer: 10,
    };
    Ball::update(&mut game);
    assert_eq!(game.ball.owner, None);
    assert_eq!(game.players[0].timer, 60);
    // impulse along the ex-owner's facing (straight left), nonzero
    assert_eq!(game.ball.vel, Vec2 { x: -3000, y: 0 });
    assert_eq!(game.ball.pos, Vec2 { x: PITCH_MIN_X, y: HALF_LEVEL_H });
    assert_eq!(game.ball.timer, 4);
}

#[test]
fn dispossessed_player_cannot_take_the_ball_back_at_once() {
    // same situation as the dispossession test, one tick later: the
    // ex-owner still stands on the ball but their hold-off timer has not
    // expired
    let owner = player(PITCH_MIN_X, HALF_LEVEL_H, 6, 0, 99);
    let mut ball = Ball::new();
    ball.pos = Vec2 { x: PITCH_MIN_X, y: HALF_LEVEL_H };
    ball.shadow_pos = ball.pos;
    ball.owner = Some(0);
    let mut game = Game {
        ball,
        players: vec![owner],
        teams: vec![Team { human: true, active_control_player: Some(0) }],
        holdoff_timer: 10,
    };
    Ball::update(&mut game);
    assert_eq!(game.ball.owner, None);
    assert_eq!(game.players[0].timer, 60);
    Ball::update(&mut game);
    // the ball bounced off the pitch edge and stayed in reach, but the
    // ex-owner's timer is still running: no reacquisition
    assert_eq!(game.ball.owner, None);
    assert_eq!(game.players[0].timer, 60);
}

#[test]
fn opponent_in_contact_dispossesses_the_carrier() {
    // player 0 carries the ball at the centre; opposing player 1 stands on
    // the carry path with an expired timer
    let carrier = player(HALF_LEVEL_W, HALF_LEVEL_H, 0, 0, 99);
    let thief = player(HALF_LEVEL_W, HALF_LEVEL_H - 10_000, 0, 1, -5);
    let mut ball = Ball::new();
    ball.owner = Some(0);
    let mut game = Game {
        ball,
        players: vec![carrier, thief],
        teams: vec![
            Team { human: false, active_control_player: Some(0) },
            Team { human: false, active_control_player: None },
        ],
        holdoff_timer: 120,
    };
    Ball::update(&mut game);
    // the carry eased the ball toward (HALF_LEVEL_W, HALF_LEVEL_H - 8000);
    // the thief was in contact and takes it
    assert_eq!(game.ball.owner, Some(1));
    assert_eq!(game.ball.timer, 120);
    assert_eq!(game.players[0].timer, 60);
    assert_eq!(game.teams[1].active_control_player, Some(1));
    // and on the next tick the dispossessed carrier, still in contact,
    // cannot take it back
    Ball::update(&mut game);
    assert_eq!(game.ball.owner, Some(1));
    assert_eq!(game.players[0].timer, 60);
}

#[test]
fn free_ball_bounces_off_the_goal_posts() {
    // a ball inside the goal channel uses the goal bounds on the X axis
    let mut ball = Ball::new();
    ball.pos = Vec2 { x: 408_000, y: 40_000 };
    ball.vel = Vec2 { x: -2000, y: 0 };
    ball.shadow_pos = ball.pos;
    let mut game = Game { ball, players: vec![], teams: vec![], holdoff_timer: 0 };
    Ball::update(&mut game);
    // 406_000 would pass the left post at 407_000: wall stop, reflect, drag
    assert_eq!(game.ball.pos, Vec2 { x: 408_000, y: 40_000 });
    assert_eq!(game.ball.vel, Vec2 { x: 1960, y: 0 });
    assert_eq!(game.ball.shadow_pos, game.ball.pos);
}

#[test]
fn free_ball_rolls_and_slows_down() {
    let mut ball = Ball::new();
    ball.vel = Vec2 { x: 1000, y: -500 };
    let mut game = Game { ball, players: vec![], teams: vec![], holdoff_timer: 0 };
    Ball::update(&mut game);
    assert_eq!(game.ball.pos, Vec2 { x: HALF_LEVEL_W + 1000, y: HALF_LEVEL_H - 500 });
    assert_eq!(game.ball.vel, Vec2 { x: 980, y: -490 });
    assert_eq!(game.ball.timer, -1);
}

#[test]
fn normalize_handles_large_vectors() {
    let (unit, len) = safe_normalize(Vec2 { x: 0x100_0000_0000, y: 0 });
    assert_eq!(len, 0x100_0000_0000);
    assert_eq!(unit, Vec2 { x: 1000, y: 0 });
}

#[test]
fn first_candidate_in_pool_order_wins_the_ball() {
    // two teammates both in contact with an unowned ball: pool order decides
    let p0 = player(HALF_LEVEL_W + 5000, HALF_LEVEL_H, 0, 0, -1);
    let p1 = player(HALF_LEVEL_W - 5000, HALF_LEVEL_H, 0, 0, -1);
    let mut game = Game {
        ball: Ball::new(),
        players: vec![p0, p1],
        teams: vec![Team { human: false, active_control_player: None }],
        holdoff_timer: 30,
    };
    Ball::update(&mut game);
    // the teammate later in pool order is on the new owner's team and
    // cannot take the ball from them
    assert_eq!(game.ball.owner, Some(0));
    assert_eq!(game.teams[0].active_control_player, Some(0));
    assert_eq!(game.players[0].timer, -1);
    assert_eq!(game.players[1].timer, -1);
}

#[test]
fn scan_reads_the_owner_context_fresh_after_a_transfer() {
    // an opposing player later in pool order is judged against the owner
    // that just took the ball, not against the state at the start of the
    // tick: the ball changes hands twice within one update
    let p0 = player(HALF_LEVEL_W + 5000, HALF_LEVEL_H, 0, 0, -1);
    let p1 = player(HALF_LEVEL_W - 5000, HALF_LEVEL_H, 0, 1, -1);
    let mut game = Game {
        ball: Ball::new(),
        players: vec![p0, p1],
        teams: vec![
            Team { human: false, active_control_player: None },
            Team { human: false, active_control_player: None },
        ],
        holdoff_timer: 30,
    };
    Ball::update(&mut game);
    assert_eq!(game.ball.owner, Some(1));
    // the first acquirer was dispossessed in the same tick
    assert_eq!(game.players[0].timer, 60);
    assert_eq!(game.teams[0].active_control_player, Some(0));
    assert_eq!(game.teams[1].active_control_player, Some(1));
}
