use breakout::entities::{Brick, Entity, BRICK_HEIGHT, BRICK_WIDTH};
use breakout::geometry::{Quad, Vec2, Vec2i, SCALE};
use breakout::systems::{
    GameState, InputEvent, BALL_SIDE, PADDLE_BOUNDS_MAX, PADDLE_BOUNDS_MIN, PADDLE_HEIGHT, PADDLE_WIDTH,
};

const U: i64 = SCALE;

fn quad(x: i64, y: i64, w: i64, h: i64) -> Quad {
    Quad::new(Vec2::new(x * U, y * U), Vec2::new(w * U, h * U))
}

/// A state with the paddle out of the way and no bricks.
fn open_state() -> GameState {
    let mut s = GameState::new();
    s.bricks = Vec::new();
    s.player.quad.pos = Vec2::new(-600 * U, -700 * U);
    s
}

#[test]
fn intersects_is_symmetric() {
    let pairs = [
        (quad(0, 0, 10, 10), quad(4, 4, 2, 2)),
        (quad(0, 0, 10, 10), quad(20, 0, 10, 10)),
        (quad(-5, 3, 8, 2), quad(-1, 3, 1, 1)),
    ];
    for (a, b) in pairs.iter() {
        assert_eq!(a.interects(b), b.interects(a));
    }
}

#[test]
fn quad_intersects_itself() {
    let a = quad(7, -3, 1, 1);
    assert!(a.interects(&a));
}

#[test]
fn touching_edges_do_not_intersect() {
    let a = quad(0, 0, 10, 10);
    let b = quad(10, 0, 10, 10);
    assert!(!a.interects(&b));
    let c = Quad::new(Vec2::new(10 * U - 1, 0), Vec2::new(10 * U, 10 * U));
    assert!(a.interects(&c));
}

#[test]
fn normalize_zero_stays_zero() {
    let mut v = Vec2::zero();
    assert_eq!(v.normalize(), Vec2::new(0, 0));
    assert_eq!(v, Vec2::new(0, 0));
}

#[test]
fn normalize_three_four() {
    let mut v = Vec2::new(3, 4);
    let r = v.normalize();
    assert_eq!(r, Vec2::new(600_000, 800_000));
    assert_eq!(v, r);
    let mut w = Vec2::new(-3 * U, 4 * U);
    assert_eq!(w.normalize(), Vec2::new(-600_000, 800_000));
}

#[test]
fn normalize_has_unit_length() {
    for (x, y) in [(1i64, 1i64), (1, 0), (0, -7), (-5, 12), (12345, -678), (2_000_000_000, 1)] {
        let mut v = Vec2::new(x, y);
        let r = v.normalize();
        let len = ((r.x as f64).powi(2) + (r.y as f64).powi(2)).sqrt() / U as f64;
        assert!((len - 1.0).abs() < 1e-5, "{} {} gives {:?}", x, y, r);
    }
}

#[test]
fn vector_arithmetic() {
    assert_eq!(Vec2::new(2, -3).scale(25), Vec2::new(50, -75));
    let mut v = Vec2::new(1, 2);
    v.add_assign(Vec2::new(10, -20));
    assert_eq!(v, Vec2::new(11, -18));
    assert_eq!(Vec2i { x: 800, y: -800 }.scale(1_000_000), Vec2::new(800 * U, -800 * U));
}

#[test]
fn entity_moves_and_saturates() {
    let mut e = Entity { quad: quad(0, 0, 1, 1), dir: Vec2::zero() };
    e.add_position(Vec2::new(5, -5));
    assert_eq!(e.quad.pos, Vec2::new(5, -5));
    e.quad.pos = Vec2::new(i64::MAX - 1, i64::MIN + 1);
    e.add_position(Vec2::new(10, -10));
    assert_eq!(e.quad.pos, Vec2::new(i64::MAX, i64::MIN));
}

#[test]
fn brick_edges() {
    let b = Brick::with_health(10 * U, 200 * U, 3);
    assert_eq!(b.top(), 200 * U + BRICK_HEIGHT / 2);
    assert_eq!(b.bottom(), 200 * U - BRICK_HEIGHT / 2);
    assert_eq!(b.right(), 10 * U + BRICK_WIDTH / 2);
    assert_eq!(b.left(), 10 * U - BRICK_WIDTH / 2);
    assert_eq!(b.top(), 237_500_000);
}

#[test]
fn new_brick_health_is_random_in_range() {
    for _ in 0..50 {
        let b = Brick::new(0, 0);
        assert!((3..=5).contains(&b.health));
        assert_eq!(b.quad.size, Vec2::new(BRICK_WIDTH, BRICK_HEIGHT));
    }
}

#[test]
fn new_game_layout() {
    let s = GameState::new();
    assert_eq!(s.bricks.len(), 31);
    assert!(s.bricks.iter().all(|b| (3..=5).contains(&b.health)));
    assert_eq!(s.bricks[0].quad.pos, Vec2::new(0, 200 * U));
    assert_eq!(s.bricks[30].quad.pos, Vec2::new(200 * U, -25 * U));
    assert_eq!(s.ball.quad.pos, Vec2::new(0, 0));
    assert_eq!(s.ball.dir, Vec2::new(0, -U));
    assert_eq!(s.player.quad.pos, Vec2::new(-130 * U, -700 * U));
    assert_eq!(s.player.quad.size, Vec2::new(PADDLE_WIDTH, PADDLE_HEIGHT));
    assert_eq!(s.tick, 0);
}

#[test]
fn ball_below_arena_respawns() {
    let mut s = GameState::new();
    s.ball.quad.pos = Vec2::new(0, -795 * U);
    s.ball.dir = Vec2::new(0, -U);
    assert_eq!(s.ball.quad.size, Vec2::new(BALL_SIDE, BALL_SIDE));
    s.step();
    assert_eq!(s.ball.quad.pos, Vec2::new(0, 0));
    assert_eq!(s.ball.dir, Vec2::new(0, -U));
}

#[test]
fn centered_paddle_hit_rebounds_straight_up() {
    let mut s = open_state();
    s.player.quad.pos = Vec2::new(0, -700 * U);
    s.ball.quad.pos = Vec2::new(0, -651 * U);
    s.ball.dir = Vec2::new(0, -U);
    assert!(s.check_player_collision());
    s.step();
    assert_eq!(s.ball.dir, Vec2::new(0, U));
    assert_eq!(s.ball.quad.pos, Vec2::new(0, -626 * U));
}

#[test]
fn off_center_paddle_hit_angles_away() {
    let mut s = open_state();
    s.player.quad.pos = Vec2::new(0, -700 * U);
    s.ball.quad.pos = Vec2::new(125 * U, -651 * U);
    s.ball.dir = Vec2::new(0, -U);
    s.step();
    // 45 degrees to the right, upward
    let d = s.ball.dir;
    assert!(d.x > 0 && d.y > 0);
    assert!((d.x - 707_107).abs() < 1_000, "{:?}", d);
    assert!((d.y - 707_107).abs() < 1_000, "{:?}", d);
    let mut t = open_state();
    t.player.quad.pos = Vec2::new(0, -700 * U);
    t.ball.quad.pos = Vec2::new(-60 * U, -651 * U);
    t.step();
    assert!(t.ball.dir.x < 0 && t.ball.dir.y > 0);
}

#[test]
fn paddle_bounce_angle_is_at_most_forty_five_degrees() {
    for offset in [126i64, 140, 149] {
        let mut s = open_state();
        s.player.quad.pos = Vec2::new(0, -700 * U);
        s.ball.quad.pos = Vec2::new(-offset * U, -651 * U);
        s.step();
        let d = s.ball.dir;
        assert!(d.x < 0 && d.y > 0);
        assert!(d.x.abs() <= d.y.abs() + 100, "{:?}", d);
    }
}

#[test]
fn ball_below_paddle_center_is_sent_down() {
    let mut s = open_state();
    s.player.quad.pos = Vec2::new(0, -700 * U);
    s.ball.quad.pos = Vec2::new(0, -740 * U);
    s.ball.dir = Vec2::new(0, U);
    s.step();
    assert_eq!(s.ball.dir, Vec2::new(0, -U));
}

#[test]
fn brick_loses_health_then_disappears() {
    let mut s = open_state();
    s.bricks = vec![Brick::with_health(0, 200 * U, 3), Brick::with_health(500 * U, 425 * U, 4)];
    for expected in [2u8, 1u8] {
        s.ball.quad.pos = Vec2::new(0, 140 * U);
        s.ball.dir = Vec2::new(0, U);
        s.step();
        assert_eq!(s.bricks.len(), 2);
        assert_eq!(s.bricks[0].health, expected);
        assert_eq!(s.ball.dir, Vec2::new(0, -U));
    }
    s.ball.quad.pos = Vec2::new(0, 140 * U);
    s.ball.dir = Vec2::new(0, U);
    s.step();
    assert_eq!(s.bricks.len(), 1);
    assert_eq!(s.bricks[0].quad.pos, Vec2::new(500 * U, 425 * U));
    assert_eq!(s.bricks[0].health, 4);
}

#[test]
fn only_first_overlapping_brick_is_hit() {
    let mut s = open_state();
    s.bricks = vec![Brick::with_health(0, 200 * U, 3), Brick::with_health(100 * U, 200 * U, 3)];
    s.ball.quad.pos = Vec2::new(50 * U, 140 * U);
    s.ball.dir = Vec2::new(0, U);
    assert_eq!(s.check_brick_collision(), Some(0));
    s.step();
    assert_eq!(s.bricks[0].health, 2);
    assert_eq!(s.bricks[1].health, 3);
}

#[test]
fn brick_side_hit_turns_horizontal_direction() {
    let mut s = open_state();
    s.bricks = vec![Brick::with_health(0, 200 * U, 5)];
    s.ball.quad.pos = Vec2::new(95 * U, 200 * U);
    s.ball.dir = Vec2::new(-U, 0);
    s.step();
    assert_eq!(s.ball.dir, Vec2::new(U, 0));
    assert_eq!(s.bricks[0].health, 4);
}

#[test]
fn walls_reflect_the_ball() {
    let mut s = open_state();
    s.ball.quad.pos = Vec2::new(790 * U, 0);
    s.ball.dir = Vec2::new(U, 0);
    s.step();
    assert_eq!(s.ball.dir, Vec2::new(-U, 0));
    s.ball.quad.pos = Vec2::new(-790 * U, 790 * U);
    s.ball.dir = Vec2::new(-600_000, 800_000);
    s.step();
    assert_eq!(s.ball.dir, Vec2::new(600_000, -800_000));
}

#[test]
fn ball_stays_in_arena_over_many_ticks() {
    let mut s = open_state();
    s.ball.quad.pos = Vec2::new(100 * U, 300 * U);
    s.ball.dir = Vec2::new(600_000, 800_000);
    for _ in 0..500 {
        s.step();
        assert!(s.ball.quad.pos.x.abs() <= 800 * U);
        assert!(s.ball.quad.pos.y <= 800 * U);
    }
}

#[test]
fn paddle_stays_in_bounds() {
    let mut s = open_state();
    s.set_paddle_direction(Vec2::new(0, U));
    for _ in 0..200 {
        s.step();
        assert!(s.player.quad.pos.y <= PADDLE_BOUNDS_MAX);
    }
    assert_eq!(s.player.quad.pos.y, PADDLE_BOUNDS_MAX);
    s.set_paddle_direction(Vec2::new(0, -U));
    for _ in 0..200 {
        s.step();
        assert!(s.player.quad.pos.y >= PADDLE_BOUNDS_MIN);
    }
    assert_eq!(s.player.quad.pos.y, PADDLE_BOUNDS_MIN);
    assert_eq!(PADDLE_BOUNDS_MIN, -775 * U);
}

#[test]
fn paddle_moves_vertically_by_its_speed() {
    let mut s = open_state();
    assert!(s.input(InputEvent::RightPressed));
    s.step();
    assert_eq!(s.player.quad.pos, Vec2::new(-600 * U, -700 * U));
    s.set_paddle_direction(Vec2::new(U, U));
    s.step();
    assert_eq!(s.player.quad.pos, Vec2::new(-600 * U, -688 * U));
    let mut e = s.player;
    e.dir = Vec2::new(0, -U);
    e.quad.pos = Vec2::new(0, -770 * U);
    GameState::paddle_move(&mut e);
    assert_eq!(e.quad.pos, Vec2::new(0, -775 * U));
}

#[test]
fn input_sets_paddle_direction() {
    let mut s = GameState::new();
    assert!(s.input(InputEvent::LeftPressed));
    assert_eq!(s.player.dir, Vec2::new(-U, 0));
    assert!(s.input(InputEvent::SpacePressed));
    assert_eq!(s.player.dir, Vec2::new(-U, 0));
    assert!(s.input(InputEvent::RightPressed));
    assert_eq!(s.player.dir, Vec2::new(U, 0));
    assert!(!s.input(InputEvent::Other));
    assert_eq!(s.player.dir, Vec2::new(0, 0));
}

#[test]
fn update_runs_whole_ticks() {
    let mut s = open_state();
    assert_eq!(s.update(0), 0);
    assert_eq!(s.tick, 0);
    assert_eq!(s.update(16_000), 0);
    assert_eq!(s.tick, 960_000);
    let before = s.ball.quad.pos;
    assert_eq!(s.update(1_000), 1);
    assert_eq!(s.tick, 20_000);
    assert_eq!(s.ball.quad.pos, Vec2::new(before.x, before.y - 25 * U));
}

#[test]
fn update_caps_catch_up_and_keeps_the_backlog() {
    let mut s = open_state();
    assert_eq!(s.update(1_000_000), 5);
    assert_eq!(s.tick, 55_000_000);
    assert_eq!(s.update(0), 5);
    assert_eq!(s.tick, 50_000_000);
    assert_eq!(s.update(u64::MAX), 5);
    assert_eq!(s.tick, 50_000_000 + 60_000_000_000_000 - 5_000_000);
}

#[test]
fn update_accumulator_saturates() {
    let mut s = open_state();
    s.tick = u64::MAX - 10;
    assert_eq!(s.update(1_000), 5);
    assert_eq!(s.tick, u64::MAX - 5_000_000);
}

#[test]
fn ball_below_arena_respawns_through_update() {
    let mut s = GameState::new();
    s.ball.quad.pos = Vec2::new(0, -795 * U);
    s.ball.dir = Vec2::new(0, -U);
    assert_eq!(s.update(16_667), 1);
    assert_eq!(s.ball.quad.pos, Vec2::new(0, 0));
    assert_eq!(s.ball.dir, Vec2::new(0, -U));
    assert_eq!(s.ball.quad.size, Vec2::new(BALL_SIDE, BALL_SIDE));
}

#[test]
fn tiny_paddle_offset_still_angles_the_ball() {
    for (offset, right) in [(100i64, true), (1, true), (-100, false), (-1, false)] {
        let mut s = open_state();
        s.player.quad.pos = Vec2::new(0, -700 * U);
        s.ball.quad.pos = Vec2::new(offset, -651 * U);
        s.step();
        let d = s.ball.dir;
        assert!(d.y > 0, "{:?}", d);
        if right {
            assert!(d.x > 0, "{} gives {:?}", offset, d);
        } else {
            assert!(d.x < 0, "{} gives {:?}", offset, d);
        }
    }
}

#[test]
fn normalize_keeps_small_components() {
    let mut v = Vec2::new(1, 1_000_000_000);
    let r = v.normalize();
    assert_eq!(r.x, 1);
    assert_eq!(r.y, U);
    let mut w = Vec2::new(1, 1);
    assert_eq!(w.normalize(), Vec2::new(707_108, 707_108));
}

#[test]
fn paddle_move_clamps_from_any_height() {
    let mut e = Entity { quad: quad(0, 5_000, 250, 50), dir: Vec2::zero() };
    GameState::paddle_move(&mut e);
    assert_eq!(e.quad.pos, Vec2::new(0, PADDLE_BOUNDS_MAX));
    e.quad.pos = Vec2::new(0, i64::MIN);
    e.dir = Vec2::new(0, i64::MIN);
    GameState::paddle_move(&mut e);
    assert_eq!(e.quad.pos.y, PADDLE_BOUNDS_MIN);
}

#[test]
fn well_formedness_check() {
    let mut s = GameState::new();
    assert!(s.is_well_formed());
    s.bricks[3].health = 0;
    assert!(!s.is_well_formed());
    let mut t = GameState::new();
    t.ball.dir = Vec2::new(2 * U, 0);
    assert!(!t.is_well_formed());
}
