//! The simulation: paddle movement, ball bounces, brick damage, respawn and
//! the fixed-tick scheduler.
use vstd::prelude::*;
use crate::geometry::{Vec2, Quad, SCALE, abs, normalized, ceil_div, lemma_quotient_at_most, lemma_ceil_bounds, lemma_normalized_bounded, normalized_keeps_signs};
use crate::entities::{Brick, Entity, shifted, brick_size, BRICK_WIDTH, BRICK_HEIGHT, BRICK_HEALTH, MIN_START_HEALTH};
use crate::outside::clamp_i128;

verus! {

/// Half the side of the square arena `[-ARENA_HALF, ARENA_HALF]^2`.
pub const ARENA_HALF: i64 = 800_000_000;

pub const PADDLE_WIDTH: i64 = 250_000_000;
pub const PADDLE_HEIGHT: i64 = 50_000_000;
pub const BALL_SIDE: i64 = 50_000_000;

/// Range of the paddle's center height: the arena less half the paddle.
pub const PADDLE_BOUNDS_MIN: i64 = -775_000_000;
pub const PADDLE_BOUNDS_MAX: i64 = 775_000_000;

/// Distance moved per tick by a unit direction, in arena units.
pub const PADDLE_SPEED: i64 = 12;
pub const BALL_SPEED: i64 = 25;

/// Pi over four, the steepest bounce angle, in millionths of a radian.
pub const QUARTER_PI: i64 = 785_398;

/// Elapsed time is accumulated in units of 1/60 microsecond, so one tick of
/// 1/60 second is `TICK_UNITS` of them.
pub const TICKS_PER_SECOND: u64 = 60;
pub const TICK_UNITS: u64 = 1_000_000;

/// At most this many ticks run in one call of `update`; a longer backlog is
/// dropped.
pub const MAX_STEPS_PER_UPDATE: u64 = 5;

/// Elapsed time beyond this many microseconds counts as this many.
pub const MAX_ELAPSED_MICROS: u64 = 1_000_000_000_000;

/// A key event, as far as the paddle cares.
#[derive(Clone, Copy, Debug, PartialEq, Eq, Structural)]
pub enum InputEvent {
    SpacePressed,
    LeftPressed,
    RightPressed,
    Other,
}

pub struct GameState {
    pub player: Entity,
    pub bricks: Vec<Brick>,
    pub ball: Entity,
    /// Time accumulated toward the next tick, in units of `1 / TICK_UNITS` tick.
    pub tick: u64,
}

/// What a `GameState` holds, with the bricks as a sequence.
pub struct GameView {
    pub player: Entity,
    pub bricks: Seq<Brick>,
    pub ball: Entity,
    pub tick: nat,
}

impl View for GameState {
    type V = GameView;

    open spec fn view(&self) -> GameView {
        GameView { player: self.player, bricks: self.bricks@, ball: self.ball, tick: self.tick as nat }
    }
}

pub open spec fn paddle_size() -> Vec2 {
    Vec2 { x: PADDLE_WIDTH, y: PADDLE_HEIGHT }
}

pub open spec fn ball_size() -> Vec2 {
    Vec2 { x: BALL_SIDE, y: BALL_SIDE }
}

/// A direction whose components are at most one unit long.
pub open spec fn bounded_dir(d: Vec2) -> bool {
    abs(d.x as int) <= SCALE && abs(d.y as int) <= SCALE
}

pub open spec fn brick_ok(b: Brick) -> bool {
    &&& b.quad.size == brick_size()
    &&& 1 <= b.health <= BRICK_HEALTH
    &&& abs(b.quad.pos.x as int) <= ARENA_HALF
    &&& abs(b.quad.pos.y as int) <= ARENA_HALF
}

pub open spec fn bricks_ok(bricks: Seq<Brick>) -> bool {
    forall|i: int| 0 <= i < bricks.len() ==> #[trigger] brick_ok(bricks[i])
}

pub open spec fn paddle_in_bounds(p: Entity) -> bool {
    PADDLE_BOUNDS_MIN <= p.quad.pos.y <= PADDLE_BOUNDS_MAX
}

impl GameView {
    /// Fixed sizes, bounded directions, the paddle within its bounds, and
    /// every present brick with health in `1..=BRICK_HEALTH`.
    pub open spec fn wf(self) -> bool {
        &&& self.player.quad.size == paddle_size()
        &&& paddle_in_bounds(self.player)
        &&& bounded_dir(self.player.dir)
        &&& self.ball.quad.size == ball_size()
        &&& bounded_dir(self.ball.dir)
        &&& bricks_ok(self.bricks)
    }
}

// ---- paddle movement ----

pub open spec fn clamped(v: int, lo: int, hi: int) -> int {
    if v < lo { lo } else if v > hi { hi } else { v }
}

/// The paddle moved vertically by the vertical part of its direction times
/// `PADDLE_SPEED`, its height then clamped into the paddle bounds; the
/// horizontal part of the direction is not used.
pub open spec fn paddle_moved(p: Entity) -> Entity {
    let y = p.quad.pos.y + p.dir.y * PADDLE_SPEED;
    Entity {
        quad: Quad {
            pos: Vec2 { x: p.quad.pos.x, y: clamped(y, PADDLE_BOUNDS_MIN as int, PADDLE_BOUNDS_MAX as int) as i64 },
            size: p.quad.size,
        },
        dir: p.dir,
    }
}

// ---- wall reflection ----

/// The ball's direction after the walls: away from the right, left and top
/// walls that its edges have passed.
pub open spec fn wall_dir(q: Quad, d: Vec2) -> Vec2 {
    let x = if q.pos.x + q.size.x / 2 > ARENA_HALF {
        -abs(d.x as int)
    } else if q.pos.x - q.size.x / 2 < -ARENA_HALF {
        abs(d.x as int)
    } else {
        d.x as int
    };
    let y = if q.pos.y + q.size.y / 2 > ARENA_HALF { -abs(d.y as int) } else { d.y as int };
    Vec2 { x: x as i64, y: y as i64 }
}

// ---- paddle reflection ----

/// `a * b` in fixed point with `SCALE` as one, truncated.
pub open spec fn fx_mul(a: int, b: int) -> int {
    (a * b) / (SCALE as int)
}

/// Sine of the angle `t / SCALE` radians, in fixed point, by its Taylor
/// polynomial of degree five.
pub open spec fn sine_fixed(t: int) -> int {
    let t2 = fx_mul(t, t);
    let t3 = fx_mul(t2, t);
    let t5 = fx_mul(t3, t2);
    t - t3 / 6 + t5 / 120
}

/// Cosine of the angle `t / SCALE` radians, in fixed point, by its Taylor
/// polynomial of degree six.
pub open spec fn cosine_fixed(t: int) -> int {
    let t2 = fx_mul(t, t);
    let t4 = fx_mul(t2, t2);
    let t6 = fx_mul(t4, t2);
    SCALE as int - t2 / 2 + t4 / 24 - t6 / 720
}

/// The size of the bounce angle: the horizontal offset of the ball from the
/// paddle's center, at most half the paddle's width, over half that width,
/// times pi / 4, rounded up; so at most pi / 4, and nonzero for a nonzero
/// offset.
pub open spec fn bounce_angle(paddle: Quad, ball: Quad) -> int {
    let half = PADDLE_WIDTH as int / 2;
    let offset = abs(paddle.pos.x - ball.pos.x);
    let offset = if offset > half { half } else { offset };
    ceil_div(offset * QUARTER_PI, half)
}

/// `BALL_SPEED * (-sin a, cos a)` for the signed bounce angle `a`, with the
/// vertical part pointing away from the paddle's center.
pub open spec fn paddle_bounce_vector(paddle: Quad, ball: Quad) -> Vec2 {
    let t = bounce_angle(paddle, ball);
    let sx = if paddle.pos.x >= ball.pos.x { -sine_fixed(t) } else { sine_fixed(t) };
    let cy = if paddle.pos.y > ball.pos.y { -cosine_fixed(t) } else { cosine_fixed(t) };
    Vec2 { x: (sx * BALL_SPEED) as i64, y: (cy * BALL_SPEED) as i64 }
}

pub open spec fn paddle_dir(paddle: Quad, ball: Quad) -> Vec2 {
    normalized(paddle_bounce_vector(paddle, ball))
}

// ---- brick reflection ----

/// Bricks `0..i` miss the ball and brick `i` overlaps it.
pub open spec fn is_first_hit(bricks: Seq<Brick>, q: Quad, i: int) -> bool {
    &&& 0 <= i < bricks.len()
    &&& bricks[i].quad.overlaps(q)
    &&& forall|j: int| 0 <= j < i ==> !(#[trigger] bricks[j]).quad.overlaps(q)
}

pub open spec fn hits_none(bricks: Seq<Brick>, q: Quad) -> bool {
    forall|j: int| 0 <= j < bricks.len() ==> !(#[trigger] bricks[j]).quad.overlaps(q)
}

/// The index of the first brick that the ball overlaps, or -1.
pub open spec fn first_hit(bricks: Seq<Brick>, q: Quad) -> int {
    if exists|i: int| is_first_hit(bricks, q, i) {
        choose|i: int| is_first_hit(bricks, q, i)
    } else {
        -1
    }
}

/// The ball's direction after hitting `brick`: the face with the smaller
/// distance from the ball's center decides the axis, and that component is
/// turned away from the brick when the center lies beyond the face.
pub open spec fn brick_dir(q: Quad, brick: Brick, d: Vec2) -> Vec2 {
    let y_dist = if q.pos.y > brick.quad.pos.y { q.pos.y - brick.top_spec() } else { q.pos.y - brick.bottom_spec() };
    let x_dist = if q.pos.x > brick.quad.pos.x { q.pos.x - brick.right_spec() } else { q.pos.x - brick.left_spec() };
    if abs(y_dist) < abs(x_dist) {
        if q.pos.y >= brick.top_spec() {
            Vec2 { x: d.x, y: abs(d.y as int) as i64 }
        } else if q.pos.y <= brick.bottom_spec() {
            Vec2 { x: d.x, y: -abs(d.y as int) as i64 }
        } else {
            d
        }
    } else {
        if q.pos.x >= brick.right_spec() {
            Vec2 { x: abs(d.x as int) as i64, y: d.y }
        } else if q.pos.x <= brick.left_spec() {
            Vec2 { x: -abs(d.x as int) as i64, y: d.y }
        } else {
            d
        }
    }
}

/// The bricks after brick `i` is hit: one health less, gone at zero.
pub open spec fn after_hit(bricks: Seq<Brick>, i: int) -> Seq<Brick> {
    if bricks[i].health <= 1 {
        bricks.remove(i)
    } else {
        bricks.update(i, Brick { quad: bricks[i].quad, health: (bricks[i].health - 1) as u8 })
    }
}

/// One bounce resolution: walls, then the paddle, then the first brick hit,
/// each overriding the direction before it; then the ball moves once.
pub open spec fn bounced(s: GameView) -> GameView {
    let q = s.ball.quad;
    let d1 = wall_dir(q, s.ball.dir);
    let d2 = if s.player.quad.overlaps(q) { paddle_dir(s.player.quad, q) } else { d1 };
    let i = first_hit(s.bricks, q);
    let d3 = if i >= 0 { brick_dir(q, s.bricks[i], d2) } else { d2 };
    let bricks = if i >= 0 { after_hit(s.bricks, i) } else { s.bricks };
    let step = Vec2 { x: (d3.x * BALL_SPEED) as i64, y: (d3.y * BALL_SPEED) as i64 };
    GameView {
        player: s.player,
        bricks,
        ball: Entity { quad: Quad { pos: shifted(q.pos, step), size: q.size }, dir: d3 },
        tick: s.tick,
    }
}

/// Below the arena the ball's bottom edge respawns it at the center, heading
/// down.
pub open spec fn respawned(s: GameView) -> GameView {
    if 2 * s.ball.quad.pos.y - s.ball.quad.size.y < -2 * ARENA_HALF {
        GameView {
            ball: Entity {
                quad: Quad { pos: Vec2 { x: 0, y: 0 }, size: s.ball.quad.size },
                dir: Vec2 { x: 0, y: -SCALE as i64 },
            },
            ..s
        }
    } else {
        s
    }
}

/// One tick: move the paddle, resolve the bounce, respawn a lost ball.
pub open spec fn stepped(s: GameView) -> GameView {
    respawned(bounced(GameView { player: paddle_moved(s.player), ..s }))
}

/// `n` ticks in a row.
pub open spec fn stepped_times(s: GameView, n: nat) -> GameView
    decreases n,
{
    if n == 0 {
        s
    } else {
        stepped(stepped_times(s, (n - 1) as nat))
    }
}

/// The ball's center lies in the arena, the bottom side aside.
pub open spec fn ball_in_arena(b: Entity) -> bool {
    abs(b.quad.pos.x as int) <= ARENA_HALF && b.quad.pos.y <= ARENA_HALF
}

/// Every brick stands far enough from the side and top walls that a ball
/// bouncing off it stays in the arena.
pub open spec fn bricks_clear_of_walls(bricks: Seq<Brick>) -> bool {
    forall|i: int| 0 <= i < bricks.len() ==> {
        &&& 2 * (abs((#[trigger] bricks[i]).quad.pos.x as int) + BALL_SPEED * SCALE) + BRICK_WIDTH + BALL_SIDE <= 2 * ARENA_HALF
        &&& 2 * (bricks[i].quad.pos.y + BALL_SPEED * SCALE) + BRICK_HEIGHT + BALL_SIDE <= 2 * ARENA_HALF
    }
}


// ---- executable parts ----

fn abs_i64(v: i64) -> (r: i64)
    requires
        v > i64::MIN,
    ensures
        r == abs(v as int),
{
    if v < 0 { -v } else { v }
}

/// `fx_mul` stays in `0..=b` for factors in `0..=SCALE` and `0..=b`.
proof fn lemma_fx_mul_bounded(a: int, b: int)
    requires
        0 <= a <= SCALE,
        0 <= b,
    ensures
        0 <= fx_mul(a, b) <= b,
{
    assert(a * b <= b * SCALE) by (nonlinear_arith)
        requires 0 <= a <= SCALE, 0 <= b;
    assert(0 <= a * b) by (nonlinear_arith)
        requires 0 <= a, 0 <= b;
    lemma_quotient_at_most(a * b, SCALE as int, b);
}

/// The fixed-point sine and cosine stay small for angles up to one radian.
proof fn lemma_trig_bounded(t: int)
    requires
        0 <= t <= SCALE,
    ensures
        0 <= sine_fixed(t) <= 2 * SCALE,
        t >= 1 ==> sine_fixed(t) >= 1,
        0 < cosine_fixed(t) <= 2 * SCALE,
{
    lemma_fx_mul_bounded(t, t);
    let t2 = fx_mul(t, t);
    lemma_fx_mul_bounded(t2, t);
    lemma_fx_mul_bounded(t2, t2);
    let t3 = fx_mul(t2, t);
    let t4 = fx_mul(t2, t2);
    assert(t3 * t2 == t2 * t3 && t4 * t2 == t2 * t4) by (nonlinear_arith);
    lemma_fx_mul_bounded(t2, t3);
    lemma_fx_mul_bounded(t2, t4);
}

/// The bounce angle off the paddle is at most pi / 4, and nonzero where the
/// ball is off the paddle's center.
pub proof fn bounce_angle_at_most_quarter_pi(paddle: Quad, ball: Quad)
    ensures
        0 <= bounce_angle(paddle, ball) <= QUARTER_PI,
        paddle.pos.x != ball.pos.x ==> bounce_angle(paddle, ball) >= 1,
{
    let half = PADDLE_WIDTH as int / 2;
    let offset = if abs(paddle.pos.x - ball.pos.x) > half { half } else { abs(paddle.pos.x - ball.pos.x) };
    assert(offset * QUARTER_PI <= QUARTER_PI * half && 0 <= offset * QUARTER_PI) by (nonlinear_arith)
        requires 0 <= offset <= half;
    assert(offset > 0 ==> offset * QUARTER_PI > 0) by (nonlinear_arith);
    lemma_ceil_bounds(offset * QUARTER_PI, half, QUARTER_PI as int);
}

/// The bounce vector off the paddle stays small.
proof fn lemma_bounce_vector_bounded(paddle: Quad, ball: Quad)
    ensures
        abs(paddle_bounce_vector(paddle, ball).x as int) <= 2 * SCALE * BALL_SPEED,
        abs(paddle_bounce_vector(paddle, ball).y as int) <= 2 * SCALE * BALL_SPEED,
{
    bounce_angle_at_most_quarter_pi(paddle, ball);
    lemma_trig_bounded(bounce_angle(paddle, ball));
}

/// A bounce off the paddle sends the ball away from the paddle's center:
/// sideways toward the side of the center that the ball is on, and up or
/// down away from the center's height.
pub proof fn paddle_bounce_points_away(paddle: Quad, ball: Quad)
    ensures
        ball.pos.x > paddle.pos.x ==> paddle_dir(paddle, ball).x > 0,
        ball.pos.x < paddle.pos.x ==> paddle_dir(paddle, ball).x < 0,
        ball.pos.x == paddle.pos.x ==> paddle_dir(paddle, ball).x == 0,
        paddle.pos.y > ball.pos.y ==> paddle_dir(paddle, ball).y < 0,
        paddle.pos.y <= ball.pos.y ==> paddle_dir(paddle, ball).y > 0,
{
    bounce_angle_at_most_quarter_pi(paddle, ball);
    lemma_bounce_vector_bounded(paddle, ball);
    let t = bounce_angle(paddle, ball);
    lemma_trig_bounded(t);
    if ball.pos.x == paddle.pos.x {
        assert(abs(paddle.pos.x - ball.pos.x) == 0);
        assert(ceil_div(0, PADDLE_WIDTH as int / 2) == 0) by {
            lemma_ceil_bounds(0, PADDLE_WIDTH as int / 2, 0);
        }
        assert(t == 0);
    }
    normalized_keeps_signs(paddle_bounce_vector(paddle, ball));
}

/// Fixed-point sine and cosine of `t / SCALE` radians.
fn trig_fixed(t: u64) -> (r: (i64, i64))
    requires
        t <= SCALE,
    ensures
        r.0 == sine_fixed(t as int),
        r.1 == cosine_fixed(t as int),
        0 <= r.0 <= 2 * SCALE,
        0 < r.1 <= 2 * SCALE,
{
    let unit: u64 = 1_000_000;
    proof {
        lemma_fx_mul_bounded(t as int, t as int);
        lemma_trig_bounded(t as int);
    }
    let t2 = t * t / unit;
    proof {
        lemma_fx_mul_bounded(t2 as int, t as int);
        lemma_fx_mul_bounded(t2 as int, t2 as int);
    }
    let t3 = t2 * t / unit;
    let t4 = t2 * t2 / unit;
    proof {
        lemma_fx_mul_bounded(t2 as int, t3 as int);
        lemma_fx_mul_bounded(t2 as int, t4 as int);
        assert(t3 * t2 == t2 * t3 && t4 * t2 == t2 * t4) by (nonlinear_arith);
    }
    let t5 = t3 * t2 / unit;
    let t6 = t4 * t2 / unit;
    let s: i64 = t as i64 - (t3 / 6) as i64 + (t5 / 120) as i64;
    let c: i64 = SCALE - (t2 / 2) as i64 + (t4 / 24) as i64 - (t6 / 720) as i64;
    (s, c)
}

/// Direction of the ball after a bounce off the paddle.
fn paddle_bounce(paddle: &Quad, ball: &Quad) -> (r: Vec2)
    ensures
        r == paddle_dir(*paddle, *ball),
        bounded_dir(r),
        ball.pos.x > paddle.pos.x ==> r.x > 0,
        ball.pos.x < paddle.pos.x ==> r.x < 0,
        paddle.pos.y > ball.pos.y ==> r.y < 0,
        paddle.pos.y <= ball.pos.y ==> r.y > 0,
{
    let dist: i128 = paddle.pos.x as i128 - ball.pos.x as i128;
    let half_width: i128 = (PADDLE_WIDTH / 2) as i128;
    let mag: i128 = if dist < 0 { -dist } else { dist };
    let mag: i128 = if mag > half_width { half_width } else { mag };
    proof {
        lemma_bounce_vector_bounded(*paddle, *ball);
    }
    proof {
        paddle_bounce_points_away(*paddle, *ball);
    }
    let t: i128 = (mag * (QUARTER_PI as i128) + half_width - 1) / half_width;
    let (s, c) = trig_fixed(t as u64);
    let sx: i64 = if paddle.pos.x >= ball.pos.x { -s } else { s };
    let cy: i64 = if paddle.pos.y > ball.pos.y { -c } else { c };
    let mut v = Vec2::new(sx * BALL_SPEED, cy * BALL_SPEED);
    v.normalize()
}

/// Direction of the ball after the walls.
fn wall_bounce(q: &Quad, d: Vec2) -> (r: Vec2)
    requires
        bounded_dir(d),
        q.size == ball_size(),
    ensures
        r == wall_dir(*q, d),
        bounded_dir(r),
{
    let half_w: i128 = (q.size.x / 2) as i128;
    let half_h: i128 = (q.size.y / 2) as i128;
    let x: i128 = q.pos.x as i128;
    let y: i128 = q.pos.y as i128;
    let arena: i128 = ARENA_HALF as i128;
    let dx: i64 = if x + half_w > arena {
        -abs_i64(d.x)
    } else if x - half_w < -arena {
        abs_i64(d.x)
    } else {
        d.x
    };
    let dy: i64 = if y + half_h > arena { -abs_i64(d.y) } else { d.y };
    Vec2::new(dx, dy)
}

/// Direction of the ball after hitting `brick`.
fn brick_bounce(q: &Quad, brick: &Brick, d: Vec2) -> (r: Vec2)
    requires
        brick_ok(*brick),
        bounded_dir(d),
    ensures
        r == brick_dir(*q, *brick, d),
        bounded_dir(r),
{
    let top: i128 = brick.top() as i128;
    let bottom: i128 = brick.bottom() as i128;
    let right: i128 = brick.right() as i128;
    let left: i128 = brick.left() as i128;
    let x: i128 = q.pos.x as i128;
    let y: i128 = q.pos.y as i128;
    let y_dist: i128 = if y > brick.quad.pos.y as i128 { y - top } else { y - bottom };
    let x_dist: i128 = if x > brick.quad.pos.x as i128 { x - right } else { x - left };
    let ay: i128 = if y_dist < 0 { -y_dist } else { y_dist };
    let ax: i128 = if x_dist < 0 { -x_dist } else { x_dist };
    if ay < ax {
        if y >= top {
            Vec2::new(d.x, abs_i64(d.y))
        } else if y <= bottom {
            Vec2::new(d.x, -abs_i64(d.y))
        } else {
            d
        }
    } else {
        if x >= right {
            Vec2::new(abs_i64(d.x), d.y)
        } else if x <= left {
            Vec2::new(-abs_i64(d.x), d.y)
        } else {
            d
        }
    }
}

proof fn lemma_first_hit_is(bricks: Seq<Brick>, q: Quad, i: int)
    requires
        is_first_hit(bricks, q, i),
    ensures
        first_hit(bricks, q) == i,
{
    let k = first_hit(bricks, q);
    assert(is_first_hit(bricks, q, k));
    if k < i {
        assert(!bricks[k].quad.overlaps(q));
    } else if i < k {
        assert(!bricks[i].quad.overlaps(q));
    }
}

proof fn lemma_after_hit_ok(bricks: Seq<Brick>, i: int)
    requires
        bricks_ok(bricks),
        0 <= i < bricks.len(),
    ensures
        bricks_ok(after_hit(bricks, i)),
{
    let r = after_hit(bricks, i);
    if bricks[i].health <= 1 {
        assert forall|j: int| 0 <= j < r.len() implies #[trigger] brick_ok(r[j]) by {
            if j < i {
                assert(r[j] == bricks[j]);
            } else {
                assert(r[j] == bricks[j + 1]);
            }
        }
    } else {
        assert forall|j: int| 0 <= j < r.len() implies #[trigger] brick_ok(r[j]) by {
            if j != i {
                assert(brick_ok(bricks[j]));
            }
        }
    }
}

impl GameState {
    /// Moves the paddle vertically by its direction and clamps its height,
    /// from any height and for any direction.
    pub fn paddle_move(paddle: &mut Entity)
        ensures
            *final(paddle) == paddle_moved(*old(paddle)),
            paddle_in_bounds(*final(paddle)),
    {
        let speed: i128 = PADDLE_SPEED as i128;
        assert(-12 * 0x8000_0000_0000_0000 <= paddle.dir.y * speed <= 12 * 0x8000_0000_0000_0000) by (nonlinear_arith)
            requires speed == 12, -0x8000_0000_0000_0000 <= paddle.dir.y < 0x8000_0000_0000_0000;
        let moved: i128 = paddle.quad.pos.y as i128 + (paddle.dir.y as i128) * speed;
        let y = clamp_i128(moved, PADDLE_BOUNDS_MIN as i128, PADDLE_BOUNDS_MAX as i128);
        paddle.quad.pos.y = y as i64;
    }

    /// Whether the ball overlaps the paddle.
    pub fn check_player_collision(&self) -> (r: bool)
        ensures
            r == self.player.quad.overlaps(self.ball.quad),
    {
        self.player.quad.interects(&self.ball.quad)
    }

    /// The index of the first brick, in collection order, that the ball
    /// overlaps.
    pub fn check_brick_collision(&self) -> (r: Option<usize>)
        ensures
            match r {
                Some(i) => is_first_hit(self.bricks@, self.ball.quad, i as int),
                None => hits_none(self.bricks@, self.ball.quad),
            },
    {
        let mut i: usize = 0;
        while i < self.bricks.len()
            invariant
                0 <= i <= self.bricks.len(),
                forall|j: int| 0 <= j < i ==> !(#[trigger] self.bricks@[j]).quad.overlaps(self.ball.quad),
            decreases self.bricks.len() - i,
        {
            if self.bricks[i].quad.interects(&self.ball.quad) {
                return Some(i);
            }
            i = i + 1;
        }
        None
    }

    /// Resolves the ball's bounces for one tick and moves it.
    pub fn ball_bounce(&mut self)
        requires
            old(self)@.wf(),
        ensures
            final(self)@ == bounced(old(self)@),
            final(self)@.wf(),
    {
        let q = self.ball.quad;
        let mut d = wall_bounce(&q, self.ball.dir);
        if self.check_player_collision() {
            d = paddle_bounce(&self.player.quad, &q);
        }
        let hit = self.check_brick_collision();
        proof {
            if hit.is_none() {
                assert(!exists|i: int| is_first_hit(self.bricks@, q, i));
            }
        }
        match hit {
            Some(i) => {
                proof {
                    lemma_first_hit_is(self.bricks@, q, i as int);
                    lemma_after_hit_ok(self.bricks@, i as int);
                }
                let b = self.bricks[i];
                assert(brick_ok(self.bricks@[i as int]));
                d = brick_bounce(&q, &b, d);
                if b.health <= 1 {
                    self.bricks.remove(i);
                } else {
                    self.bricks.set(i, Brick { quad: b.quad, health: b.health - 1 });
                }
            },
            None => {},
        }
        self.ball.dir = d;
        let step = d.scale(BALL_SPEED);
        self.ball.add_position(step);
    }

    /// Respawns the ball at the center, heading down, once its bottom edge
    /// is below the arena.
    pub fn score_keep(&mut self)
        ensures
            final(self)@ == respawned(old(self)@),
    {
        if 2 * (self.ball.quad.pos.y as i128) - (self.ball.quad.size.y as i128) < 0 - 2 * (ARENA_HALF as i128) {
            self.ball.quad.pos = Vec2::zero();
            self.ball.dir = Vec2::new(0, -SCALE);
        }
    }

    /// One tick of the simulation.
    pub fn step(&mut self)
        requires
            old(self)@.wf(),
        ensures
            final(self)@ == stepped(old(self)@),
            final(self)@.wf(),
    {
        GameState::paddle_move(&mut self.player);
        self.ball_bounce();
        self.score_keep();
    }
}


/// The paddle's direction after `event`, given the one before.
pub open spec fn input_dir(event: InputEvent, d: Vec2) -> Vec2 {
    match event {
        InputEvent::SpacePressed => d,
        InputEvent::LeftPressed => Vec2 { x: -SCALE as i64, y: 0 },
        InputEvent::RightPressed => Vec2 { x: SCALE, y: 0 },
        InputEvent::Other => Vec2 { x: 0, y: 0 },
    }
}

/// Centers of the starting bricks, in arena units, in collection order.
pub open spec fn brick_layout() -> Seq<(int, int)> {
    seq![
        (0, 200),
        (150, 200),
        (-150, 200),
        (0, 275),
        (150, 275),
        (-150, 275),
        (0, 125),
        (-150, 125),
        (150, 125),
        (500, 350),
        (500, 275),
        (500, 200),
        (500, 125),
        (500, 50),
        (-500, 350),
        (-500, 275),
        (-500, 200),
        (-500, 125),
        (-500, 50),
        (-500, 425),
        (-350, 425),
        (-200, 425),
        (500, 425),
        (350, 425),
        (200, 425),
        (-500, -25),
        (-350, -25),
        (-200, -25),
        (500, -25),
        (350, -25),
        (200, -25),
    ]
}

/// Adds a brick centered at `(x, y)` arena units.
fn add_brick(bricks: &mut Vec<Brick>, x: i64, y: i64)
    requires
        bricks_ok(old(bricks)@),
        bricks_clear_of_walls(old(bricks)@),
        -500 <= x <= 500,
        -500 <= y <= 500,
    ensures
        final(bricks)@.len() == old(bricks)@.len() + 1,
        final(bricks)@.drop_last() == old(bricks)@,
        final(bricks)@.last().quad.pos == (Vec2 { x: (x * SCALE) as i64, y: (y * SCALE) as i64 }),
        MIN_START_HEALTH <= final(bricks)@.last().health <= BRICK_HEALTH,
        bricks_ok(final(bricks)@),
        bricks_clear_of_walls(final(bricks)@),
{
    let b = Brick::new(x * SCALE, y * SCALE);
    bricks.push(b);
    assert(final(bricks)@.drop_last() =~= old(bricks)@);
}

impl GameState {
    /// The starting layout: the paddle low on the left of center, the ball at
    /// the center heading down, and 31 bricks of random health.
    #[verifier::rlimit(60)]
    pub fn new() -> (r: GameState)
        ensures
            r@.wf(),
            r.player.quad.pos == (Vec2 { x: (-130 * SCALE) as i64, y: (-700 * SCALE) as i64 }),
            r.player.dir == (Vec2 { x: 0, y: 0 }),
            paddle_clear_of_walls(r.player),
            ball_in_arena(r.ball),
            r.ball.quad.pos == (Vec2 { x: 0, y: 0 }),
            r.ball.dir == (Vec2 { x: 0, y: -SCALE as i64 }),
            r.bricks@.len() == brick_layout().len(),
            forall|i: int| 0 <= i < r.bricks@.len() ==> (#[trigger] r.bricks@[i]).quad.pos
                == (Vec2 { x: (brick_layout()[i].0 * SCALE) as i64, y: (brick_layout()[i].1 * SCALE) as i64 }),
            bricks_clear_of_walls(r.bricks@),
            forall|i: int| 0 <= i < r.bricks@.len() ==> MIN_START_HEALTH <= #[trigger] r.bricks@[i].health,
            r.tick == 0,
    {
        let player = Entity {
            quad: Quad::new(Vec2::new(-130 * SCALE, -700 * SCALE), Vec2::new(PADDLE_WIDTH, PADDLE_HEIGHT)),
            dir: Vec2::zero(),
        };
        let mut bricks: Vec<Brick> = Vec::new();
        add_brick(&mut bricks, 0, 200);
        add_brick(&mut bricks, 150, 200);
        add_brick(&mut bricks, -150, 200);
        add_brick(&mut bricks, 0, 275);
        add_brick(&mut bricks, 150, 275);
        add_brick(&mut bricks, -150, 275);
        add_brick(&mut bricks, 0, 125);
        add_brick(&mut bricks, -150, 125);
        add_brick(&mut bricks, 150, 125);
        add_brick(&mut bricks, 500, 350);
        add_brick(&mut bricks, 500, 275);
        add_brick(&mut bricks, 500, 200);
        add_brick(&mut bricks, 500, 125);
        add_brick(&mut bricks, 500, 50);
        add_brick(&mut bricks, -500, 350);
        add_brick(&mut bricks, -500, 275);
        add_brick(&mut bricks, -500, 200);
        add_brick(&mut bricks, -500, 125);
        add_brick(&mut bricks, -500, 50);
        add_brick(&mut bricks, -500, 425);
        add_brick(&mut bricks, -350, 425);
        add_brick(&mut bricks, -200, 425);
        add_brick(&mut bricks, 500, 425);
        add_brick(&mut bricks, 350, 425);
        add_brick(&mut bricks, 200, 425);
        add_brick(&mut bricks, -500, -25);
        add_brick(&mut bricks, -350, -25);
        add_brick(&mut bricks, -200, -25);
        add_brick(&mut bricks, 500, -25);
        add_brick(&mut bricks, 350, -25);
        add_brick(&mut bricks, 200, -25);
        let ball = Entity {
            quad: Quad::new(Vec2::zero(), Vec2::new(BALL_SIDE, BALL_SIDE)),
            dir: Vec2::new(0, -SCALE),
        };
        GameState { player, bricks, ball, tick: 0 }
    }

    /// Adds `elapsed_micros` of real time (at most `MAX_ELAPSED_MICROS`) to
    /// the accumulator, which saturates at `u64::MAX`, and runs one tick for
    /// each whole tick accumulated, at most `MAX_STEPS_PER_UPDATE` of them;
    /// each tick run takes `TICK_UNITS` off the accumulator, and ticks beyond
    /// the cap stay due for later calls. Returns the number of ticks run.
    pub fn update(&mut self, elapsed_micros: u64) -> (steps: u64)
        requires
            old(self)@.wf(),
        ensures
            final(self)@.wf(),
            ({
                let elapsed = if elapsed_micros > MAX_ELAPSED_MICROS { MAX_ELAPSED_MICROS as int } else { elapsed_micros as int };
                let sum = old(self).tick + elapsed * TICKS_PER_SECOND;
                let total = if sum > u64::MAX { u64::MAX as int } else { sum };
                &&& steps == if total / (TICK_UNITS as int) < MAX_STEPS_PER_UPDATE { total / (TICK_UNITS as int) } else { MAX_STEPS_PER_UPDATE as int }
                &&& final(self).tick == total - steps * TICK_UNITS
            }),
            final(self)@ == (GameView { tick: final(self).tick as nat, ..stepped_times(old(self)@, steps as nat) }),
            final(self).bricks@.len() <= old(self).bricks@.len(),
    {
        let elapsed: u64 = if elapsed_micros > MAX_ELAPSED_MICROS { MAX_ELAPSED_MICROS } else { elapsed_micros };
        let gained: u64 = elapsed * TICKS_PER_SECOND;
        let total: u64 = if self.tick > u64::MAX - gained { u64::MAX } else { self.tick + gained };
        let ghost start = self@;
        let mut acc: u64 = total;
        let mut steps: u64 = 0;
        while acc >= TICK_UNITS && steps < MAX_STEPS_PER_UPDATE
            invariant
                self@.wf(),
                steps <= MAX_STEPS_PER_UPDATE,
                acc + steps * TICK_UNITS == total,
                steps as int <= total as int / (TICK_UNITS as int),
                self.tick == start.tick,
                self@ == stepped_times(start, steps as nat),
                self.bricks@.len() <= start.bricks.len(),
            decreases MAX_STEPS_PER_UPDATE - steps,
        {
            proof {
                assert((steps + 1) * TICK_UNITS <= total);
                vstd::arithmetic::div_mod::lemma_div_is_ordered((steps + 1) * TICK_UNITS, total as int, TICK_UNITS as int);
                vstd::arithmetic::div_mod::lemma_div_multiples_vanish((steps + 1) as int, TICK_UNITS as int);
                stepped_keeps_well_formed(self@);
            }
            self.step();
            acc = acc - TICK_UNITS;
            steps = steps + 1;
        }
        proof {
            vstd::arithmetic::div_mod::lemma_fundamental_div_mod(total as int, TICK_UNITS as int);
            vstd::arithmetic::div_mod::lemma_mod_pos_bound(total as int, TICK_UNITS as int);
            let q = total as int / (TICK_UNITS as int);
            let m = total as int % (TICK_UNITS as int);
            if acc < TICK_UNITS {
                assert(q == steps) by (nonlinear_arith)
                    requires total == TICK_UNITS * q + m, 0 <= m < TICK_UNITS, acc + steps * TICK_UNITS == total, 0 <= acc < TICK_UNITS, TICK_UNITS == 1_000_000;
            }
        }
        self.tick = acc;
        steps
    }

    /// Sets the paddle's direction.
    pub fn set_paddle_direction(&mut self, dir: Vec2)
        requires
            old(self)@.wf(),
            bounded_dir(dir),
        ensures
            final(self)@ == (GameView { player: Entity { dir, ..old(self).player }, ..old(self)@ }),
            final(self)@.wf(),
    {
        self.player.dir = dir;
    }

    /// Steers the paddle from a key event: left and right set its direction
    /// and report the event as handled; space is handled with no change; any
    /// other event stops the paddle and is not handled.
    pub fn input(&mut self, event: InputEvent) -> (handled: bool)
        requires
            old(self)@.wf(),
        ensures
            final(self)@.wf(),
            handled == (event != InputEvent::Other),
            final(self)@ == (GameView { player: Entity { dir: input_dir(event, old(self).player.dir), ..old(self).player }, ..old(self)@ }),
    {
        match event {
            InputEvent::SpacePressed => true,
            InputEvent::LeftPressed => {
                self.set_paddle_direction(Vec2::new(-SCALE, 0));
                true
            },
            InputEvent::RightPressed => {
                self.set_paddle_direction(Vec2::new(SCALE, 0));
                true
            },
            InputEvent::Other => {
                self.set_paddle_direction(Vec2::zero());
                false
            },
        }
    }
}


proof fn lemma_first_hit_found(bricks: Seq<Brick>, q: Quad)
    ensures
        first_hit(bricks, q) >= 0 ==> is_first_hit(bricks, q, first_hit(bricks, q)),
        first_hit(bricks, q) >= -1,
{
}

/// The paddle stands far enough from the side and top walls that a ball
/// bouncing off it stays in the arena, and does not move vertically.
pub open spec fn paddle_clear_of_walls(p: Entity) -> bool {
    &&& 2 * (abs(p.quad.pos.x as int) + BALL_SPEED * SCALE) + PADDLE_WIDTH + BALL_SIDE <= 2 * ARENA_HALF
    &&& 2 * (p.quad.pos.y + BALL_SPEED * SCALE) + PADDLE_HEIGHT + BALL_SIDE <= 2 * ARENA_HALF
    &&& p.dir.y == 0
}

/// The wall reflections keep the ball's center in the arena, except at the
/// bottom: over a tick in which the paddle and every brick stand clear of the
/// walls, a ball in the arena stays there.
pub proof fn ball_stays_in_arena(s: GameView)
    requires
        s.wf(),
        ball_in_arena(s.ball),
        paddle_clear_of_walls(s.player),
        bricks_clear_of_walls(s.bricks),
    ensures
        ball_in_arena(stepped(s).ball),
        paddle_clear_of_walls(stepped(s).player),
        bricks_clear_of_walls(stepped(s).bricks),
{
    let q = s.ball.quad;
    let p = paddle_moved(s.player);
    assert(p.quad.pos == s.player.quad.pos);
    let d1 = wall_dir(q, s.ball.dir);
    let d2 = if p.quad.overlaps(q) { paddle_dir(p.quad, q) } else { d1 };
    if p.quad.overlaps(q) {
        lemma_bounce_vector_bounded(p.quad, q);
        lemma_normalized_bounded(paddle_bounce_vector(p.quad, q));
        assert(abs(q.pos.x as int) + 25_000_000 < ARENA_HALF);
        assert(q.pos.y + 25_000_000 < ARENA_HALF);
    }
    assert(bounded_dir(d2));
    assert(d2.x == d1.x || abs(q.pos.x as int) + 25_000_000 < ARENA_HALF);
    assert(d2.y == d1.y || q.pos.y + 25_000_000 < ARENA_HALF);
    let i = first_hit(s.bricks, q);
    lemma_first_hit_found(s.bricks, q);
    if i >= 0 {
        let b = s.bricks[i];
        assert(brick_ok(b));
        assert(b.quad.overlaps(q));
        let d3 = brick_dir(q, b, d2);
        assert(d3.x == d2.x || abs(q.pos.x as int) + 25_000_000 < ARENA_HALF);
        assert(d3.y == d2.y || q.pos.y + 25_000_000 < ARENA_HALF);
        assert(bounded_dir(d3));
        lemma_after_hit_ok(s.bricks, i);
        let after = after_hit(s.bricks, i);
        if b.health <= 1 {
            assert forall|j: int| 0 <= j < after.len() implies {
                &&& 2 * (abs((#[trigger] after[j]).quad.pos.x as int) + BALL_SPEED * SCALE) + BRICK_WIDTH + BALL_SIDE <= 2 * ARENA_HALF
                &&& 2 * (after[j].quad.pos.y + BALL_SPEED * SCALE) + BRICK_HEIGHT + BALL_SIDE <= 2 * ARENA_HALF
            } by {
                if j < i {
                    assert(after[j] == s.bricks[j]);
                } else {
                    assert(after[j] == s.bricks[j + 1]);
                }
            }
        } else {
            assert forall|j: int| 0 <= j < after.len() implies {
                &&& 2 * (abs((#[trigger] after[j]).quad.pos.x as int) + BALL_SPEED * SCALE) + BRICK_WIDTH + BALL_SIDE <= 2 * ARENA_HALF
                &&& 2 * (after[j].quad.pos.y + BALL_SPEED * SCALE) + BRICK_HEIGHT + BALL_SIDE <= 2 * ARENA_HALF
            } by {
                assert(after[j].quad == s.bricks[j].quad);
            }
        }
    }
}

/// Over any sequence of key events and ticks, with the paddle and the bricks
/// clear of the walls, the ball's center never passes the side or top walls:
/// it stays in the arena or is respawned at its center.
pub proof fn ball_stays_in_arena_in_play(s: GameView, events: Seq<InputEvent>)
    requires
        s.wf(),
        ball_in_arena(s.ball),
        paddle_clear_of_walls(s.player),
        bricks_clear_of_walls(s.bricks),
    ensures
        ball_in_arena(played(s, events).ball),
        paddle_clear_of_walls(played(s, events).player),
        bricks_clear_of_walls(played(s, events).bricks),
    decreases events.len(),
{
    if events.len() > 0 {
        ball_stays_in_arena_in_play(s, events.drop_last());
        play_keeps_state_well_formed(s, events.drop_last());
        let before = played(s, events.drop_last());
        let steered = GameView { player: Entity { dir: input_dir(events.last(), before.player.dir), ..before.player }, ..before };
        assert(steered.wf());
        ball_stays_in_arena(steered);
    }
}

/// The game state after `input` and `step` for each event in turn.
pub open spec fn played(s: GameView, events: Seq<InputEvent>) -> GameView
    decreases events.len(),
{
    if events.len() == 0 {
        s
    } else {
        let before = played(s, events.drop_last());
        stepped(GameView { player: Entity { dir: input_dir(events.last(), before.player.dir), ..before.player }, ..before })
    }
}

/// However the paddle is steered, every tick keeps the state well formed:
/// the paddle's height within its bounds and every present brick's health
/// in `1..=BRICK_HEALTH`.
pub proof fn play_keeps_state_well_formed(s: GameView, events: Seq<InputEvent>)
    requires
        s.wf(),
    ensures
        played(s, events).wf(),
        paddle_in_bounds(played(s, events).player),
    decreases events.len(),
{
    if events.len() > 0 {
        play_keeps_state_well_formed(s, events.drop_last());
        let before = played(s, events.drop_last());
        let steered = GameView { player: Entity { dir: input_dir(events.last(), before.player.dir), ..before.player }, ..before };
        stepped_keeps_well_formed(steered);
    }
}

/// One tick keeps the state well formed and never adds a brick.
pub proof fn stepped_keeps_well_formed(s: GameView)
    requires
        s.wf(),
    ensures
        stepped(s).wf(),
        stepped(s).bricks.len() <= s.bricks.len(),
{
    let moved = GameView { player: paddle_moved(s.player), ..s };
    let q = s.ball.quad;
    let d1 = wall_dir(q, s.ball.dir);
    if moved.player.quad.overlaps(q) {
        lemma_bounce_vector_bounded(moved.player.quad, q);
        lemma_normalized_bounded(paddle_bounce_vector(moved.player.quad, q));
    }
    let i = first_hit(s.bricks, q);
    lemma_first_hit_found(s.bricks, q);
    if i >= 0 {
        lemma_after_hit_ok(s.bricks, i);
    }
}


/// The brick that the ball hits first loses one health; at zero it is gone
/// from the collection, which then holds exactly one brick less, and every
/// brick left keeps its health in `1..=BRICK_HEALTH`.
pub proof fn hit_brick_loses_health(s: GameView)
    requires
        s.wf(),
        first_hit(s.bricks, s.ball.quad) >= 0,
    ensures
        ({
            let i = first_hit(s.bricks, s.ball.quad);
            let after = bounced(s).bricks;
            &&& s.bricks[i].health == 1 ==> after == s.bricks.remove(i) && after.len() == s.bricks.len() - 1
            &&& s.bricks[i].health > 1 ==> after.len() == s.bricks.len() && after[i].health == s.bricks[i].health - 1
            &&& bricks_ok(after)
        }),
{
    let i = first_hit(s.bricks, s.ball.quad);
    lemma_first_hit_found(s.bricks, s.ball.quad);
    assert(brick_ok(s.bricks[i]));
    lemma_after_hit_ok(s.bricks, i);
}


fn dir_is_bounded(d: Vec2) -> (r: bool)
    ensures
        r == bounded_dir(d),
{
    -SCALE <= d.x && d.x <= SCALE && -SCALE <= d.y && d.y <= SCALE
}

impl GameState {
    /// Whether the state is well formed: what `update`, `step` and `input`
    /// ask of it.
    pub fn is_well_formed(&self) -> (r: bool)
        ensures
            r == self@.wf(),
    {
        if !(self.player.quad.size == Vec2::new(PADDLE_WIDTH, PADDLE_HEIGHT)
            && PADDLE_BOUNDS_MIN <= self.player.quad.pos.y && self.player.quad.pos.y <= PADDLE_BOUNDS_MAX
            && dir_is_bounded(self.player.dir)
            && self.ball.quad.size == Vec2::new(BALL_SIDE, BALL_SIDE)
            && dir_is_bounded(self.ball.dir)) {
            return false;
        }
        let mut i: usize = 0;
        while i < self.bricks.len()
            invariant
                0 <= i <= self.bricks.len(),
                forall|j: int| 0 <= j < i ==> #[trigger] brick_ok(self.bricks@[j]),
            decreases self.bricks.len() - i,
        {
            let b = self.bricks[i];
            if !(b.quad.size == Vec2::new(BRICK_WIDTH, BRICK_HEIGHT) && 1 <= b.health && b.health <= BRICK_HEALTH
                && -ARENA_HALF <= b.quad.pos.x && b.quad.pos.x <= ARENA_HALF
                && -ARENA_HALF <= b.quad.pos.y && b.quad.pos.y <= ARENA_HALF) {
                assert(!brick_ok(self.bricks@[i as int]));
                return false;
            }
            i = i + 1;
        }
        true
    }
}

} // verus!
