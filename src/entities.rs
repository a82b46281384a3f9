//! The paddle, the ball and the bricks.
use vstd::prelude::*;
use crate::geometry::{Vec2, Quad, abs};
use crate::outside::random_between;

verus! {

/// Full width and height of a brick, in micro-units.
pub const BRICK_WIDTH: i64 = 150_000_000;
pub const BRICK_HEIGHT: i64 = 75_000_000;

/// Health of a fresh brick lies in `MIN_START_HEALTH..=BRICK_HEALTH`.
pub const BRICK_HEALTH: u8 = 5;
pub const MIN_START_HEALTH: u8 = 3;

/// `v` saturated into the range of `i64`.
pub open spec fn sat(v: int) -> i64 {
    if v > i64::MAX {
        i64::MAX
    } else if v < i64::MIN {
        i64::MIN
    } else {
        v as i64
    }
}

pub fn sat_add(a: i64, b: i64) -> (r: i64)
    ensures
        r == sat(a + b),
{
    let s: i128 = a as i128 + b as i128;
    if s > i64::MAX as i128 {
        i64::MAX
    } else if s < i64::MIN as i128 {
        i64::MIN
    } else {
        s as i64
    }
}

/// A moving rectangle: the paddle or the ball.
#[derive(Clone, Copy, Debug, PartialEq, Eq, Structural)]
pub struct Entity {
    pub quad: Quad,
    pub dir: Vec2,
}

pub open spec fn shifted(p: Vec2, d: Vec2) -> Vec2 {
    Vec2 { x: sat(p.x + d.x), y: sat(p.y + d.y) }
}

impl Entity {
    /// Moves the entity by `d`, saturating at the range of `i64`.
    pub fn add_position(&mut self, d: Vec2)
        ensures
            final(self).quad.pos == shifted(old(self).quad.pos, d),
            final(self).quad.size == old(self).quad.size,
            final(self).dir == old(self).dir,
    {
        self.quad.pos = Vec2::new(sat_add(self.quad.pos.x, d.x), sat_add(self.quad.pos.y, d.y));
    }
}

/// A destructible brick of the fixed size.
#[derive(Clone, Copy, Debug, PartialEq, Eq, Structural)]
pub struct Brick {
    pub quad: Quad,
    pub health: u8,
}

pub open spec fn brick_size() -> Vec2 {
    Vec2 { x: BRICK_WIDTH, y: BRICK_HEIGHT }
}

impl Brick {
    pub open spec fn top_spec(self) -> int {
        self.quad.pos.y + BRICK_HEIGHT / 2
    }

    pub open spec fn bottom_spec(self) -> int {
        self.quad.pos.y - BRICK_HEIGHT / 2
    }

    pub open spec fn right_spec(self) -> int {
        self.quad.pos.x + BRICK_WIDTH / 2
    }

    pub open spec fn left_spec(self) -> int {
        self.quad.pos.x - BRICK_WIDTH / 2
    }

    /// A brick centered at `(x, y)` with a random health in
    /// `MIN_START_HEALTH..=BRICK_HEALTH`.
    pub fn new(x: i64, y: i64) -> (r: Brick)
        ensures
            r.quad.pos == (Vec2 { x, y }),
            r.quad.size == brick_size(),
            MIN_START_HEALTH <= r.health <= BRICK_HEALTH,
    {
        Brick::with_health(x, y, random_between(MIN_START_HEALTH, BRICK_HEALTH))
    }

    /// A brick centered at `(x, y)` with the given health.
    pub fn with_health(x: i64, y: i64, health: u8) -> (r: Brick)
        ensures
            r.quad.pos == (Vec2 { x, y }),
            r.quad.size == brick_size(),
            r.health == health,
    {
        Brick { quad: Quad::new(Vec2::new(x, y), Vec2::new(BRICK_WIDTH, BRICK_HEIGHT)), health }
    }

    pub fn top(&self) -> (r: i64)
        requires
            self.quad.pos.y <= i64::MAX - BRICK_HEIGHT / 2,
        ensures
            r == self.top_spec(),
    {
        self.quad.pos.y + BRICK_HEIGHT / 2
    }

    pub fn bottom(&self) -> (r: i64)
        requires
            self.quad.pos.y >= i64::MIN + BRICK_HEIGHT / 2,
        ensures
            r == self.bottom_spec(),
    {
        self.quad.pos.y - BRICK_HEIGHT / 2
    }

    pub fn right(&self) -> (r: i64)
        requires
            self.quad.pos.x <= i64::MAX - BRICK_WIDTH / 2,
        ensures
            r == self.right_spec(),
    {
        self.quad.pos.x + BRICK_WIDTH / 2
    }

    pub fn left(&self) -> (r: i64)
        requires
            self.quad.pos.x >= i64::MIN + BRICK_WIDTH / 2,
        ensures
            r == self.left_spec(),
    {
        self.quad.pos.x - BRICK_WIDTH / 2
    }
}

} // verus!
