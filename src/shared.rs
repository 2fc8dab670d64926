use vstd::prelude::*;

verus! {

/// Right edge of the play area (milli-units).
pub const THRESHOLD_X: i64 = 370_000;

/// Left edge of the play area (milli-units).
pub const THRESHOLD_NX: i64 = -370_000;

/// Top edge of the play area (milli-units).
pub const THRESHOLD_Y: i64 = 370_000;

/// Bottom edge of the play area (milli-units).
pub const THRESHOLD_NY: i64 = -370_000;

/// Largest magnitude of a stored coordinate, offset or extent (milli-units).
pub const COORD_LIMIT: i64 = 1_000_000_000_000;

/// Largest speed an actor or projectile may have (milli-units per second).
pub const SPEED_LIMIT: i64 = 1_000_000_000;

/// Longest tick the simulation accepts (microseconds, 1000 s): a bound that
/// keeps every distance covered in one tick within `i64`.
pub const MAX_TICK_MICROS: u64 = 1_000_000_000;

/// Longest distance covered in one tick (milli-units).
pub const MAX_TRAVEL: i64 = 1_000_000_000_000;

/// Microseconds in a second.
pub const MICROS_PER_SECOND: i64 = 1_000_000;

/// A 2D vector: a muzzle offset or a box extent (milli-units).
#[derive(Clone, Copy, Debug, PartialEq, Eq, Structural)]
pub struct Vec2 {
    pub x: i64,
    pub y: i64,
}

/// A position in the arena; `z` is the layering depth (milli-units).
#[derive(Clone, Copy, Debug, PartialEq, Eq, Structural)]
pub struct Vec3 {
    pub x: i64,
    pub y: i64,
    pub z: i64,
}

pub open spec fn abs(v: int) -> int {
    if v < 0 {
        -v
    } else {
        v
    }
}

pub open spec fn clamp(v: int, lo: int, hi: int) -> int {
    if v < lo {
        lo
    } else if v > hi {
        hi
    } else {
        v
    }
}

pub open spec fn max(a: int, b: int) -> int {
    if a >= b {
        a
    } else {
        b
    }
}

pub open spec fn in_limit(v: int) -> bool {
    -COORD_LIMIT <= v <= COORD_LIMIT
}

pub open spec fn pos_in_limit(p: Vec3) -> bool {
    in_limit(p.x as int) && in_limit(p.y as int) && in_limit(p.z as int)
}

pub open spec fn extent_ok(e: Vec2) -> bool {
    0 <= e.x <= COORD_LIMIT && 0 <= e.y <= COORD_LIMIT
}

/// Inclusive axis-aligned overlap of two boxes centred at `a` and `b`:
/// on each axis the distance of the centres is at most the sum of the half
/// extents. Doubling both sides keeps the test exact on integers.
pub open spec fn overlaps(a: Vec3, a_size: Vec2, b: Vec3, b_size: Vec2) -> bool {
    2 * abs(a.x - b.x) <= a_size.x + b_size.x && 2 * abs(a.y - b.y) <= a_size.y + b_size.y
}

/// Whether a point lies inside the play area (edges included).
pub open spec fn inside_bounds(p: Vec3) -> bool {
    THRESHOLD_NX <= p.x <= THRESHOLD_X && THRESHOLD_NY <= p.y <= THRESHOLD_Y
}

/// The inclusive overlap test of two boxes.
pub fn aabb_overlap(a: Vec3, a_size: Vec2, b: Vec3, b_size: Vec2) -> (r: bool)
    ensures
        r == overlaps(a, a_size, b, b_size),
{
    let dx: i128 = a.x as i128 - b.x as i128;
    let dy: i128 = a.y as i128 - b.y as i128;
    let adx: i128 = if dx < 0 {
        -dx
    } else {
        dx
    };
    let ady: i128 = if dy < 0 {
        -dy
    } else {
        dy
    };
    2 * adx <= a_size.x as i128 + b_size.x as i128 && 2 * ady <= a_size.y as i128
        + b_size.y as i128
}

/// Boxes whose centres are exactly the sum of the half extents apart on both
/// axes touch, and touching counts as overlapping.
pub proof fn lemma_overlap_boundary_inclusive(a: Vec3, a_size: Vec2, b: Vec3, b_size: Vec2)
    requires
        2 * abs(a.x - b.x) == a_size.x + b_size.x,
        2 * abs(a.y - b.y) == a_size.y + b_size.y,
    ensures
        overlaps(a, a_size, b, b_size),
{
}

/// Whether a position lies inside the play area.
pub fn in_bounds(p: Vec3) -> (r: bool)
    ensures
        r == inside_bounds(p),
{
    THRESHOLD_NX <= p.x && p.x <= THRESHOLD_X && THRESHOLD_NY <= p.y && p.y <= THRESHOLD_Y
}

/// Distance covered in `dt` microseconds at `speed` milli-units per second,
/// rounded towards zero.
pub open spec fn travel(speed: int, dt: int) -> int {
    speed * dt / (MICROS_PER_SECOND as int)
}

pub fn travel_distance(speed: i64, dt: u64) -> (r: i64)
    requires
        0 <= speed <= SPEED_LIMIT,
        dt <= MAX_TICK_MICROS,
    ensures
        r == travel(speed as int, dt as int),
        0 <= r <= MAX_TRAVEL,
{
    proof {
        assert(speed * dt <= SPEED_LIMIT * MAX_TICK_MICROS) by (nonlinear_arith)
            requires
                0 <= speed <= SPEED_LIMIT,
                0 <= dt <= MAX_TICK_MICROS,
        ;
        assert(0 <= speed * dt) by (nonlinear_arith)
            requires
                0 <= speed,
                0 <= dt,
        ;
    }
    let p: i64 = speed * (dt as i64);
    p / MICROS_PER_SECOND
}

/// A health-bearing target of projectiles and contact hazards.
#[derive(Clone, Copy, Debug)]
pub struct Damagable {
    pub health: i32,
    pub is_enemy: bool,
    pub hitbox_size: Vec2,
    /// Hit-eligibility gate: a target that is not damagable takes no hits.
    pub damagable: bool,
}

/// Health after a hit; a negative amount counts as no damage.
pub open spec fn damaged_health(health: int, amount: int) -> int {
    clamp(health - max(amount, 0), 0, i32::MAX as int)
}

impl Damagable {
    /// Lowers health by `amount`, never below zero. A negative amount is
    /// treated as zero: damage never heals.
    pub fn damage(&mut self, amount: i32)
        ensures
            final(self).health == damaged_health(old(self).health as int, amount as int),
            final(self).health >= 0,
            old(self).health >= 0 ==> final(self).health <= old(self).health,
            old(self).health >= 0 && amount >= 0 ==> final(self).health == max(
                0,
                old(self).health - amount,
            ),
            final(self).is_enemy == old(self).is_enemy,
            final(self).hitbox_size == old(self).hitbox_size,
            final(self).damagable == old(self).damagable,
    {
        let a: i64 = if amount < 0 {
            0
        } else {
            amount as i64
        };
        let v: i64 = self.health as i64 - a;
        self.health = if v < 0 {
            0
        } else if v > i32::MAX as i64 {
            i32::MAX
        } else {
            v as i32
        };
    }
}

/// The keys held during one tick.
#[derive(Clone, Copy, Debug, PartialEq, Eq, Structural)]
pub struct Input {
    pub left: bool,
    pub right: bool,
    pub fire: bool,
    pub play: bool,
    pub escape: bool,
    /// Both keys of the quit combination are held.
    pub quit: bool,
}

/// The two lifecycle states of the game.
#[derive(Clone, Copy, Debug, PartialEq, Eq, Structural)]
pub enum GameState {
    MainMenu,
    Game,
}

/// Terminal outcome: the last player died; carries the final score.
#[derive(Clone, Copy, Debug, PartialEq, Eq, Structural)]
pub struct GameOverEvent(pub i32);

} // verus!
