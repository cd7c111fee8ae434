//! Coordinate spaces and directions.
//!
//! Three integer coordinate systems are used: fine-grained world positions,
//! tile grid positions, and pixel screen positions. One tile spans the screen
//! tile size times a fixed scale factor in world units.

use vstd::prelude::*;

verus! {

/// World units per screen pixel.
pub const WORLD_SCALE: i32 = 16;

/// Width of one tile in screen pixels.
pub const SCREEN_TILE_W: i32 = 4;

/// Height of one tile in screen pixels.
pub const SCREEN_TILE_H: i32 = 5;

/// Width of one tile in world units.
pub const WORLD_TILE_W: i32 = SCREEN_TILE_W * WORLD_SCALE;

/// Height of one tile in world units.
pub const WORLD_TILE_H: i32 = SCREEN_TILE_H * WORLD_SCALE;

/// A logical movement direction, also used as the per-tick input alphabet.
#[derive(Debug, Clone, Copy, PartialEq, Eq, Structural)]
pub enum Direction {
    Up,
    Down,
    Left,
    Right,
}

/// A currently-pressed logical button. The player consumes a set of these
/// each tick; order inside the set does not matter.
#[derive(Debug, Clone, Copy, PartialEq, Eq, Structural)]
pub enum Input {
    Up,
    Down,
    Left,
    Right,
}

/// Horizontal component of a unit step in direction `d`.
pub open spec fn dir_dx(d: Direction) -> int {
    match d {
        Direction::Up => 0,
        Direction::Down => 0,
        Direction::Left => -1,
        Direction::Right => 1,
    }
}

/// Vertical component of a unit step in direction `d` (screen-style axes:
/// `Up` decreases `y`, `Down` increases it).
pub open spec fn dir_dy(d: Direction) -> int {
    match d {
        Direction::Up => -1,
        Direction::Down => 1,
        Direction::Left => 0,
        Direction::Right => 0,
    }
}

impl Direction {
    /// The unit tile offset of one step in this direction.
    pub fn delta(&self) -> (r: (i32, i32))
        ensures
            r.0 as int == dir_dx(*self),
            r.1 as int == dir_dy(*self),
    {
        match self {
            Direction::Up => (0, -1),
            Direction::Down => (0, 1),
            Direction::Left => (-1, 0),
            Direction::Right => (1, 0),
        }
    }
}

/// Truncating division of `x` by a positive divisor `d`, the semantics of
/// machine integer division.
pub open spec fn trunc_div(x: int, d: int) -> int
    recommends
        d > 0,
{
    if x >= 0 {
        x / d
    } else {
        -((-x) / d)
    }
}

/// The tile coordinate holding world coordinate `x`: truncating division by
/// the tile extent, moved one further down for negative coordinates.
pub open spec fn world_to_tile_coord(x: int, d: int) -> int
    recommends
        d > 0,
{
    if x >= 0 {
        x / d
    } else {
        trunc_div(x, d) - 1
    }
}

/// A pixel coordinate for rendering; derived output, never read back.
#[derive(Debug, Clone, Copy, PartialEq, Eq, Structural)]
pub struct ScreenPoint {
    pub sx: i32,
    pub sy: i32,
}

impl ScreenPoint {
    pub fn new(sx: i32, sy: i32) -> (r: ScreenPoint)
        ensures
            r.sx == sx,
            r.sy == sy,
    {
        ScreenPoint { sx, sy }
    }

    /// The raw pixel pair.
    pub fn pixels(&self) -> (r: (i32, i32))
        ensures
            r.0 == self.sx,
            r.1 == self.sy,
    {
        (self.sx, self.sy)
    }
}

/// A fine-grained position in world units.
#[derive(Debug, Clone, Copy, PartialEq, Eq, Structural)]
pub struct WorldPoint {
    pub x: i32,
    pub y: i32,
}

impl WorldPoint {
    pub fn new(x: i32, y: i32) -> (r: WorldPoint)
        ensures
            r.x == x,
            r.y == y,
    {
        WorldPoint { x, y }
    }

    /// The screen pixel containing this world position (division by the
    /// world scale, truncating toward zero).
    pub fn to_screen(&self) -> (r: ScreenPoint)
        ensures
            r.sx as int == trunc_div(self.x as int, WORLD_SCALE as int),
            r.sy as int == trunc_div(self.y as int, WORLD_SCALE as int),
    {
        ScreenPoint::new(
            div_trunc_i32(self.x, WORLD_SCALE),
            div_trunc_i32(self.y, WORLD_SCALE),
        )
    }

    /// The tile containing this world position: truncating division by the
    /// tile extent on each axis, with negative coordinates pushed one tile
    /// further toward negative infinity.
    pub fn to_tile(&self) -> (r: TilePoint)
        ensures
            r.tx as int == world_to_tile_coord(self.x as int, WORLD_TILE_W as int),
            r.ty as int == world_to_tile_coord(self.y as int, WORLD_TILE_H as int),
    {
        let mut tx = div_trunc_i32(self.x, WORLD_TILE_W);
        let mut ty = div_trunc_i32(self.y, WORLD_TILE_H);
        if self.x < 0 {
            tx = tx - 1;
        }
        if self.y < 0 {
            ty = ty - 1;
        }
        TilePoint::new(tx, ty)
    }

    /// Offset this point by `(dx, dy)` world units.
    pub fn translate(&self, dx: i32, dy: i32) -> (r: WorldPoint)
        requires
            i32::MIN <= self.x + dx <= i32::MAX,
            i32::MIN <= self.y + dy <= i32::MAX,
        ensures
            r.x == self.x + dx,
            r.y == self.y + dy,
    {
        WorldPoint::new(self.x + dx, self.y + dy)
    }
}

/// An integer grid coordinate.
#[derive(Debug, Clone, Copy, PartialEq, Eq, Structural)]
pub struct TilePoint {
    pub tx: i32,
    pub ty: i32,
}

impl TilePoint {
    pub fn new(tx: i32, ty: i32) -> (r: TilePoint)
        ensures
            r.tx == tx,
            r.ty == ty,
    {
        TilePoint { tx, ty }
    }

    /// The world position of this tile's top-left corner; the exact inverse
    /// of `WorldPoint::to_tile` only at tile-aligned world points.
    pub fn to_world(&self) -> (r: WorldPoint)
        requires
            i32::MIN <= self.tx * WORLD_TILE_W <= i32::MAX,
            i32::MIN <= self.ty * WORLD_TILE_H <= i32::MAX,
        ensures
            r.x == self.tx * WORLD_TILE_W,
            r.y == self.ty * WORLD_TILE_H,
    {
        WorldPoint::new(self.tx * WORLD_TILE_W, self.ty * WORLD_TILE_H)
    }

    /// Offset this tile by `(dx, dy)` tiles.
    pub fn translate(&self, dx: i32, dy: i32) -> (r: TilePoint)
        requires
            i32::MIN <= self.tx + dx <= i32::MAX,
            i32::MIN <= self.ty + dy <= i32::MAX,
        ensures
            r.tx == self.tx + dx,
            r.ty == self.ty + dy,
    {
        TilePoint::new(self.tx + dx, self.ty + dy)
    }

    /// The adjacent tile one step in direction `dir`.
    pub fn step(&self, dir: Direction) -> (r: TilePoint)
        requires
            i32::MIN <= self.tx + dir_dx(dir) <= i32::MAX,
            i32::MIN <= self.ty + dir_dy(dir) <= i32::MAX,
        ensures
            r.tx == self.tx + dir_dx(dir),
            r.ty == self.ty + dir_dy(dir),
    {
        let (dx, dy) = dir.delta();
        self.translate(dx, dy)
    }
}

/// Truncating division of an `i32` by a positive divisor, computed without
/// overflow even at `i32::MIN`.
fn div_trunc_i32(x: i32, d: i32) -> (r: i32)
    requires
        d > 0,
    ensures
        r as int == trunc_div(x as int, d as int),
{
    let xl = x as i64;
    let dl = d as i64;
    let q: i64 = if xl >= 0 {
        proof {
            assert((xl as int) / (dl as int) <= xl as int) by (nonlinear_arith)
                requires
                    xl as int >= 0,
                    dl as int >= 1,
            ;
        }
        xl / dl
    } else {
        proof {
            assert(((-xl) as int) / (dl as int) <= (-xl) as int) by (nonlinear_arith)
                requires
                    (-xl) as int >= 0,
                    dl as int >= 1,
            ;
        }
        -((-xl) / dl)
    };
    proof {
        assert(q as int == trunc_div(x as int, d as int));
    }
    q as i32
}

/// Law: on tile-aligned, non-negative world points, converting to a tile and
/// back returns the original point; the movement logic round-trips through
/// these conversions every tick.
pub proof fn lemma_world_tile_round_trip(x: int, y: int)
    requires
        0 <= x,
        0 <= y,
        x % (WORLD_TILE_W as int) == 0,
        y % (WORLD_TILE_H as int) == 0,
    ensures
        world_to_tile_coord(x, WORLD_TILE_W as int) * WORLD_TILE_W as int == x,
        world_to_tile_coord(y, WORLD_TILE_H as int) * WORLD_TILE_H as int == y,
{
    assert((x / 64) * 64 == x) by (nonlinear_arith)
        requires
            x >= 0,
            x % 64 == 0,
    ;
    assert((y / 80) * 80 == y) by (nonlinear_arith)
        requires
            y >= 0,
            y % 80 == 0,
    ;
}

} // verus!
