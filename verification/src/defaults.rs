//! The shipped default layout and enemy routes: a 32 by 31 lattice of
//! corridors whose crossings and corners form the junction graph, with one
//! vertical segment absent so that the derived box list is irregular, and
//! four enemies patrolling box perimeters.

use vstd::prelude::*;
use vstd::string::StringExecFns;
use crate::board::{boxes_upto, grid_wf, tile_at, Board, Tile};

verus! {

/// Width of the shipped layout in tiles.
pub const DEFAULT_W: u32 = 32;

/// Height of the shipped layout in tiles.
pub const DEFAULT_H: u32 = 31;

/// The tile at `(x, y)` of the shipped layout: full corridor rows every
/// six rows, corridor columns at fixed positions, and one missing segment
/// of the second column between the last two corridor rows.
pub open spec fn default_tile(x: int, y: int) -> Tile {
    if y % 6 == 0 {
        Tile::Unpainted
    } else if x == 5 && 25 <= y <= 29 {
        Tile::Empty
    } else if x == 0 || x == 5 || x == 10 || x == 15 || x == 20 || x == 25 || x == 31 {
        Tile::Unpainted
    } else {
        Tile::Empty
    }
}

/// The character standing for the tile at `(x, y)` of the shipped layout.
pub open spec fn default_tile_char(x: int, y: int) -> char {
    if default_tile(x, y) == Tile::Empty {
        ' '
    } else {
        '='
    }
}

/// The shipped layout as text, one character per tile: 31 rows of 32
/// characters separated by line feeds, each character pinned to the same
/// pattern `fast_new` builds its grid from.
pub fn default_board_text() -> (r: String)
    ensures
        r@.len() == 31 * 33 - 1,
        forall|y: int, x: int|
            0 <= y < 31 && 0 <= x < 32 ==> r@[y * 33 + x] == #[trigger] default_tile_char(x, y),
        forall|y: int| 1 <= y < 31 ==> #[trigger] r@[y * 33 - 1] == '\n',
{
    let mut s = String::new();
    proof {
        reveal_strlit("\n");
        reveal_strlit("=");
        reveal_strlit(" ");
    }
    let mut y: u32 = 0;
    while y < 31
        invariant
            y <= 31,
            s@.len() == (if y == 0 {
                0int
            } else {
                (y as int) * 33 - 1
            }),
            forall|yy: int, xx: int|
                0 <= yy < y && 0 <= xx < 32 ==> s@[yy * 33 + xx] == #[trigger] default_tile_char(
                    xx,
                    yy,
                ),
            forall|yy: int| 1 <= yy < y ==> #[trigger] s@[yy * 33 - 1] == '\n',
        decreases 31 - y,
    {
        if y > 0 {
            s.append("\n");
            proof {
                reveal_strlit("\n");
            }
        }
        let mut x: u32 = 0;
        while x < 32
            invariant
                y < 31,
                x <= 32,
                s@.len() == (y as int) * 33 + x,
                forall|yy: int, xx: int|
                    0 <= yy < y && 0 <= xx < 32 ==> s@[yy * 33 + xx]
                        == #[trigger] default_tile_char(xx, yy),
                forall|yy: int| 1 <= yy <= y ==> #[trigger] s@[yy * 33 - 1] == '\n',
                forall|xx: int|
                    0 <= xx < x ==> s@[(y as int) * 33 + xx] == #[trigger] default_tile_char(
                        xx,
                        y as int,
                    ),
            decreases 32 - x,
        {
            let walk: bool = if y % 6 == 0 {
                true
            } else if x == 5 && 25 <= y && y <= 29 {
                false
            } else if x == 0 || x == 5 || x == 10 || x == 15 || x == 20 || x == 25 || x == 31 {
                true
            } else {
                false
            };
            if walk {
                s.append("=");
            } else {
                s.append(" ");
            }
            proof {
                reveal_strlit("=");
                reveal_strlit(" ");
                assert(s@[(y as int) * 33 + (x as int)] == default_tile_char(
                    x as int,
                    y as int,
                ));
            }
            x = x + 1;
        }
        y = y + 1;
    }
    s
}

/// The shipped enemy routes as text, one line of tile ids per enemy; each
/// route walks the perimeter of one box, one adjacent tile per entry.
pub fn default_enemy_routes_text() -> &'static str {
    "192 193 194 195 196 197 229 261 293 325 357 389 388 387 386 385 384 352 320 288 256 224\n202 203 204 205 206 207 239 271 303 335 367 399 398 397 396 395 394 362 330 298 266 234\n404 405 406 407 408 409 441 473 505 537 569 601 600 599 598 597 596 564 532 500 468 436\n783 784 785 786 787 788 820 852 884 916 948 980 979 978 977 976 975 943 911 879 847 815"
}

impl Board {
    /// The shipped default board, assembled directly from the layout
    /// pattern: the same grid, junction set and box list that parsing the
    /// default layout text yields.
    pub fn fast_new() -> (r: Board)
        ensures
            r.wf(),
            r.width == DEFAULT_W,
            r.height == DEFAULT_H,
            forall|x: int, y: int|
                0 <= x < 32 && 0 <= y < 31 ==> #[trigger] tile_at(r.grid(), 32, 31, x, y)
                    == default_tile(x, y),
            r.boxes@ == boxes_upto(r.grid(), 32, 31, 992int),
    {
        let mut rows: Vec<Vec<Tile>> = Vec::new();
        let mut y: u32 = 0;
        while y < DEFAULT_H
            invariant
                y <= 31,
                rows@.len() == y,
                forall|yy: int| 0 <= yy < y ==> (#[trigger] rows@[yy])@.len() == 32,
                forall|yy: int, xx: int|
                    0 <= yy < y && 0 <= xx < 32 ==> (#[trigger] rows@[yy]@[xx]) == default_tile(
                        xx,
                        yy,
                    ),
            decreases 31 - y,
        {
            let mut row: Vec<Tile> = Vec::new();
            let mut x: u32 = 0;
            while x < DEFAULT_W
                invariant
                    y < 31,
                    x <= 32,
                    row@.len() == x,
                    forall|xx: int|
                        0 <= xx < x ==> (#[trigger] row@[xx]) == default_tile(xx, y as int),
                decreases 32 - x,
            {
                let t: Tile = if y % 6 == 0 {
                    Tile::Unpainted
                } else if x == 5 && 25 <= y && y <= 29 {
                    Tile::Empty
                } else if x == 0 || x == 5 || x == 10 || x == 15 || x == 20 || x == 25 || x == 31 {
                    Tile::Unpainted
                } else {
                    Tile::Empty
                };
                row.push(t);
                x = x + 1;
            }
            rows.push(row);
            y = y + 1;
        }
        proof {
            let g = rows@.map_values(|r2: Vec<Tile>| r2@);
            assert(grid_wf(g, 32, 31));
        }
        Board::from_tiles(rows, DEFAULT_W, DEFAULT_H)
    }
}

} // verus!
