//! The static level board: a rectangular tile grid, the junction set derived
//! from it, and the rectangular regions (boxes) bounded by junctions.
//!
//! The grid contents mutate only through painting (`Unpainted` to `Painted`,
//! one way); junctions and box rectangles are fixed for the lifetime of a
//! board.

use vstd::prelude::*;
use std::collections::HashSet;
use std::collections::VecDeque;
use crate::errors::AmidarError;
use crate::geom::{Direction, TilePoint};

verus! {

broadcast use vstd::std_specs::hash::group_hash_axioms;

/// Largest accepted board side, so that tile ids, world coordinates and
/// scores all stay far inside machine integer ranges.
pub const MAX_SIDE: u32 = 512;

/// One cell of the grid. `Empty` is never walkable and never changes;
/// `Unpainted` becomes `Painted` exactly once and never reverts.
#[derive(Debug, Clone, Copy, PartialEq, Eq, Structural)]
pub enum Tile {
    Empty,
    Unpainted,
    Painted,
}

impl Tile {
    /// Both corridor states are walkable; `Empty` is not.
    pub open spec fn spec_walkable(self) -> bool {
        self != Tile::Empty
    }

    pub fn walkable(&self) -> (r: bool)
        ensures
            r == self.spec_walkable(),
    {
        match self {
            Tile::Empty => false,
            Tile::Painted | Tile::Unpainted => true,
        }
    }

    /// The layout alphabet: `'='` corridor, `'p'` painted, `' '` empty.
    pub open spec fn spec_char_ok(c: char) -> bool {
        c == '=' || c == 'p' || c == ' '
    }

    /// The tile a valid layout character stands for.
    pub open spec fn spec_from_char(c: char) -> Tile {
        if c == '=' {
            Tile::Unpainted
        } else if c == 'p' {
            Tile::Painted
        } else {
            Tile::Empty
        }
    }

    /// Parse one layout character; any character outside the alphabet is a
    /// fatal load error.
    pub fn new_from_char(c: char) -> (r: Result<Tile, AmidarError>)
        ensures
            Tile::spec_char_ok(c) ==> r == Ok::<Tile, AmidarError>(Tile::spec_from_char(c)),
            !Tile::spec_char_ok(c) ==> r == Err::<Tile, AmidarError>(
                AmidarError::InvalidTileChar(c),
            ),
    {
        if c == '=' {
            Ok(Tile::Unpainted)
        } else if c == 'p' {
            Ok(Tile::Painted)
        } else if c == ' ' {
            Ok(Tile::Empty)
        } else {
            Err(AmidarError::InvalidTileChar(c))
        }
    }
}

/// A well-formed grid value: `h` rows of `w` tiles each, within the size cap.
pub open spec fn grid_wf(g: Seq<Seq<Tile>>, w: int, h: int) -> bool {
    &&& g.len() == h
    &&& 1 <= w <= MAX_SIDE
    &&& 1 <= h <= MAX_SIDE
    &&& forall|y: int| 0 <= y < h ==> (#[trigger] g[y]).len() == w
}

/// Total tile lookup: everything outside the grid reads as `Empty`.
pub open spec fn tile_at(g: Seq<Seq<Tile>>, w: int, h: int, x: int, y: int) -> Tile {
    if 0 <= x < w && 0 <= y < h {
        g[y][x]
    } else {
        Tile::Empty
    }
}

pub open spec fn walkable_at(g: Seq<Seq<Tile>>, w: int, h: int, x: int, y: int) -> bool {
    tile_at(g, w, h, x, y).spec_walkable()
}

pub open spec fn painted_at(g: Seq<Seq<Tile>>, w: int, h: int, x: int, y: int) -> bool {
    tile_at(g, w, h, x, y) == Tile::Painted
}

/// How many of the four axis neighbors of `(x, y)` are walkable; off-grid
/// neighbors count as not walkable.
pub open spec fn neighbor_count(g: Seq<Seq<Tile>>, w: int, h: int, x: int, y: int) -> int {
    (if walkable_at(g, w, h, x + 1, y) {
        1int
    } else {
        0int
    }) + (if walkable_at(g, w, h, x, y + 1) {
        1int
    } else {
        0int
    }) + (if walkable_at(g, w, h, x - 1, y) {
        1int
    } else {
        0int
    }) + (if walkable_at(g, w, h, x, y - 1) {
        1int
    } else {
        0int
    })
}

/// The four grid corners anchor the outer boundary box and are junctions
/// unconditionally (when walkable).
pub open spec fn corner_pos(w: int, h: int, x: int, y: int) -> bool {
    (x == 0 || x == w - 1) && (y == 0 || y == h - 1)
}

/// A decision point: a walkable tile with more than two walkable neighbors,
/// or a walkable grid corner.
pub open spec fn junction_at(g: Seq<Seq<Tile>>, w: int, h: int, x: int, y: int) -> bool {
    walkable_at(g, w, h, x, y) && (neighbor_count(g, w, h, x, y) > 2 || corner_pos(w, h, x, y))
}

/// The row-major tile id of `(x, y)`.
pub open spec fn pos_id(w: int, x: int, y: int) -> int {
    y * w + x
}

/// Whether tile id `id` names a junction of the grid.
pub open spec fn is_junction_id(g: Seq<Seq<Tile>>, w: int, h: int, id: int) -> bool {
    0 <= id < w * h && junction_at(g, w, h, id % w, id / w)
}

/// An axis-aligned rectangle whose four border lines lie on junction tiles.
/// `painted` turns true exactly once, when the whole border is painted.
#[derive(Debug, Clone, Copy, PartialEq, Eq, Structural)]
pub struct GridBox {
    pub top_left: TilePoint,
    pub bottom_right: TilePoint,
    pub painted: bool,
}

/// The box rectangle lies inside a `w` by `h` grid with positive extent.
pub open spec fn box_in_grid(b: GridBox, w: int, h: int) -> bool {
    &&& 0 <= b.top_left.tx <= b.bottom_right.tx < w
    &&& 0 <= b.top_left.ty <= b.bottom_right.ty < h
}

/// Every tile of the four border segments of `b` is painted.
pub open spec fn border_painted(g: Seq<Seq<Tile>>, w: int, h: int, b: GridBox) -> bool {
    &&& forall|xi: int|
        b.top_left.tx <= xi <= b.bottom_right.tx ==> #[trigger] painted_at(
            g,
            w,
            h,
            xi,
            b.top_left.ty as int,
        ) && painted_at(g, w, h, xi, b.bottom_right.ty as int)
    &&& forall|yi: int|
        b.top_left.ty <= yi <= b.bottom_right.ty ==> #[trigger] painted_at(
            g,
            w,
            h,
            b.top_left.tx as int,
            yi,
        ) && painted_at(g, w, h, b.bottom_right.tx as int, yi)
}

impl GridBox {
    pub(crate) fn new(top_left: TilePoint, bottom_right: TilePoint) -> (r: GridBox)
        ensures
            r.top_left == top_left,
            r.bottom_right == bottom_right,
            !r.painted,
    {
        GridBox { top_left, bottom_right, painted: false }
    }

    /// Whether `tile` lies in this box's closed rectangle (border included).
    pub open spec fn spec_matches(self, tile: TilePoint) -> bool {
        &&& self.top_left.tx <= tile.tx <= self.bottom_right.tx
        &&& self.top_left.ty <= tile.ty <= self.bottom_right.ty
    }

    pub(crate) fn matches(&self, tile: &TilePoint) -> (r: bool)
        ensures
            r == self.spec_matches(*tile),
    {
        let x1 = self.top_left.tx;
        let x2 = self.bottom_right.tx;
        let y1 = self.top_left.ty;
        let y2 = self.bottom_right.ty;
        let xq = tile.tx;
        let yq = tile.ty;
        (x1 <= xq) && (xq <= x2) && (y1 <= yq) && (yq <= y2)
    }

    /// Whether this box's `painted` flag should now turn true: it is not yet
    /// painted and every tile along its four border segments is painted.
    pub(crate) fn should_update_paint(&self, board: &Board) -> (r: bool)
        requires
            board.grid_ok(),
            box_in_grid(*self, board.w(), board.h()),
        ensures
            r == (!self.painted && border_painted(board.grid(), board.w(), board.h(), *self)),
    {
        if self.painted {
            return false;
        }
        let x1 = self.top_left.tx;
        let x2 = self.bottom_right.tx;
        let y1 = self.top_left.ty;
        let y2 = self.bottom_right.ty;

        let mut xi = x1;
        while xi <= x2
            invariant
                board.grid_ok(),
                box_in_grid(*self, board.w(), board.h()),
                x1 == self.top_left.tx,
                x2 == self.bottom_right.tx,
                y1 == self.top_left.ty,
                y2 == self.bottom_right.ty,
                x1 <= xi <= x2 + 1,
                forall|xj: int|
                    x1 <= xj < xi ==> #[trigger] painted_at(
                        board.grid(),
                        board.w(),
                        board.h(),
                        xj,
                        y1 as int,
                    ) && painted_at(board.grid(), board.w(), board.h(), xj, y2 as int),
            decreases x2 + 1 - xi,
        {
            if !board.is_painted(&TilePoint::new(xi, y1)) || !board.is_painted(
                &TilePoint::new(xi, y2),
            ) {
                return false;
            }
            xi = xi + 1;
        }
        let mut yi = y1;
        while yi <= y2
            invariant
                board.grid_ok(),
                box_in_grid(*self, board.w(), board.h()),
                x1 == self.top_left.tx,
                x2 == self.bottom_right.tx,
                y1 == self.top_left.ty,
                y2 == self.bottom_right.ty,
                y1 <= yi <= y2 + 1,
                forall|xj: int|
                    x1 <= xj <= x2 ==> #[trigger] painted_at(
                        board.grid(),
                        board.w(),
                        board.h(),
                        xj,
                        y1 as int,
                    ) && painted_at(board.grid(), board.w(), board.h(), xj, y2 as int),
                forall|yj: int|
                    y1 <= yj < yi ==> #[trigger] painted_at(
                        board.grid(),
                        board.w(),
                        board.h(),
                        x1 as int,
                        yj,
                    ) && painted_at(board.grid(), board.w(), board.h(), x2 as int, yj),
            decreases y2 + 1 - yi,
        {
            if !board.is_painted(&TilePoint::new(x1, yi)) || !board.is_painted(
                &TilePoint::new(x2, yi),
            ) {
                return false;
            }
            yi = yi + 1;
        }
        true
    }
}

/// The board: the tile grid, the derived junction id set, and the derived
/// list of boxes.
pub struct Board {
    pub tiles: Vec<Vec<Tile>>,
    pub width: u32,
    pub height: u32,
    pub junctions: HashSet<u32>,
    pub boxes: Vec<GridBox>,
}

impl Board {
    /// The grid as a sequence of rows.
    pub open spec fn grid(&self) -> Seq<Seq<Tile>> {
        self.tiles@.map_values(|r: Vec<Tile>| r@)
    }

    pub open spec fn w(&self) -> int {
        self.width as int
    }

    pub open spec fn h(&self) -> int {
        self.height as int
    }

    pub open spec fn grid_ok(&self) -> bool {
        grid_wf(self.grid(), self.w(), self.h())
    }

    /// The junction set holds exactly the ids of the grid's junction tiles.
    pub open spec fn junctions_ok(&self) -> bool {
        forall|id: u32| #[trigger]
            self.junctions@.contains(id) <==> is_junction_id(
                self.grid(),
                self.w(),
                self.h(),
                id as int,
            )
    }

    pub open spec fn boxes_ok(&self) -> bool {
        &&& self.boxes@.len() <= self.w() * self.h()
        &&& forall|i: int|
            0 <= i < self.boxes@.len() ==> box_in_grid(#[trigger] self.boxes@[i], self.w(), self.h())
    }

    pub open spec fn wf(&self) -> bool {
        &&& self.grid_ok()
        &&& self.junctions_ok()
        &&& self.boxes_ok()
    }

    /// Total tile query: out-of-grid coordinates read as `Empty`, keeping all
    /// movement checks total.
    pub fn get_tile(&self, tile: &TilePoint) -> (r: Tile)
        requires
            self.grid_ok(),
        ensures
            r == tile_at(self.grid(), self.w(), self.h(), tile.tx as int, tile.ty as int),
    {
        if tile.tx < 0 || tile.ty < 0 {
            return Tile::Empty;
        }
        let x = tile.tx as usize;
        let y = tile.ty as usize;
        if y >= self.tiles.len() {
            return Tile::Empty;
        }
        let row = &self.tiles[y];
        if x >= row.len() {
            return Tile::Empty;
        }
        row[x]
    }

    pub fn is_painted(&self, xy: &TilePoint) -> (r: bool)
        requires
            self.grid_ok(),
        ensures
            r == painted_at(self.grid(), self.w(), self.h(), xy.tx as int, xy.ty as int),
    {
        match self.get_tile(xy) {
            Tile::Painted => true,
            _ => false,
        }
    }

    /// Whether `(tx, ty)` is one of the four grid corners.
    pub fn is_corner(&self, tx: i32, ty: i32) -> (r: bool)
        requires
            self.grid_ok(),
        ensures
            r == corner_pos(self.w(), self.h(), tx as int, ty as int),
    {
        let last_y = (self.height as i32) - 1;
        let last_x = (self.width as i32) - 1;
        (tx == 0 || tx == last_x) && (ty == 0 || ty == last_y)
    }

    /// The row-major id of an in-grid tile; `None` outside the grid.
    pub fn tile_id(&self, tile: &TilePoint) -> (r: Option<u32>)
        requires
            self.grid_ok(),
        ensures
            (0 <= tile.tx < self.w() && 0 <= tile.ty < self.h()) ==> r == Some(
                pos_id(self.w(), tile.tx as int, tile.ty as int) as u32,
            ),
            !(0 <= tile.tx < self.w() && 0 <= tile.ty < self.h()) ==> r is None,
    {
        if tile.ty < 0 || tile.tx < 0 || tile.ty >= self.height as i32 || tile.tx
            >= self.width as i32 {
            return None;
        }
        let y = tile.ty as u32;
        let x = tile.tx as u32;
        proof {
            assert((y as int) * self.w() + (x as int) < 0x8000000) by (nonlinear_arith)
                requires
                    0 <= (y as int) && (y as int) < self.h() <= 512,
                    0 <= (x as int) && (x as int) < self.w() <= 512,
            ;
        }
        Some(y * self.width + x)
    }

    /// The tile named by a row-major id.
    pub fn lookup_position(&self, position: u32) -> (r: TilePoint)
        requires
            self.grid_ok(),
            position < self.width * self.height,
        ensures
            r.tx as int == position as int % self.w(),
            r.ty as int == position as int / self.w(),
            0 <= r.tx < self.w(),
            0 <= r.ty < self.h(),
            pos_id(self.w(), r.tx as int, r.ty as int) == position,
    {
        let x = position % self.width;
        let y = position / self.width;
        proof {
            vstd::arithmetic::div_mod::lemma_fundamental_div_mod(
                position as int,
                self.width as int,
            );
            assert(position as int / self.w() < self.h()) by (nonlinear_arith)
                requires
                    self.w() >= 1,
                    position < self.w() * self.h(),
                    position as int == self.w() * (position as int / self.w()) + position as int
                        % self.w(),
                    position as int % self.w() >= 0,
            ;
            assert((position as int / self.w()) * self.w() + position as int % self.w()
                == position as int) by (nonlinear_arith)
                requires
                    self.w() >= 1,
                    position as int == self.w() * (position as int / self.w()) + position as int
                        % self.w(),
            ;
        }
        TilePoint::new(x as i32, y as i32)
    }

    /// The junction id of `tile`, when `tile` is an in-grid junction.
    pub fn get_junction_id(&self, tile: &TilePoint) -> (r: Option<u32>)
        requires
            self.wf(),
        ensures
            (0 <= tile.tx < self.w() && 0 <= tile.ty < self.h() && junction_at(
                self.grid(),
                self.w(),
                self.h(),
                tile.tx as int,
                tile.ty as int,
            )) ==> r == Some(pos_id(self.w(), tile.tx as int, tile.ty as int) as u32),
            !(0 <= tile.tx < self.w() && 0 <= tile.ty < self.h() && junction_at(
                self.grid(),
                self.w(),
                self.h(),
                tile.tx as int,
                tile.ty as int,
            )) ==> r is None,
    {
        match self.tile_id(tile) {
            Some(id) => {
                proof {
                    if 0 <= tile.tx < self.w() && 0 <= tile.ty < self.h() {
                        lemma_pos_id_inverse(
                            self.w(),
                            self.h(),
                            tile.tx as int,
                            tile.ty as int,
                        );
                        assert(id as int == pos_id(self.w(), tile.tx as int, tile.ty as int));
                        assert(self.junctions@.contains(id) == is_junction_id(
                            self.grid(),
                            self.w(),
                            self.h(),
                            id as int,
                        ));
                        assert(is_junction_id(self.grid(), self.w(), self.h(), id as int)
                            == junction_at(
                            self.grid(),
                            self.w(),
                            self.h(),
                            tile.tx as int,
                            tile.ty as int,
                        ));
                    }
                }
                if self.junctions.contains(&id) {
                    Some(id)
                } else {
                    None
                }
            },
            None => None,
        }
    }

    /// Paint an in-grid corridor tile. Returns true exactly when the tile
    /// changed from `Unpainted` to `Painted`; painting an already painted
    /// tile changes nothing, and `Empty` or out-of-grid tiles are permanent.
    pub fn paint(&mut self, tile: &TilePoint) -> (r: bool)
        requires
            old(self).wf(),
        ensures
            final(self).wf(),
            final(self).width == old(self).width,
            final(self).height == old(self).height,
            final(self).junctions == old(self).junctions,
            final(self).boxes == old(self).boxes,
            ({
                let g = old(self).grid();
                let w = old(self).w();
                let h = old(self).h();
                let x = tile.tx as int;
                let y = tile.ty as int;
                if tile_at(g, w, h, x, y) == Tile::Unpainted {
                    r && final(self).grid() == g.update(y, g[y].update(x, Tile::Painted))
                } else {
                    !r && final(self).grid() == g
                }
            }),
            forall|x: int, y: int|
                walkable_at(final(self).grid(), final(self).w(), final(self).h(), x, y)
                    == walkable_at(old(self).grid(), old(self).w(), old(self).h(), x, y),
            grid_le(old(self).grid(), final(self).grid()),
    {
        let ghost old_grid = self.grid();
        if tile.tx < 0 || tile.ty < 0 || tile.ty >= self.height as i32 || tile.tx
            >= self.width as i32 {
            assert(self.grid() =~= old_grid);
            return false;
        }
        let x = tile.tx as usize;
        let y = tile.ty as usize;
        let cur = self.tiles[y][x];
        match cur {
            Tile::Unpainted => {
                self.tiles[y][x] = Tile::Painted;
                proof {
                    assert(self.grid() =~= old_grid.update(
                        tile.ty as int,
                        old_grid[tile.ty as int].update(tile.tx as int, Tile::Painted),
                    ));
                    lemma_paint_preserves_structure(
                        old_grid,
                        self.grid(),
                        self.w(),
                        self.h(),
                        tile.tx as int,
                        tile.ty as int,
                    );
                    assert forall|id: u32| #[trigger]
                        self.junctions@.contains(id) <==> is_junction_id(
                            self.grid(),
                            self.w(),
                            self.h(),
                            id as int,
                        ) by {
                        assert(old(self).junctions@.contains(id) <==> is_junction_id(
                            old_grid,
                            self.w(),
                            self.h(),
                            id as int,
                        ));
                    }
                    assert(grid_le(old_grid, self.grid()));
                }
                true
            },
            _ => {
                proof {
                    assert(self.grid() =~= old_grid);
                }
                false
            },
        }
    }
}


impl Board {
    /// Derive the junction id set from the grid: every walkable tile with
    /// more than two walkable neighbors, and every walkable grid corner.
    /// Runs once, directly after the grid is laid down.
    pub(crate) fn init_junctions(&mut self)
        requires
            old(self).grid_ok(),
            old(self).junctions@ == Set::<u32>::empty(),
        ensures
            final(self).tiles == old(self).tiles,
            final(self).width == old(self).width,
            final(self).height == old(self).height,
            final(self).boxes == old(self).boxes,
            final(self).junctions_ok(),
    {
        let w = self.width;
        let h = self.height;
        let ghost g = self.grid();
        let mut y: u32 = 0;
        while y < h
            invariant
                self.grid_ok(),
                g == self.grid(),
                w == self.width,
                h == self.height,
                self.tiles == old(self).tiles,
                self.boxes == old(self).boxes,
                y <= h,
                forall|id: u32| #[trigger]
                    self.junctions@.contains(id) <==> ((id as int) < (y as int) * self.w()
                        && is_junction_id(g, self.w(), self.h(), id as int)),
            decreases h - y,
        {
            let mut x: u32 = 0;
            while x < w
                invariant
                    self.grid_ok(),
                    g == self.grid(),
                    w == self.width,
                    h == self.height,
                    self.tiles == old(self).tiles,
                    self.boxes == old(self).boxes,
                    y < h,
                    x <= w,
                    forall|id: u32| #[trigger]
                        self.junctions@.contains(id) <==> ((id as int) < (y as int) * self.w()
                            + (x as int) && is_junction_id(g, self.w(), self.h(), id as int)),
                decreases w - x,
            {
                let xi = x as i32;
                let yi = y as i32;
                proof {
                    lemma_pos_id_inverse(self.w(), self.h(), xi as int, yi as int);
                    assert((y as int) * self.w() + (x as int) == pos_id(
                        self.w(),
                        xi as int,
                        yi as int,
                    ));
                }
                let t = self.get_tile(&TilePoint::new(xi, yi));
                if t.walkable() {
                    let n1: i32 = if self.get_tile(&TilePoint::new(xi + 1, yi)).walkable() {
                        1
                    } else {
                        0
                    };
                    let n2: i32 = if self.get_tile(&TilePoint::new(xi, yi + 1)).walkable() {
                        1
                    } else {
                        0
                    };
                    let n3: i32 = if self.get_tile(&TilePoint::new(xi - 1, yi)).walkable() {
                        1
                    } else {
                        0
                    };
                    let n4: i32 = if self.get_tile(&TilePoint::new(xi, yi - 1)).walkable() {
                        1
                    } else {
                        0
                    };
                    let count = n1 + n2 + n3 + n4;
                    if count > 2 || self.is_corner(xi, yi) {
                        let id = y * w + x;
                        let _was_new = self.junctions.insert(id);
                    }
                }
                proof {
                    assert forall|id: u32|
                        #[trigger] self.junctions@.contains(id) <==> ((id as int) < (y as int)
                            * self.w() + (x as int) + 1 && is_junction_id(
                            g,
                            self.w(),
                            self.h(),
                            id as int,
                        )) by {
                        if id as int == (y as int) * self.w() + (x as int) {
                            assert(id as int % self.w() == xi as int && id as int / self.w()
                                == yi as int);
                        }
                    }
                }
                x = x + 1;
            }
            proof {
                assert(((y as int) + 1) * self.w() == (y as int) * self.w() + self.w())
                    by (nonlinear_arith);
            }
            y = y + 1;
        }
        proof {
            assert forall|id: u32|
                #[trigger] self.junctions@.contains(id) <==> is_junction_id(
                    g,
                    self.w(),
                    self.h(),
                    id as int,
                ) by {
                assert((h as int) * self.w() == self.w() * self.h()) by (nonlinear_arith)
                    requires
                        h as int == self.h(),
                ;
            }
        }
    }

    /// Walk from junction `source` in direction `search` and return the
    /// first junction from which one can step in direction `walk` onto a
    /// walkable tile; the two queries used are rightward-opening-down and
    /// downward-opening-right.
    pub(crate) fn junction_neighbor(&self, source: u32, search: Direction, walk: Direction) -> (r:
        Option<u32>)
        requires
            self.grid_ok(),
            self.junctions_ok(),
            source < self.width * self.height,
            (search == Direction::Right && walk == Direction::Down) || (search == Direction::Down
                && walk == Direction::Right),
        ensures
            ({
                let res = if search == Direction::Right {
                    scan_right(
                        self.grid(),
                        self.w(),
                        self.h(),
                        source as int % self.w(),
                        source as int / self.w(),
                    )
                } else {
                    scan_down(
                        self.grid(),
                        self.w(),
                        self.h(),
                        source as int % self.w(),
                        source as int / self.w(),
                    )
                };
                match res {
                    Some(p) => r == Some(pos_id(self.w(), p.0, p.1) as u32),
                    None => r is None,
                }
            }),
    {
        let pos = self.lookup_position(source);
        let ghost g = self.grid();
        if matches!(search, Direction::Right) {
            let mut x = pos.tx;
            while x + 1 < (self.width as i32)
                invariant
                    self.grid_ok(),
                    self.junctions_ok(),
                    g == self.grid(),
                    search == Direction::Right,
                    pos.tx as int == source as int % self.w(),
                    pos.ty as int == source as int / self.w(),
                    0 <= pos.tx < self.w(),
                    0 <= pos.ty < self.h(),
                    pos.tx <= x < self.w(),
                    scan_right(g, self.w(), self.h(), pos.tx as int, pos.ty as int) == scan_right(
                        g,
                        self.w(),
                        self.h(),
                        x as int,
                        pos.ty as int,
                    ),
                decreases self.w() - x,
            {
                let nx = x + 1;
                proof {
                    lemma_pos_id_inverse(self.w(), self.h(), nx as int, pos.ty as int);
                }
                let id = (pos.ty as u32) * self.width + (nx as u32);
                let isj = self.junctions.contains(&id);
                let wk = self.get_tile(&TilePoint::new(nx, pos.ty + 1)).walkable();
                if isj && wk {
                    return Some(id);
                }
                x = nx;
            }
            None
        } else {
            let mut y = pos.ty;
            while y + 1 < (self.height as i32)
                invariant
                    self.grid_ok(),
                    self.junctions_ok(),
                    g == self.grid(),
                    search == Direction::Down,
                    pos.tx as int == source as int % self.w(),
                    pos.ty as int == source as int / self.w(),
                    0 <= pos.tx < self.w(),
                    0 <= pos.ty < self.h(),
                    pos.ty <= y < self.h(),
                    scan_down(g, self.w(), self.h(), pos.tx as int, pos.ty as int) == scan_down(
                        g,
                        self.w(),
                        self.h(),
                        pos.tx as int,
                        y as int,
                    ),
                decreases self.h() - y,
            {
                let ny = y + 1;
                proof {
                    lemma_pos_id_inverse(self.w(), self.h(), pos.tx as int, ny as int);
                }
                let id = (ny as u32) * self.width + (pos.tx as u32);
                let isj = self.junctions.contains(&id);
                let wk = self.get_tile(&TilePoint::new(pos.tx + 1, ny)).walkable();
                if isj && wk {
                    return Some(id);
                }
                y = ny;
            }
            None
        }
    }

    /// The box anchored at junction `source`, if the three derived corners
    /// exist and the far corner is itself a junction.
    pub(crate) fn junction_corners(&self, source: u32) -> (r: Option<GridBox>)
        requires
            self.grid_ok(),
            self.junctions_ok(),
            source < self.width * self.height,
        ensures
            r == spec_box_for(
                self.grid(),
                self.w(),
                self.h(),
                source as int % self.w(),
                source as int / self.w(),
            ),
            r is Some ==> box_in_grid(r->0, self.w(), self.h()) && !r->0.painted,
    {
        let ghost g = self.grid();
        let ghost sx = source as int % self.w();
        let ghost sy = source as int / self.w();
        proof {
            vstd::arithmetic::div_mod::lemma_fundamental_div_mod(source as int, self.w());
            assert(0 <= sy < self.h()) by (nonlinear_arith)
                requires
                    self.w() >= 1,
                    source < self.w() * self.h(),
                    source as int == self.w() * sy + sx,
                    0 <= sx < self.w(),
            ;
            lemma_scan_right_props(g, self.w(), self.h(), sx, sy);
            lemma_scan_down_props(g, self.w(), self.h(), sx, sy);
        }
        let right_id = match self.junction_neighbor(source, Direction::Right, Direction::Down) {
            Some(v) => v,
            None => {
                return None;
            },
        };
        let down_id = match self.junction_neighbor(source, Direction::Down, Direction::Right) {
            Some(v) => v,
            None => {
                return None;
            },
        };
        proof {
            let p = scan_right(g, self.w(), self.h(), sx, sy)->0;
            let q = scan_down(g, self.w(), self.h(), sx, sy)->0;
            lemma_pos_id_inverse(self.w(), self.h(), p.0, p.1);
            lemma_pos_id_inverse(self.w(), self.h(), q.0, q.1);
        }
        let right = self.lookup_position(right_id);
        let down = self.lookup_position(down_id);
        let corner = TilePoint::new(right.tx, down.ty);
        proof {
            lemma_pos_id_inverse(self.w(), self.h(), corner.tx as int, corner.ty as int);
        }
        match self.tile_id(&corner) {
            Some(dr) => {
                if self.junctions.contains(&dr) {
                    Some(GridBox::new(self.lookup_position(source), self.lookup_position(dr)))
                } else {
                    None
                }
            },
            None => {
                proof {
                    assert(false);
                }
                None
            },
        }
    }

    /// Assemble a board from a parsed grid: lay the grid down, derive the
    /// junction set, then collect the boxes of all junction sources in tile
    /// id order.
    pub(crate) fn from_tiles(tiles: Vec<Vec<Tile>>, width: u32, height: u32) -> (r: Board)
        requires
            grid_wf(tiles@.map_values(|row: Vec<Tile>| row@), width as int, height as int),
        ensures
            r.wf(),
            r.width == width,
            r.height == height,
            r.grid() == tiles@.map_values(|row: Vec<Tile>| row@),
            r.boxes@ == boxes_upto(r.grid(), r.w(), r.h(), r.w() * r.h()),
    {
        let mut board = Board {
            tiles,
            width,
            height,
            junctions: HashSet::new(),
            boxes: Vec::new(),
        };
        board.init_junctions();
        let ghost g = board.grid();
        proof {
            assert((width as int) * (height as int) <= 512 * 512) by (nonlinear_arith)
                requires
                    1 <= width as int <= 512,
                    1 <= height as int <= 512,
            ;
        }
        let total = width * height;
        let mut id: u32 = 0;
        let mut boxes: Vec<GridBox> = Vec::new();
        while id < total
            invariant
                board.grid_ok(),
                board.junctions_ok(),
                g == board.grid(),
                board.width == width,
                board.height == height,
                total == width * height,
                total as int == board.w() * board.h(),
                id <= total,
                boxes@ == boxes_upto(g, board.w(), board.h(), id as int),
                boxes@.len() <= id,
                forall|i: int|
                    0 <= i < boxes@.len() ==> box_in_grid(
                        #[trigger] boxes@[i],
                        board.w(),
                        board.h(),
                    ),
            decreases total - id,
        {
            if board.junctions.contains(&id) {
                match board.junction_corners(id) {
                    Some(gb) => {
                        boxes.push(gb);
                        proof {
                            assert(boxes@ =~= boxes_upto(g, board.w(), board.h(), id as int + 1));
                        }
                    },
                    None => {
                        proof {
                            assert(boxes@ =~= boxes_upto(g, board.w(), board.h(), id as int + 1));
                        }
                    },
                }
            } else {
                proof {
                    assert(!is_junction_id(g, board.w(), board.h(), id as int));
                    assert(boxes@ =~= boxes_upto(g, board.w(), board.h(), id as int + 1));
                }
            }
            id = id + 1;
        }
        board.boxes = boxes;
        board
    }
}

/// An ephemeral per-tick record of points earned by painting; consumed
/// immediately by the caller and never persisted.
pub struct ScoreUpdate {
    pub vertical: i32,
    pub horizontal: i32,
    pub num_boxes: i32,
}

impl ScoreUpdate {
    pub open spec fn spec_happened(&self) -> bool {
        self.vertical != 0 || self.horizontal != 0 || self.num_boxes != 0
    }

    pub open spec fn is_zero(&self) -> bool {
        self.vertical == 0 && self.horizontal == 0 && self.num_boxes == 0
    }

    pub(crate) fn new() -> (r: ScoreUpdate)
        ensures
            r.is_zero(),
    {
        ScoreUpdate { vertical: 0, horizontal: 0, num_boxes: 0 }
    }

    /// Whether this update carries any points at all.
    pub fn happened(&self) -> (r: bool)
        ensures
            r == self.spec_happened(),
    {
        self.vertical != 0 || self.horizontal != 0 || self.num_boxes != 0
    }

    /// `Some` exactly when something happened.
    pub fn into_option(self) -> (r: Option<ScoreUpdate>)
        ensures
            self.spec_happened() ==> r == Some(self),
            !self.spec_happened() ==> r is None,
    {
        if self.happened() {
            Some(self)
        } else {
            None
        }
    }
}

/// Whether box `b` must flip to painted after the segment through `t1`/`t2`
/// was painted onto grid `g`: not painted yet, touched by an endpoint, and
/// its whole border now painted.
pub open spec fn box_flips(
    b: GridBox,
    g: Seq<Seq<Tile>>,
    w: int,
    h: int,
    t1: TilePoint,
    t2: TilePoint,
) -> bool {
    !b.painted && (b.spec_matches(t1) || b.spec_matches(t2)) && border_painted(g, w, h, b)
}

/// Number of boxes in `bs` already marked painted.
pub open spec fn count_painted_boxes(bs: Seq<GridBox>) -> int
    decreases bs.len(),
{
    if bs.len() == 0 {
        0
    } else {
        count_painted_boxes(bs.drop_last()) + (if bs.last().painted {
            1int
        } else {
            0int
        })
    }
}

/// Painted boxes are at most all boxes.
pub proof fn lemma_count_painted_boxes_bounds(bs: Seq<GridBox>)
    ensures
        0 <= count_painted_boxes(bs) <= bs.len(),
    decreases bs.len(),
{
    if bs.len() > 0 {
        lemma_count_painted_boxes_bounds(bs.drop_last());
    }
}

/// The first history entry different from `e`, scanning from the front.
pub open spec fn find_distinct(s: Seq<u32>, e: u32) -> Option<u32>
    decreases s.len(),
{
    if s.len() == 0 {
        None
    } else if s[0] != e {
        Some(s[0])
    } else {
        find_distinct(s.drop_first(), e)
    }
}

/// Whether `(x, y)` lies on the closed axis-aligned segment between
/// `(t1x, t1y)` and `(t2x, t2y)`; false for non-aligned endpoint pairs.
pub open spec fn seg_on(t1x: int, t1y: int, t2x: int, t2y: int, x: int, y: int) -> bool {
    if t1y == t2y {
        y == t1y && (if t1x <= t2x {
            t1x <= x <= t2x
        } else {
            t2x <= x <= t1x
        })
    } else if t1x == t2x {
        x == t1x && (if t1y <= t2y {
            t1y <= y <= t2y
        } else {
            t2y <= y <= t1y
        })
    } else {
        false
    }
}

/// Paint-monotone ordering on one tile: equal, or freshly painted.
pub open spec fn tile_le(a: Tile, b: Tile) -> bool {
    a == b || (a == Tile::Unpainted && b == Tile::Painted)
}

/// Grid `g2` differs from `g1` at most by painting corridor tiles.
pub open spec fn grid_le(g1: Seq<Seq<Tile>>, g2: Seq<Seq<Tile>>) -> bool {
    &&& g2.len() == g1.len()
    &&& forall|y: int| 0 <= y < g1.len() ==> (#[trigger] g2[y]).len() == g1[y].len()
    &&& forall|y: int, x: int|
        0 <= y < g1.len() && 0 <= x < g1[y].len() ==> tile_le(g1[y][x], #[trigger] g2[y][x])
}

pub open spec fn count_painted_row(row: Seq<Tile>) -> int
    decreases row.len(),
{
    if row.len() == 0 {
        0
    } else {
        count_painted_row(row.drop_last()) + (if row.last() == Tile::Painted {
            1int
        } else {
            0int
        })
    }
}

/// Number of painted tiles of the whole grid.
pub open spec fn count_painted_tiles(g: Seq<Seq<Tile>>) -> int
    decreases g.len(),
{
    if g.len() == 0 {
        0
    } else {
        count_painted_tiles(g.drop_last()) + count_painted_row(g.last())
    }
}

pub proof fn lemma_grid_le_refl(g: Seq<Seq<Tile>>)
    ensures
        grid_le(g, g),
{
}

pub proof fn lemma_grid_le_trans(a: Seq<Seq<Tile>>, b: Seq<Seq<Tile>>, c: Seq<Seq<Tile>>)
    requires
        grid_le(a, b),
        grid_le(b, c),
    ensures
        grid_le(a, c),
{
    assert forall|y: int, x: int|
        0 <= y < a.len() && 0 <= x < a[y].len() implies tile_le(a[y][x], #[trigger] c[y][x]) by {
        assert(tile_le(a[y][x], b[y][x]));
        assert(tile_le(b[y][x], c[y][x]));
    }
}

/// Painting tiles never lowers a row count, and strictly raises it when a
/// tile actually changed.
pub proof fn lemma_count_row_le(r1: Seq<Tile>, r2: Seq<Tile>)
    requires
        r1.len() == r2.len(),
        forall|i: int| 0 <= i < r1.len() ==> tile_le(#[trigger] r1[i], r2[i]),
    ensures
        count_painted_row(r1) <= count_painted_row(r2),
        (exists|i: int| 0 <= i < r1.len() && r1[i] != r2[i]) ==> count_painted_row(r1)
            < count_painted_row(r2),
    decreases r1.len(),
{
    if r1.len() > 0 {
        let p1 = r1.drop_last();
        let p2 = r2.drop_last();
        assert(forall|i: int| 0 <= i < p1.len() ==> tile_le(#[trigger] p1[i], p2[i]));
        lemma_count_row_le(p1, p2);
        if exists|i: int| 0 <= i < r1.len() && r1[i] != r2[i] {
            let i = choose|i: int| 0 <= i < r1.len() && r1[i] != r2[i];
            if i == r1.len() - 1 {
                assert(r1.last() == Tile::Unpainted && r2.last() == Tile::Painted);
            } else {
                assert(p1[i] != p2[i]);
            }
        }
    }
}

/// The same, lifted to whole grids.
pub proof fn lemma_count_grid_le(g1: Seq<Seq<Tile>>, g2: Seq<Seq<Tile>>)
    requires
        grid_le(g1, g2),
    ensures
        count_painted_tiles(g1) <= count_painted_tiles(g2),
        (exists|x: int, y: int|
            0 <= y < g1.len() && 0 <= x < g1[y].len() && g1[y][x] != g2[y][x])
            ==> count_painted_tiles(g1) < count_painted_tiles(g2),
    decreases g1.len(),
{
    if g1.len() > 0 {
        let p1 = g1.drop_last();
        let p2 = g2.drop_last();
        assert(grid_le(p1, p2));
        lemma_count_grid_le(p1, p2);
        assert(forall|i: int|
            0 <= i < g1.last().len() ==> tile_le(#[trigger] g1.last()[i], g2.last()[i]));
        lemma_count_row_le(g1.last(), g2.last());
        if exists|x: int, y: int|
            0 <= y < g1.len() && 0 <= x < g1[y].len() && g1[y][x] != g2[y][x] {
            let (x, y) = choose|x: int, y: int|
                0 <= y < g1.len() && 0 <= x < g1[y].len() && g1[y][x] != g2[y][x];
            if y == g1.len() - 1 {
                assert(g1.last()[x] != g2.last()[x]);
            } else {
                assert(p1[y][x] != p2[y][x]);
            }
        }
    }
}

/// A grid that changed somewhere under paint-monotone ordering holds
/// strictly more painted tiles.
pub proof fn lemma_painted_count_strict(
    g1: Seq<Seq<Tile>>,
    g2: Seq<Seq<Tile>>,
    w: int,
    h: int,
)
    requires
        grid_wf(g1, w, h),
        grid_le(g1, g2),
        exists|x: int, y: int|
            0 <= x < w && 0 <= y < h && tile_at(g1, w, h, x, y) != tile_at(g2, w, h, x, y),
    ensures
        count_painted_tiles(g1) < count_painted_tiles(g2),
{
    let (x, y) = choose|x: int, y: int|
        0 <= x < w && 0 <= y < h && tile_at(g1, w, h, x, y) != tile_at(g2, w, h, x, y);
    assert(g1[y][x] != g2[y][x]);
    lemma_count_grid_le(g1, g2);
}

/// The painted count never exceeds the grid area.
pub proof fn lemma_count_grid_bound(g: Seq<Seq<Tile>>, w: int)
    requires
        forall|y: int| 0 <= y < g.len() ==> (#[trigger] g[y]).len() == w,
        w >= 0,
    ensures
        0 <= count_painted_tiles(g) <= g.len() * w,
    decreases g.len(),
{
    if g.len() == 0 {
    } else {
        let p = g.drop_last();
        lemma_count_grid_bound(p, w);
        lemma_count_row_bound(g.last());
        assert(g.len() * w == (g.len() - 1) * w + w) by (nonlinear_arith);
    }
}

pub proof fn lemma_count_row_bound(row: Seq<Tile>)
    ensures
        0 <= count_painted_row(row) <= row.len(),
    decreases row.len(),
{
    if row.len() > 0 {
        lemma_count_row_bound(row.drop_last());
    }
}

/// The exact effect of one `check_paint` call: the relation between the
/// board and history before and after, and the returned score record.
pub open spec fn check_paint_rel(
    pre: Board,
    post: Board,
    h0: Seq<u32>,
    h1: Seq<u32>,
    r: ScoreUpdate,
) -> bool {
    let g = pre.grid();
    let w = pre.w();
    let h = pre.h();
    if h0.len() == 0 || find_distinct(h0, h0[0]) is None {
        post.grid() == g && post.boxes@ == pre.boxes@ && h1 == h0 && r.is_zero()
    } else {
        let start = find_distinct(h0, h0[0])->0;
        let end = h0[0];
        let t1x = start as int % w;
        let t1y = start as int / w;
        let t2x = end as int % w;
        let t2y = end as int / w;
        if t1x != t2x && t1y != t2y {
            post.grid() == g && post.boxes@ == pre.boxes@ && h1 == h0 && r.is_zero()
        } else {
            let newly = exists|x: int, y: int|
                seg_on(t1x, t1y, t2x, t2y, x, y) && tile_at(g, w, h, x, y) == Tile::Unpainted;
            &&& forall|x: int, y: int|
                #![trigger tile_at(post.grid(), w, h, x, y)]
                tile_at(post.grid(), w, h, x, y) == (if seg_on(t1x, t1y, t2x, t2y, x, y)
                    && tile_at(g, w, h, x, y) != Tile::Empty {
                    Tile::Painted
                } else {
                    tile_at(g, w, h, x, y)
                })
            &&& if newly {
                &&& r.vertical as int == (if t1x == t2x {
                    if t2y >= t1y {
                        t2y - t1y
                    } else {
                        t1y - t2y
                    }
                } else {
                    0
                })
                &&& r.horizontal as int == (if t1x != t2x {
                    if t2x >= t1x {
                        t2x - t1x
                    } else {
                        t1x - t2x
                    }
                } else {
                    0
                })
                &&& forall|i: int|
                    0 <= i < pre.boxes@.len() ==> {
                        let ob = pre.boxes@[i];
                        let nb = #[trigger] post.boxes@[i];
                        nb.top_left == ob.top_left && nb.bottom_right == ob.bottom_right
                            && nb.painted == (ob.painted || box_flips(
                            ob,
                            post.grid(),
                            w,
                            h,
                            TilePoint { tx: t1x as i32, ty: t1y as i32 },
                            TilePoint { tx: t2x as i32, ty: t2y as i32 },
                        ))
                    }
                &&& h1 == seq![end]
            } else {
                post.boxes@ == pre.boxes@ && h1 == h0 && r.is_zero()
            }
        }
    }
}

/// Law: when the player closes a horizontal segment between two junctions
/// and at least one of its tiles is freshly painted, the painting check
/// awards exactly the segment's tile length — no vertical points — and
/// flips exactly the untouched boxes whose rectangle meets an endpoint and
/// whose border the segment completed; the caller then adds the box bonus
/// once per flip.
pub proof fn lemma_horizontal_segment_award(
    pre: Board,
    post: Board,
    h0: Seq<u32>,
    h1: Seq<u32>,
    su: ScoreUpdate,
)
    requires
        check_paint_rel(pre, post, h0, h1, su),
        h0.len() > 0,
        find_distinct(h0, h0[0]) is Some,
        ({
            let start = find_distinct(h0, h0[0])->0;
            let end = h0[0];
            let w = pre.w();
            let h = pre.h();
            let t1x = start as int % w;
            let t1y = start as int / w;
            let t2x = end as int % w;
            let t2y = end as int / w;
            &&& t1y == t2y
            &&& t1x != t2x
            &&& exists|x: int, y: int|
                seg_on(t1x, t1y, t2x, t2y, x, y) && tile_at(pre.grid(), w, h, x, y)
                    == Tile::Unpainted
        }),
    ensures
        ({
            let start = find_distinct(h0, h0[0])->0;
            let end = h0[0];
            let w = pre.w();
            let h = pre.h();
            let t1x = start as int % w;
            let t1y = start as int / w;
            let t2x = end as int % w;
            let t2y = end as int / w;
            &&& su.vertical == 0
            &&& su.horizontal as int == (if t2x >= t1x {
                t2x - t1x
            } else {
                t1x - t2x
            })
            &&& h1 == seq![end]
            &&& forall|i: int|
                0 <= i < pre.boxes@.len() ==> (#[trigger] post.boxes@[i]).painted == (
                pre.boxes@[i].painted || box_flips(
                    pre.boxes@[i],
                    post.grid(),
                    w,
                    h,
                    TilePoint { tx: t1x as i32, ty: t1y as i32 },
                    TilePoint { tx: t2x as i32, ty: t2y as i32 },
                ))
        }),
{
}

/// The sign of `a`: -1, 0 or 1.
pub(crate) fn sign_of(a: i32) -> (r: i32)
    ensures
        a > 0 ==> r == 1,
        a == 0 ==> r == 0,
        a < 0 ==> r == -1,
{
    if a > 0 {
        1
    } else if a < 0 {
        -1
    } else {
        0
    }
}

impl Board {
    /// Flip every not-yet-painted box whose rectangle touches `t1` or `t2`
    /// and whose border is now fully painted; returns how many flipped.
    pub(crate) fn check_box_painting(&mut self, t1: &TilePoint, t2: &TilePoint) -> (r: i32)
        requires
            old(self).wf(),
        ensures
            final(self).wf(),
            final(self).tiles == old(self).tiles,
            final(self).width == old(self).width,
            final(self).height == old(self).height,
            final(self).junctions == old(self).junctions,
            final(self).boxes@.len() == old(self).boxes@.len(),
            forall|i: int|
                0 <= i < old(self).boxes@.len() ==> {
                    let ob = old(self).boxes@[i];
                    let nb = #[trigger] final(self).boxes@[i];
                    nb.top_left == ob.top_left && nb.bottom_right == ob.bottom_right && nb.painted
                        == (ob.painted || box_flips(
                        ob,
                        old(self).grid(),
                        old(self).w(),
                        old(self).h(),
                        *t1,
                        *t2,
                    ))
                },
            r as int == count_painted_boxes(final(self).boxes@) - count_painted_boxes(
                old(self).boxes@,
            ),
            0 <= r as int <= old(self).boxes@.len(),
    {
        let ghost obs = self.boxes@;
        proof {
            assert(self.w() * self.h() <= 512 * 512) by (nonlinear_arith)
                requires
                    1 <= self.w() <= 512,
                    1 <= self.h() <= 512,
            ;
            assert(obs.subrange(0, 0) =~= Seq::<GridBox>::empty());
        }
        let mut new_boxes: Vec<GridBox> = Vec::new();
        let mut count: i32 = 0;
        let mut i: usize = 0;
        let n = self.boxes.len();
        while i < n
            invariant
                self == old(self),
                self.wf(),
                n == self.boxes@.len(),
                obs == self.boxes@,
                i <= n,
                n <= self.w() * self.h() <= 512 * 512,
                new_boxes@.len() == i,
                forall|j: int|
                    0 <= j < i ==> {
                        let ob = obs[j];
                        let nb = #[trigger] new_boxes@[j];
                        nb.top_left == ob.top_left && nb.bottom_right == ob.bottom_right
                            && nb.painted == (ob.painted || box_flips(
                            ob,
                            self.grid(),
                            self.w(),
                            self.h(),
                            *t1,
                            *t2,
                        ))
                    },
                count as int == count_painted_boxes(new_boxes@) - count_painted_boxes(
                    obs.subrange(0, i as int),
                ),
                0 <= count as int <= i,
            decreases n - i,
        {
            let ob = self.boxes[i];
            let m = ob.matches(t1) || ob.matches(t2);
            let flip = if m && !ob.painted {
                ob.should_update_paint(self)
            } else {
                false
            };
            let ghost prev_new = new_boxes@;
            proof {
                lemma_count_painted_boxes_bounds(new_boxes@);
                assert(obs.subrange(0, i as int + 1).drop_last() =~= obs.subrange(0, i as int));
                assert(obs.subrange(0, i as int + 1).last() == obs[i as int]);
            }
            if flip {
                new_boxes.push(
                    GridBox { top_left: ob.top_left, bottom_right: ob.bottom_right, painted: true },
                );
                count = count + 1;
            } else {
                new_boxes.push(ob);
            }
            proof {
                assert(new_boxes@.drop_last() =~= prev_new);
            }
            i = i + 1;
        }
        proof {
            assert(obs.subrange(0, n as int) =~= obs);
        }
        self.boxes = new_boxes;
        count
    }

    /// Reconstruct the most recent completed segment from the player's
    /// history, paint it, and award points: a freshly painted horizontal
    /// segment is worth its tile length, a freshly painted vertical segment
    /// its tile length recorded as `vertical` (the caller clamps that to a
    /// single point), plus one count per box completed by this segment.
    /// After a scoring event the history collapses to its front entry.
    pub(crate) fn check_paint(&mut self, player_history: &mut VecDeque<u32>) -> (r: ScoreUpdate)
        requires
            old(self).wf(),
            forall|i: int|
                0 <= i < old(player_history)@.len() ==> (#[trigger] old(player_history)@[i] as int)
                    < old(self).w() * old(self).h(),
        ensures
            final(self).wf(),
            final(self).width == old(self).width,
            final(self).height == old(self).height,
            final(self).junctions == old(self).junctions,
            grid_le(old(self).grid(), final(self).grid()),
            final(self).boxes@.len() == old(self).boxes@.len(),
            forall|i: int|
                0 <= i < old(self).boxes@.len() ==> {
                    let ob = old(self).boxes@[i];
                    let nb = #[trigger] final(self).boxes@[i];
                    nb.top_left == ob.top_left && nb.bottom_right == ob.bottom_right && (ob.painted
                        ==> nb.painted)
                },
            forall|i: int|
                0 <= i < final(player_history)@.len() ==> (
                #[trigger] final(player_history)@[i] as int) < final(self).w() * final(self).h(),
            check_paint_rel(
                *old(self),
                *final(self),
                old(player_history)@,
                final(player_history)@,
                r,
            ),
            r.spec_happened() ==> count_painted_tiles(final(self).grid()) > count_painted_tiles(
                old(self).grid(),
            ),
            !r.spec_happened() ==> final(self).grid() == old(self).grid() && final(self).boxes@
                == old(self).boxes@ && final(player_history)@ == old(player_history)@,
            r.num_boxes as int == count_painted_boxes(final(self).boxes@) - count_painted_boxes(
                old(self).boxes@,
            ),
            0 <= r.vertical as int <= final(self).h(),
            0 <= r.horizontal as int <= final(self).w(),
            0 <= r.num_boxes as int <= old(self).boxes@.len(),
    {
        let ghost h0 = player_history@;
        let score_zero = ScoreUpdate::new();
        if player_history.len() == 0 {
            return score_zero;
        }
        let end = player_history[0];
        let n = player_history.len();
        let mut idx: usize = 0;
        proof {
            assert(h0.skip(0) =~= h0);
        }
        while idx < n && player_history[idx] == end
            invariant
                player_history@ == h0,
                h0.len() > 0,
                n == h0.len(),
                end == h0[0],
                idx <= h0.len(),
                find_distinct(h0, end) == find_distinct(h0.skip(idx as int), end),
            decreases h0.len() - idx,
        {
            proof {
                assert(h0.skip(idx as int)[0] == h0[idx as int]);
                assert(h0.skip(idx as int).drop_first() =~= h0.skip(idx as int + 1));
            }
            idx = idx + 1;
        }
        if idx >= n {
            proof {
                assert(h0.skip(h0.len() as int) =~= Seq::<u32>::empty());
            }
            return score_zero;
        }
        let start = player_history[idx];
        proof {
            assert(h0.skip(idx as int)[0] == h0[idx as int]);
            assert(find_distinct(h0, end) == Some(start));
        }
        // From here on the segment start and end are known distinct ids.
        let t1 = self.lookup_position(start);
        let t2 = self.lookup_position(end);
        let dx = sign_of(t2.tx - t1.tx);
        let dy = sign_of(t2.ty - t1.ty);
        proof {
            if t1.tx == t2.tx && t1.ty == t2.ty {
                assert(start == end);
            }
        }
        if dx != 0 && dy != 0 {
            // A non-axis-aligned pair cannot form a corridor segment; the
            // history invariant promises this never holds in play.
            return score_zero;
        }
        let ghost g0 = self.grid();
        let mut newly = self.paint(&t1);
        let mut t = TilePoint::new(t1.tx, t1.ty);
        proof {
            lemma_grid_le_refl(g0);
        }
        while !(t.tx == t2.tx && t.ty == t2.ty)
            invariant
                self.wf(),
                self.width == old(self).width,
                self.height == old(self).height,
                self.junctions == old(self).junctions,
                self.boxes@ == old(self).boxes@,
                g0 == old(self).grid(),
                grid_wf(g0, self.w(), self.h()),
                0 <= t1.tx < self.w(),
                0 <= t1.ty < self.h(),
                0 <= t2.tx < self.w(),
                0 <= t2.ty < self.h(),
                -1 <= dx <= 1,
                -1 <= dy <= 1,
                dx == 0 || dy == 0,
                !(dx == 0 && dy == 0),
                dx == 1 ==> t1.tx <= t.tx <= t2.tx,
                dx == -1 ==> t2.tx <= t.tx <= t1.tx,
                dx != 0 ==> t.ty == t1.ty && t1.ty == t2.ty,
                dy == 1 ==> t1.ty <= t.ty <= t2.ty,
                dy == -1 ==> t2.ty <= t.ty <= t1.ty,
                dy != 0 ==> t.tx == t1.tx && t1.tx == t2.tx,
                dx == 1 ==> t1.tx < t2.tx,
                dx == -1 ==> t2.tx < t1.tx,
                dy == 1 ==> t1.ty < t2.ty,
                dy == -1 ==> t2.ty < t1.ty,
                forall|x: int, y: int|
                    #![trigger tile_at(self.grid(), self.w(), self.h(), x, y)]
                    tile_at(self.grid(), self.w(), self.h(), x, y) == (if seg_on(
                        t1.tx as int,
                        t1.ty as int,
                        t.tx as int,
                        t.ty as int,
                        x,
                        y,
                    ) && tile_at(g0, self.w(), self.h(), x, y) != Tile::Empty {
                        Tile::Painted
                    } else {
                        tile_at(g0, self.w(), self.h(), x, y)
                    }),
                newly == exists|x: int, y: int|
                    seg_on(t1.tx as int, t1.ty as int, t.tx as int, t.ty as int, x, y)
                        && tile_at(g0, self.w(), self.h(), x, y) == Tile::Unpainted,
                grid_le(g0, self.grid()),
            decreases (if t2.tx >= t.tx {
                t2.tx - t.tx
            } else {
                t.tx - t2.tx
            }) + (if t2.ty >= t.ty {
                t2.ty - t.ty
            } else {
                t.ty - t2.ty
            }),
        {
            let ghost gprev = self.grid();
            let ghost tprev = t;
            t = TilePoint::new(t.tx + dx, t.ty + dy);
            let p = self.paint(&t);
            newly = p || newly;
            proof {
                lemma_grid_le_trans(g0, gprev, self.grid());
                assert(tile_at(gprev, self.w(), self.h(), t.tx as int, t.ty as int) == tile_at(
                    g0,
                    self.w(),
                    self.h(),
                    t.tx as int,
                    t.ty as int,
                ));
                assert forall|x: int, y: int|
                    tile_at(self.grid(), self.w(), self.h(), x, y) == (if seg_on(
                        t1.tx as int,
                        t1.ty as int,
                        t.tx as int,
                        t.ty as int,
                        x,
                        y,
                    ) && tile_at(g0, self.w(), self.h(), x, y) != Tile::Empty {
                        Tile::Painted
                    } else {
                        tile_at(g0, self.w(), self.h(), x, y)
                    }) by {
                    assert(seg_on(
                        t1.tx as int,
                        t1.ty as int,
                        t.tx as int,
                        t.ty as int,
                        x,
                        y,
                    ) == (seg_on(
                        t1.tx as int,
                        t1.ty as int,
                        tprev.tx as int,
                        tprev.ty as int,
                        x,
                        y,
                    ) || (x == t.tx as int && y == t.ty as int)));
                }
            }
        }
        let mut score_change = ScoreUpdate::new();
        if newly {
            if dy != 0 {
                score_change.vertical = if t2.ty >= t1.ty {
                    t2.ty - t1.ty
                } else {
                    t1.ty - t2.ty
                };
            } else {
                score_change.horizontal = if t2.tx >= t1.tx {
                    t2.tx - t1.tx
                } else {
                    t1.tx - t2.tx
                };
            }
            let nb = self.check_box_painting(&t1, &t2);
            score_change.num_boxes = nb;
            proof {
                lemma_painted_count_strict(g0, self.grid(), self.w(), self.h());
            }
        }
        if score_change.happened() {
            let current = player_history[0];
            player_history.clear();
            player_history.push_front(current);
        }
        proof {
            if !newly {
                assert forall|y: int| 0 <= y < self.h() implies #[trigger] self.grid()[y] =~= g0[y] by {
                    assert forall|x: int| 0 <= x < self.w() implies self.grid()[y][x] == #[trigger] g0[y][x] by {
                        assert(tile_at(self.grid(), self.w(), self.h(), x, y) == tile_at(
                            g0,
                            self.w(),
                            self.h(),
                            x,
                            y,
                        ));
                    }
                }
                assert(self.grid() =~= g0);
            }
            lemma_count_painted_boxes_bounds(self.boxes@);
            lemma_count_painted_boxes_bounds(old(self).boxes@);
        }
        score_change
    }
}

/// Law: a walkable grid corner is a junction whatever its neighbor count;
/// the four corners anchor the outer boundary box unconditionally.
pub proof fn lemma_corners_are_junctions(g: Seq<Seq<Tile>>, w: int, h: int, x: int, y: int)
    requires
        grid_wf(g, w, h),
        corner_pos(w, h, x, y),
        walkable_at(g, w, h, x, y),
    ensures
        junction_at(g, w, h, x, y),
{
}

/// Law: the row-major id formula and `lookup_position` invert each other;
/// from tile to id and back for every in-grid tile.
pub proof fn lemma_position_id_round_trip(w: int, h: int, x: int, y: int)
    requires
        1 <= w <= 512,
        1 <= h <= 512,
        0 <= x < w,
        0 <= y < h,
    ensures
        pos_id(w, x, y) % w == x,
        pos_id(w, x, y) / w == y,
        0 <= pos_id(w, x, y) < w * h,
{
    lemma_pos_id_inverse(w, h, x, y);
}

/// Law: from id to tile and back; every id below the grid area is the id
/// of the tile `lookup_position` yields for it.
pub proof fn lemma_id_position_round_trip(w: int, h: int, id: int)
    requires
        1 <= w,
        0 <= id < w * h,
    ensures
        pos_id(w, id % w, id / w) == id,
        0 <= id % w < w,
        0 <= id / w < h,
{
    vstd::arithmetic::div_mod::lemma_fundamental_div_mod(id, w);
    assert((id / w) * w + id % w == id && 0 <= id % w < w && 0 <= id / w < h)
        by (nonlinear_arith)
        requires
            1 <= w,
            0 <= id < w * h,
            id == w * (id / w) + id % w,
            id % w >= 0,
            id % w < w,
    ;
}

/// Law: a box's painted flag turns true only when the box was not yet
/// painted, a just-painted endpoint touches its rectangle, and every tile
/// of its four border segments is painted; any border left short keeps it
/// false. Together with the monotonicity of the flag this makes the
/// transition happen exactly once.
pub proof fn lemma_box_flip_needs_full_border(
    b: GridBox,
    g: Seq<Seq<Tile>>,
    w: int,
    h: int,
    t1: TilePoint,
    t2: TilePoint,
)
    ensures
        box_flips(b, g, w, h, t1, t2) ==> !b.painted && border_painted(g, w, h, b),
        !border_painted(g, w, h, b) ==> !box_flips(b, g, w, h, t1, t2),
        b.painted ==> !box_flips(b, g, w, h, t1, t2),
{
}

/// Marking more boxes painted never lowers the painted-box count.
pub proof fn lemma_count_boxes_monotone(b1: Seq<GridBox>, b2: Seq<GridBox>)
    requires
        b1.len() == b2.len(),
        forall|i: int| 0 <= i < b1.len() ==> ((#[trigger] b1[i]).painted ==> b2[i].painted),
    ensures
        count_painted_boxes(b1) <= count_painted_boxes(b2),
    decreases b1.len(),
{
    if b1.len() > 0 {
        lemma_count_boxes_monotone(b1.drop_last(), b2.drop_last());
    }
}

/// The first junction strictly right of `(x, y)` from which one can step
/// down onto a walkable tile, as a coordinate pair; `None` when the grid
/// edge is reached first.
pub open spec fn scan_right(g: Seq<Seq<Tile>>, w: int, h: int, x: int, y: int) -> Option<
    (int, int),
>
    decreases w - x,
{
    if x + 1 >= w {
        None
    } else if junction_at(g, w, h, x + 1, y) && walkable_at(g, w, h, x + 1, y + 1) {
        Some((x + 1, y))
    } else {
        scan_right(g, w, h, x + 1, y)
    }
}

/// The first junction strictly below `(x, y)` from which one can step
/// right onto a walkable tile.
pub open spec fn scan_down(g: Seq<Seq<Tile>>, w: int, h: int, x: int, y: int) -> Option<
    (int, int),
>
    decreases h - y,
{
    if y + 1 >= h {
        None
    } else if junction_at(g, w, h, x, y + 1) && walkable_at(g, w, h, x + 1, y + 1) {
        Some((x, y + 1))
    } else {
        scan_down(g, w, h, x, y + 1)
    }
}

/// The box anchored at junction `(x, y)`: its right edge at the first
/// right-neighbor junction that opens downward, its bottom edge at the first
/// down-neighbor junction that opens rightward, accepted only when the
/// fourth corner is itself a junction.
pub open spec fn spec_box_for(g: Seq<Seq<Tile>>, w: int, h: int, x: int, y: int) -> Option<
    GridBox,
> {
    match scan_right(g, w, h, x, y) {
        Some(r) => match scan_down(g, w, h, x, y) {
            Some(d) => if junction_at(g, w, h, r.0, d.1) {
                Some(
                    GridBox {
                        top_left: TilePoint { tx: x as i32, ty: y as i32 },
                        bottom_right: TilePoint { tx: r.0 as i32, ty: d.1 as i32 },
                        painted: false,
                    },
                )
            } else {
                None
            },
            None => None,
        },
        None => None,
    }
}

/// All boxes produced by sources with tile id below `n`, in id order.
pub open spec fn boxes_upto(g: Seq<Seq<Tile>>, w: int, h: int, n: int) -> Seq<GridBox>
    decreases n,
{
    if n <= 0 {
        Seq::empty()
    } else {
        boxes_upto(g, w, h, n - 1) + (if is_junction_id(g, w, h, n - 1) {
            match spec_box_for(g, w, h, (n - 1) % w, (n - 1) / w) {
                Some(b) => seq![b],
                None => Seq::empty(),
            }
        } else {
            Seq::empty()
        })
    }
}

/// A found right-neighbor lies strictly right of the source, inside the
/// grid, on the same row, and is a junction.
pub proof fn lemma_scan_right_props(g: Seq<Seq<Tile>>, w: int, h: int, x: int, y: int)
    requires
        grid_wf(g, w, h),
        0 <= x,
        0 <= y < h,
    ensures
        match scan_right(g, w, h, x, y) {
            Some(p) => x < p.0 < w && p.1 == y && junction_at(g, w, h, p.0, y),
            None => true,
        },
    decreases w - x,
{
    if x + 1 >= w {
    } else if junction_at(g, w, h, x + 1, y) && walkable_at(g, w, h, x + 1, y + 1) {
    } else {
        lemma_scan_right_props(g, w, h, x + 1, y);
    }
}

/// A found down-neighbor lies strictly below the source, inside the grid,
/// in the same column, and is a junction.
pub proof fn lemma_scan_down_props(g: Seq<Seq<Tile>>, w: int, h: int, x: int, y: int)
    requires
        grid_wf(g, w, h),
        0 <= x < w,
        0 <= y,
    ensures
        match scan_down(g, w, h, x, y) {
            Some(p) => y < p.1 < h && p.0 == x && junction_at(g, w, h, x, p.1),
            None => true,
        },
    decreases h - y,
{
    if y + 1 >= h {
    } else if junction_at(g, w, h, x, y + 1) && walkable_at(g, w, h, x + 1, y + 1) {
    } else {
        lemma_scan_down_props(g, w, h, x, y + 1);
    }
}

/// Converting a valid position to its id and back is the identity.
pub proof fn lemma_pos_id_inverse(w: int, h: int, x: int, y: int)
    requires
        1 <= w <= 512,
        1 <= h <= 512,
        0 <= x < w,
        0 <= y < h,
    ensures
        0 <= pos_id(w, x, y) < w * h,
        pos_id(w, x, y) < 0x40000,
        pos_id(w, x, y) % w == x,
        pos_id(w, x, y) / w == y,
{
    let id = y * w + x;
    assert(0 <= id && id < w * h && id < 0x40000 && id % w == x && id / w == y)
        by (nonlinear_arith)
        requires
            1 <= w <= 512,
            1 <= h <= 512,
            0 <= x < w,
            0 <= y < h,
            id == y * w + x,
    ;
}

/// Painting one corridor tile changes no tile's walkability and therefore no
/// junction classification.
pub proof fn lemma_paint_preserves_structure(
    g1: Seq<Seq<Tile>>,
    g2: Seq<Seq<Tile>>,
    w: int,
    h: int,
    px: int,
    py: int,
)
    requires
        grid_wf(g1, w, h),
        0 <= px < w,
        0 <= py < h,
        g1[py][px] == Tile::Unpainted,
        g2 == g1.update(py, g1[py].update(px, Tile::Painted)),
    ensures
        grid_wf(g2, w, h),
        forall|x: int, y: int| walkable_at(g2, w, h, x, y) == walkable_at(g1, w, h, x, y),
        forall|x: int, y: int| junction_at(g2, w, h, x, y) == junction_at(g1, w, h, x, y),
        forall|id: int| is_junction_id(g2, w, h, id) == is_junction_id(g1, w, h, id),
{
    assert(forall|y: int| 0 <= y < h ==> (#[trigger] g2[y]).len() == w);
    assert forall|x: int, y: int|
        walkable_at(g2, w, h, x, y) == walkable_at(g1, w, h, x, y) by {
        if 0 <= x < w && 0 <= y < h {
            if x == px && y == py {
                assert(g2[y][x] == Tile::Painted);
            } else {
                assert(g2[y][x] == g1[y][x]);
            }
        }
    }
    assert forall|x: int, y: int|
        junction_at(g2, w, h, x, y) == junction_at(g1, w, h, x, y) by {
        assert(walkable_at(g2, w, h, x + 1, y) == walkable_at(g1, w, h, x + 1, y));
        assert(walkable_at(g2, w, h, x, y + 1) == walkable_at(g1, w, h, x, y + 1));
        assert(walkable_at(g2, w, h, x - 1, y) == walkable_at(g1, w, h, x - 1, y));
        assert(walkable_at(g2, w, h, x, y - 1) == walkable_at(g1, w, h, x, y - 1));
        assert(walkable_at(g2, w, h, x, y) == walkable_at(g1, w, h, x, y));
    }
}

} // verus!
