//! Render output: the per-tick list of colored axis-aligned rectangles a
//! passive renderer blits in order — background first, then corridor
//! tiles, completed-box overlays, the player, and each enemy.

use vstd::prelude::*;
use crate::board::{GridBox, Tile};
use crate::geom::trunc_div;
use crate::mob::Mob;
use crate::state::State;

verus! {

pub const GAME_W: i32 = 160;

pub const GAME_H: i32 = 250;

pub const BOARD_OFFSET_X: i32 = 16;

pub const BOARD_OFFSET_Y: i32 = 37;

pub const PLAYER_SIZE: i32 = 7;

pub const ENEMY_SIZE: i32 = 7;

/// An RGB color.
#[derive(Debug, Clone, Copy, PartialEq, Eq, Structural)]
pub struct Color {
    pub r: u8,
    pub g: u8,
    pub b: u8,
}

impl Color {
    pub fn rgb(r: u8, g: u8, b: u8) -> (c: Color)
        ensures
            c == (Color { r, g, b }),
    {
        Color { r, g, b }
    }

    pub fn black() -> (c: Color)
        ensures
            c == (Color { r: 0u8, g: 0u8, b: 0u8 }),
    {
        Color { r: 0, g: 0, b: 0 }
    }

    pub fn white() -> (c: Color)
        ensures
            c == (Color { r: 255u8, g: 255u8, b: 255u8 }),
    {
        Color { r: 255, g: 255, b: 255 }
    }
}

/// One axis-aligned rectangle to blit.
#[derive(Debug, Clone, Copy, PartialEq, Eq, Structural)]
pub struct Drawable {
    pub color: Color,
    pub x: i32,
    pub y: i32,
    pub w: i32,
    pub h: i32,
}

impl Drawable {
    pub fn rect(color: Color, x: i32, y: i32, w: i32, h: i32) -> (d: Drawable)
        ensures
            d == (Drawable { color, x, y, w, h }),
    {
        Drawable { color, x, y, w, h }
    }
}

/// The black canvas behind everything.
pub open spec fn background_rect() -> Drawable {
    Drawable {
        color: Color { r: 0, g: 0, b: 0 },
        x: 0,
        y: 0,
        w: GAME_W,
        h: GAME_H,
    }
}

/// The fill color of one tile; `Empty` tiles are not drawn at all.
pub open spec fn tile_color(t: Tile) -> Color {
    if t == Tile::Painted {
        Color { r: 255, g: 255, b: 255 }
    } else {
        Color { r: 148, g: 0, b: 211 }
    }
}

/// The rectangle of the tile at `(x, ty)`.
pub open spec fn tile_rect(t: Tile, x: int, ty: int) -> Drawable {
    Drawable {
        color: tile_color(t),
        x: (BOARD_OFFSET_X + x * 4) as i32,
        y: (BOARD_OFFSET_Y + ty * 5) as i32,
        w: 4,
        h: 5,
    }
}

/// The rectangles of one row's non-empty tiles, left to right, from `x` on.
pub open spec fn row_rects(row: Seq<Tile>, ty: int, x: int) -> Seq<Drawable>
    decreases row.len() - x,
{
    if x < 0 || x >= row.len() {
        Seq::empty()
    } else {
        (if row[x] == Tile::Empty {
            Seq::empty()
        } else {
            seq![tile_rect(row[x], x, ty)]
        }) + row_rects(row, ty, x + 1)
    }
}

/// The rectangles of all rows from `y` down, row-major.
pub open spec fn rows_rects(g: Seq<Seq<Tile>>, y: int) -> Seq<Drawable>
    decreases g.len() - y,
{
    if y < 0 || y >= g.len() {
        Seq::empty()
    } else {
        row_rects(g[y], y, 0) + rows_rects(g, y + 1)
    }
}

/// The yellow overlay of one completed box, inset one tile from its
/// top-left corner.
pub open spec fn box_rect(b: GridBox) -> Drawable {
    let ox = trunc_div((b.top_left.tx + 1) * 64, 16);
    let oy = trunc_div((b.top_left.ty + 1) * 80, 16);
    let dx = trunc_div(b.bottom_right.tx as int * 64, 16);
    let dy = trunc_div(b.bottom_right.ty as int * 80, 16);
    Drawable {
        color: Color { r: 255, g: 255, b: 0 },
        x: (BOARD_OFFSET_X + ox) as i32,
        y: (BOARD_OFFSET_Y + oy) as i32,
        w: (dx - ox) as i32,
        h: (dy - oy) as i32,
    }
}

/// The overlays of all completed boxes from `i` on, in list order.
pub open spec fn boxes_rects(bs: Seq<GridBox>, i: int) -> Seq<Drawable>
    decreases bs.len() - i,
{
    if i < 0 || i >= bs.len() {
        Seq::empty()
    } else {
        (if bs[i].painted {
            seq![box_rect(bs[i])]
        } else {
            Seq::empty()
        }) + boxes_rects(bs, i + 1)
    }
}

/// The rectangle of one mob, centered on its screen position.
pub open spec fn mob_rect(m: Mob, color: Color, size: int) -> Drawable {
    Drawable {
        color,
        x: (BOARD_OFFSET_X + trunc_div(m.position.x as int, 16) - 1) as i32,
        y: (BOARD_OFFSET_Y + trunc_div(m.position.y as int, 16) - 1) as i32,
        w: size as i32,
        h: size as i32,
    }
}

/// The rectangles of all enemies from `i` on, in list order.
pub open spec fn enemies_rects(es: Seq<Mob>, i: int) -> Seq<Drawable>
    decreases es.len() - i,
{
    if i < 0 || i >= es.len() {
        Seq::empty()
    } else {
        seq![mob_rect(es[i], Color { r: 255, g: 0, b: 0 }, ENEMY_SIZE as int)] + enemies_rects(
            es,
            i + 1,
        )
    }
}

/// The whole frame of a live session.
pub open spec fn frame_rects(s: State) -> Seq<Drawable> {
    seq![background_rect()] + rows_rects(s.board.grid(), 0) + boxes_rects(s.board.boxes@, 0)
        + seq![
        mob_rect(s.player, Color { r: 255, g: 255, b: 153 }, PLAYER_SIZE as int),
    ] + enemies_rects(s.enemies@, 0)
}

impl State {
    /// Emit the frame: the background alone after game over; otherwise the
    /// background, every non-empty tile row-major (painted tiles white,
    /// corridors violet), a yellow overlay per completed box, then the
    /// player and each enemy at their screen positions.
    pub fn draw(&self) -> (r: Vec<Drawable>)
        requires
            self.wf(),
        ensures
            self.game_over ==> r@ == seq![background_rect()],
            !self.game_over ==> r@ == frame_rects(*self),
    {
        let mut output: Vec<Drawable> = Vec::new();
        output.push(Drawable::rect(Color::black(), 0, 0, GAME_W, GAME_H));
        proof {
            assert(output@ =~= seq![background_rect()]);
        }
        if self.game_over {
            return output;
        }
        let track_color = Color::rgb(148, 0, 211);
        let player_color = Color::rgb(255, 255, 153);

        let ghost g = self.board.grid();
        let height = self.board.height as usize;
        let mut ty: usize = 0;
        while ty < height
            invariant
                self.wf(),
                g == self.board.grid(),
                height == g.len(),
                ty <= height,
                track_color == (Color { r: 148u8, g: 0u8, b: 211u8 }),
                output@ + rows_rects(g, ty as int) == seq![background_rect()] + rows_rects(g, 0),
            decreases height - ty,
        {
            let row_len = self.board.width as usize;
            let mut tx: usize = 0;
            proof {
                assert(rows_rects(g, ty as int) =~= row_rects(g[ty as int], ty as int, 0)
                    + rows_rects(g, ty as int + 1));
            }
            while tx < row_len
                invariant
                    self.wf(),
                    g == self.board.grid(),
                    height == g.len(),
                    ty < height,
                    row_len == g[ty as int].len(),
                    tx <= row_len,
                    track_color == (Color { r: 148u8, g: 0u8, b: 211u8 }),
                    output@ + row_rects(g[ty as int], ty as int, tx as int) + rows_rects(
                        g,
                        ty as int + 1,
                    ) == seq![background_rect()] + rows_rects(g, 0),
                decreases row_len - tx,
            {
                let t = self.board.tiles[ty][tx];
                proof {
                    assert(g[ty as int][tx as int] == t);
                    assert(row_rects(g[ty as int], ty as int, tx as int) =~= (if t
                        == Tile::Empty {
                        Seq::<Drawable>::empty()
                    } else {
                        seq![tile_rect(t, tx as int, ty as int)]
                    }) + row_rects(g[ty as int], ty as int, tx as int + 1));
                }
                match t {
                    Tile::Painted => {
                        output.push(
                            Drawable::rect(
                                Color::white(),
                                BOARD_OFFSET_X + (tx as i32) * 4,
                                BOARD_OFFSET_Y + (ty as i32) * 5,
                                4,
                                5,
                            ),
                        );
                    },
                    Tile::Unpainted => {
                        output.push(
                            Drawable::rect(
                                track_color,
                                BOARD_OFFSET_X + (tx as i32) * 4,
                                BOARD_OFFSET_Y + (ty as i32) * 5,
                                4,
                                5,
                            ),
                        );
                    },
                    Tile::Empty => {},
                }
                tx = tx + 1;
            }
            ty = ty + 1;
        }
        let ghost bs = self.board.boxes@;
        let nb = self.board.boxes.len();
        let mut bi: usize = 0;
        while bi < nb
            invariant
                self.wf(),
                bs == self.board.boxes@,
                nb == bs.len(),
                bi <= nb,
                output@ + boxes_rects(bs, bi as int) == seq![background_rect()] + rows_rects(
                    self.board.grid(),
                    0,
                ) + boxes_rects(bs, 0),
            decreases nb - bi,
        {
            let inner_box = self.board.boxes[bi];
            proof {
                assert(boxes_rects(bs, bi as int) =~= (if bs[bi as int].painted {
                    seq![box_rect(bs[bi as int])]
                } else {
                    Seq::<Drawable>::empty()
                }) + boxes_rects(bs, bi as int + 1));
            }
            if inner_box.painted {
                let origin = inner_box.top_left.translate(1, 1).to_world().to_screen();
                let dest = inner_box.bottom_right.to_world().to_screen();
                proof {
                    assert(0 <= origin.sx <= 2048 && 0 <= origin.sy <= 2560 && 0 <= dest.sx
                        <= 2048 && 0 <= dest.sy <= 2560);
                }
                let w = dest.sx - origin.sx;
                let h = dest.sy - origin.sy;
                output.push(
                    Drawable::rect(
                        Color::rgb(0xff, 0xff, 0x00),
                        BOARD_OFFSET_X + origin.sx,
                        BOARD_OFFSET_Y + origin.sy,
                        w,
                        h,
                    ),
                );
            }
            bi = bi + 1;
        }
        let player_screen = self.player.position.to_screen();
        output.push(
            Drawable::rect(
                player_color,
                BOARD_OFFSET_X + player_screen.sx - 1,
                BOARD_OFFSET_Y + player_screen.sy - 1,
                PLAYER_SIZE,
                PLAYER_SIZE,
            ),
        );
        proof {
            assert(output@ =~= seq![background_rect()] + rows_rects(self.board.grid(), 0)
                + boxes_rects(self.board.boxes@, 0) + seq![
                mob_rect(self.player, Color { r: 255u8, g: 255u8, b: 153u8 }, PLAYER_SIZE as int),
            ]);
        }
        let ghost es = self.enemies@;
        let ne = self.enemies.len();
        let mut ei: usize = 0;
        while ei < ne
            invariant
                self.wf(),
                es == self.enemies@,
                ne == es.len(),
                ei <= ne,
                output@ + enemies_rects(es, ei as int) == frame_rects(*self),
            decreases ne - ei,
        {
            proof {
                assert(enemies_rects(es, ei as int) =~= seq![
                    mob_rect(es[ei as int], Color { r: 255u8, g: 0u8, b: 0u8 }, ENEMY_SIZE as int),
                ] + enemies_rects(es, ei as int + 1));
            }
            let enemy_screen = self.enemies[ei].position.to_screen();
            output.push(
                Drawable::rect(
                    Color::rgb(0xff, 0, 0),
                    BOARD_OFFSET_X + enemy_screen.sx - 1,
                    BOARD_OFFSET_Y + enemy_screen.sy - 1,
                    ENEMY_SIZE,
                    ENEMY_SIZE,
                ),
            );
            ei = ei + 1;
        }
        proof {
            assert(enemies_rects(es, ne as int) =~= Seq::<Drawable>::empty());
            assert(output@ =~= frame_rects(*self));
        }
        output
    }
}

} // verus!
