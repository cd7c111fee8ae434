//! Moving units. Players and enemies share one shape — position, pending
//! step target, and a short history of visited junctions — and differ only
//! in their movement policy.

use vstd::prelude::*;
use std::collections::VecDeque;
use crate::board::{
    check_paint_rel, count_painted_boxes, count_painted_tiles, grid_le, junction_at, pos_id,
    Board, ScoreUpdate,
};
use crate::geom::{dir_dx, dir_dy, world_to_tile_coord, Direction, Input, TilePoint, WorldPoint};

verus! {

/// World units a mob advances per tick; divides both tile extents, so a
/// mob walking toward a tile-aligned target always lands exactly on it.
pub const MOB_SPEED: i32 = 8;

/// Positions stay within this many world units of the origin; the largest
/// grid the engine accepts ends well below it.
pub const WORLD_CAP: i32 = 0x10000;

/// How many junction ids an enemy's history may hold before the oldest is
/// dropped.
pub const HISTORY_CAP: usize = 12;

/// The movement policy: a player is input-driven, an enemy follows a fixed
/// cyclic list of junction ids with a cursor.
pub enum MovementAI {
    Player,
    EnemyLookupAI { next: u32, path: Vec<u32> },
}

/// The tile column of a world position.
pub open spec fn tile_x_of(p: WorldPoint) -> int {
    world_to_tile_coord(p.x as int, 64)
}

/// The tile row of a world position.
pub open spec fn tile_y_of(p: WorldPoint) -> int {
    world_to_tile_coord(p.y as int, 80)
}

/// The tile a row-major id names on a `w`-wide grid.
pub open spec fn tile_of_id(w: int, id: u32) -> TilePoint {
    TilePoint { tx: (id as int % w) as i32, ty: (id as int / w) as i32 }
}

/// The input priority order: left beats right beats up beats down.
pub open spec fn chosen_dir(buttons: Seq<Input>) -> Option<Direction> {
    if buttons.contains(Input::Left) {
        Some(Direction::Left)
    } else if buttons.contains(Input::Right) {
        Some(Direction::Right)
    } else if buttons.contains(Input::Up) {
        Some(Direction::Up)
    } else if buttons.contains(Input::Down) {
        Some(Direction::Down)
    } else {
        None
    }
}

/// The tile a player at `pos` heads for under `buttons`: one step in the
/// chosen direction, if that tile is walkable; otherwise no target.
pub open spec fn player_target(
    g: Seq<Seq<crate::board::Tile>>,
    w: int,
    h: int,
    pos: TilePoint,
    buttons: Seq<Input>,
) -> Option<TilePoint> {
    match chosen_dir(buttons) {
        Some(d) => {
            let nx = pos.tx + dir_dx(d);
            let ny = pos.ty + dir_dy(d);
            if crate::board::walkable_at(g, w, h, nx, ny) {
                Some(TilePoint { tx: nx as i32, ty: ny as i32 })
            } else {
                None
            }
        },
        None => None,
    }
}

/// Whether `buttons` holds `which`.
fn has_input(buttons: &[Input], which: Input) -> (r: bool)
    ensures
        r == buttons@.contains(which),
{
    let n = buttons.len();
    let mut i: usize = 0;
    while i < n
        invariant
            n == buttons@.len(),
            i <= n,
            forall|j: int| 0 <= j < i ==> buttons@[j] != which,
        decreases n - i,
    {
        if buttons[i] == which {
            return true;
        }
        i = i + 1;
    }
    false
}

impl MovementAI {
    pub open spec fn is_player_spec(&self) -> bool {
        self is Player
    }

    /// The policy's own well-formedness against a `w` by `h` board: an
    /// enemy path is non-empty, its cursor in range, and every entry a
    /// valid tile id.
    pub open spec fn wf(&self, w: int, h: int) -> bool {
        match self {
            MovementAI::Player => true,
            MovementAI::EnemyLookupAI { next, path } => {
                &&& 0 < path@.len() < 0x100000000
                &&& (*next as int) < path@.len()
                &&& forall|i: int| 0 <= i < path@.len() ==> (#[trigger] path@[i] as int) < w * h
            },
        }
    }

    /// Rewind the policy: an enemy's cursor returns to the start of its
    /// path; a player has nothing to rewind.
    pub(crate) fn reset(&mut self)
        ensures
            match *old(self) {
                MovementAI::Player => *final (self) == MovementAI::Player,
                MovementAI::EnemyLookupAI { next: _, path } => *final (self)
                    == (MovementAI::EnemyLookupAI { next: 0u32, path }),
            },
    {
        match self {
            MovementAI::Player => {},
            MovementAI::EnemyLookupAI { next, path: _ } => {
                *next = 0;
            },
        }
    }

    /// Pick the next step target: a player follows the pressed direction
    /// set onto walkable tiles only; an enemy unconditionally advances its
    /// cyclic path cursor and heads for that entry.
    pub(crate) fn choose_next_tile(
        &mut self,
        position: &TilePoint,
        buttons: &[Input],
        board: &Board,
    ) -> (r: Option<TilePoint>)
        requires
            board.wf(),
            old(self).wf(board.w(), board.h()),
            -0x1000000 < position.tx < 0x1000000,
            -0x1000000 < position.ty < 0x1000000,
        ensures
            final (self).wf(board.w(), board.h()),
            match *old(self) {
                MovementAI::Player => {
                    &&& *final (self) == MovementAI::Player
                    &&& r == player_target(
                        board.grid(),
                        board.w(),
                        board.h(),
                        *position,
                        buttons@,
                    )
                },
                MovementAI::EnemyLookupAI { next, path } => {
                    let next2 = ((next as int) + 1) % (path@.len() as int);
                    &&& *final (self) == (MovementAI::EnemyLookupAI {
                        next: next2 as u32,
                        path,
                    })
                    &&& r == Some(tile_of_id(board.w(), path@[next2]))
                },
            },
            r is Some ==> 0 <= r->0.tx < board.w() && 0 <= r->0.ty < board.h(),
    {
        match self {
            MovementAI::Player => {
                let left = has_input(buttons, Input::Left);
                let right = has_input(buttons, Input::Right);
                let up = has_input(buttons, Input::Up);
                let down = has_input(buttons, Input::Down);
                let mut input: Option<Direction> = None;
                if left {
                    input = Some(Direction::Left);
                } else if right {
                    input = Some(Direction::Right);
                } else if up {
                    input = Some(Direction::Up);
                } else if down {
                    input = Some(Direction::Down);
                }
                match input {
                    Some(dir) => {
                        let target_tile = position.step(dir);
                        if board.get_tile(&target_tile).walkable() {
                            Some(target_tile)
                        } else {
                            None
                        }
                    },
                    None => None,
                }
            },
            MovementAI::EnemyLookupAI { next, path } => {
                let len = path.len() as u32;
                let nv = (*next + 1) % len;
                *next = nv;
                let id = path[nv as usize];
                proof {
                    vstd::arithmetic::div_mod::lemma_fundamental_div_mod(
                        id as int,
                        board.w(),
                    );
                }
                Some(board.lookup_position(id))
            },
        }
    }
}

/// A mobile unit: its policy, fine-grained position, pending step target,
/// and recently confirmed junction ids (most recent first).
pub struct Mob {
    pub ai: MovementAI,
    pub position: WorldPoint,
    pub speed: i32,
    pub step: Option<TilePoint>,
    pub history: VecDeque<u32>,
}

impl Mob {
    /// Well-formedness against a `w` by `h` board: the policy is sound,
    /// the speed fixed, the position within the world cap and aligned to
    /// the speed grid, any step target on the board, and every history
    /// entry a valid tile id.
    pub open spec fn wf(&self, w: int, h: int) -> bool {
        &&& self.ai.wf(w, h)
        &&& self.speed == MOB_SPEED
        &&& 0 <= self.position.x <= WORLD_CAP
        &&& 0 <= self.position.y <= WORLD_CAP
        &&& self.position.x as int % 8 == 0
        &&& self.position.y as int % 8 == 0
        &&& match self.step {
            Some(t) => 0 <= t.tx < w && 0 <= t.ty < h,
            None => true,
        }
        &&& forall|i: int| 0 <= i < self.history@.len() ==> (#[trigger] self.history@[i] as int) < w * h
    }

    pub(crate) fn new(ai: MovementAI, position: WorldPoint) -> (r: Mob)
        requires
            0 <= position.x <= WORLD_CAP,
            0 <= position.y <= WORLD_CAP,
            position.x as int % 8 == 0,
            position.y as int % 8 == 0,
        ensures
            r.ai == ai,
            r.position == position,
            r.speed == MOB_SPEED,
            r.step is None,
            r.history@ == Seq::<u32>::empty(),
    {
        Mob { ai, position, step: None, speed: MOB_SPEED, history: VecDeque::new() }
    }

    /// A fresh input-driven mob at `position`.
    pub fn new_player(position: WorldPoint) -> (r: Mob)
        requires
            0 <= position.x <= WORLD_CAP,
            0 <= position.y <= WORLD_CAP,
            position.x as int % 8 == 0,
            position.y as int % 8 == 0,
        ensures
            r.ai == MovementAI::Player,
            r.position == position,
            r.speed == MOB_SPEED,
            r.step is None,
            r.history@ == Seq::<u32>::empty(),
    {
        Mob {
            ai: MovementAI::Player,
            position,
            step: None,
            speed: MOB_SPEED,
            history: VecDeque::new(),
        }
    }

    pub(crate) fn is_player(&self) -> (r: bool)
        ensures
            r == self.ai.is_player_spec(),
    {
        matches!(self.ai, MovementAI::Player)
    }

    /// Return to the start of a life: no pending step, the policy rewound,
    /// the position back at the policy-defined start (the given start tile
    /// for a player, the head of the path for an enemy), and the history
    /// cleared.
    pub(crate) fn reset(&mut self, player_start: &TilePoint, board: &Board)
        requires
            board.wf(),
            old(self).ai.wf(board.w(), board.h()),
            old(self).speed == MOB_SPEED,
            0 <= player_start.tx < board.w() || old(self).ai is EnemyLookupAI,
            0 <= player_start.ty < board.h() || old(self).ai is EnemyLookupAI,
        ensures
            final (self).wf(board.w(), board.h()),
            final (self).step is None,
            final (self).speed == MOB_SPEED,
            final (self).history@ == Seq::<u32>::empty(),
            match old(self).ai {
                MovementAI::Player => {
                    &&& final (self).ai == MovementAI::Player
                    &&& final (self).position.x == player_start.tx * 64
                    &&& final (self).position.y == player_start.ty * 80
                },
                MovementAI::EnemyLookupAI { next: _, path } => {
                    &&& final (self).ai == (MovementAI::EnemyLookupAI { next: 0u32, path })
                    &&& final (self).position == (WorldPoint {
                        x: ((tile_of_id(board.w(), path@[0]).tx as int) * 64) as i32,
                        y: ((tile_of_id(board.w(), path@[0]).ty as int) * 80) as i32,
                    })
                },
            },
    {
        self.step = None;
        self.ai.reset();
        self.position = match &self.ai {
            MovementAI::Player => {
                proof {
                    assert(player_start.tx * 64 <= 511 * 64) by (nonlinear_arith)
                        requires
                            player_start.tx < 512,
                    ;
                    assert(player_start.ty * 80 <= 511 * 80) by (nonlinear_arith)
                        requires
                            player_start.ty < 512,
                    ;
                    assert(player_start.tx * 64 >= 0 && (player_start.tx * 64) % 8 == 0 && (
                    player_start.ty * 80) % 8 == 0) by (nonlinear_arith)
                        requires
                            player_start.tx >= 0,
                            player_start.ty >= 0,
                    ;
                }
                player_start.to_world()
            },
            MovementAI::EnemyLookupAI { next: _, path } => {
                let first = path[0];
                let t = board.lookup_position(first);
                proof {
                    assert(t.tx * 64 <= 511 * 64 && t.ty * 80 <= 511 * 80 && t.tx * 64 >= 0 && (
                    t.tx * 64) % 8 == 0 && (t.ty * 80) % 8 == 0) by (nonlinear_arith)
                        requires
                            0 <= t.tx < 512,
                            0 <= t.ty < 512,
                    ;
                }
                t.to_world()
            },
        };
        self.history.clear();
    }

    /// One simulation tick for this mob. The mob seeds its history at its
    /// very first tick, walks at fixed speed toward its pending target,
    /// confirms arrival by recording the target's junction id, asks its
    /// policy for a new target whenever it has none, and — for a player —
    /// hands its history to the board's painting check, returning the
    /// resulting score record when anything was painted. An enemy never
    /// touches the board and never scores; its history is only capped.
    pub fn update(&mut self, buttons: &[Input], board: &mut Board) -> (r: Option<ScoreUpdate>)
        requires
            old(board).wf(),
            old(self).wf(old(board).w(), old(board).h()),
        ensures
            final (board).wf(),
            final (self).wf(final (board).w(), final (board).h()),
            final (board).width == old(board).width,
            final (board).height == old(board).height,
            final (board).junctions == old(board).junctions,
            grid_le(old(board).grid(), final (board).grid()),
            final (board).boxes@.len() == old(board).boxes@.len(),
            forall|i: int|
                0 <= i < old(board).boxes@.len() ==> {
                    let ob = old(board).boxes@[i];
                    let nb = #[trigger] final (board).boxes@[i];
                    nb.top_left == ob.top_left && nb.bottom_right == ob.bottom_right && (ob.painted
                        ==> nb.painted)
                },
            final (self).ai.is_player_spec() == old(self).ai.is_player_spec(),
            !old(self).ai.is_player_spec() ==> *final (board) == *old(board) && r is None,
            r is Some ==> {
                &&& r->0.spec_happened()
                &&& 0 <= r->0.vertical as int <= final (board).h()
                &&& 0 <= r->0.horizontal as int <= final (board).w()
                &&& 0 <= r->0.num_boxes as int <= old(board).boxes@.len()
                &&& r->0.num_boxes as int == count_painted_boxes(final (board).boxes@)
                    - count_painted_boxes(old(board).boxes@)
                &&& count_painted_tiles(final (board).grid()) > count_painted_tiles(
                    old(board).grid(),
                )
            },
            r is None ==> final (board).grid() == old(board).grid() && final (board).boxes@ == old(
                board,
            ).boxes@,
            mob_update_rel(*old(self), *final (self), *old(board), *final (board), buttons@, r),
    {
        let ghost w = board.w();
        let ghost h = board.h();
        if self.history.len() == 0 {
            let cur_tile = self.position.to_tile();
            match board.get_junction_id(&cur_tile) {
                Some(pt) => {
                    proof {
                        crate::board::lemma_pos_id_inverse(
                            board.w(),
                            board.h(),
                            cur_tile.tx as int,
                            cur_tile.ty as int,
                        );
                    }
                    self.history.push_front(pt);
                },
                None => {},
            }
        }
        let ghost h1 = self.history@;

        // Walk one step toward the pending target, or confirm arrival.
        let next_target: Option<TilePoint> = match &self.step {
            Some(target) => {
                let world_target = target.to_world();
                let dx = world_target.x - self.position.x;
                let dy = world_target.y - self.position.y;
                if dx == 0 && dy == 0 {
                    match board.get_junction_id(target) {
                        Some(pt) => {
                            proof {
                                crate::board::lemma_pos_id_inverse(
                                    board.w(),
                                    board.h(),
                                    target.tx as int,
                                    target.ty as int,
                                );
                            }
                            self.history.push_front(pt);
                        },
                        None => {},
                    }
                    None
                } else {
                    proof {
                        assert(world_target.x % 8 == 0 && world_target.y % 8 == 0 && 0
                            <= world_target.x <= WORLD_CAP && 0 <= world_target.y <= WORLD_CAP)
                            by (nonlinear_arith)
                            requires
                                world_target.x == target.tx * 64,
                                world_target.y == target.ty * 80,
                                0 <= target.tx < 512,
                                0 <= target.ty < 512,
                        ;
                    }
                    let sx = crate::board::sign_of(dx);
                    let sy = crate::board::sign_of(dy);
                    proof {
                        assert(dx % 8 == 0 && dy % 8 == 0);
                        assert(dx > 0 ==> dx >= 8);
                        assert(dx < 0 ==> dx <= -8);
                        assert(dy > 0 ==> dy >= 8);
                        assert(dy < 0 ==> dy <= -8);
                    }
                    self.position.x = self.position.x + self.speed * sx;
                    self.position.y = self.position.y + self.speed * sy;
                    Some(TilePoint::new(target.tx, target.ty))
                }
            },
            None => None,
        };
        self.step = next_target;

        // A mob that has just arrived (or never had a target) may choose a
        // new one at once.
        if self.step.is_none() {
            let cur_tile = self.position.to_tile();
            proof {
                lemma_aligned_tile_in_range(self.position);
            }
            self.step = self.ai.choose_next_tile(&cur_tile, buttons, board);
        }

        if self.is_player() {
            let su = board.check_paint(&mut self.history);
            su.into_option()
        } else {
            if self.history.len() > HISTORY_CAP {
                let _dropped = self.history.pop_back();
            }
            None
        }
    }
}

/// An aligned in-cap world coordinate lands on a moderate tile coordinate.
pub proof fn lemma_aligned_tile_in_range(p: WorldPoint)
    requires
        0 <= p.x <= WORLD_CAP,
        0 <= p.y <= WORLD_CAP,
    ensures
        0 <= tile_x_of(p) < 0x1000000,
        0 <= tile_y_of(p) < 0x1000000,
{
    assert(0 <= p.x as int / 64 <= WORLD_CAP) by (nonlinear_arith)
        requires
            0 <= p.x as int <= WORLD_CAP,
    ;
    assert(0 <= p.y as int / 80 <= WORLD_CAP) by (nonlinear_arith)
        requires
            0 <= p.y as int <= WORLD_CAP,
    ;
}

/// The exact tick relation for one mob: history seeding, the movement
/// step, arrival confirmation, target choice, and the final scoring or
/// history-capping phase, connecting the mob and board before and after.
pub open spec fn mob_update_rel(
    pre: Mob,
    post: Mob,
    preb: Board,
    postb: Board,
    buttons: Seq<Input>,
    r: Option<ScoreUpdate>,
) -> bool {
    let g = preb.grid();
    let w = preb.w();
    let h = preb.h();
    // Phase 1: a mob with an empty history records the junction it sits on.
    let tx0 = tile_x_of(pre.position);
    let ty0 = tile_y_of(pre.position);
    let h1 = if pre.history@.len() == 0 && 0 <= tx0 < w && 0 <= ty0 < h && junction_at(
        g,
        w,
        h,
        tx0,
        ty0,
    ) {
        seq![pos_id(w, tx0, ty0) as u32]
    } else {
        pre.history@
    };
    // Phase 2: movement toward the pending target.
    let moved = match pre.step {
        Some(t) => {
            let wtx = t.tx as int * 64;
            let wty = t.ty as int * 80;
            if wtx == pre.position.x as int && wty == pre.position.y as int {
                // Arrived: confirm the junction and drop the target.
                let h2 = if junction_at(g, w, h, t.tx as int, t.ty as int) {
                    seq![pos_id(w, t.tx as int, t.ty as int) as u32] + h1
                } else {
                    h1
                };
                (pre.position, Option::<TilePoint>::None, h2)
            } else {
                let sx: int = if wtx > pre.position.x as int {
                    1
                } else if wtx < pre.position.x as int {
                    -1
                } else {
                    0
                };
                let sy: int = if wty > pre.position.y as int {
                    1
                } else if wty < pre.position.y as int {
                    -1
                } else {
                    0
                };
                (
                    WorldPoint {
                        x: (pre.position.x + 8 * sx) as i32,
                        y: (pre.position.y + 8 * sy) as i32,
                    },
                    Some(t),
                    h1,
                )
            }
        },
        None => (pre.position, Option::<TilePoint>::None, h1),
    };
    let pos1 = moved.0;
    let step1 = moved.1;
    let h2 = moved.2;
    // Phase 3: a mob without a target consults its policy.
    let chose = step1 is None;
    let step2 = if chose {
        match pre.ai {
            MovementAI::Player => player_target(
                g,
                w,
                h,
                TilePoint { tx: tile_x_of(pos1) as i32, ty: tile_y_of(pos1) as i32 },
                buttons,
            ),
            MovementAI::EnemyLookupAI { next, path } => Some(
                tile_of_id(w, path@[((next as int) + 1) % (path@.len() as int)]),
            ),
        }
    } else {
        step1
    };
    &&& post.position == pos1
    &&& post.step == step2
    &&& post.speed == pre.speed
    &&& (match pre.ai {
        MovementAI::Player => {
            // Phase 4, player: the board paints the completed segment.
            &&& post.ai == MovementAI::Player
            &&& (match r {
                Some(su) => check_paint_rel(preb, postb, h2, post.history@, su)
                    && su.spec_happened(),
                None => check_paint_rel(
                    preb,
                    postb,
                    h2,
                    post.history@,
                    ScoreUpdate { vertical: 0, horizontal: 0, num_boxes: 0 },
                ),
            })
        },
        MovementAI::EnemyLookupAI { next, path } => {
            // Phase 4, enemy: the board is untouched and the history capped.
            &&& post.ai == (MovementAI::EnemyLookupAI {
                next: (if chose {
                    (((next as int) + 1) % (path@.len() as int)) as u32
                } else {
                    next
                }),
                path,
            })
            &&& postb == preb
            &&& r is None
            &&& post.history@ == (if h2.len() > HISTORY_CAP {
                h2.subrange(0, h2.len() - 1)
            } else {
                h2
            })
        },
    })
}

/// Build an enemy mob that follows `positions` cyclically, starting on the
/// tile its first entry names.
impl Board {
    pub fn make_enemy(&self, positions: Vec<u32>) -> (r: Mob)
        requires
            self.wf(),
            0 < positions@.len() < 0x100000000,
            forall|i: int|
                0 <= i < positions@.len() ==> (#[trigger] positions@[i] as int) < self.w()
                    * self.h(),
        ensures
            r.wf(self.w(), self.h()),
            r.ai == (MovementAI::EnemyLookupAI { next: 0u32, path: positions }),
            r.position == (WorldPoint {
                x: ((tile_of_id(self.w(), positions@[0]).tx as int) * 64) as i32,
                y: ((tile_of_id(self.w(), positions@[0]).ty as int) * 80) as i32,
            }),
            r.step is None,
            r.history@ == Seq::<u32>::empty(),
    {
        let first = positions[0];
        let t = self.lookup_position(first);
        proof {
            assert(t.tx * 64 <= 511 * 64 && t.ty * 80 <= 511 * 80 && t.tx * 64 >= 0 && (t.tx * 64)
                % 8 == 0 && (t.ty * 80) % 8 == 0) by (nonlinear_arith)
                requires
                    0 <= t.tx < 512,
                    0 <= t.ty < 512,
            ;
        }
        let position = t.to_world();
        let ai = MovementAI::EnemyLookupAI { next: 0, path: positions };
        Mob::new(ai, position)
    }
}

} // verus!
