//! The whole game session: one board, the player, the enemies, the score
//! and the lifecycle flags, advanced one deterministic tick at a time.

use vstd::prelude::*;
use vstd::string::StringSliceAdditionalSpecFns;
use crate::board::{
    count_painted_boxes, count_painted_tiles, grid_le, junction_at, lemma_count_grid_bound,
    lemma_count_painted_boxes_bounds, lemma_pos_id_inverse, pos_id, Board, ScoreUpdate,
};
use crate::errors::AmidarError;
use crate::geom::{Input, TilePoint, WorldPoint};
use crate::mob::{tile_x_of, tile_y_of, Mob, MovementAI, MOB_SPEED};
use crate::parse::{parse_routes, route_of_line, split_lines};

verus! {

/// Points awarded for each completed box.
pub const BOX_BONUS: i32 = 50;

/// The tile the player starts on in the shipped layout.
pub const PLAYER_START_X: i32 = 31;

pub const PLAYER_START_Y: i32 = 15;

/// The junction seeded into the player's history on every reset, directly
/// below the start position in the shipped layout.
pub const PLAYER_SEED_X: i32 = 31;

pub const PLAYER_SEED_Y: i32 = 18;

/// One game session.
pub struct State {
    pub dead: bool,
    pub game_over: bool,
    pub score: i32,
    pub box_bonus: i32,
    pub player: Mob,
    pub player_start: TilePoint,
    pub enemies: Vec<Mob>,
    pub board: Board,
}

impl State {
    /// Session-wide well-formedness: the board and every mob are sound,
    /// the player is input-driven, every enemy path-driven, the score
    /// non-negative and bounded by the painting progress, so that no tick
    /// can overflow it.
    pub open spec fn wf(&self) -> bool {
        &&& self.board.wf()
        &&& self.player.wf(self.board.w(), self.board.h())
        &&& self.player.ai is Player
        &&& forall|i: int|
            0 <= i < self.enemies@.len() ==> (#[trigger] self.enemies@[i]).wf(
                self.board.w(),
                self.board.h(),
            ) && self.enemies@[i].ai is EnemyLookupAI
        &&& 0 <= self.player_start.tx < self.board.w()
        &&& 0 <= self.player_start.ty < self.board.h()
        &&& self.box_bonus == BOX_BONUS
        &&& 0 <= self.score
        &&& self.score as int <= 512 * count_painted_tiles(self.board.grid()) + 50
            * count_painted_boxes(self.board.boxes@)
    }

    /// Construct a session from the two load-time texts. Succeeds exactly
    /// when the layout parses, the fixed start tile lies on the board, and
    /// every route line parses against the board; the session then starts
    /// with score zero, the player at the start tile with its history
    /// seeded from the fixed junction below it, and every enemy at the
    /// head of its route.
    pub fn try_new(layout: &str, routes: &str) -> (r: Result<State, AmidarError>)
        ensures
            ({
                let lb = layout.spec_bytes();
                let rb = routes.spec_bytes();
                let lw = split_lines(lb)[0].len() as int;
                let lh = split_lines(lb).len() as int;
                let layout_ok = !Board::spec_try_new_err(lb);
                let start_ok = (PLAYER_START_X as int) < lw && (PLAYER_START_Y as int) < lh;
                let routes_all_ok = forall|i: int|
                    0 <= i < split_lines(rb).len() ==> route_of_line(
                        #[trigger] split_lines(rb)[i],
                        lw * lh,
                    ) is Some;
                &&& (r is Ok <==> layout_ok && start_ok && routes_all_ok)
                &&& crate::parse::has_bad_layout_byte(lb) ==> (exists|i: int|
                    0 <= i < lb.len() && !crate::parse::is_break_byte(lb, i) && !crate::parse::byte_tile_ok(
                        #[trigger] lb[i],
                    ) && r == Err::<State, AmidarError>(AmidarError::InvalidTileChar(
                        lb[i] as char,
                    )))
                &&& (!crate::parse::has_bad_layout_byte(lb) && !crate::parse::layout_shape_ok(lb))
                    ==> r == Err::<State, AmidarError>(AmidarError::MalformedLayout)
                &&& (!crate::parse::has_bad_layout_byte(lb) && crate::parse::layout_shape_ok(lb)
                    && !crate::parse::layout_size_ok(lb)) ==> r == Err::<State, AmidarError>(
                    AmidarError::LayoutTooLarge,
                )
                &&& (layout_ok && !start_ok) ==> r == Err::<State, AmidarError>(
                    AmidarError::MalformedLayout,
                )
                &&& (layout_ok && start_ok && !routes_all_ok) ==> (r->Err_0
                    == AmidarError::EmptyRoute || r->Err_0 == AmidarError::InvalidRouteToken
                    || r->Err_0 == AmidarError::RouteIdOutOfRange)
                &&& r is Ok ==> {
                    let st = r->Ok_0;
                    &&& st.wf()
                    &&& !st.dead
                    &&& !st.game_over
                    &&& st.score == 0
                    &&& st.box_bonus == BOX_BONUS
                    &&& st.player_start == (TilePoint {
                        tx: PLAYER_START_X,
                        ty: PLAYER_START_Y,
                    })
                    &&& st.board.grid() == crate::parse::grid_from_bytes(lb)
                    &&& st.player.position == (WorldPoint {
                        x: ((PLAYER_START_X as int) * 64) as i32,
                        y: ((PLAYER_START_Y as int) * 80) as i32,
                    })
                    &&& st.player.step is None
                    &&& st.player.history@ == (if 0 <= PLAYER_SEED_X < st.board.w() && 0
                        <= PLAYER_SEED_Y < st.board.h() && junction_at(
                        st.board.grid(),
                        st.board.w(),
                        st.board.h(),
                        PLAYER_SEED_X as int,
                        PLAYER_SEED_Y as int,
                    ) {
                        seq![
                            pos_id(
                                st.board.w(),
                                PLAYER_SEED_X as int,
                                PLAYER_SEED_Y as int,
                            ) as u32,
                        ]
                    } else {
                        Seq::<u32>::empty()
                    })
                    &&& st.enemies@.len() == split_lines(rb).len()
                    &&& forall|i: int|
                        0 <= i < st.enemies@.len() ==> (#[trigger] st.enemies@[i]).ai
                            == (MovementAI::EnemyLookupAI {
                            next: 0u32,
                            path: st.enemies@[i].ai->EnemyLookupAI_path,
                        }) && st.enemies@[i].ai->EnemyLookupAI_path@ == route_of_line(
                            split_lines(rb)[i],
                            st.board.w() * st.board.h(),
                        )->Some_0
                    &&& forall|i: int|
                        0 <= i < st.enemies@.len() ==> (#[trigger] st.enemies@[i]).step is None
                            && st.enemies@[i].history@ == Seq::<u32>::empty()
                            && st.enemies@[i].position == (WorldPoint {
                            x: ((crate::mob::tile_of_id(
                                st.board.w(),
                                st.enemies@[i].ai->EnemyLookupAI_path@[0],
                            ).tx as int) * 64) as i32,
                            y: ((crate::mob::tile_of_id(
                                st.board.w(),
                                st.enemies@[i].ai->EnemyLookupAI_path@[0],
                            ).ty as int) * 80) as i32,
                        })
                }
            }),
    {
        let board = match Board::try_new(layout) {
            Ok(b) => b,
            Err(e) => {
                return Err(e);
            },
        };
        // The fixed start tile must lie on the board; a layout too small
        // for it cannot host a session.
        if !(PLAYER_START_X < board.width as i32 && PLAYER_START_Y < board.height as i32) {
            return Err(AmidarError::MalformedLayout);
        }
        proof {
            assert(board.w() * board.h() <= 512 * 512 && board.w() * board.h() >= 1)
                by (nonlinear_arith)
                requires
                    1 <= board.w() <= 512,
                    1 <= board.h() <= 512,
            ;
        }
        let cap = board.width * board.height;
        let routes_parsed = match parse_routes(routes, cap) {
            Ok(rs) => rs,
            Err(e) => {
                return Err(e);
            },
        };
        let mut routes_left = routes_parsed;
        let ghost routes0 = routes_left@;
        let mut enemies: Vec<Mob> = Vec::new();
        let ghost rb = routes.spec_bytes();
        while routes_left.len() > 0
            invariant
                board.wf(),
                cap == board.width * board.height,
                cap as int == board.w() * board.h(),
                routes0.len() == split_lines(rb).len(),
                forall|k: int|
                    0 <= k < routes0.len() ==> route_of_line(
                        #[trigger] split_lines(rb)[k],
                        cap as int,
                    ) is Some,
                forall|k: int|
                    0 <= k < routes0.len() ==> (#[trigger] routes0[k])@ == route_of_line(
                        split_lines(rb)[k],
                        cap as int,
                    )->Some_0,
                forall|k: int|
                    0 <= k < routes0.len() ==> 1 <= (#[trigger] routes0[k])@.len() <= 0x40000001,
                forall|k: int, j: int|
                    0 <= k < routes0.len() && 0 <= j < routes0[k]@.len() ==> (
                    #[trigger] routes0[k]@[j]) < cap,
                enemies@.len() + routes_left@.len() == routes0.len(),
                routes_left@ == routes0.skip(enemies@.len() as int),
                forall|k: int|
                    0 <= k < enemies@.len() ==> (#[trigger] enemies@[k]).wf(board.w(), board.h())
                        && enemies@[k].ai is EnemyLookupAI,
                forall|k: int|
                    0 <= k < enemies@.len() ==> (#[trigger] enemies@[k]).ai->EnemyLookupAI_path@
                        == route_of_line(split_lines(rb)[k], cap as int)->Some_0 && enemies@[k].ai
                        == (MovementAI::EnemyLookupAI {
                        next: 0u32,
                        path: enemies@[k].ai->EnemyLookupAI_path,
                    }),
            decreases routes_left@.len(),
        {
            let ghost k = enemies@.len() as int;
            proof {
                assert(routes_left@[0] == routes0[k]);
            }
            let route = routes_left.remove(0);
            proof {
                assert(routes_left@ =~= routes0.skip(k + 1));
            }
            let enemy = board.make_enemy(route);
            enemies.push(enemy);
        }
        let player_start = TilePoint::new(PLAYER_START_X, PLAYER_START_Y);
        proof {
            assert(PLAYER_START_X * 64 == 1984 && PLAYER_START_Y * 80 == 1200);
        }
        let player = Mob::new_player(player_start.to_world());
        let mut state = State {
            dead: false,
            game_over: false,
            score: 0,
            box_bonus: BOX_BONUS,
            player,
            player_start,
            enemies,
            board,
        };
        proof {
            lemma_count_grid_bound(state.board.grid(), state.board.w());
            lemma_count_painted_boxes_bounds(state.board.boxes@);
        }
        state.reset();
        Ok(state)
    }

    /// Reposition every mob for a fresh life: the player back on the start
    /// tile with its history seeded from the fixed junction below it (when
    /// the board has one), every enemy back at the head of its route. The
    /// board, painting progress and score are untouched.
    pub fn reset(&mut self)
        requires
            old(self).wf(),
        ensures
            final (self).wf(),
            final (self).board == old(self).board,
            final (self).score == old(self).score,
            final (self).dead == old(self).dead,
            final (self).game_over == old(self).game_over,
            final (self).box_bonus == old(self).box_bonus,
            final (self).player_start == old(self).player_start,
            final (self).player.ai is Player,
            final (self).player.step is None,
            final (self).player.position == (WorldPoint {
                x: ((old(self).player_start.tx as int) * 64) as i32,
                y: ((old(self).player_start.ty as int) * 80) as i32,
            }),
            final (self).player.history@ == (if 0 <= PLAYER_SEED_X < old(self).board.w() && 0
                <= PLAYER_SEED_Y < old(self).board.h() && junction_at(
                old(self).board.grid(),
                old(self).board.w(),
                old(self).board.h(),
                PLAYER_SEED_X as int,
                PLAYER_SEED_Y as int,
            ) {
                seq![
                    pos_id(old(self).board.w(), PLAYER_SEED_X as int, PLAYER_SEED_Y as int) as u32,
                ]
            } else {
                Seq::<u32>::empty()
            }),
            final (self).enemies@.len() == old(self).enemies@.len(),
            forall|i: int|
                0 <= i < old(self).enemies@.len() ==> {
                    let oe = old(self).enemies@[i];
                    let ne = #[trigger] final (self).enemies@[i];
                    &&& ne.ai == (MovementAI::EnemyLookupAI {
                        next: 0u32,
                        path: oe.ai->EnemyLookupAI_path,
                    })
                    &&& ne.step is None
                    &&& ne.history@ == Seq::<u32>::empty()
                    &&& ne.position == (WorldPoint {
                        x: ((crate::mob::tile_of_id(
                            old(self).board.w(),
                            oe.ai->EnemyLookupAI_path@[0],
                        ).tx as int) * 64) as i32,
                        y: ((crate::mob::tile_of_id(
                            old(self).board.w(),
                            oe.ai->EnemyLookupAI_path@[0],
                        ).ty as int) * 80) as i32,
                    })
                },
    {
        self.player.reset(&self.player_start, &self.board);
        let seed_tile = TilePoint::new(PLAYER_SEED_X, PLAYER_SEED_Y);
        match self.board.get_junction_id(&seed_tile) {
            Some(j) => {
                proof {
                    lemma_pos_id_inverse(
                        self.board.w(),
                        self.board.h(),
                        PLAYER_SEED_X as int,
                        PLAYER_SEED_Y as int,
                    );
                }
                self.player.history.push_front(j);
            },
            None => {},
        }
        let n = self.enemies.len();
        let ghost psnap = self.player;
        let mut i: usize = 0;
        #[verifier::loop_isolation(false)]
        while i < n
            invariant
                self.board == old(self).board,
                self.player == psnap,
                self.player_start == old(self).player_start,
                self.dead == old(self).dead,
                self.game_over == old(self).game_over,
                self.score == old(self).score,
                self.box_bonus == old(self).box_bonus,
                n == self.enemies@.len(),
                i <= n,
                forall|k: int|
                    i <= k < n ==> #[trigger] self.enemies@[k] == old(self).enemies@[k],
                forall|k: int|
                    0 <= k < n ==> (#[trigger] self.enemies@[k]).ai.wf(
                        self.board.w(),
                        self.board.h(),
                    ) && self.enemies@[k].ai is EnemyLookupAI && self.enemies@[k].speed
                        == MOB_SPEED,
                forall|k: int|
                    0 <= k < i ==> {
                        let oe = old(self).enemies@[k];
                        let ne = #[trigger] self.enemies@[k];
                        &&& ne.wf(self.board.w(), self.board.h())
                        &&& ne.ai == (MovementAI::EnemyLookupAI {
                            next: 0u32,
                            path: oe.ai->EnemyLookupAI_path,
                        })
                        &&& ne.step is None
                        &&& ne.history@ == Seq::<u32>::empty()
                        &&& ne.position == (WorldPoint {
                            x: ((crate::mob::tile_of_id(
                                self.board.w(),
                                oe.ai->EnemyLookupAI_path@[0],
                            ).tx as int) * 64) as i32,
                            y: ((crate::mob::tile_of_id(
                                self.board.w(),
                                oe.ai->EnemyLookupAI_path@[0],
                            ).ty as int) * 80) as i32,
                        })
                    },
            decreases n - i,
        {
            self.enemies[i].reset(&self.player_start, &self.board);
            i = i + 1;
        }
    }

    /// The world extent of the board, one tile wider and taller than the
    /// grid, for a renderer to size its canvas.
    pub fn board_size(&self) -> (r: WorldPoint)
        requires
            self.wf(),
        ensures
            r.x as int == (self.board.w() + 1) * 64,
            r.y as int == (self.board.h() + 1) * 80,
    {
        let th = self.board.height as i32;
        let tw = self.board.width as i32;
        proof {
            assert((tw as int + 1) * 64 <= 513 * 64 && (th as int + 1) * 80 <= 513 * 80)
                by (nonlinear_arith)
                requires
                    tw as int <= 512,
                    th as int <= 512,
            ;
        }
        TilePoint::new(tw + 1, th + 1).to_world()
    }
}

/// Whether enemy `e` stands on the same tile as player `p`.
pub open spec fn player_enemy_coincide(e: Mob, p: Mob) -> bool {
    tile_x_of(e.position) == tile_x_of(p.position) && tile_y_of(e.position) == tile_y_of(
        p.position,
    )
}

/// The exact effect of one tick: the player moves and paints under
/// `buttons` (witnessed by its after-state `pmid` and score record `r`);
/// the first `k` enemies then advance in list order on an empty input set
/// (their after-states in `emid`), the scan stopping at the first enemy
/// whose tile coincides with the player's; that collision — or a dead flag
/// carried into the tick — is resolved by an immediate reset within the
/// same call, and otherwise the moved mobs are the final ones. The score
/// grows by the horizontal length, the sign of the vertical length, and
/// the box bonus per completed box.
pub open spec fn tick_rel(
    pre: State,
    post: State,
    buttons: Seq<Input>,
    pmid: Mob,
    r: Option<ScoreUpdate>,
    emid: Seq<Mob>,
    k: int,
) -> bool {
    &&& crate::mob::mob_update_rel(pre.player, pmid, pre.board, post.board, buttons, r)
    &&& (match r {
        Some(su) => post.score as int == pre.score as int + su.horizontal + (if su.vertical
            > 0 {
            1int
        } else if su.vertical < 0 {
            -1int
        } else {
            0int
        }) + 50 * su.num_boxes,
        None => post.score == pre.score,
    })
    &&& emid.len() == pre.enemies@.len()
    &&& 0 <= k <= emid.len()
    &&& forall|i: int|
        0 <= i < k ==> crate::mob::mob_update_rel(
            pre.enemies@[i],
            #[trigger] emid[i],
            post.board,
            post.board,
            Seq::<Input>::empty(),
            None::<ScoreUpdate>,
        )
    &&& forall|i: int| k <= i < emid.len() ==> #[trigger] emid[i] == pre.enemies@[i]
    &&& forall|i: int| 0 <= i < k - 1 ==> !player_enemy_coincide(#[trigger] emid[i], pmid)
    &&& ({
        let collided = k > 0 && player_enemy_coincide(emid[k - 1], pmid);
        &&& (!collided ==> k == emid.len())
        &&& (if collided || pre.dead {
            reset_outcome(pre, post)
        } else {
            post.player == pmid && post.enemies@ == emid
        })
    })
}

/// Every mob stands back on its start: the player on the start tile with a
/// cleared (then seeded) history, each enemy at the head of its route with
/// its cursor rewound.
pub open spec fn reset_outcome(pre: State, post: State) -> bool {
    let w = pre.board.w();
    let h = pre.board.h();
    &&& post.player.step is None
    &&& post.player.position == (WorldPoint {
        x: ((pre.player_start.tx as int) * 64) as i32,
        y: ((pre.player_start.ty as int) * 80) as i32,
    })
    &&& post.enemies@.len() == pre.enemies@.len()
    &&& forall|i: int|
        0 <= i < pre.enemies@.len() ==> {
            let path = (#[trigger] pre.enemies@[i]).ai->EnemyLookupAI_path;
            &&& post.enemies@[i].ai == (MovementAI::EnemyLookupAI { next: 0u32, path })
            &&& post.enemies@[i].step is None
            &&& post.enemies@[i].history@ == Seq::<u32>::empty()
            &&& post.enemies@[i].position == (WorldPoint {
                x: ((crate::mob::tile_of_id(w, path@[0]).tx as int) * 64) as i32,
                y: ((crate::mob::tile_of_id(w, path@[0]).ty as int) * 80) as i32,
            })
        }
}

impl State {
    /// One simulation tick: the player moves and paints under the given
    /// input, earning its horizontal length, at most one point for a
    /// vertical segment, and the box bonus per completed box; every enemy
    /// then advances on an empty input set; the first enemy sharing the
    /// player's tile ends the life, and the death is resolved by an
    /// immediate reset within the same tick, so the dead flag never
    /// survives a call.
    pub fn update_mut(&mut self, buttons: &[Input])
        requires
            old(self).wf(),
        ensures
            final (self).wf(),
            !final (self).dead,
            final (self).game_over == old(self).game_over,
            final (self).box_bonus == old(self).box_bonus,
            final (self).player_start == old(self).player_start,
            final (self).board.width == old(self).board.width,
            final (self).board.height == old(self).board.height,
            final (self).board.junctions == old(self).board.junctions,
            grid_le(old(self).board.grid(), final (self).board.grid()),
            final (self).board.boxes@.len() == old(self).board.boxes@.len(),
            forall|i: int|
                0 <= i < old(self).board.boxes@.len() ==> {
                    let ob = old(self).board.boxes@[i];
                    let nb = #[trigger] final (self).board.boxes@[i];
                    nb.top_left == ob.top_left && nb.bottom_right == ob.bottom_right && (ob.painted
                        ==> nb.painted)
                },
            final (self).score >= old(self).score,
            final (self).score as int <= old(self).score as int + 512 + 50 * (count_painted_boxes(
                final (self).board.boxes@,
            ) - count_painted_boxes(old(self).board.boxes@)),
            count_painted_tiles(final (self).board.grid()) == count_painted_tiles(
                old(self).board.grid(),
            ) ==> final (self).score == old(self).score,
            final (self).enemies@.len() == old(self).enemies@.len(),
            forall|i: int|
                0 <= i < old(self).enemies@.len() ==> (#[trigger] final (self).enemies@[i])
                    .ai->EnemyLookupAI_path == old(self).enemies@[i].ai->EnemyLookupAI_path,
            exists|pmid: Mob, r: Option<ScoreUpdate>, emid: Seq<Mob>, k: int| #[trigger] tick_rel(
                *old(self),
                *final (self),
                buttons@,
                pmid,
                r,
                emid,
                k,
            ),
    {
        let su_opt = self.player.update(buttons, &mut self.board);
        proof {
            lemma_count_grid_bound(self.board.grid(), self.board.w());
            lemma_count_grid_bound(old(self).board.grid(), old(self).board.w());
            lemma_count_painted_boxes_bounds(self.board.boxes@);
            lemma_count_painted_boxes_bounds(old(self).board.boxes@);
            crate::board::lemma_count_grid_le(old(self).board.grid(), self.board.grid());
            crate::board::lemma_count_boxes_monotone(old(self).board.boxes@, self.board.boxes@);
            let wv = self.board.w();
            let hv = self.board.h();
            assert(hv * wv <= 512 * 512 && wv * hv <= 512 * 512) by (nonlinear_arith)
                requires
                    1 <= wv <= 512,
                    1 <= hv <= 512,
            ;
            assert(count_painted_tiles(self.board.grid()) <= 512 * 512);
            assert(count_painted_boxes(self.board.boxes@) <= 512 * 512);
            assert(512 * count_painted_tiles(self.board.grid()) <= 512 * (512 * 512))
                by (nonlinear_arith)
                requires
                    0 <= count_painted_tiles(self.board.grid()) <= 512 * 512,
            ;
            assert(50 * count_painted_boxes(self.board.boxes@) <= 50 * (512 * 512))
                by (nonlinear_arith)
                requires
                    0 <= count_painted_boxes(self.board.boxes@) <= 512 * 512,
            ;
            if su_opt is Some {
                let c0 = count_painted_tiles(old(self).board.grid());
                let c1 = count_painted_tiles(self.board.grid());
                assert(512 * c0 + 512 <= 512 * c1) by (nonlinear_arith)
                    requires
                        c0 + 1 <= c1,
                ;
            }
        }
        match su_opt {
            Some(sc) => {
                proof {
                    assert(0 <= sc.num_boxes as int <= 512 * 512);
                    assert(50 * (sc.num_boxes as int) <= 50 * (512 * 512)) by (nonlinear_arith)
                        requires
                            0 <= sc.num_boxes as int <= 512 * 512,
                    ;
                }
                self.score = self.score + sc.horizontal;
                self.score = self.score + crate::board::sign_of(sc.vertical);
                self.score = self.score + self.box_bonus * sc.num_boxes;
            },
            None => {},
        }
        let ghost pmid_w = self.player;
        let ghost su_w = su_opt;
        let n = self.enemies.len();
        let ghost psnap = self.player;
        let ghost bsnap = self.board;
        let ghost ssnap = self.score;
        let mut collided = false;
        let mut i: usize = 0;
        #[verifier::loop_isolation(false)]
        while i < n && !collided
            invariant
                self.board == bsnap,
                self.player == psnap,
                self.score == ssnap,
                self.player_start == old(self).player_start,
                self.game_over == old(self).game_over,
                self.box_bonus == old(self).box_bonus,
                self.dead == (old(self).dead || collided),
                n == self.enemies@.len(),
                i <= n,
                forall|k: int|
                    0 <= k < n ==> (#[trigger] self.enemies@[k]).wf(
                        self.board.w(),
                        self.board.h(),
                    ) && self.enemies@[k].ai is EnemyLookupAI
                        && self.enemies@[k].ai->EnemyLookupAI_path == old(
                        self,
                    ).enemies@[k].ai->EnemyLookupAI_path,
                forall|t: int|
                    0 <= t < i ==> crate::mob::mob_update_rel(
                        old(self).enemies@[t],
                        #[trigger] self.enemies@[t],
                        bsnap,
                        bsnap,
                        Seq::<Input>::empty(),
                        None::<ScoreUpdate>,
                    ),
                forall|t: int| i <= t < n ==> #[trigger] self.enemies@[t] == old(self).enemies@[t],
                !collided ==> forall|t: int|
                    0 <= t < i ==> !player_enemy_coincide(#[trigger] self.enemies@[t], psnap),
                collided ==> i > 0 && player_enemy_coincide(self.enemies@[i - 1], psnap) && (
                forall|t: int|
                    0 <= t < i - 1 ==> !player_enemy_coincide(#[trigger] self.enemies@[t], psnap)),
            decreases n - i,
        {
            let no_buttons: &[Input] = &[];
            let en_update = self.enemies[i].update(no_buttons, &mut self.board);
            proof {
                assert(no_buttons@ =~= Seq::<Input>::empty());
                assert(en_update is None);
            }
            let ptile = self.player.position.to_tile();
            let etile = self.enemies[i].position.to_tile();
            if ptile.tx == etile.tx && ptile.ty == etile.ty {
                self.dead = true;
                collided = true;
            }
            i = i + 1;
        }
        let ghost emid_w = self.enemies@;
        let ghost k_w = i as int;
        if self.dead {
            self.reset();
            self.dead = false;
        }
        proof {
            assert(tick_rel(*old(self), *self, buttons@, pmid_w, su_w, emid_w, k_w));
        }
    }
}

} // verus!
