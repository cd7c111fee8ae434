use amidar::defaults::{default_board_text, default_enemy_routes_text};
use amidar::errors::AmidarError;
use amidar::geom::{Input, TilePoint};
use amidar::state::State;

fn default_state() -> State {
    State::try_new(&default_board_text(), default_enemy_routes_text()).unwrap()
}

fn tick_n(state: &mut State, buttons: &[Input], n: usize) {
    for _ in 0..n {
        state.update_mut(buttons);
    }
}

#[test]
fn fresh_session_start() {
    let state = default_state();
    assert_eq!(state.score, 0);
    assert!(!state.dead);
    assert!(!state.game_over);
    assert_eq!(state.box_bonus, 50);
    assert_eq!(state.player_start, TilePoint::new(31, 15));
    assert_eq!(state.player.position.to_tile(), TilePoint::new(31, 15));
    assert_eq!(state.enemies.len(), 4);
}

#[test]
fn idle_tick_changes_nothing_for_player() {
    let mut state = default_state();
    let before = state.player.position;
    state.update_mut(&[]);
    assert_eq!(state.player.position, before);
    assert_eq!(state.score, 0);
    assert!(!state.dead);
}

#[test]
fn full_top_edge_awards_its_length() {
    let mut state = default_state();
    // Climb the right edge: three vertical segments, one point each.
    tick_n(&mut state, &[Input::Up], 170);
    assert_eq!(state.player.position.to_tile(), TilePoint::new(31, 0));
    assert_eq!(state.score, 3);
    // Walk the whole top edge: a horizontal run of 31 tiles awards
    // exactly 31 points once freshly painted.
    tick_n(&mut state, &[Input::Left], 290);
    assert_eq!(state.player.position.to_tile(), TilePoint::new(0, 0));
    assert_eq!(state.score, 34);
    // Re-walking the already painted edge awards nothing.
    tick_n(&mut state, &[Input::Right], 290);
    assert_eq!(state.player.position.to_tile(), TilePoint::new(31, 0));
    assert_eq!(state.score, 34);
}

#[test]
fn score_is_monotone_within_a_life() {
    let mut state = default_state();
    let mut last = state.score;
    for i in 0..400 {
        let buttons = if i % 2 == 0 { vec![Input::Up] } else { vec![Input::Left] };
        state.update_mut(&buttons);
        assert!(state.score >= last);
        assert!(state.score >= 0);
        last = state.score;
    }
}

#[test]
fn box_completion_awards_bonus() {
    let mut state = default_state();
    // Trace the whole perimeter of the top-right box, corners (25,0) and
    // (31,6): up the right edge, left along the top, down the inner
    // column, and right along row 6 back to the start column.
    tick_n(&mut state, &[Input::Up], 170);
    assert_eq!(state.player.position.to_tile(), TilePoint::new(31, 0));
    let score_at_top = state.score;
    // 54 ticks bring the player exactly onto the junction at (25, 0);
    // the turn must come with the arrival tick, or the pending step
    // carries it past the corner.
    tick_n(&mut state, &[Input::Left], 54);
    assert_eq!(state.player.position.to_tile(), TilePoint::new(25, 0));
    tick_n(&mut state, &[Input::Down], 66);
    assert_eq!(state.player.position.to_tile(), TilePoint::new(25, 6));
    tick_n(&mut state, &[Input::Right], 60);
    assert_eq!(state.player.position.to_tile(), TilePoint::new(31, 6));
    // Walking up the right edge already painted rows 0..=15 of column 31,
    // so the border is now complete: 6 horizontal points for the top,
    // 1 point per vertical segment, 6 horizontal for the bottom, and the
    // 50-point box bonus with the closing segment.
    assert_eq!(state.score, score_at_top + 6 + 1 + 6 + 50);
    let painted: Vec<_> = state.board.boxes.iter().filter(|b| b.painted).collect();
    assert_eq!(painted.len(), 1);
    assert_eq!(painted[0].top_left, TilePoint::new(25, 0));
    assert_eq!(painted[0].bottom_right, TilePoint::new(31, 6));
}

#[test]
fn collision_resets_same_tick() {
    // One enemy whose route starts on the player's start tile: the very
    // first tick is a collision, resolved by an immediate reset with the
    // dead flag already cleared.
    let routes = "511 543";
    let mut state = State::try_new(&default_board_text(), routes).unwrap();
    let start_world = state.player.position;
    state.update_mut(&[]);
    assert!(!state.dead);
    assert_eq!(state.player.position, start_world);
    assert_eq!(state.player.position.to_tile(), TilePoint::new(31, 15));
    assert_eq!(state.enemies[0].position.to_tile(), TilePoint::new(31, 15));
    assert_eq!(state.score, 0);
}

#[test]
fn reset_keeps_painting_progress() {
    let mut state = default_state();
    tick_n(&mut state, &[Input::Up], 40);
    assert!(state.score > 0);
    let score_before = state.score;
    state.reset();
    assert_eq!(state.score, score_before);
    assert_eq!(state.player.position.to_tile(), TilePoint::new(31, 15));
    // The paint already laid down stays on the board across the reset.
    assert!(state.board.is_painted(&TilePoint::new(31, 16)));
}

#[test]
fn board_size_is_one_tile_beyond_grid() {
    let state = default_state();
    let size = state.board_size();
    assert_eq!(size.x, 33 * 64);
    assert_eq!(size.y, 32 * 80);
}

#[test]
fn bad_layout_and_route_errors() {
    assert!(matches!(
        State::try_new("==\n=x", "0"),
        Err(AmidarError::InvalidTileChar('x'))
    ));
    assert!(matches!(
        State::try_new("===\n==", "0"),
        Err(AmidarError::MalformedLayout)
    ));
    assert!(matches!(
        State::try_new(&default_board_text(), "0 1 banana"),
        Err(AmidarError::InvalidRouteToken)
    ));
    assert!(matches!(
        State::try_new(&default_board_text(), "0 1\n\n2"),
        Err(AmidarError::EmptyRoute)
    ));
    assert!(matches!(
        State::try_new(&default_board_text(), "0 99999"),
        Err(AmidarError::RouteIdOutOfRange)
    ));
    let wide = "=".repeat(600);
    assert!(matches!(
        State::try_new(&wide, "0"),
        Err(AmidarError::LayoutTooLarge)
    ));
}

#[test]
fn crlf_and_whitespace_tolerance() {
    // Carriage-return line endings split rows exactly like bare line
    // feeds, in the layout as well as in the route text.
    let crlf_board = default_board_text().replace('\n', "\r\n");
    let crlf_routes = default_enemy_routes_text().replace('\n', "\r\n");
    let state = State::try_new(&crlf_board, &crlf_routes).unwrap();
    assert_eq!(state.board.width, 32);
    assert_eq!(state.board.height, 31);
    assert_eq!(state.board.boxes.len(), 29);
    assert_eq!(state.enemies.len(), 4);
    // Surrounding whitespace on a route line is ignored; interior double
    // spaces still are a malformed token.
    let padded = State::try_new(&default_board_text(), "  511 543\t").unwrap();
    assert_eq!(padded.enemies.len(), 1);
    assert!(matches!(
        State::try_new(&default_board_text(), "511  543"),
        Err(AmidarError::InvalidRouteToken)
    ));
    // A line of nothing but blanks is an empty route.
    assert!(matches!(
        State::try_new(&default_board_text(), "511 543\n   "),
        Err(AmidarError::EmptyRoute)
    ));
}
