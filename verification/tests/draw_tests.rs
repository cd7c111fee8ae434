use amidar::defaults::{default_board_text, default_enemy_routes_text};
use amidar::draw::{Color, Drawable};
use amidar::state::State;

fn default_state() -> State {
    State::try_new(&default_board_text(), default_enemy_routes_text()).unwrap()
}

#[test]
fn frame_layering() {
    let state = default_state();
    let frame = state.draw();
    // Background first, sized to the whole screen.
    assert_eq!(
        frame[0],
        Drawable { color: Color { r: 0, g: 0, b: 0 }, x: 0, y: 0, w: 160, h: 250 }
    );
    // One rectangle per walkable tile of the shipped layout: six full rows
    // of 32, and seven corridor columns over the remaining 25 rows, less
    // the five-tile gap in the second column. Then the player and the
    // four enemies; no box overlay before anything is painted.
    let walkable = 6 * 32 + 25 * 7 - 5;
    assert_eq!(frame.len(), 1 + walkable + 1 + 4);
    // The player rectangle sits over its screen position, offset by the
    // board origin and centered by one pixel.
    let player_rect = frame[1 + walkable];
    assert_eq!(
        player_rect,
        Drawable {
            color: Color { r: 255, g: 255, b: 153 },
            x: 16 + 124 - 1,
            y: 37 + 75 - 1,
            w: 7,
            h: 7,
        }
    );
    // Nothing painted yet: every tile rectangle carries the corridor
    // color.
    for d in &frame[1..1 + walkable] {
        assert_eq!(d.color, Color { r: 148, g: 0, b: 211 });
        assert_eq!((d.w, d.h), (4, 5));
    }
}

#[test]
fn game_over_draws_background_only() {
    let mut state = default_state();
    state.game_over = true;
    let frame = state.draw();
    assert_eq!(frame.len(), 1);
    assert_eq!(frame[0].w, 160);
    assert_eq!(frame[0].h, 250);
}
