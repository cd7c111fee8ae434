use amidar::board::{ScoreUpdate, Tile};
use amidar::errors::AmidarError;
use amidar::geom::{Direction, TilePoint, WorldPoint};

#[test]
fn direction_deltas() {
    assert_eq!(Direction::Up.delta(), (0, -1));
    assert_eq!(Direction::Down.delta(), (0, 1));
    assert_eq!(Direction::Left.delta(), (-1, 0));
    assert_eq!(Direction::Right.delta(), (1, 0));
}

#[test]
fn world_tile_conversions() {
    // One tile is 64 by 80 world units.
    assert_eq!(TilePoint::new(3, 2).to_world(), WorldPoint::new(192, 160));
    assert_eq!(WorldPoint::new(192, 160).to_tile(), TilePoint::new(3, 2));
    // Mid-tile positions floor down to the containing tile.
    assert_eq!(WorldPoint::new(191, 159).to_tile(), TilePoint::new(2, 1));
    // Negative positions land one tile further toward negative infinity.
    assert_eq!(WorldPoint::new(-1, -1).to_tile(), TilePoint::new(-1, -1));
    // Tile-aligned round trips are exact for non-negative points.
    for (tx, ty) in [(0, 0), (5, 7), (31, 30)] {
        let w = TilePoint::new(tx, ty).to_world();
        assert_eq!(w.to_tile(), TilePoint::new(tx, ty));
    }
}

#[test]
fn world_screen_conversion() {
    let s = WorldPoint::new(192, 160).to_screen();
    assert_eq!(s.pixels(), (12, 10));
    assert_eq!(WorldPoint::new(15, 31).to_screen().pixels(), (0, 1));
}

#[test]
fn point_translation() {
    assert_eq!(TilePoint::new(4, 5).translate(-1, 2), TilePoint::new(3, 7));
    assert_eq!(TilePoint::new(4, 5).step(Direction::Left), TilePoint::new(3, 5));
    assert_eq!(WorldPoint::new(10, 20).translate(8, -8), WorldPoint::new(18, 12));
}

#[test]
fn tile_alphabet() {
    assert_eq!(Tile::new_from_char('='), Ok(Tile::Unpainted));
    assert_eq!(Tile::new_from_char('p'), Ok(Tile::Painted));
    assert_eq!(Tile::new_from_char(' '), Ok(Tile::Empty));
    assert_eq!(
        Tile::new_from_char('?'),
        Err(AmidarError::InvalidTileChar('?'))
    );
    assert!(Tile::Unpainted.walkable());
    assert!(Tile::Painted.walkable());
    assert!(!Tile::Empty.walkable());
}

#[test]
fn score_update_option() {
    let quiet = ScoreUpdate { vertical: 0, horizontal: 0, num_boxes: 0 };
    assert!(!quiet.happened());
    assert!(quiet.into_option().is_none());
    let busy = ScoreUpdate { vertical: 0, horizontal: 5, num_boxes: 1 };
    assert!(busy.happened());
    let back = busy.into_option().unwrap();
    assert_eq!(back.horizontal, 5);
    assert_eq!(back.num_boxes, 1);
}
