use amidar::board::Board;
use amidar::defaults::default_board_text;
use amidar::geom::TilePoint;

#[test]
fn board_included() {
    let board_ch: Vec<Vec<char>> = default_board_text()
        .lines()
        .map(|line| line.chars().collect::<Vec<char>>())
        .collect();
    for row in board_ch.iter() {
        assert_eq!(Some('='), row.iter().cloned().find(|c| *c == '='));
    }
}

#[test]
fn board_corners() {
    let board = Board::fast_new();
    assert!(board.is_corner(0, 0));
    assert!(board.is_corner(0, 30));
    assert!(board.is_corner(31, 0));
    assert!(board.is_corner(31, 30));
}

#[test]
fn player_start_position() {
    let board = Board::fast_new();
    assert_eq!(TilePoint::new(31, 15), board.lookup_position(511));
    assert!(board.get_junction_id(&TilePoint::new(31, 18)).is_some());
}

#[test]
fn num_grid_boxes() {
    let board = Board::fast_new();
    let mut ordered = board.boxes.clone();
    ordered.sort_by_key(|it| it.top_left.tx + it.top_left.ty * 32);
    for gb in ordered {
        println!("Box-found: {:?}", gb.top_left);
    }
    assert_eq!(board.boxes.len(), 29);
}

#[test]
fn fast_new_matches_parsed_text() {
    let built = Board::fast_new();
    let parsed = Board::try_new(&default_board_text()).unwrap();
    assert_eq!(built.width, parsed.width);
    assert_eq!(built.height, parsed.height);
    for y in 0..31 {
        for x in 0..32 {
            let t = TilePoint::new(x, y);
            assert_eq!(built.get_tile(&t), parsed.get_tile(&t));
        }
    }
    assert_eq!(parsed.boxes.len(), 29);
}

#[test]
fn position_id_round_trip() {
    let board = Board::fast_new();
    for y in 0..31i32 {
        for x in 0..32i32 {
            let t = TilePoint::new(x, y);
            let id = board.tile_id(&t).unwrap();
            assert_eq!(board.lookup_position(id), t);
        }
    }
    assert_eq!(board.tile_id(&TilePoint::new(-1, 0)), None);
    assert_eq!(board.tile_id(&TilePoint::new(0, 31)), None);
}

#[test]
fn corners_are_junctions() {
    let board = Board::fast_new();
    for (x, y) in [(0, 0), (31, 0), (0, 30), (31, 30)] {
        let id = board.get_junction_id(&TilePoint::new(x, y));
        assert!(id.is_some());
    }
}

#[test]
fn painting_is_idempotent() {
    let mut board = Board::fast_new();
    let t = TilePoint::new(3, 0);
    assert!(!board.is_painted(&t));
    assert!(board.paint(&t));
    assert!(board.is_painted(&t));
    assert!(!board.paint(&t));
    assert!(board.is_painted(&t));
    // An empty tile never becomes painted, and out-of-grid painting is a
    // no-op.
    let wall = TilePoint::new(1, 1);
    assert!(!board.paint(&wall));
    assert!(!board.is_painted(&wall));
    assert!(!board.paint(&TilePoint::new(-3, 7)));
}
