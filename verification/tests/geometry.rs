use minesweeper_board::{Board, BoardGeometry, Coordinates, TileMap};

fn board(width: u16, height: u16, geometry: BoardGeometry) -> Board {
    Board::new(TileMap::generate(width, height).unwrap(), geometry)
}

/// A 4 x 3 board of 10-unit cells centred in a 100 x 80 window: it spans
/// 30..70 across and 25..55 along the other axis.
fn centred() -> Board {
    board(4, 3, BoardGeometry { origin_x: -20, origin_y: -15, tile_size: 10 })
}

#[test]
fn positions_on_the_board_give_their_cell() {
    let board = centred();
    assert_eq!(board.mouse_position(100, 80, 30, 25), Some(Coordinates::new(0, 0)));
    assert_eq!(board.mouse_position(100, 80, 39, 34), Some(Coordinates::new(0, 0)));
    assert_eq!(board.mouse_position(100, 80, 40, 35), Some(Coordinates::new(1, 1)));
    assert_eq!(board.mouse_position(100, 80, 69, 54), Some(Coordinates::new(3, 2)));
    assert_eq!(board.mouse_position(100, 80, 55, 26), Some(Coordinates::new(2, 0)));
}

#[test]
fn positions_off_the_board_give_nothing() {
    let board = centred();
    assert_eq!(board.mouse_position(100, 80, 29, 30), None);
    assert_eq!(board.mouse_position(100, 80, 40, 24), None);
    assert_eq!(board.mouse_position(100, 80, 70, 30), None);
    assert_eq!(board.mouse_position(100, 80, 40, 55), None);
    assert_eq!(board.mouse_position(100, 80, 0, 0), None);
    assert_eq!(board.mouse_position(100, 80, -5, -5), None);
    assert_eq!(board.mouse_position(100, 80, i32::MAX, i32::MAX), None);
    assert_eq!(board.mouse_position(100, 80, i32::MIN, i32::MIN), None);
}

#[test]
fn the_far_edges_belong_to_no_cell() {
    let board = board(2, 2, BoardGeometry { origin_x: 0, origin_y: 0, tile_size: 8 });
    // Window 0 x 0: positions are already relative to the centre.
    assert_eq!(board.mouse_position(0, 0, 15, 15), Some(Coordinates::new(1, 1)));
    assert_eq!(board.mouse_position(0, 0, 16, 15), None);
    assert_eq!(board.mouse_position(0, 0, 15, 16), None);
    assert_eq!(board.mouse_position(0, 0, 0, 0), Some(Coordinates::new(0, 0)));
    assert_eq!(board.mouse_position(0, 0, -1, 0), None);
}

#[test]
fn an_odd_window_extent_shifts_by_half_a_unit() {
    let board = board(2, 1, BoardGeometry { origin_x: 0, origin_y: 0, tile_size: 1 });
    // Window 3 wide: the centre is at 1.5, so position 1 is half a unit
    // left of the origin and position 2 half a unit right of it.
    assert_eq!(board.mouse_position(3, 0, 1, 0), None);
    assert_eq!(board.mouse_position(3, 0, 2, 0), Some(Coordinates::new(0, 0)));
    assert_eq!(board.mouse_position(3, 0, 3, 0), Some(Coordinates::new(1, 0)));
    assert_eq!(board.mouse_position(3, 0, 4, 0), None);
}

#[test]
fn a_board_without_extent_holds_no_position() {
    let board = board(3, 3, BoardGeometry { origin_x: 0, origin_y: 0, tile_size: 0 });
    assert_eq!(board.mouse_position(0, 0, 0, 0), None);
    assert_eq!(board.mouse_position(10, 10, 5, 5), None);
}

#[test]
fn translate_position_agrees_with_mouse_position() {
    let board = centred();
    for x in (0..100).step_by(7) {
        for y in (0..80).step_by(5) {
            assert_eq!(
                board.translate_position((x, y), (100, 80)),
                board.mouse_position(100, 80, x, y)
            );
        }
    }
    assert_eq!(board.translate_position((45, 50), (100, 80)), Some(Coordinates::new(1, 2)));
}

#[test]
fn translating_a_position_leaves_the_board_alone() {
    let board = centred();
    let _ = board.translate_position((45, 50), (100, 80));
    for y in 0..3 {
        for x in 0..4 {
            assert!(board.is_covered(Coordinates::new(x, y)));
        }
    }
}

#[test]
fn extreme_geometry_does_not_overflow() {
    let far = board(
        u16::MAX,
        1,
        BoardGeometry { origin_x: i32::MIN, origin_y: i32::MAX, tile_size: u32::MAX },
    );
    assert_eq!(far.mouse_position(u32::MAX, u32::MAX, i32::MAX, i32::MIN), None);
    assert_eq!(
        far.geometry().locate_cell(u16::MAX, 1, 0, 0, i32::MIN, i32::MAX),
        Some(Coordinates::new(0, 0))
    );
    assert_eq!(
        far.geometry().locate_cell(u16::MAX, 1, 0, 0, i32::MAX, i32::MAX),
        Some(Coordinates::new(1, 0))
    );
}
