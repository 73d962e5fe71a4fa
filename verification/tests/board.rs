use minesweeper_board::{
    generate_board, Board, BoardError, BoardGeometry, Coordinates, RevealOutcome, SplitMix64,
    Tile, TileMap,
};

fn plain() -> BoardGeometry {
    BoardGeometry { origin_x: 0, origin_y: 0, tile_size: 10 }
}

fn classified_map(width: u16, height: u16, bombs: &[(u16, u16)]) -> TileMap {
    let mut places: Vec<u64> =
        bombs.iter().map(|&(x, y)| y as u64 * width as u64 + x as u64).collect();
    places.sort();
    let draws: Vec<u64> = places.iter().enumerate().map(|(i, place)| place - i as u64).collect();
    let mut map = TileMap::generate(width, height).unwrap();
    map.place_drawn_bombs(&draws).unwrap();
    map.compute_neighbor_counts();
    map
}

fn covered_cells(board: &Board) -> Vec<(u16, u16)> {
    let mut cells = Vec::new();
    for y in 0..board.tile_map().height() {
        for x in 0..board.tile_map().width() {
            if board.is_covered(Coordinates::new(x, y)) {
                cells.push((x, y));
            }
        }
    }
    cells
}

fn flagged_cells(board: &Board) -> Vec<(u16, u16)> {
    let mut cells = Vec::new();
    for y in 0..board.tile_map().height() {
        for x in 0..board.tile_map().width() {
            if board.is_flagged(Coordinates::new(x, y)) {
                cells.push((x, y));
            }
        }
    }
    cells
}

#[test]
fn a_new_board_covers_every_cell_and_flags_none() {
    let board = Board::new(classified_map(3, 2, &[(1, 1)]), plain());
    assert_eq!(covered_cells(&board), vec![(0, 0), (1, 0), (2, 0), (0, 1), (1, 1), (2, 1)]);
    assert_eq!(flagged_cells(&board), vec![]);
    assert!(!board.is_covered(Coordinates::new(3, 0)));
    assert!(!board.is_covered(Coordinates::new(0, 2)));
    assert!(!board.is_flagged(Coordinates::new(3, 0)));
    assert_eq!(board.geometry(), plain());
    assert_eq!(board.tile_map().bomb_count(), 1);
}

#[test]
fn a_new_board_numbers_its_covers_row_by_row() {
    let board = Board::new(classified_map(3, 2, &[]), plain());
    assert_eq!(board.get_covered_tile(Coordinates::new(0, 0)), Some(0));
    assert_eq!(board.get_covered_tile(Coordinates::new(2, 0)), Some(2));
    assert_eq!(board.get_covered_tile(Coordinates::new(0, 1)), Some(3));
    assert_eq!(board.get_covered_tile(Coordinates::new(2, 1)), Some(5));
    assert_eq!(board.get_covered_tile(Coordinates::new(3, 1)), None);
}

#[test]
fn attach_handle_replaces_the_handle_of_a_cover() {
    let mut board = Board::new(classified_map(2, 2, &[]), plain());
    assert_eq!(board.attach_handle(Coordinates::new(1, 1), 77), Ok(3));
    assert_eq!(board.get_covered_tile(Coordinates::new(1, 1)), Some(77));
    assert_eq!(board.get_covered_tile(Coordinates::new(0, 1)), Some(2));
    assert_eq!(board.attach_handle(Coordinates::new(1, 1), 78), Ok(77));
    assert_eq!(covered_cells(&board).len(), 4);
    assert_eq!(board.try_uncover_tile(Coordinates::new(1, 1)), Some(78));
}

#[test]
fn attach_handle_refuses_cells_without_a_cover() {
    let mut board = Board::new(classified_map(2, 2, &[(0, 0)]), plain());
    assert_eq!(board.attach_handle(Coordinates::new(2, 0), 9), Err(BoardError::NotCovered));
    board.try_uncover_tile(Coordinates::new(1, 1));
    assert_eq!(board.attach_handle(Coordinates::new(1, 1), 9), Err(BoardError::NotCovered));
    assert!(!board.is_covered(Coordinates::new(1, 1)));
    assert_eq!(covered_cells(&board), vec![(0, 0), (1, 0), (0, 1)]);
}

#[test]
fn toggle_flag_sets_and_clears_a_flag() {
    let mut board = Board::new(classified_map(3, 3, &[(0, 0)]), plain());
    let cell = Coordinates::new(1, 2);
    assert_eq!(board.toggle_flag(cell), Ok(true));
    assert!(board.is_flagged(cell));
    assert_eq!(flagged_cells(&board), vec![(1, 2)]);
    assert_eq!(board.toggle_flag(cell), Ok(false));
    assert!(!board.is_flagged(cell));
    assert_eq!(flagged_cells(&board), vec![]);
}

#[test]
fn flagging_then_unflagging_restores_flags_and_keeps_covers() {
    let mut board = Board::new(classified_map(4, 4, &[(0, 0), (3, 3)]), plain());
    board.toggle_flag(Coordinates::new(0, 0)).unwrap();
    board.toggle_flag(Coordinates::new(2, 1)).unwrap();
    let flags_before = flagged_cells(&board);
    let covers_before = covered_cells(&board);
    for &(x, y) in &[(1u16, 1u16), (2, 1), (0, 0), (3, 3)] {
        let cell = Coordinates::new(x, y);
        let was = board.is_flagged(cell);
        assert_eq!(board.toggle_flag(cell), Ok(!was));
        assert_eq!(covered_cells(&board), covers_before);
        assert_eq!(board.toggle_flag(cell), Ok(was));
        assert_eq!(flagged_cells(&board), flags_before);
        assert_eq!(covered_cells(&board), covers_before);
    }
}

#[test]
fn toggle_flag_fails_on_an_uncovered_cell() {
    let mut board = Board::new(classified_map(3, 3, &[(0, 0)]), plain());
    let cell = Coordinates::new(1, 1);
    board.reveal_tile(cell);
    assert_eq!(board.toggle_flag(cell), Err(BoardError::NotCovered));
    assert!(!board.is_flagged(cell));
    assert_eq!(flagged_cells(&board), vec![]);
}

#[test]
fn toggle_flag_fails_beyond_the_map() {
    let mut board = Board::new(classified_map(3, 3, &[]), plain());
    assert_eq!(board.toggle_flag(Coordinates::new(3, 3)), Err(BoardError::NotCovered));
    assert_eq!(board.try_toggle_mark(Coordinates::new(0, 9)), None);
    assert_eq!(flagged_cells(&board), vec![]);
}

#[test]
fn try_toggle_mark_returns_the_handle_and_the_new_state() {
    let mut board = Board::new(classified_map(3, 3, &[]), plain());
    let cell = Coordinates::new(2, 1);
    assert_eq!(board.try_toggle_mark(cell), Some((5, true)));
    assert_eq!(board.try_toggle_mark(cell), Some((5, false)));
    assert_eq!(board.try_toggle_mark(cell), Some((5, true)));
    assert!(board.is_flagged(cell));
}

#[test]
fn flagged_tiles_are_hidden_from_get_covered_tile() {
    let mut board = Board::new(classified_map(2, 1, &[]), plain());
    let cell = Coordinates::new(1, 0);
    assert_eq!(board.get_covered_tile(cell), Some(1));
    board.toggle_flag(cell).unwrap();
    assert_eq!(board.get_covered_tile(cell), None);
    assert!(board.is_covered(cell));
    board.toggle_flag(cell).unwrap();
    assert_eq!(board.get_covered_tile(cell), Some(1));
}

#[test]
fn try_uncover_tile_removes_one_cover_and_its_flag() {
    let mut board = Board::new(classified_map(3, 3, &[]), plain());
    let cell = Coordinates::new(1, 1);
    board.toggle_flag(cell).unwrap();
    assert_eq!(board.try_uncover_tile(cell), Some(4));
    assert!(!board.is_covered(cell));
    assert!(!board.is_flagged(cell));
    assert_eq!(covered_cells(&board).len(), 8);
    assert_eq!(board.try_uncover_tile(cell), None);
    assert_eq!(covered_cells(&board).len(), 8);
    assert_eq!(board.try_uncover_tile(Coordinates::new(7, 7)), None);
}

#[test]
fn adjacent_covered_lists_the_covered_neighbors() {
    let mut board = Board::new(classified_map(3, 3, &[(0, 0)]), plain());
    let centre = Coordinates::new(1, 1);
    assert_eq!(board.adjacent_covered(centre).len(), 8);
    board.try_uncover_tile(Coordinates::new(0, 1));
    board.toggle_flag(Coordinates::new(2, 2)).unwrap();
    let around: Vec<(u16, u16)> =
        board.adjacent_covered(centre).iter().map(|c| (c.x, c.y)).collect();
    assert_eq!(around, vec![(0, 0), (1, 0), (2, 0), (2, 1), (0, 2), (1, 2), (2, 2)]);
    let corner: Vec<(u16, u16)> =
        board.adjacent_covered(Coordinates::new(2, 2)).iter().map(|c| (c.x, c.y)).collect();
    assert_eq!(corner, vec![(1, 1), (2, 1), (1, 2)]);
}

#[test]
fn adjacent_covered_tiles_gives_the_handles_of_unflagged_covers() {
    let mut board = Board::new(classified_map(3, 3, &[(0, 0)]), plain());
    let centre = Coordinates::new(1, 1);
    assert_eq!(board.adjacent_covered_tiles(centre), vec![0, 1, 2, 3, 5, 6, 7, 8]);
    board.try_uncover_tile(Coordinates::new(0, 1));
    board.toggle_flag(Coordinates::new(2, 2)).unwrap();
    board.attach_handle(Coordinates::new(1, 0), 100).unwrap();
    assert_eq!(board.adjacent_covered_tiles(centre), vec![0, 100, 2, 5, 6, 7]);
    assert_eq!(board.adjacent_covered_tiles(Coordinates::new(0, 0)), vec![100, 4]);
}

#[test]
fn is_won_compares_covers_with_bombs() {
    let mut board = Board::new(classified_map(2, 2, &[(0, 0), (1, 1)]), plain());
    assert!(!board.is_won());
    assert!(!board.is_complete());
    board.reveal_tile(Coordinates::new(1, 0));
    assert!(!board.is_won());
    let last = board.reveal_tile(Coordinates::new(0, 1));
    assert!(matches!(last, RevealOutcome::Uncovered { completed: true, .. }));
    assert!(board.is_won());
    assert!(board.is_complete());
    assert_eq!(covered_cells(&board), vec![(0, 0), (1, 1)]);
}

#[test]
fn a_board_of_bombs_only_is_won_from_the_start() {
    let board = Board::new(classified_map(2, 1, &[(0, 0), (1, 0)]), plain());
    assert!(board.is_won());
}

#[test]
fn generate_board_builds_a_playable_board() {
    let mut rng = SplitMix64::seeded(99);
    let board = generate_board(20, 20, 40, plain(), &mut rng).unwrap();
    assert_eq!(board.tile_map().width(), 20);
    assert_eq!(board.tile_map().height(), 20);
    assert_eq!(board.tile_map().bomb_count(), 40);
    assert_eq!(covered_cells(&board).len(), 400);
    assert_eq!(flagged_cells(&board), vec![]);
    assert!(!board.is_won());
    let mut bombs = 0;
    for y in 0..20u16 {
        for x in 0..20u16 {
            let here = Coordinates::new(x, y);
            let tile = board.tile_map().tile_at(here).unwrap();
            let around = board.tile_map().bomb_count_at(here);
            match tile {
                Tile::Bomb => bombs += 1,
                Tile::Empty => assert_eq!(around, 0),
                Tile::BombNeighbor(n) => assert_eq!(n, around),
            }
        }
    }
    assert_eq!(bombs, 40);
}

#[test]
fn generate_board_refuses_bad_sizes_and_counts() {
    let mut rng = SplitMix64::seeded(1);
    assert!(matches!(
        generate_board(0, 4, 1, plain(), &mut rng),
        Err(BoardError::InvalidDimensions)
    ));
    assert!(matches!(
        generate_board(4, 0, 1, plain(), &mut rng),
        Err(BoardError::InvalidDimensions)
    ));
    assert!(matches!(
        generate_board(0, 0, 100, plain(), &mut rng),
        Err(BoardError::InvalidDimensions)
    ));
    assert!(matches!(
        generate_board(4, 4, 17, plain(), &mut rng),
        Err(BoardError::BombCountExceedsCapacity)
    ));
    assert!(generate_board(4, 4, 16, plain(), &mut rng).is_ok());
    assert!(generate_board(4, 4, 0, plain(), &mut rng).is_ok());
}

#[test]
fn generate_board_is_fixed_by_the_seed() {
    let one = generate_board(12, 8, 20, plain(), &mut SplitMix64::seeded(5)).unwrap();
    let two = generate_board(12, 8, 20, plain(), &mut SplitMix64::seeded(5)).unwrap();
    assert_eq!(one.tile_map().console_output(), two.tile_map().console_output());
}

#[test]
fn marked_tiles_lists_the_flags_in_the_order_set() {
    let mut board = Board::new(classified_map(3, 3, &[]), plain());
    assert!(board.marked_tiles().is_empty());
    board.toggle_flag(Coordinates::new(2, 2)).unwrap();
    board.toggle_flag(Coordinates::new(0, 1)).unwrap();
    board.toggle_flag(Coordinates::new(1, 0)).unwrap();
    board.toggle_flag(Coordinates::new(0, 1)).unwrap();
    assert_eq!(board.marked_tiles(), &vec![Coordinates::new(2, 2), Coordinates::new(1, 0)]);
    board.try_uncover_tile(Coordinates::new(2, 2));
    assert_eq!(board.marked_tiles(), &vec![Coordinates::new(1, 0)]);
}

#[test]
fn unflagging_keeps_the_order_of_the_other_flags() {
    let mut board = Board::new(classified_map(4, 1, &[]), plain());
    for x in [3u16, 0, 2, 1] {
        assert_eq!(board.toggle_flag(Coordinates::new(x, 0)), Ok(true));
    }
    let cells = |board: &Board| -> Vec<u16> { board.marked_tiles().iter().map(|c| c.x).collect() };
    assert_eq!(cells(&board), vec![3, 0, 2, 1]);
    assert_eq!(board.toggle_flag(Coordinates::new(0, 0)), Ok(false));
    assert_eq!(cells(&board), vec![3, 2, 1]);
    assert_eq!(board.toggle_flag(Coordinates::new(0, 0)), Ok(true));
    assert_eq!(cells(&board), vec![3, 2, 1, 0]);
    assert_eq!(board.try_uncover_tile(Coordinates::new(2, 0)), Some(2));
    assert_eq!(cells(&board), vec![3, 1, 0]);
    assert_eq!(board.try_uncover_tile(Coordinates::new(2, 0)), None);
    assert_eq!(board.toggle_flag(Coordinates::new(2, 0)), Err(BoardError::NotCovered));
    assert_eq!(board.toggle_flag(Coordinates::new(9, 9)), Err(BoardError::NotCovered));
    assert_eq!(cells(&board), vec![3, 1, 0]);
}

#[test]
fn a_reveal_leaves_the_flags_in_their_order() {
    let mut board = Board::new(classified_map(4, 4, &[(0, 0)]), plain());
    board.toggle_flag(Coordinates::new(3, 3)).unwrap();
    board.toggle_flag(Coordinates::new(0, 0)).unwrap();
    board.toggle_flag(Coordinates::new(2, 1)).unwrap();
    let before = board.marked_tiles().clone();
    assert_eq!(board.reveal_tile(Coordinates::new(3, 3)), RevealOutcome::Blocked);
    assert_eq!(board.marked_tiles(), &before);
    assert!(matches!(board.reveal_tile(Coordinates::new(3, 0)), RevealOutcome::Uncovered { .. }));
    assert_eq!(board.marked_tiles(), &before);
    assert!(board.is_covered(Coordinates::new(2, 1)));
}

#[test]
fn equal_seeds_give_equal_boards_and_other_seeds_other_boards() {
    let dump = |seed: u64| {
        generate_board(12, 8, 20, plain(), &mut SplitMix64::seeded(seed))
            .unwrap()
            .tile_map()
            .console_output()
    };
    assert_eq!(dump(5), dump(5));
    assert_ne!(dump(5), dump(6));
    let mut rng = SplitMix64::seeded(5);
    generate_board(12, 8, 20, plain(), &mut rng).unwrap();
    let mut reference = SplitMix64::seeded(5);
    reference.draw(20);
    assert_eq!(rng, reference);
    let mut untouched = SplitMix64::seeded(5);
    assert!(generate_board(12, 8, 97, plain(), &mut untouched).is_err());
    assert_eq!(untouched, SplitMix64::seeded(5));
}
