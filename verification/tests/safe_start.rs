use minesweeper_board::{
    generate_board_avoiding, BoardError, BoardGeometry, Coordinates, RevealOutcome, SplitMix64,
    Tile, TileMap,
};

fn plain() -> BoardGeometry {
    BoardGeometry { origin_x: 0, origin_y: 0, tile_size: 10 }
}

fn bombs_of(map: &TileMap) -> Vec<(u16, u16)> {
    let mut bombs = Vec::new();
    for y in 0..map.height() {
        for x in 0..map.width() {
            if map.tile_at(Coordinates::new(x, y)) == Ok(Tile::Bomb) {
                bombs.push((x, y));
            }
        }
    }
    bombs
}

#[test]
fn drawn_bombs_skip_the_cells_around_the_avoided_one() {
    // 4 x 3, avoiding (1, 1): free are column 3 only, places 3, 7 and 11.
    let mut map = TileMap::generate(4, 3).unwrap();
    assert_eq!(map.place_drawn_bombs_avoiding(&vec![1, 1], Coordinates::new(1, 1)), Ok(()));
    assert_eq!(bombs_of(&map), vec![(3, 1), (3, 2)]);
    assert_eq!(map.bomb_count(), 2);
}

#[test]
fn avoiding_a_corner_keeps_four_cells_clear() {
    let mut map = TileMap::generate(3, 3).unwrap();
    assert_eq!(
        map.place_drawn_bombs_avoiding(&vec![0, 0, 0, 0, 0], Coordinates::new(0, 0)),
        Ok(())
    );
    assert_eq!(bombs_of(&map), vec![(2, 0), (2, 1), (0, 2), (1, 2), (2, 2)]);
    map.compute_neighbor_counts();
    assert_eq!(map.tile_at(Coordinates::new(0, 0)), Ok(Tile::Empty));
    assert_eq!(map.tile_at(Coordinates::new(1, 1)), Ok(Tile::BombNeighbor(5)));
}

#[test]
fn avoiding_refuses_more_bombs_than_cells_away() {
    let mut map = TileMap::generate(3, 3).unwrap();
    assert_eq!(
        map.place_drawn_bombs_avoiding(&vec![0; 6], Coordinates::new(0, 0)),
        Err(BoardError::BombCountExceedsCapacity)
    );
    assert_eq!(bombs_of(&map), vec![]);
    assert_eq!(map.bomb_count(), 0);
    let mut small = TileMap::generate(3, 3).unwrap();
    assert_eq!(
        small.place_drawn_bombs_avoiding(&vec![0], Coordinates::new(1, 1)),
        Err(BoardError::BombCountExceedsCapacity)
    );
    assert_eq!(small.place_drawn_bombs_avoiding(&vec![], Coordinates::new(1, 1)), Ok(()));
}

#[test]
fn avoiding_a_cell_far_off_the_map_keeps_nothing_clear() {
    let mut map = TileMap::generate(2, 2).unwrap();
    assert_eq!(
        map.place_drawn_bombs_avoiding(&vec![0, 0, 0, 0], Coordinates::new(9, 9)),
        Ok(())
    );
    assert_eq!(map.bomb_count(), 4);
}

#[test]
fn avoiding_a_cell_just_off_the_map_keeps_the_edge_clear() {
    let mut map = TileMap::generate(2, 2).unwrap();
    assert_eq!(
        map.place_drawn_bombs_avoiding(&vec![0, 0, 0], Coordinates::new(2, 0)),
        Err(BoardError::BombCountExceedsCapacity)
    );
    assert_eq!(map.place_drawn_bombs_avoiding(&vec![5, 5], Coordinates::new(2, 0)), Ok(()));
    assert_eq!(bombs_of(&map), vec![(0, 0), (0, 1)]);
}

#[test]
fn place_bombs_avoiding_draws_nothing_when_refused() {
    let mut map = TileMap::generate(4, 4).unwrap();
    let mut rng = SplitMix64::seeded(5);
    assert_eq!(
        map.place_bombs_avoiding(8, &mut rng, Coordinates::new(1, 1)),
        Err(BoardError::BombCountExceedsCapacity)
    );
    assert_eq!(rng, SplitMix64::seeded(5));
    assert_eq!(map.place_bombs_avoiding(7, &mut rng, Coordinates::new(1, 1)), Ok(()));
    let mut reference = SplitMix64::seeded(5);
    reference.draw(7);
    assert_eq!(rng, reference);
    assert_eq!(
        bombs_of(&map),
        vec![(3, 0), (3, 1), (3, 2), (0, 3), (1, 3), (2, 3), (3, 3)]
    );
}

#[test]
fn place_bombs_avoiding_places_what_the_generator_draws() {
    let avoid = Coordinates::new(0, 0);
    let mut map = TileMap::generate(5, 4).unwrap();
    let mut rng = SplitMix64::seeded(31);
    map.place_bombs_avoiding(6, &mut rng, avoid).unwrap();
    let mut drawn = TileMap::generate(5, 4).unwrap();
    drawn.place_drawn_bombs_avoiding(&SplitMix64::seeded(31).draw(6), avoid).unwrap();
    assert_eq!(bombs_of(&map), bombs_of(&drawn));
    assert_eq!(bombs_of(&map).len(), 6);
}

#[test]
fn equal_seeds_give_equal_safe_boards() {
    let first = Coordinates::new(3, 3);
    let one =
        generate_board_avoiding(9, 9, 20, plain(), &mut SplitMix64::seeded(8), first).unwrap();
    let two =
        generate_board_avoiding(9, 9, 20, plain(), &mut SplitMix64::seeded(8), first).unwrap();
    assert_eq!(one.tile_map().console_output(), two.tile_map().console_output());
    let other =
        generate_board_avoiding(9, 9, 20, plain(), &mut SplitMix64::seeded(9), first).unwrap();
    assert_ne!(one.tile_map().console_output(), other.tile_map().console_output());
}

#[test]
fn the_first_reveal_of_a_safe_board_is_empty_and_spreads() {
    for seed in 0..25u64 {
        let first = Coordinates::new((seed % 10) as u16, (seed * 7 % 8) as u16);
        let mut rng = SplitMix64::seeded(seed);
        let mut board = generate_board_avoiding(10, 8, 30, plain(), &mut rng, first).unwrap();
        assert_eq!(board.tile_map().bomb_count(), 30);
        assert_eq!(board.tile_map().tile_at(first), Ok(Tile::Empty));
        for around in first.neighbors() {
            if board.tile_map().contains(around) {
                assert_ne!(board.tile_map().tile_at(around), Ok(Tile::Bomb));
            }
        }
        match board.reveal_tile(first) {
            RevealOutcome::Uncovered { tiles, .. } => {
                assert!(tiles.len() >= 4);
                assert_eq!(tiles[0].coords, first);
            }
            other => panic!("expected Uncovered, got {:?}", other),
        }
    }
}

#[test]
fn a_safe_board_refuses_what_does_not_fit() {
    let mut rng = SplitMix64::seeded(3);
    let centre = Coordinates::new(2, 2);
    assert!(matches!(
        generate_board_avoiding(5, 5, 17, plain(), &mut rng, centre),
        Err(BoardError::BombCountExceedsCapacity)
    ));
    assert!(generate_board_avoiding(5, 5, 16, plain(), &mut rng, centre).is_ok());
    assert!(matches!(
        generate_board_avoiding(0, 5, 0, plain(), &mut rng, centre),
        Err(BoardError::InvalidDimensions)
    ));
    assert!(matches!(
        generate_board_avoiding(5, 0, 99, plain(), &mut rng, centre),
        Err(BoardError::InvalidDimensions)
    ));
}
