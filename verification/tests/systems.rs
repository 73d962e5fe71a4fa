use minesweeper_board::assets::bomb_counter_color;
use minesweeper_board::session::{state_handler, AppState, BoardState, StateChange, StateControlKey};
use minesweeper_board::systems::{
    input_handling, mark_tiles, uncover_tiles, PointerButton, TileRequest,
};
use minesweeper_board::{
    Board, BoardGeometry, Coordinates, RevealOutcome, TileMap, UncoveredTile,
};

fn board_with_bomb_at_origin() -> Board {
    let mut map = TileMap::generate(3, 3).unwrap();
    map.place_drawn_bombs(&vec![0]).unwrap();
    map.compute_neighbor_counts();
    Board::new(map, BoardGeometry { origin_x: -15, origin_y: -15, tile_size: 10 })
}

#[test]
fn left_reveals_and_right_flags_the_cell_under_the_cursor() {
    let board = board_with_bomb_at_origin();
    let pressed = vec![
        PointerButton::Left,
        PointerButton::Other,
        PointerButton::Right,
        PointerButton::Left,
    ];
    // Window 100 x 100: the board spans 35..65; (58, 47) is on cell (2, 1).
    let cell = Coordinates::new(2, 1);
    assert_eq!(
        input_handling(&board, (100, 100), Some((58, 47)), &pressed),
        vec![TileRequest::Trigger(cell), TileRequest::Mark(cell), TileRequest::Trigger(cell)]
    );
}

#[test]
fn presses_off_the_board_or_without_a_cursor_ask_for_nothing() {
    let board = board_with_bomb_at_origin();
    let pressed = vec![PointerButton::Left, PointerButton::Right];
    assert_eq!(input_handling(&board, (100, 100), Some((10, 10)), &pressed), vec![]);
    assert_eq!(input_handling(&board, (100, 100), None, &pressed), vec![]);
    assert_eq!(input_handling(&board, (100, 100), Some((50, 50)), &vec![]), vec![]);
    assert_eq!(
        input_handling(&board, (100, 100), Some((50, 50)), &vec![PointerButton::Other]),
        vec![]
    );
}

#[test]
fn mark_tiles_toggles_each_request_in_turn() {
    let mut board = board_with_bomb_at_origin();
    board.try_uncover_tile(Coordinates::new(1, 1));
    let events = vec![
        Coordinates::new(0, 0),
        Coordinates::new(1, 1),
        Coordinates::new(2, 2),
        Coordinates::new(0, 0),
        Coordinates::new(9, 9),
        Coordinates::new(0, 0),
    ];
    assert_eq!(
        mark_tiles(&mut board, &events),
        vec![Some((0, true)), None, Some((8, true)), Some((0, false)), None, Some((0, true))]
    );
    assert!(board.is_flagged(Coordinates::new(0, 0)));
    assert!(board.is_flagged(Coordinates::new(2, 2)));
    assert!(!board.is_flagged(Coordinates::new(1, 1)));
    assert_eq!(mark_tiles(&mut board, &vec![]), vec![]);
}

#[test]
fn uncover_tiles_reveals_each_trigger_in_turn() {
    let mut board = board_with_bomb_at_origin();
    board.toggle_flag(Coordinates::new(2, 2)).unwrap();
    let triggers = vec![
        Coordinates::new(2, 2),
        Coordinates::new(1, 1),
        Coordinates::new(1, 1),
        Coordinates::new(0, 0),
        Coordinates::new(5, 5),
    ];
    let outcomes = uncover_tiles(&mut board, &triggers);
    assert_eq!(
        outcomes,
        vec![
            RevealOutcome::Blocked,
            RevealOutcome::Uncovered {
                tiles: vec![UncoveredTile { coords: Coordinates::new(1, 1), handle: 4 }],
                completed: false,
            },
            RevealOutcome::AlreadyRevealed,
            RevealOutcome::HitBomb {
                tile: UncoveredTile { coords: Coordinates::new(0, 0), handle: 0 },
                completed: false,
            },
            RevealOutcome::AlreadyRevealed,
        ]
    );
    assert!(board.is_covered(Coordinates::new(2, 2)));
    assert!(!board.is_covered(Coordinates::new(0, 0)));
}

#[test]
fn uncover_tiles_finishes_each_cascade_before_the_next_trigger() {
    let mut board = board_with_bomb_at_origin();
    let outcomes =
        uncover_tiles(&mut board, &vec![Coordinates::new(2, 2), Coordinates::new(2, 0)]);
    assert_eq!(outcomes.len(), 2);
    match &outcomes[0] {
        RevealOutcome::Uncovered { tiles, completed } => {
            assert_eq!(tiles.len(), 8);
            assert!(*completed);
        }
        other => panic!("expected Uncovered, got {:?}", other),
    }
    assert_eq!(outcomes[1], RevealOutcome::AlreadyRevealed);
    assert!(board.is_won());
}

#[test]
fn session_keys_move_between_states() {
    let (in_game, paused) = (AppState::InGame, AppState::Paused);
    let (active, inactive) = (BoardState::Active, BoardState::Inactive);
    let (c, g, esc) = (StateControlKey::C, StateControlKey::G, StateControlKey::Esc);
    let nothing = StateChange { message: None, app: None, board: None };
    assert_eq!(
        state_handler(in_game, inactive, g),
        StateChange { message: Some("Starting game"), app: None, board: Some(active) }
    );
    assert_eq!(
        state_handler(in_game, active, g),
        StateChange { message: Some("Restarting game"), app: None, board: Some(active) }
    );
    assert_eq!(
        state_handler(in_game, active, esc),
        StateChange { message: Some("Pausing game"), app: Some(paused), board: None }
    );
    assert_eq!(
        state_handler(paused, active, esc),
        StateChange { message: Some("Unpausing game"), app: Some(in_game), board: None }
    );
    assert_eq!(
        state_handler(in_game, active, c),
        StateChange { message: Some("Stopping game"), app: None, board: Some(inactive) }
    );
    assert_eq!(state_handler(in_game, inactive, c), nothing);
    assert_eq!(state_handler(in_game, inactive, esc), nothing);
    assert_eq!(state_handler(paused, active, g), nothing);
    assert_eq!(state_handler(paused, active, c), nothing);
    assert_eq!(state_handler(paused, inactive, g), nothing);
    assert_eq!(state_handler(paused, inactive, c), nothing);
    assert_eq!(state_handler(paused, inactive, esc), nothing);
}

#[test]
fn session_starts_in_game_without_a_board() {
    assert_eq!(AppState::default(), AppState::InGame);
    assert_eq!(BoardState::default(), BoardState::Inactive);
}

#[test]
fn the_first_pressed_control_key_counts() {
    assert_eq!(StateControlKey::pressed(true, true, true), Some(StateControlKey::C));
    assert_eq!(StateControlKey::pressed(false, true, true), Some(StateControlKey::G));
    assert_eq!(StateControlKey::pressed(false, false, true), Some(StateControlKey::Esc));
    assert_eq!(StateControlKey::pressed(true, false, false), Some(StateControlKey::C));
    assert_eq!(StateControlKey::pressed(false, false, false), None);
}

#[test]
fn counter_colors_follow_the_count() {
    let palette = vec!["white", "green", "yellow", "orange", "purple"];
    assert_eq!(bomb_counter_color(&palette, 1, "none"), "white");
    assert_eq!(bomb_counter_color(&palette, 2, "none"), "green");
    assert_eq!(bomb_counter_color(&palette, 5, "none"), "purple");
    assert_eq!(bomb_counter_color(&palette, 6, "none"), "none");
    assert_eq!(bomb_counter_color(&palette, 8, "none"), "none");
    assert_eq!(bomb_counter_color(&palette, 255, "none"), "none");
    assert_eq!(bomb_counter_color(&palette, 0, "none"), "white");
    assert_eq!(bomb_counter_color(&Vec::<u32>::new(), 1, 7), 7);
}

#[test]
fn create_board_names_the_first_empty_cell_for_a_safe_start() {
    use_create_board_with_safe_start(true);
    use_create_board_with_safe_start(false);
}

fn use_create_board_with_safe_start(safe_start: bool) {
    let geometry = BoardGeometry { origin_x: 3, origin_y: -4, tile_size: 12 };
    for seed in 0..10u64 {
        let options = minesweeper_board::systems::BoardOptions {
            map_size: (8, 6),
            bomb_count: 9,
            safe_start,
        };
        let mut rng = minesweeper_board::SplitMix64::seeded(seed);
        let (board, first) =
            minesweeper_board::systems::create_board(&options, geometry, &mut rng).unwrap();
        assert_eq!(board.tile_map().width(), 8);
        assert_eq!(board.tile_map().height(), 6);
        assert_eq!(board.tile_map().bomb_count(), 9);
        assert_eq!(board.geometry(), geometry);
        assert!(!board.is_won());
        if safe_start {
            let mut expected = None;
            'rows: for y in 0..6 {
                for x in 0..8 {
                    let c = Coordinates::new(x, y);
                    if board.tile_map().tile_at(c) == Ok(minesweeper_board::Tile::Empty) {
                        expected = Some(c);
                        break 'rows;
                    }
                }
            }
            assert_eq!(first, expected);
        } else {
            assert_eq!(first, None);
        }
    }
}

#[test]
fn create_board_refuses_bad_options() {
    let geometry = BoardGeometry { origin_x: 0, origin_y: 0, tile_size: 1 };
    let mut rng = minesweeper_board::SplitMix64::seeded(0);
    let no_columns =
        minesweeper_board::systems::BoardOptions { map_size: (0, 6), bomb_count: 0, safe_start: true };
    assert!(matches!(
        minesweeper_board::systems::create_board(&no_columns, geometry, &mut rng),
        Err(minesweeper_board::BoardError::InvalidDimensions)
    ));
    let crowded =
        minesweeper_board::systems::BoardOptions { map_size: (3, 3), bomb_count: 10, safe_start: false };
    assert!(matches!(
        minesweeper_board::systems::create_board(&crowded, geometry, &mut rng),
        Err(minesweeper_board::BoardError::BombCountExceedsCapacity)
    ));
    let full =
        minesweeper_board::systems::BoardOptions { map_size: (3, 3), bomb_count: 9, safe_start: true };
    let (board, first) =
        minesweeper_board::systems::create_board(&full, geometry, &mut rng).unwrap();
    assert_eq!(first, None);
    assert!(board.is_won());
}

#[test]
fn trigger_event_handler_names_the_covers_that_triggers_hit() {
    let mut board = board_with_bomb_at_origin();
    board.toggle_flag(Coordinates::new(2, 2)).unwrap();
    board.try_uncover_tile(Coordinates::new(1, 0));
    board.attach_handle(Coordinates::new(0, 1), 333).unwrap();
    let events = vec![
        Coordinates::new(0, 0),
        Coordinates::new(2, 2),
        Coordinates::new(1, 0),
        Coordinates::new(0, 1),
        Coordinates::new(4, 4),
        Coordinates::new(0, 0),
    ];
    assert_eq!(
        minesweeper_board::systems::trigger_event_handler(&board, &events),
        vec![0, 333, 0]
    );
    assert_eq!(minesweeper_board::systems::trigger_event_handler(&board, &vec![]), vec![]);
}
