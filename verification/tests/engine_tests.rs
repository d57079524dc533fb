use quorridor::encode_move;
use quorridor::eval::{evaluate_state, interpret_evaluation_for_player};
use quorridor::metrics::game_metrics;
use quorridor::path::bfs_min_goal_dist;
use quorridor::wall::walls_share_slot;
use quorridor::{place_wall, shortest_path_to_goal, Move, Orientation, Piece, Quorridor, Wall,
    WallPlacementResult};

fn fresh_game() -> Quorridor {
    Quorridor::default()
}

// The starting position: pawns at the middles of opposite baselines, full
// budgets, player 0 to move, no walls.
#[test]
fn test_default_state() {
    let game = fresh_game();
    assert_eq!(game.player_pieces[0], Piece { x: 4, y: 0 });
    assert_eq!(game.player_pieces[1], Piece { x: 4, y: 8 });
    assert_eq!(game.active_player, 0);
    assert_eq!(game.walls.len(), 0);
    assert_eq!(game.walls_remaining, [9, 9]);
    assert_eq!(game.current_player(), 0);
    assert!(!game.game_over());
}

// Connectivity invariant on concrete play: pawn moves and legal wall
// placements keep both players connected to their goal rows.
#[test]
fn test_connectivity_preserved_over_play() {
    let mut game = fresh_game();
    assert!(game.both_players_have_path());
    game.make_move(&Move::Down);
    assert!(game.both_players_have_path());
    game.make_move(&Move::Up);
    assert!(game.both_players_have_path());
    game.make_move(&Move::PlaceWall(3, 4, Orientation::Horizontal));
    assert!(game.both_players_have_path());
    game.make_move(&Move::PlaceWall(5, 4, Orientation::Horizontal));
    assert!(game.both_players_have_path());
}

// Validator rollback: a rejected placement leaves the state identical.
#[test]
fn test_rejected_placement_leaves_state_unchanged() {
    let mut game = fresh_game();
    place_wall(&mut game, 3, 4, Orientation::Horizontal);
    let before = game.clone();
    assert_eq!(place_wall(&mut game, 3, 4, Orientation::Horizontal),
        WallPlacementResult::Overlaps);
    assert_eq!(game, before);
    assert_eq!(place_wall(&mut game, 3, 4, Orientation::Vertical), WallPlacementResult::Crosses);
    assert_eq!(game, before);
    assert_eq!(place_wall(&mut game, 9, 0, Orientation::Horizontal),
        WallPlacementResult::OutOfBounds);
    assert_eq!(game, before);
}

// Empty-board symmetry: from any baseline cell the walled-free distance to
// the opposite baseline is exactly eight moves, the straight-line count.
#[test]
fn test_empty_board_distance_is_straight_line() {
    let walls: Vec<Wall> = Vec::new();
    for x in 0..9usize {
        // row 0 to row 8
        assert_eq!(bfs_min_goal_dist(&walls, x, 8, None), Some(8));
        // row 8 to row 0
        assert_eq!(bfs_min_goal_dist(&walls, 72 + x, 0, None), Some(8));
    }
}

// Budget monotonicity: exactly one wall spent on success, none on failure.
#[test]
fn test_budget_spent_only_on_success() {
    let mut game = fresh_game();
    assert_eq!(game.walls_remaining[0], 9);
    assert_eq!(place_wall(&mut game, 0, 0, Orientation::Horizontal),
        WallPlacementResult::Success);
    assert_eq!(game.walls_remaining, [8, 9]);
    assert_eq!(place_wall(&mut game, 0, 0, Orientation::Horizontal),
        WallPlacementResult::Overlaps);
    assert_eq!(game.walls_remaining, [8, 9]);
    game.walls_remaining[0] = 0;
    assert_eq!(place_wall(&mut game, 5, 5, Orientation::Horizontal),
        WallPlacementResult::NoWallsRemaining);
    assert_eq!(game.walls_remaining, [0, 9]);
}

// Move-set emptiness on terminal positions.
#[test]
fn test_no_moves_once_terminal() {
    let game = Quorridor {
        player_pieces: [Piece { x: 4, y: 8 }, Piece { x: 0, y: 4 }],
        active_player: 1,
        walls: Vec::new(),
        walls_remaining: [9, 9],
    };
    assert!(game.game_over());
    assert_eq!(game.available_moves().len(), 0);
}

// Crossing symmetry on concrete walls: sharing a slot does not depend on
// the order of the two walls.
#[test]
fn test_crossing_is_symmetric() {
    let a = Wall { x: 4, y: 7, orientation: Orientation::Horizontal };
    let b = Wall { x: 5, y: 6, orientation: Orientation::Vertical };
    assert!(walls_share_slot(a, b));
    assert!(walls_share_slot(b, a));
    let c = Wall { x: 3, y: 6, orientation: Orientation::Vertical };
    assert!(!walls_share_slot(a, c));
    assert!(!walls_share_slot(c, a));
}

// Scenario: a wall in front of player 0 lengthens only player 0's path;
// sealing player 1 in is rejected with BlocksPath.
#[test]
fn test_wall_scenario() {
    let mut game = fresh_game();
    assert_eq!(shortest_path_to_goal(&game, 0), Some(8));
    assert_eq!(shortest_path_to_goal(&game, 1), Some(8));
    // a horizontal wall directly in front of player 0's pawn
    assert_eq!(place_wall(&mut game, 3, 0, Orientation::Horizontal),
        WallPlacementResult::Success);
    assert_eq!(shortest_path_to_goal(&game, 0), Some(9));
    // the blocked edge also sits on player 1's goal row, so their entry
    // shifts one column over
    assert_eq!(shortest_path_to_goal(&game, 1), Some(9));
    // box player 1 in; the sealing wall must be refused
    assert_eq!(place_wall(&mut game, 4, 6, Orientation::Horizontal),
        WallPlacementResult::Success);
    assert_eq!(place_wall(&mut game, 3, 7, Orientation::Vertical), WallPlacementResult::Success);
    let before = game.clone();
    assert_eq!(place_wall(&mut game, 4, 7, Orientation::Vertical),
        WallPlacementResult::BlocksPath);
    assert_eq!(game, before);
    assert!(game.both_players_have_path());
}

// The probe agrees with the mutating validator and leaves the state alone.
#[test]
fn test_validate_wall_move_probe() {
    let mut game = fresh_game();
    assert!(game.validate_wall_move(3, 4, &Orientation::Horizontal));
    assert!(!game.validate_wall_move(9, 4, &Orientation::Horizontal));
    game.walls_remaining[0] = 0;
    assert!(!game.validate_wall_move(3, 4, &Orientation::Horizontal));
}

// wall_blocks_path probes a placement and restores the state.
#[test]
fn test_wall_blocks_path_probe() {
    let mut game = fresh_game();
    assert!(!game.wall_blocks_path(3, 0, Orientation::Horizontal));
    assert_eq!(game.walls.len(), 0);
    place_wall(&mut game, 4, 6, Orientation::Horizontal);
    place_wall(&mut game, 3, 7, Orientation::Vertical);
    let before = game.clone();
    assert!(game.wall_blocks_path(4, 7, Orientation::Vertical));
    assert_eq!(game, before);
}

// Step moves at the start: the baseline pawn cannot leave the board.
#[test]
fn test_movement_moves_initial() {
    let game = fresh_game();
    let moves = game.get_movement_moves();
    assert_eq!(moves, vec![Move::Down, Move::Left, Move::Right]);
}

// A straight jump over the adjacent opponent.
#[test]
fn test_jump_over_opponent() {
    let game = Quorridor {
        player_pieces: [Piece { x: 4, y: 4 }, Piece { x: 4, y: 5 }],
        active_player: 0,
        walls: Vec::new(),
        walls_remaining: [9, 9],
    };
    let specials = game.get_special_moves();
    assert_eq!(specials, vec![Move::DownJump]);
    let steps = game.get_movement_moves();
    assert!(!steps.contains(&Move::Down));
    assert!(steps.contains(&Move::Up));
}

// A wall directly behind the opponent forbids the straight jump and opens
// the two diagonal sidesteps.
#[test]
fn test_diagonal_jumps_when_straight_blocked() {
    let game = Quorridor {
        player_pieces: [Piece { x: 4, y: 4 }, Piece { x: 4, y: 5 }],
        active_player: 0,
        walls: vec![Wall { x: 4, y: 5, orientation: Orientation::Horizontal }],
        walls_remaining: [8, 9],
    };
    let specials = game.get_special_moves();
    assert!(!specials.contains(&Move::DownJump));
    assert!(specials.contains(&Move::DownLeft));
    assert!(specials.contains(&Move::DownRight));
}

// An opponent on the board's rim: the straight jump has nowhere to land,
// and without a wall directly behind the opponent no diagonal sidestep is
// granted either.
#[test]
fn test_no_jumps_at_board_rim() {
    let game = Quorridor {
        player_pieces: [Piece { x: 4, y: 7 }, Piece { x: 4, y: 8 }],
        active_player: 0,
        walls: Vec::new(),
        walls_remaining: [9, 9],
    };
    let specials = game.get_special_moves();
    assert!(specials.is_empty());
}

// Applying a generated move relocates the pawn and passes the turn.
#[test]
fn test_make_move_step() {
    let mut game = fresh_game();
    game.make_move(&Move::Down);
    assert_eq!(game.player_pieces[0], Piece { x: 4, y: 1 });
    assert_eq!(game.player_pieces[1], Piece { x: 4, y: 8 });
    assert_eq!(game.active_player, 1);
}

// Applying a wall move places the wall, spends budget and passes the turn.
#[test]
fn test_make_move_wall() {
    let mut game = fresh_game();
    game.make_move(&Move::PlaceWall(3, 4, Orientation::Horizontal));
    assert_eq!(game.walls.len(), 1);
    assert_eq!(game.walls[0], Wall { x: 3, y: 4, orientation: Orientation::Horizontal });
    assert_eq!(game.walls_remaining, [8, 9]);
    assert_eq!(game.active_player, 1);
}

// On the fresh board every in-bounds wall is legal: 72 anchors per
// orientation, plus the three pawn steps.
#[test]
fn test_available_moves_initial_count() {
    let game = fresh_game();
    let moves = game.available_moves();
    assert_eq!(moves.len(), 147);
    assert!(moves.contains(&Move::Down));
    assert!(moves.contains(&Move::PlaceWall(0, 0, Orientation::Horizontal)));
    assert!(!moves.contains(&Move::PlaceWall(8, 0, Orientation::Horizontal)));
    assert!(moves.contains(&Move::PlaceWall(8, 0, Orientation::Vertical)));
}

// The dense move encoding.
#[test]
fn test_encode_move_values() {
    assert_eq!(encode_move(&Move::Up), 0);
    assert_eq!(encode_move(&Move::Right), 3);
    assert_eq!(encode_move(&Move::RightDown), 15);
    assert_eq!(encode_move(&Move::PlaceWall(3, 4, Orientation::Horizontal)), 84);
    assert_eq!(encode_move(&Move::PlaceWall(3, 4, Orientation::Vertical)), 85);
    assert_eq!(encode_move(&Move::PlaceWall(0, 0, Orientation::Horizontal)), 16);
}

// The position hash reads content, not placement order.
#[test]
fn test_hash_ignores_wall_order() {
    let mut a = fresh_game();
    place_wall(&mut a, 0, 0, Orientation::Horizontal);
    place_wall(&mut a, 2, 0, Orientation::Horizontal);
    let mut b = fresh_game();
    place_wall(&mut b, 2, 0, Orientation::Horizontal);
    place_wall(&mut b, 0, 0, Orientation::Horizontal);
    assert_ne!(a.walls, b.walls);
    assert_eq!(a.hash(), b.hash());
    let c = a.clone();
    assert_eq!(a.hash(), c.hash());
}

// The evaluator: level at the start, extreme on won positions, and turned
// around for player 1.
#[test]
fn test_evaluate_state() {
    let game = fresh_game();
    assert_eq!(evaluate_state(&game), 0);
    let won = Quorridor {
        player_pieces: [Piece { x: 4, y: 8 }, Piece { x: 0, y: 4 }],
        active_player: 1,
        walls: Vec::new(),
        walls_remaining: [9, 9],
    };
    assert_eq!(evaluate_state(&won), 100000);
    let lost = Quorridor {
        player_pieces: [Piece { x: 4, y: 4 }, Piece { x: 4, y: 0 }],
        active_player: 0,
        walls: Vec::new(),
        walls_remaining: [9, 9],
    };
    assert_eq!(evaluate_state(&lost), -100000);
    assert_eq!(interpret_evaluation_for_player(5000, 0), 5000);
    assert_eq!(interpret_evaluation_for_player(5000, 1), -5000);
}

// An asymmetric position tips the evaluation toward the nearer player.
#[test]
fn test_evaluate_state_asymmetric() {
    let game = Quorridor {
        player_pieces: [Piece { x: 4, y: 3 }, Piece { x: 4, y: 8 }],
        active_player: 0,
        walls: Vec::new(),
        walls_remaining: [9, 9],
    };
    // player 0 is five rows from its goal, player 1 eight
    assert_eq!(evaluate_state(&game), (8 - 5) * 1000);
}

// The per-turn diagnostics of the starting position.
#[test]
fn test_game_metrics_initial() {
    let game = fresh_game();
    let m = game_metrics(&game);
    assert_eq!(m.p0_manhattan, 8);
    assert_eq!(m.p1_manhattan, 8);
    assert_eq!(m.p0_shortest, 8);
    assert_eq!(m.p1_shortest, 8);
    assert_eq!(m.p0_walls_placed, 0);
    assert_eq!(m.p1_walls_placed, 0);
    assert!(!m.is_terminal);
}

// Walking into the opponent is not a step; paths may route around them.
#[test]
fn test_has_path_and_collisions() {
    let game = fresh_game();
    assert!(quorridor::has_path_to_goal(&game, 0));
    assert!(quorridor::has_path_to_goal(&game, 1));
    assert!(game.player_collision(0, 4, 8));
    assert!(!game.player_collision(0, 4, 7));
    assert!(!game.wall_collision(3, 4));
    let mut g2 = game.clone();
    place_wall(&mut g2, 3, 4, Orientation::Horizontal);
    assert!(g2.wall_collision(3, 4));
    assert!(g2.wall_collision(4, 4));
    assert!(!g2.wall_collision(5, 4));
}

// The distance query reads terrain only: moving the opponent around does
// not change it, and it agrees with the existence query.
#[test]
fn test_shortest_path_ignores_opponent() {
    let blocking = Quorridor {
        player_pieces: [Piece { x: 4, y: 7 }, Piece { x: 4, y: 8 }],
        active_player: 0,
        walls: Vec::new(),
        walls_remaining: [9, 9],
    };
    let clear = Quorridor {
        player_pieces: [Piece { x: 4, y: 7 }, Piece { x: 0, y: 8 }],
        active_player: 0,
        walls: Vec::new(),
        walls_remaining: [9, 9],
    };
    assert_eq!(shortest_path_to_goal(&blocking, 0), Some(1));
    assert_eq!(shortest_path_to_goal(&clear, 0), Some(1));
    assert_eq!(shortest_path_to_goal(&blocking, 0),
        bfs_min_goal_dist(&blocking.walls, 4 + 7 * 9, 8, None));
    // the search core can still bar a cell for callers that need it
    assert_eq!(bfs_min_goal_dist(&blocking.walls, 4 + 7 * 9, 8, Some(76)), Some(2));
    for p in 0..2usize {
        assert_eq!(quorridor::has_path_to_goal(&blocking, p),
            shortest_path_to_goal(&blocking, p).is_some());
    }
}
