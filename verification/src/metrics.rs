//! Per-turn game metrics for diagnostics: straight-line and walled
//! distances to each goal row, walls spent, and whether the game is over.

use vstd::prelude::*;

use crate::eval::min_dist_or;
use crate::quorridor::{Quorridor, WALLS_PER_PLAYER};

verus! {

/// One row of game diagnostics.
#[derive(Copy, Clone, Debug, PartialEq, Eq, Structural)]
pub struct GameMetrics {
    pub p0_manhattan: i64,
    pub p1_manhattan: i64,
    pub p0_shortest: usize,
    pub p1_shortest: usize,
    pub p0_walls_placed: usize,
    pub p1_walls_placed: usize,
    pub is_terminal: bool,
}

/// Compute the diagnostics of a position.  The straight-line distances
/// count rows to each goal; the shortest distances run over the terrain
/// graph (walls block, pawn occupancy does not) and report zero when the
/// goal row is walled off entirely.
pub fn game_metrics(game: &Quorridor) -> (m: GameMetrics)
    requires
        game.wf(),
    ensures
        m.p0_manhattan == 8 - game.player_pieces@[0].y,
        m.p1_manhattan == game.player_pieces@[1].y,
        m.p0_shortest == min_dist_or(*game, 0, 0),
        m.p1_shortest == min_dist_or(*game, 1, 0),
        m.p0_walls_placed == WALLS_PER_PLAYER - game.walls_remaining@[0],
        m.p1_walls_placed == WALLS_PER_PLAYER - game.walls_remaining@[1],
        m.is_terminal == game.is_terminal(),
{
    let r0 = crate::quorridor::shortest_path_to_goal(game, 0);
    let r1 = crate::quorridor::shortest_path_to_goal(game, 1);
    let p0_shortest: usize = match r0 {
        Some(d) => d,
        None => 0,
    };
    let p1_shortest: usize = match r1 {
        Some(d) => d,
        None => 0,
    };
    proof {
        match r0 {
            Some(d) => {
                assert(crate::eval::has_min_dist(*game, 0, d as int));
                let dd = choose|dd: int| crate::eval::has_min_dist(*game, 0, dd);
                crate::eval::lemma_min_dist_unique(game.walls@, None,
                    crate::quorridor::pawn_cell(*game, 0), crate::quorridor::goal_row(0),
                    d as int, dd);
            },
            None => {
                if exists|dd: int| crate::eval::has_min_dist(*game, 0, dd) {
                    let dd = choose|dd: int| crate::eval::has_min_dist(*game, 0, dd);
                    let p = choose|p: Seq<int>|
                        crate::path::is_goal_path(game.walls@, None,
                            crate::quorridor::pawn_cell(*game, 0), crate::quorridor::goal_row(0),
                            p) && p.len() == dd + 1;
                    assert(false);
                }
            },
        }
        match r1 {
            Some(d) => {
                assert(crate::eval::has_min_dist(*game, 1, d as int));
                let dd = choose|dd: int| crate::eval::has_min_dist(*game, 1, dd);
                crate::eval::lemma_min_dist_unique(game.walls@, None,
                    crate::quorridor::pawn_cell(*game, 1), crate::quorridor::goal_row(1),
                    d as int, dd);
            },
            None => {
                if exists|dd: int| crate::eval::has_min_dist(*game, 1, dd) {
                    let dd = choose|dd: int| crate::eval::has_min_dist(*game, 1, dd);
                    let p = choose|p: Seq<int>|
                        crate::path::is_goal_path(game.walls@, None,
                            crate::quorridor::pawn_cell(*game, 1), crate::quorridor::goal_row(1),
                            p) && p.len() == dd + 1;
                    assert(false);
                }
            },
        }
    }
    GameMetrics {
        p0_manhattan: 8 - game.player_pieces[0].y,
        p1_manhattan: game.player_pieces[1].y,
        p0_shortest,
        p1_shortest,
        p0_walls_placed: WALLS_PER_PLAYER - game.walls_remaining[0],
        p1_walls_placed: WALLS_PER_PLAYER - game.walls_remaining[1],
        is_terminal: game.game_over(),
    }
}

} // verus!
