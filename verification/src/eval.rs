//! The position evaluator handed to the external search framework: won
//! positions score extreme values, otherwise the difference of the two
//! players' shortest goal distances decides.

use vstd::prelude::*;

use crate::path::{is_goal_path, is_min_goal_dist};
use crate::wall::Wall;
use crate::quorridor::{goal_row, pawn_cell, shortest_path_to_goal, Quorridor};

verus! {

/// `d` is the player's least move count to their goal row over the terrain
/// graph: walls block, pawn occupancy does not.
pub open spec fn has_min_dist(g: Quorridor, player: int, d: int) -> bool {
    is_min_goal_dist(g.walls@, None, pawn_cell(g, player), goal_row(player), d)
}

/// The player's least move count to their goal row, or `default` when no
/// way through exists.
pub open spec fn min_dist_or(g: Quorridor, player: int, default: int) -> int {
    if exists|d: int| has_min_dist(g, player, d) {
        choose|d: int| has_min_dist(g, player, d)
    } else {
        default
    }
}

/// Least goal distances are unique.
pub proof fn lemma_min_dist_unique(
    walls: Seq<Wall>,
    occ: Option<int>,
    start: int,
    gy: int,
    d1: int,
    d2: int,
)
    requires
        is_min_goal_dist(walls, occ, start, gy, d1),
        is_min_goal_dist(walls, occ, start, gy, d2),
    ensures
        d1 == d2,
{
    let p1 = choose|p: Seq<int>| is_goal_path(walls, occ, start, gy, p) && p.len() == d1 + 1;
    let p2 = choose|p: Seq<int>| is_goal_path(walls, occ, start, gy, p) && p.len() == d2 + 1;
    assert(p1.len() >= d2 + 1);
    assert(p2.len() >= d1 + 1);
}

/// The value of a position from player 0's viewpoint: a win scores
/// `100000`, a loss `-100000`, otherwise a thousandfold of how much
/// farther from home the opponent is.
pub open spec fn eval_spec(g: Quorridor) -> int {
    if g.player_pieces@[0].y >= 8 {
        100000
    } else if g.player_pieces@[1].y <= 0 {
        -100000
    } else {
        (min_dist_or(g, 1, 1000) - min_dist_or(g, 0, 1000)) * 1000
    }
}

/// Score the position for the search framework, from player 0's viewpoint.
pub fn evaluate_state(game: &Quorridor) -> (r: i64)
    requires
        game.wf(),
    ensures
        r == eval_spec(*game),
{
    if game.player_pieces[0].y >= 8 {
        return 100000;
    }
    if game.player_pieces[1].y <= 0 {
        return -100000;
    }
    let r0 = shortest_path_to_goal(game, 0);
    let r1 = shortest_path_to_goal(game, 1);
    let p0d: i64 = match r0 {
        Some(d) => d as i64,
        None => 1000,
    };
    let p1d: i64 = match r1 {
        Some(d) => d as i64,
        None => 1000,
    };
    proof {
        match r0 {
            Some(d) => {
                assert(has_min_dist(*game, 0, d as int));
                let dd = choose|dd: int| has_min_dist(*game, 0, dd);
                lemma_min_dist_unique(game.walls@, None, pawn_cell(*game, 0), goal_row(0),
                    d as int, dd);
            },
            None => {
                if exists|dd: int| has_min_dist(*game, 0, dd) {
                    let dd = choose|dd: int| has_min_dist(*game, 0, dd);
                    let p = choose|p: Seq<int>|
                        is_goal_path(game.walls@, None, pawn_cell(*game, 0), goal_row(0), p)
                            && p.len() == dd + 1;
                    assert(false);
                }
            },
        }
        match r1 {
            Some(d) => {
                assert(has_min_dist(*game, 1, d as int));
                let dd = choose|dd: int| has_min_dist(*game, 1, dd);
                lemma_min_dist_unique(game.walls@, None, pawn_cell(*game, 1), goal_row(1),
                    d as int, dd);
            },
            None => {
                if exists|dd: int| has_min_dist(*game, 1, dd) {
                    let dd = choose|dd: int| has_min_dist(*game, 1, dd);
                    let p = choose|p: Seq<int>|
                        is_goal_path(game.walls@, None, pawn_cell(*game, 1), goal_row(1), p)
                            && p.len() == dd + 1;
                    assert(false);
                }
            },
        }
    }
    (p1d - p0d) * 1000
}

/// Turn a player-0-viewpoint score into the given player's viewpoint.
pub fn interpret_evaluation_for_player(evaln: i64, player: usize) -> (r: i64)
    requires
        player < 2,
        evaln != i64::MIN,
    ensures
        player == 0 ==> r == evaln,
        player == 1 ==> r == -evaln,
{
    if player == 0 {
        evaln
    } else {
        -evaln
    }
}

} // verus!
