//! Game-wide laws, proved once and for all: every reachable position keeps
//! both players connected to their goal rows, the wall budget only ever
//! shrinks, and on an empty board the distance between opposite baselines
//! is exactly the board's height in moves.

use vstd::prelude::*;

use crate::engine::{legal_move, transition};
use crate::movegen::active_pawn;
use crate::moves::{is_pawn_move, move_dx, move_dy, Move};
use crate::path::{
    cell_id, cell_y, edge_open, goal_reachable, is_goal_path, is_min_goal_dist, is_path,
    lemma_cell_coords, lemma_cell_id_coords, step_open, valid_step,
};
use crate::quorridor::{
    goal_row, initial_state, pawn_cell, placement_ok, players_connected, Quorridor,
};
use crate::wall::Wall;

verus! {

/// An open edge can be walked in the other direction too.
proof fn lemma_step_one_way(walls: Seq<Wall>, a: int, b: int)
    requires
        step_open(walls, a, b),
    ensures
        step_open(walls, b, a),
{
    lemma_cell_coords(a);
    lemma_cell_coords(b);
}

/// Prepending one admissible step to a path gives a path.
proof fn lemma_prepend_path(walls: Seq<Wall>, occ: Option<int>, c: int, p: Seq<int>)
    requires
        is_path(walls, occ, p),
        valid_step(walls, occ, c, p[0]),
    ensures
        is_path(walls, occ, seq![c] + p),
        (seq![c] + p)[0] == c,
        (seq![c] + p).last() == p.last(),
        (seq![c] + p).len() == p.len() + 1,
{
    let q = seq![c] + p;
    assert forall|i: int| 0 <= i < q.len() - 1 implies #[trigger] valid_step(
        walls,
        occ,
        q[i],
        q[i + 1],
    ) by {
        if i == 0 {
            assert(q[0] == c && q[1] == p[0]);
        } else {
            let j = i - 1;
            assert(valid_step(walls, occ, p[j], p[j + 1]));
            assert(q[i] == p[j] && q[i + 1] == p[j + 1]);
        }
    }
}

/// A cell with an open edge into a goal-connected cell is goal-connected
/// itself.
proof fn lemma_adjacent_reachable(walls: Seq<Wall>, ox: int, oy: int, nx: int, ny: int, gy: int)
    requires
        edge_open(walls, ox, oy, nx, ny),
        goal_reachable(walls, None, cell_id(ox, oy), gy),
    ensures
        goal_reachable(walls, None, cell_id(nx, ny), gy),
{
    lemma_cell_id_coords(ox, oy);
    lemma_cell_id_coords(nx, ny);
    let o = cell_id(ox, oy);
    let n = cell_id(nx, ny);
    assert(step_open(walls, o, n));
    lemma_step_one_way(walls, o, n);
    let p = choose|p: Seq<int>| is_goal_path(walls, None, o, gy, p);
    assert(valid_step(walls, None, n, p[0]));
    lemma_prepend_path(walls, None, n, p);
    assert(is_goal_path(walls, None, n, gy, seq![n] + p));
}

/// The starting position keeps both players connected to their goal rows.
///
/// Law: a fresh game satisfies the connectivity invariant.
pub proof fn lemma_initial_connected(g: Quorridor)
    requires
        initial_state(g),
    ensures
        players_connected(g),
{
    let p0 = Seq::new(9, |i: int| cell_id(4, i));
    assert forall|i: int| 0 <= i < p0.len() - 1 implies #[trigger] valid_step(
        g.walls@,
        None,
        p0[i],
        p0[i + 1],
    ) by {
        lemma_cell_id_coords(4, i);
        lemma_cell_id_coords(4, i + 1);
        assert(edge_open(g.walls@, 4, i, 4, i + 1));
    }
    lemma_cell_id_coords(4, 0);
    lemma_cell_id_coords(4, 8);
    assert(is_path(g.walls@, None, p0));
    assert(p0.last() == cell_id(4, 8));
    assert(is_goal_path(g.walls@, None, pawn_cell(g, 0), goal_row(0), p0));
    let p1 = Seq::new(9, |i: int| cell_id(4, 8 - i));
    assert forall|i: int| 0 <= i < p1.len() - 1 implies #[trigger] valid_step(
        g.walls@,
        None,
        p1[i],
        p1[i + 1],
    ) by {
        lemma_cell_id_coords(4, 8 - i);
        lemma_cell_id_coords(4, 7 - i);
        assert(edge_open(g.walls@, 4, 8 - i, 4, 7 - i));
    }
    assert(is_path(g.walls@, None, p1));
    assert(p1.last() == cell_id(4, 0));
    assert(is_goal_path(g.walls@, None, pawn_cell(g, 1), goal_row(1), p1));
}

/// After a legal pawn move, the moved pawn's new cell is still connected
/// to the mover's goal row.
proof fn lemma_pawn_dest_reachable(g: Quorridor, m: Move)
    requires
        g.wf(),
        legal_move(g, m),
        is_pawn_move(m),
        goal_reachable(g.walls@, None, pawn_cell(g, g.active_player as int), goal_row(
            g.active_player as int,
        )),
    ensures
        goal_reachable(
            g.walls@,
            None,
            cell_id(
                active_pawn(g).x + move_dx(m),
                active_pawn(g).y + move_dy(m),
            ),
            goal_row(g.active_player as int),
        ),
{
    let px = active_pawn(g).x as int;
    let py = active_pawn(g).y as int;
    let gy = goal_row(g.active_player as int);
    assert(pawn_cell(g, g.active_player as int) == cell_id(px, py));
    match m {
        Move::Up => lemma_adjacent_reachable(g.walls@, px, py, px, py - 1, gy),
        Move::Down => lemma_adjacent_reachable(g.walls@, px, py, px, py + 1, gy),
        Move::Left => lemma_adjacent_reachable(g.walls@, px, py, px - 1, py, gy),
        Move::Right => lemma_adjacent_reachable(g.walls@, px, py, px + 1, py, gy),
        Move::UpJump => {
            lemma_adjacent_reachable(g.walls@, px, py, px, py - 1, gy);
            lemma_adjacent_reachable(g.walls@, px, py - 1, px, py - 2, gy);
        },
        Move::DownJump => {
            lemma_adjacent_reachable(g.walls@, px, py, px, py + 1, gy);
            lemma_adjacent_reachable(g.walls@, px, py + 1, px, py + 2, gy);
        },
        Move::LeftJump => {
            lemma_adjacent_reachable(g.walls@, px, py, px - 1, py, gy);
            lemma_adjacent_reachable(g.walls@, px - 1, py, px - 2, py, gy);
        },
        Move::RightJump => {
            lemma_adjacent_reachable(g.walls@, px, py, px + 1, py, gy);
            lemma_adjacent_reachable(g.walls@, px + 1, py, px + 2, py, gy);
        },
        Move::UpLeft => {
            lemma_adjacent_reachable(g.walls@, px, py, px, py - 1, gy);
            lemma_adjacent_reachable(g.walls@, px, py - 1, px - 1, py - 1, gy);
        },
        Move::UpRight => {
            lemma_adjacent_reachable(g.walls@, px, py, px, py - 1, gy);
            lemma_adjacent_reachable(g.walls@, px, py - 1, px + 1, py - 1, gy);
        },
        Move::DownLeft => {
            lemma_adjacent_reachable(g.walls@, px, py, px, py + 1, gy);
            lemma_adjacent_reachable(g.walls@, px, py + 1, px - 1, py + 1, gy);
        },
        Move::DownRight => {
            lemma_adjacent_reachable(g.walls@, px, py, px, py + 1, gy);
            lemma_adjacent_reachable(g.walls@, px, py + 1, px + 1, py + 1, gy);
        },
        Move::LeftUp => {
            lemma_adjacent_reachable(g.walls@, px, py, px - 1, py, gy);
            lemma_adjacent_reachable(g.walls@, px - 1, py, px - 1, py - 1, gy);
        },
        Move::LeftDown => {
            lemma_adjacent_reachable(g.walls@, px, py, px - 1, py, gy);
            lemma_adjacent_reachable(g.walls@, px - 1, py, px - 1, py + 1, gy);
        },
        Move::RightUp => {
            lemma_adjacent_reachable(g.walls@, px, py, px + 1, py, gy);
            lemma_adjacent_reachable(g.walls@, px + 1, py, px + 1, py - 1, gy);
        },
        Move::RightDown => {
            lemma_adjacent_reachable(g.walls@, px, py, px + 1, py, gy);
            lemma_adjacent_reachable(g.walls@, px + 1, py, px + 1, py + 1, gy);
        },
        Move::PlaceWall(..) => {},
    }
}

/// Every legal move preserves the connectivity invariant: after playing
/// it, both players still have a path to their goal rows.
///
/// Law: since the starting position is connected, every position reached
/// by legal play keeps `has_path` true for both players.
pub proof fn lemma_move_preserves_connectivity(pre: Quorridor, post: Quorridor, m: Move)
    requires
        pre.wf(),
        players_connected(pre),
        legal_move(pre, m),
        transition(pre, post, m),
    ensures
        players_connected(post),
{
    let a = pre.active_player as int;
    match m {
        Move::PlaceWall(x, y, o) => {
            let w = Wall { x, y, orientation: o };
            assert(placement_ok(pre, w));
            assert(post.walls@ == pre.walls@.push(w));
            assert(pawn_cell(post, 0) == pawn_cell(pre, 0));
            assert(pawn_cell(post, 1) == pawn_cell(pre, 1));
        },
        _ => {
            assert(is_pawn_move(m));
            lemma_pawn_dest_reachable(pre, m);
            assert(pawn_cell(post, a) == cell_id(
                active_pawn(pre).x + move_dx(m),
                active_pawn(pre).y + move_dy(m),
            ));
            assert(pawn_cell(post, 1 - a) == pawn_cell(pre, 1 - a));
        },
    }
}

/// The wall budget never grows: a pawn move leaves both budgets alone, a
/// wall placement spends exactly one of the mover's budget and none of the
/// opponent's.
pub proof fn lemma_budget_monotone(pre: Quorridor, post: Quorridor, m: Move, p: int)
    requires
        pre.active_player < 2,
        0 <= p < 2,
        transition(pre, post, m),
    ensures
        post.walls_remaining@[p] <= pre.walls_remaining@[p],
        is_pawn_move(m) ==> post.walls_remaining@[p] == pre.walls_remaining@[p],
        m matches Move::PlaceWall(..) ==> post.walls_remaining@[pre.active_player as int]
            == pre.walls_remaining@[pre.active_player as int] - 1 && post.walls_remaining@[1
            - pre.active_player as int] == pre.walls_remaining@[1 - pre.active_player as int],
{
}

/// Each step of a path changes the row number by at most one, so a path's
/// length bounds how far its row number can drift.
proof fn lemma_path_y_bound(walls: Seq<Wall>, occ: Option<int>, p: Seq<int>)
    requires
        is_path(walls, occ, p),
    ensures
        cell_y(p.last()) - cell_y(p[0]) <= p.len() - 1,
        cell_y(p[0]) - cell_y(p.last()) <= p.len() - 1,
    decreases p.len(),
{
    if p.len() > 1 {
        let q = p.drop_last();
        assert forall|i: int| 0 <= i < q.len() - 1 implies #[trigger] valid_step(
            walls,
            occ,
            q[i],
            q[i + 1],
        ) by {
            assert(valid_step(walls, occ, p[i], p[i + 1]));
        }
        assert(is_path(walls, occ, q));
        lemma_path_y_bound(walls, occ, q);
        let j = p.len() - 2;
        assert(valid_step(walls, occ, p[j], p[j + 1]));
        let u = p[j];
        let v = p[j + 1];
        lemma_cell_coords(u);
        lemma_cell_coords(v);
        assert(cell_y(v) - cell_y(u) <= 1 && cell_y(u) - cell_y(v) <= 1);
        assert(q.last() == u && q[0] == p[0]);
    }
}

/// On an empty board a pawn on a baseline cell is exactly eight moves from
/// the opposite baseline: a straight column walk gets there, and no path
/// can climb more than one row per move.
///
/// Law: the shortest empty-board distance from either baseline equals the
/// straight-line distance.
pub proof fn lemma_empty_board_baseline_distance(x: int, player: int)
    requires
        0 <= x < 9,
        0 <= player < 2,
    ensures
        is_min_goal_dist(
            Seq::<Wall>::empty(),
            None,
            cell_id(x, if player == 0 { 0int } else { 8int }),
            goal_row(player),
            8,
        ),
{
    let walls = Seq::<Wall>::empty();
    let y0: int = if player == 0 {
        0
    } else {
        8
    };
    let gy = goal_row(player);
    let p = if player == 0 {
        Seq::new(9, |i: int| cell_id(x, i))
    } else {
        Seq::new(9, |i: int| cell_id(x, 8 - i))
    };
    assert forall|i: int| 0 <= i < p.len() - 1 implies #[trigger] valid_step(
        walls,
        None,
        p[i],
        p[i + 1],
    ) by {
        if player == 0 {
            lemma_cell_id_coords(x, i);
            lemma_cell_id_coords(x, i + 1);
            assert(edge_open(walls, x, i, x, i + 1));
        } else {
            lemma_cell_id_coords(x, 8 - i);
            lemma_cell_id_coords(x, 7 - i);
            assert(edge_open(walls, x, 8 - i, x, 7 - i));
        }
    }
    lemma_cell_id_coords(x, y0);
    lemma_cell_id_coords(x, gy);
    assert(is_path(walls, None, p));
    assert(p[0] == cell_id(x, y0) && p.last() == cell_id(x, gy));
    assert(is_goal_path(walls, None, cell_id(x, y0), gy, p) && p.len() == 8 + 1);
    assert forall|p2: Seq<int>| #[trigger] is_goal_path(walls, None, cell_id(x, y0), gy, p2)
        implies p2.len() >= 9 by {
        lemma_path_y_bound(walls, None, p2);
        lemma_cell_id_coords(x, y0);
    }
}

} // verus!
