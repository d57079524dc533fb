//! The reachability oracle: the terrain graph over cells, admissible paths,
//! and a breadth-first search that answers both "is the goal row reachable"
//! and "how many moves does it take at least".
//!
//! Cells are numbered `0..81`, cell `(x, y)` as `9 * y + x`.  An edge joins
//! orthogonally adjacent cells unless a wall segment lies on the boundary
//! between them.  An optional occupied cell (the opponent's pawn, for
//! occupancy-sensitive callers) may additionally be barred as a target.

use vstd::arithmetic::div_mod::{lemma_fundamental_div_mod, lemma_mod_bound};
use vstd::prelude::*;

use crate::quorridor::{cell_in_bounds, oriented_covers};
use crate::wall::{Orientation, Wall};

verus! {

/// A cell number on the 9x9 board.
pub open spec fn valid_cell(c: int) -> bool {
    0 <= c < 81
}

/// The column of cell number `c`.
pub open spec fn cell_x(c: int) -> int {
    c % 9
}

/// The row of cell number `c`.
pub open spec fn cell_y(c: int) -> int {
    c / 9
}

/// The cell number of column `x`, row `y`.
pub open spec fn cell_id(x: int, y: int) -> int {
    y * 9 + x
}

/// A horizontal wall segment on slot `(x, y)` blocks movement between
/// cells `(x, y)` and `(x, y + 1)`.
pub open spec fn h_blocked(walls: Seq<Wall>, x: int, y: int) -> bool {
    oriented_covers(walls, Orientation::Horizontal, x, y)
}

/// A vertical wall segment on slot `(x, y)` blocks movement between cells
/// `(x, y)` and `(x + 1, y)`.
pub open spec fn v_blocked(walls: Seq<Wall>, x: int, y: int) -> bool {
    oriented_covers(walls, Orientation::Vertical, x, y)
}

/// Cells `(ax, ay)` and `(bx, by)` are orthogonally adjacent, on the board,
/// and no wall lies on their shared boundary.
pub open spec fn edge_open(walls: Seq<Wall>, ax: int, ay: int, bx: int, by: int) -> bool {
    cell_in_bounds(ax, ay) && cell_in_bounds(bx, by) && if bx == ax + 1 && by == ay {
        !v_blocked(walls, ax, ay)
    } else if bx == ax - 1 && by == ay {
        !v_blocked(walls, ax - 1, ay)
    } else if by == ay + 1 && bx == ax {
        !h_blocked(walls, ax, ay)
    } else if by == ay - 1 && bx == ax {
        !h_blocked(walls, ax, ay - 1)
    } else {
        false
    }
}

/// A wall segment lies on the shared boundary of the orthogonally
/// adjacent cells `(ax, ay)` and `(bx, by)`.
pub open spec fn wall_between(walls: Seq<Wall>, ax: int, ay: int, bx: int, by: int) -> bool {
    if bx == ax + 1 && by == ay {
        v_blocked(walls, ax, ay)
    } else if bx == ax - 1 && by == ay {
        v_blocked(walls, ax - 1, ay)
    } else if by == ay + 1 && bx == ax {
        h_blocked(walls, ax, ay)
    } else if by == ay - 1 && bx == ax {
        h_blocked(walls, ax, ay - 1)
    } else {
        false
    }
}

/// `edge_open`, over cell numbers.
pub open spec fn step_open(walls: Seq<Wall>, a: int, b: int) -> bool {
    valid_cell(a) && valid_cell(b) && edge_open(walls, cell_x(a), cell_y(a), cell_x(b), cell_y(b))
}

/// One admissible pawn step from `a` to `b`: the edge is open and `b` is
/// not the barred cell.
pub open spec fn valid_step(walls: Seq<Wall>, occ: Option<int>, a: int, b: int) -> bool {
    step_open(walls, a, b) && occ != Some(b)
}

/// `p` is an admissible path: nonempty, starting on the board, each
/// consecutive pair an admissible step.
pub open spec fn is_path(walls: Seq<Wall>, occ: Option<int>, p: Seq<int>) -> bool {
    &&& p.len() >= 1
    &&& valid_cell(p[0])
    &&& forall|i: int|
        0 <= i < p.len() - 1 ==> #[trigger] valid_step(walls, occ, p[i], p[i + 1])
}

/// An admissible path from `start` that ends on row `gy`.
pub open spec fn is_goal_path(
    walls: Seq<Wall>,
    occ: Option<int>,
    start: int,
    gy: int,
    p: Seq<int>,
) -> bool {
    is_path(walls, occ, p) && p[0] == start && cell_y(p.last()) == gy
}

/// Some admissible path leads from `start` to row `gy`.
pub open spec fn goal_reachable(walls: Seq<Wall>, occ: Option<int>, start: int, gy: int) -> bool {
    exists|p: Seq<int>| is_goal_path(walls, occ, start, gy, p)
}

/// `d` is the least number of steps of any admissible path from `start`
/// to row `gy`.
pub open spec fn is_min_goal_dist(
    walls: Seq<Wall>,
    occ: Option<int>,
    start: int,
    gy: int,
    d: int,
) -> bool {
    &&& exists|p: Seq<int>| is_goal_path(walls, occ, start, gy, p) && p.len() == d + 1
    &&& forall|p: Seq<int>| #[trigger] is_goal_path(walls, occ, start, gy, p) ==> p.len() >= d + 1
}

/// Some admissible path of exactly `d` steps leads from `start` to cell `c`.
#[verifier::opaque]
pub open spec fn reaches(walls: Seq<Wall>, occ: Option<int>, start: int, c: int, d: int) -> bool {
    exists|p: Seq<int>|
        #[trigger] is_path(walls, occ, p) && p[0] == start && p.last() == c && p.len() == d + 1
}

/// Cell numbers decompose uniquely into coordinates.
pub proof fn lemma_cell_coords(c: int)
    requires
        valid_cell(c),
    ensures
        c == cell_id(cell_x(c), cell_y(c)),
        0 <= cell_x(c) < 9,
        0 <= cell_y(c) < 9,
{
    lemma_fundamental_div_mod(c, 9);
    lemma_mod_bound(c, 9);
}

/// Coordinates on the board give back their own cell number.
pub proof fn lemma_cell_id_coords(x: int, y: int)
    requires
        cell_in_bounds(x, y),
    ensures
        valid_cell(cell_id(x, y)),
        cell_x(cell_id(x, y)) == x,
        cell_y(cell_id(x, y)) == y,
{
    let c = cell_id(x, y);
    lemma_fundamental_div_mod(c, 9);
    lemma_mod_bound(c, 9);
}

/// Cell `c` occurs in the queue history.
pub open spec fn in_queue(q: Seq<(usize, usize)>, c: int) -> bool {
    exists|i: int| 0 <= i < q.len() && (#[trigger] q[i]).0 == c
}

/// Cell `c` occurs in the queue history with a distance label at most
/// `bound`.
pub open spec fn labeled_le(q: Seq<(usize, usize)>, c: int, bound: int) -> bool {
    exists|i: int| 0 <= i < q.len() && (#[trigger] q[i]).0 == c && q[i].1 <= bound
}

/// Cell `c` occurs in the still-unprocessed part of the queue.
pub open spec fn pending(q: Seq<(usize, usize)>, head: int, c: int) -> bool {
    exists|i: int| 0 <= i && head <= i < q.len() && (#[trigger] q[i]).0 == c
}

/// No cell occurs twice in the queue history.
pub open spec fn entry_cells_distinct(q: Seq<(usize, usize)>) -> bool {
    forall|i: int, j: int| 0 <= i < j < q.len() ==> (#[trigger] q[i]).0 != (#[trigger] q[j]).0
}

/// Every admissible step away from a processed cell leads to a cell that is
/// already queued, with a label at most one larger.
#[verifier::opaque]
pub open spec fn settled_closed(
    walls: Seq<Wall>,
    occ: Option<int>,
    q: Seq<(usize, usize)>,
    head: int,
) -> bool {
    forall|i: int, n: int|
        0 <= i < head && #[trigger] valid_step(walls, occ, q[i].0 as int, n) ==> labeled_le(
            q,
            n,
            q[i].1 + 1,
        )
}

/// Position `k` of path `p` is where the search has caught up with the
/// path: the cell is queued with a label at most `k`, and it is either the
/// path's end or still unprocessed.
pub open spec fn blocked_at(q: Seq<(usize, usize)>, head: int, p: Seq<int>, k: int) -> bool {
    labeled_le(q, p[k], k) && (k == p.len() - 1 || pending(q, head, p[k]))
}

/// Every admissible path out of `start` has a position where the search
/// has caught up with it.
#[verifier::opaque]
pub open spec fn paths_covered(
    walls: Seq<Wall>,
    occ: Option<int>,
    q: Seq<(usize, usize)>,
    head: int,
    start: int,
) -> bool {
    forall|p: Seq<int>|
        #[trigger] is_path(walls, occ, p) && p[0] == start ==> exists|k: int|
            0 <= k < p.len() && blocked_at(q, head, p, k)
}

/// A queue whose entries carry pairwise distinct valid cells has at most
/// as many entries as the board has cells.
proof fn lemma_queue_len_bound(q: Seq<(usize, usize)>)
    requires
        entry_cells_distinct(q),
        forall|i: int| 0 <= i < q.len() ==> valid_cell((#[trigger] q[i]).0 as int),
    ensures
        q.len() <= 81,
{
    let cells = Seq::new(q.len(), |i: int| q[i].0 as int);
    assert(cells.no_duplicates());
    cells.unique_seq_to_set();
    vstd::set_lib::lemma_int_range(0, 81);
    assert(cells.to_set().subset_of(vstd::set_lib::set_int_range(0, 81))) by {
        assert forall|c: int| cells.to_set().contains(c) implies vstd::set_lib::set_int_range(
            0,
            81,
        ).contains(c) by {
            let i = choose|i: int| 0 <= i < cells.len() && cells[i] == c;
            assert(valid_cell(q[i].0 as int));
        }
    }
    vstd::set_lib::lemma_len_subset(cells.to_set(), vstd::set_lib::set_int_range(0, 81));
}

/// Appending an entry extends, and cannot lose, queue membership facts.
proof fn lemma_queue_push(q: Seq<(usize, usize)>, e: (usize, usize), head: int)
    ensures
        forall|c: int| #[trigger] in_queue(q.push(e), c) == (in_queue(q, c) || c == e.0 as int),
        forall|c: int, b: int|
            #[trigger] labeled_le(q.push(e), c, b) == (labeled_le(q, c, b) || (c == e.0 as int
                && e.1 <= b)),
        forall|c: int|
            #[trigger] pending(q.push(e), head, c) == (pending(q, head, c) || (c == e.0 as int
                && head <= q.len())),
{
    let q2 = q.push(e);
    assert(q2[q.len() as int] == e);
    assert forall|c: int| #[trigger] in_queue(q2, c) == (in_queue(q, c) || c == e.0 as int) by {
        if in_queue(q2, c) {
            let i = choose|i: int| 0 <= i < q2.len() && (#[trigger] q2[i]).0 == c;
            if i < q.len() {
                assert(q[i].0 == c);
            }
        }
        if in_queue(q, c) {
            let i = choose|i: int| 0 <= i < q.len() && (#[trigger] q[i]).0 == c;
            assert(q2[i].0 == c);
        }
        if c == e.0 as int {
            assert(q2[q.len() as int].0 == c);
        }
    }
    assert forall|c: int, b: int|
        #[trigger] labeled_le(q2, c, b) == (labeled_le(q, c, b) || (c == e.0 as int && e.1
            <= b)) by {
        if labeled_le(q2, c, b) {
            let i = choose|i: int| 0 <= i < q2.len() && (#[trigger] q2[i]).0 == c && q2[i].1 <= b;
            if i < q.len() {
                assert(q[i].0 == c && q[i].1 <= b);
            }
        }
        if labeled_le(q, c, b) {
            let i = choose|i: int| 0 <= i < q.len() && (#[trigger] q[i]).0 == c && q[i].1 <= b;
            assert(q2[i].0 == c && q2[i].1 <= b);
        }
        if c == e.0 as int && e.1 <= b {
            assert(q2[q.len() as int].0 == c && q2[q.len() as int].1 <= b);
        }
    }
    assert forall|c: int|
        #[trigger] pending(q2, head, c) == (pending(q, head, c) || (c == e.0 as int && head
            <= q.len())) by {
        if pending(q2, head, c) {
            let i = choose|i: int| 0 <= i && head <= i < q2.len() && (#[trigger] q2[i]).0 == c;
            if i < q.len() {
                assert(0 <= i && head <= i < q.len() && q[i].0 == c);
            }
        }
        if pending(q, head, c) {
            let i = choose|i: int| 0 <= i && head <= i < q.len() && (#[trigger] q[i]).0 == c;
            assert(0 <= i && head <= i < q2.len() && q2[i].0 == c);
        }
        if c == e.0 as int && head <= q.len() {
            assert(0 <= q.len() && head <= q.len() < q2.len() && q2[q.len() as int].0 == c);
        }
    }
}

/// A path of `d` steps extended by one admissible step is a path of
/// `d + 1` steps.
proof fn lemma_extend_reach(
    walls: Seq<Wall>,
    occ: Option<int>,
    start: int,
    c: int,
    d: int,
    n: int,
)
    requires
        reaches(walls, occ, start, c, d),
        valid_step(walls, occ, c, n),
        d >= 0,
    ensures
        reaches(walls, occ, start, n, d + 1),
{
    reveal(reaches);
    let p = choose|p: Seq<int>|
        #[trigger] is_path(walls, occ, p) && p[0] == start && p.last() == c && p.len() == d + 1;
    let p2 = p.push(n);
    assert forall|i: int| 0 <= i < p2.len() - 1 implies #[trigger] valid_step(
        walls,
        occ,
        p2[i],
        p2[i + 1],
    ) by {
        if i < p.len() - 1 {
            assert(valid_step(walls, occ, p[i], p[i + 1]));
            assert(p2[i] == p[i] && p2[i + 1] == p[i + 1]);
        } else {
            assert(p2[i] == p.last() && p2[i + 1] == n);
        }
    }
    assert(is_path(walls, occ, p2));
    assert(p2[0] == start && p2.last() == n && p2.len() == d + 2);
}

/// Walking forward along a path from a queued position, over processed
/// cells, the search's knowledge keeps pace until the path ends or meets a
/// still-unprocessed cell.
proof fn lemma_walk(
    walls: Seq<Wall>,
    occ: Option<int>,
    q: Seq<(usize, usize)>,
    head: int,
    p: Seq<int>,
    k: int,
)
    requires
        is_path(walls, occ, p),
        0 <= k < p.len(),
        labeled_le(q, p[k], k),
        settled_closed(walls, occ, q, head),
        0 <= head <= q.len(),
    ensures
        exists|k2: int| k <= k2 < p.len() && #[trigger] blocked_at(q, head, p, k2),
    decreases p.len() - k,
{
    reveal(settled_closed);
    if k == p.len() - 1 {
        assert(blocked_at(q, head, p, k));
    } else if pending(q, head, p[k]) {
        assert(blocked_at(q, head, p, k));
    } else {
        let j = choose|j: int| 0 <= j < q.len() && (#[trigger] q[j]).0 == p[k] && q[j].1 <= k;
        assert(j < head) by {
            if j >= head {
                assert(pending(q, head, p[k]));
            }
        }
        assert(valid_step(walls, occ, p[k], p[k + 1]));
        assert(valid_step(walls, occ, q[j].0 as int, p[k + 1]));
        assert(labeled_le(q, p[k + 1], q[j].1 + 1));
        let w = choose|w: int|
            0 <= w < q.len() && (#[trigger] q[w]).0 == p[k + 1] && q[w].1 <= q[j].1 + 1;
        assert(labeled_le(q, p[k + 1], k + 1)) by {
            assert(q[w].0 == p[k + 1] && q[w].1 <= k + 1);
        }
        lemma_walk(walls, occ, q, head, p, k + 1);
        let k2 = choose|k2: int| k + 1 <= k2 < p.len() && #[trigger] blocked_at(q, head, p, k2);
        assert(k <= k2 < p.len() && blocked_at(q, head, p, k2));
    }
}

/// A queued cell keeps its label bound when the queue grows on the right.
proof fn lemma_labeled_le_prefix(q1: Seq<(usize, usize)>, q2: Seq<(usize, usize)>, c: int, b: int)
    requires
        labeled_le(q1, c, b),
        q1.len() <= q2.len(),
        forall|i: int| 0 <= i < q1.len() ==> q2[i] == q1[i],
    ensures
        labeled_le(q2, c, b),
{
    let i = choose|i: int| 0 <= i < q1.len() && (#[trigger] q1[i]).0 == c && q1[i].1 <= b;
    assert(q2[i].0 == c && q2[i].1 <= b);
}

/// The spec-level view of the optional barred cell.
pub open spec fn occ_view(occ: Option<usize>) -> Option<int> {
    match occ {
        Some(o) => Some(o as int),
        None => None,
    }
}

/// Appending one freshly visited cell to the search queue preserves every
/// structural search invariant.
proof fn lemma_push_invariants(
    walls: Seq<Wall>,
    occs: Option<int>,
    start: int,
    q: Seq<(usize, usize)>,
    vis: Seq<bool>,
    vis2: Seq<bool>,
    n: usize,
    dn: usize,
)
    requires
        forall|i: int|
            0 <= i < q.len() ==> valid_cell((#[trigger] q[i]).0 as int) && q[i].1 <= i,
        entry_cells_distinct(q),
        vis.len() == 81,
        forall|cc: int| 0 <= cc < 81 ==> #[trigger] vis[cc] == in_queue(q, cc),
        forall|i: int|
            0 <= i < q.len() ==> reaches(walls, occs, start, (#[trigger] q[i]).0 as int,
                q[i].1 as int),
        forall|i: int, j: int| 0 <= i <= j < q.len() ==> (#[trigger] q[i]).1 <= (#[trigger] q[j]).1,
        forall|i: int| 0 <= i < q.len() ==> (#[trigger] q[i]).1 <= dn,
        valid_cell(n as int),
        !vis[n as int],
        reaches(walls, occs, start, n as int, dn as int),
        dn <= q.len(),
        vis2 == vis.update(n as int, true),
    ensures
        forall|i: int|
            0 <= i < q.push((n, dn)).len() ==> valid_cell((#[trigger] q.push((n, dn))[i]).0 as int)
                && q.push((n, dn))[i].1 <= i,
        entry_cells_distinct(q.push((n, dn))),
        vis2.len() == 81,
        forall|cc: int| 0 <= cc < 81 ==> #[trigger] vis2[cc] == in_queue(q.push((n, dn)), cc),
        forall|i: int|
            0 <= i < q.push((n, dn)).len() ==> reaches(walls, occs, start, (#[trigger] q.push(
                (n, dn),
            )[i]).0 as int, q.push((n, dn))[i].1 as int),
        forall|i: int, j: int|
            0 <= i <= j < q.push((n, dn)).len() ==> (#[trigger] q.push((n, dn))[i]).1 <= (
            #[trigger] q.push((n, dn))[j]).1,
        forall|i: int| 0 <= i < q.push((n, dn)).len() ==> (#[trigger] q.push((n, dn))[i]).1 <= dn,
        q.push((n, dn)).len() <= 81,
        in_queue(q.push((n, dn)), n as int),
{
    reveal(reaches);
    let q2 = q.push((n, dn));
    lemma_queue_push(q, (n, dn), 0);
    assert(q2[q.len() as int] == (n, dn));
    assert(!in_queue(q, n as int));
    assert(entry_cells_distinct(q2)) by {
        assert forall|i: int, j: int| 0 <= i < j < q2.len() implies (#[trigger] q2[i]).0 != (
        #[trigger] q2[j]).0 by {
            if j < q.len() {
                assert(q[i].0 != q[j].0);
            } else {
                if q2[i].0 == n {
                    assert(in_queue(q, n as int));
                }
            }
        }
    }
    assert(q2.len() <= 81) by {
        lemma_queue_len_bound(q2);
    }
    assert forall|cc: int| 0 <= cc < 81 implies #[trigger] vis2[cc] == in_queue(q2, cc) by {
        if cc == n as int {
            assert(vis2[cc] && in_queue(q2, cc));
        } else {
            assert(vis2[cc] == vis[cc]);
        }
    }
}

/// Does a wall of orientation `o` cover slot `(x, y)`?
pub fn oriented_collision(walls: &Vec<Wall>, o: Orientation, x: i64, y: i64) -> (r: bool)
    ensures
        r == oriented_covers(walls@, o, x as int, y as int),
{
    let mut k: usize = 0;
    while k < walls.len()
        invariant
            k <= walls@.len(),
            forall|i: int|
                0 <= i < k ==> !(#[trigger] walls@[i].orientation == o && crate::wall::covers(
                    walls@[i],
                    x as int,
                    y as int,
                )),
        decreases walls@.len() - k,
    {
        let w = walls[k];
        if w.orientation == o {
            if crate::wall::wall_covers(w, x, y) {
                return true;
            }
        }
        k = k + 1;
    }
    false
}

/// Popping a queue entry on the goal row: its label is the least length
/// of any admissible path from `start` to row `gy`.
proof fn lemma_pop_is_min(
    walls: Seq<Wall>,
    occs: Option<int>,
    start: int,
    q: Seq<(usize, usize)>,
    head: int,
    gy: int,
)
    requires
        0 <= head < q.len(),
        cell_y(q[head].0 as int) == gy,
        entry_cells_distinct(q),
        forall|i: int, j: int| 0 <= i <= j < q.len() ==> (#[trigger] q[i]).1 <= (#[trigger] q[j]).1,
        forall|i: int| 0 <= i < head ==> cell_y((#[trigger] q[i]).0 as int) != gy,
        paths_covered(walls, occs, q, head, start),
        reaches(walls, occs, start, q[head].0 as int, q[head].1 as int),
    ensures
        is_min_goal_dist(walls, occs, start, gy, q[head].1 as int),
{
    reveal(reaches);
    reveal(paths_covered);
    let c = q[head].0 as int;
    let d = q[head].1 as int;
    let p = choose|p: Seq<int>|
        #[trigger] is_path(walls, occs, p) && p[0] == start && p.last() == c && p.len() == d + 1;
    assert(is_goal_path(walls, occs, start, gy, p));
    assert forall|p2: Seq<int>| #[trigger] is_goal_path(walls, occs, start, gy, p2) implies
        p2.len() >= d + 1 by {
        assert(is_path(walls, occs, p2) && p2[0] == start);
        let k = choose|k: int| 0 <= k < p2.len() && #[trigger] blocked_at(q, head, p2, k);
        let w = choose|w: int| 0 <= w < q.len() && (#[trigger] q[w]).0 == p2[k] && q[w].1 <= k;
        if pending(q, head, p2[k]) {
            let j = choose|j: int|
                0 <= j && head <= j < q.len() && (#[trigger] q[j]).0 == p2[k];
            assert(j == w) by {
                if j < w {
                    assert(q[j].0 != q[w].0);
                }
                if w < j {
                    assert(q[w].0 != q[j].0);
                }
            }
            assert(q[head].1 <= q[j].1);
            assert(d <= k);
        } else {
            assert(k == p2.len() - 1);
            assert(w < head) by {
                if w >= head {
                    assert(pending(q, head, p2[k]));
                }
            }
            assert(cell_y(q[w].0 as int) != gy);
            assert(cell_y(p2[k]) == gy);
            assert(false);
        }
    }
}

/// After settling cell `c` and queueing its unvisited admissible
/// neighbours, every processed entry's neighbourhood is queued.
proof fn lemma_frontier_closed(
    walls: Seq<Wall>,
    occs: Option<int>,
    qtop: Seq<(usize, usize)>,
    q2: Seq<(usize, usize)>,
    h0: int,
    c: usize,
    d: usize,
    vis: Seq<bool>,
)
    requires
        1 <= h0 <= qtop.len(),
        qtop.len() <= q2.len(),
        forall|i: int| 0 <= i < qtop.len() ==> q2[i] == qtop[i],
        qtop[h0 - 1].0 == c,
        qtop[h0 - 1].1 == d,
        valid_cell(c as int),
        settled_closed(walls, occs, qtop, h0 - 1),
        vis.len() == 81,
        forall|cc: int| 0 <= cc < 81 ==> #[trigger] vis[cc] == in_queue(q2, cc),
        forall|i: int| 0 <= i < q2.len() ==> (#[trigger] q2[i]).1 <= d + 1,
        (cell_x(c as int) < 8 && !v_blocked(walls, cell_x(c as int), cell_y(c as int)) && occs
            != Some(c as int + 1)) ==> vis[c as int + 1],
        (cell_x(c as int) > 0 && !v_blocked(walls, cell_x(c as int) - 1, cell_y(c as int)) && occs
            != Some(c as int - 1)) ==> vis[c as int - 1],
        (cell_y(c as int) < 8 && !h_blocked(walls, cell_x(c as int), cell_y(c as int)) && occs
            != Some(c as int + 9)) ==> vis[c as int + 9],
        (cell_y(c as int) > 0 && !h_blocked(walls, cell_x(c as int), cell_y(c as int) - 1) && occs
            != Some(c as int - 9)) ==> vis[c as int - 9],
    ensures
        settled_closed(walls, occs, q2, h0),
{
    reveal(settled_closed);
    lemma_cell_coords(c as int);
    let cx = cell_x(c as int);
    let cy = cell_y(c as int);
    assert forall|i: int, nn: int|
        0 <= i < h0 && #[trigger] valid_step(walls, occs, q2[i].0 as int, nn) implies labeled_le(
        q2,
        nn,
        q2[i].1 + 1,
    ) by {
        if i < h0 - 1 {
            assert(valid_step(walls, occs, qtop[i].0 as int, nn));
            assert(labeled_le(qtop, nn, qtop[i].1 + 1));
            lemma_labeled_le_prefix(qtop, q2, nn, qtop[i].1 + 1);
        } else {
            assert(q2[i].0 == c && q2[i].1 == d);
            assert(step_open(walls, c as int, nn));
            lemma_cell_coords(nn);
            let nx = cell_x(nn);
            let ny = cell_y(nn);
            assert(edge_open(walls, cx, cy, nx, ny));
            if nx == cx + 1 && ny == cy {
                assert(nn == c as int + 1);
                assert(vis[nn]);
            } else if nx == cx - 1 && ny == cy {
                assert(nn == c as int - 1);
                assert(vis[nn]);
            } else if ny == cy + 1 && nx == cx {
                assert(nn == c as int + 9);
                assert(vis[nn]);
            } else {
                assert(ny == cy - 1 && nx == cx);
                assert(nn == c as int - 9);
                assert(vis[nn]);
            }
            assert(in_queue(q2, nn));
            let w = choose|w: int| 0 <= w < q2.len() && (#[trigger] q2[w]).0 == nn;
            assert(q2[w].1 <= d + 1);
            assert(labeled_le(q2, nn, q2[i].1 + 1));
        }
    }
}

/// Advancing the frontier over a settled, closed cell keeps every
/// admissible path covered.
proof fn lemma_paths_covered_step(
    walls: Seq<Wall>,
    occs: Option<int>,
    start: int,
    qtop: Seq<(usize, usize)>,
    q2: Seq<(usize, usize)>,
    h0: int,
)
    requires
        1 <= h0 <= qtop.len(),
        qtop.len() <= q2.len(),
        forall|i: int| 0 <= i < qtop.len() ==> q2[i] == qtop[i],
        paths_covered(walls, occs, qtop, h0 - 1, start),
        settled_closed(walls, occs, q2, h0),
        h0 <= q2.len(),
    ensures
        paths_covered(walls, occs, q2, h0, start),
{
    reveal(paths_covered);
    assert forall|p: Seq<int>|
        #[trigger] is_path(walls, occs, p) && p[0] == start implies exists|k: int|
        0 <= k < p.len() && blocked_at(q2, h0, p, k) by {
        let k0 = choose|k0: int| 0 <= k0 < p.len() && #[trigger] blocked_at(qtop, h0 - 1, p, k0);
        lemma_labeled_le_prefix(qtop, q2, p[k0], k0);
        lemma_walk(walls, occs, q2, h0, p, k0);
        let k2 = choose|k2: int| k0 <= k2 < p.len() && #[trigger] blocked_at(q2, h0, p, k2);
        assert(0 <= k2 < p.len() && blocked_at(q2, h0, p, k2));
    }
}

/// When the queue is exhausted and no processed cell lay on the goal row,
/// no admissible path reaches the goal row at all.
proof fn lemma_exhausted(
    walls: Seq<Wall>,
    occs: Option<int>,
    start: int,
    q: Seq<(usize, usize)>,
    gy: int,
)
    requires
        paths_covered(walls, occs, q, q.len() as int, start),
        forall|i: int| 0 <= i < q.len() ==> cell_y((#[trigger] q[i]).0 as int) != gy,
    ensures
        !goal_reachable(walls, occs, start, gy),
{
    reveal(paths_covered);
    assert forall|p: Seq<int>| !(#[trigger] is_goal_path(walls, occs, start, gy, p)) by {
        if is_goal_path(walls, occs, start, gy, p) {
            assert(is_path(walls, occs, p) && p[0] == start);
            let k = choose|k: int|
                0 <= k < p.len() && #[trigger] blocked_at(q, q.len() as int, p, k);
            assert(!pending(q, q.len() as int, p[k]));
            assert(k == p.len() - 1);
            let w = choose|w: int|
                0 <= w < q.len() && (#[trigger] q[w]).0 == p[k] && q[w].1 <= k;
            assert(cell_y(q[w].0 as int) != gy);
            assert(false);
        }
    }
    if goal_reachable(walls, occs, start, gy) {
        let p = choose|p: Seq<int>| is_goal_path(walls, occs, start, gy, p);
        assert(false);
    }
}

/// If stepping from the just-settled cell `c` onto its neighbour `n` is
/// admissible and `n` is unvisited, mark `n` visited and queue it with
/// label `d + 1`; preserves every structural search invariant.
fn push_neighbor(
    walls: &Vec<Wall>,
    queue: &mut Vec<(usize, usize)>,
    visited: &mut Vec<bool>,
    start: usize,
    c: usize,
    d: usize,
    n: usize,
    occ: Option<usize>,
)
    requires
        valid_cell(c as int),
        valid_cell(n as int),
        step_open(walls@, c as int, n as int),
        old(visited)@.len() == 81,
        old(queue)@.len() <= 81,
        forall|i: int|
            0 <= i < old(queue)@.len() ==> valid_cell((#[trigger] old(queue)@[i]).0 as int) && old(
                queue,
            )@[i].1 <= i,
        entry_cells_distinct(old(queue)@),
        forall|cc: int| 0 <= cc < 81 ==> #[trigger] old(visited)@[cc] == in_queue(old(queue)@, cc),
        forall|i: int|
            0 <= i < old(queue)@.len() ==> reaches(walls@, occ_view(occ), start as int, (
            #[trigger] old(queue)@[i]).0 as int, old(queue)@[i].1 as int),
        forall|i: int, j: int|
            0 <= i <= j < old(queue)@.len() ==> (#[trigger] old(queue)@[i]).1 <= (#[trigger] old(
                queue,
            )@[j]).1,
        forall|i: int| 0 <= i < old(queue)@.len() ==> (#[trigger] old(queue)@[i]).1 <= d + 1,
        reaches(walls@, occ_view(occ), start as int, c as int, d as int),
        d + 1 <= old(queue)@.len(),
    ensures
        final(visited)@.len() == 81,
        final(queue)@.len() >= old(queue)@.len(),
        forall|i: int| 0 <= i < old(queue)@.len() ==> final(queue)@[i] == old(queue)@[i],
        final(queue)@.len() <= 81,
        forall|i: int|
            0 <= i < final(queue)@.len() ==> valid_cell((#[trigger] final(queue)@[i]).0 as int)
                && final(queue)@[i].1 <= i,
        entry_cells_distinct(final(queue)@),
        forall|cc: int|
            0 <= cc < 81 ==> #[trigger] final(visited)@[cc] == in_queue(final(queue)@, cc),
        forall|i: int|
            0 <= i < final(queue)@.len() ==> reaches(walls@, occ_view(occ), start as int, (
            #[trigger] final(queue)@[i]).0 as int, final(queue)@[i].1 as int),
        forall|i: int, j: int|
            0 <= i <= j < final(queue)@.len() ==> (#[trigger] final(queue)@[i]).1 <= (
            #[trigger] final(queue)@[j]).1,
        forall|i: int| 0 <= i < final(queue)@.len() ==> (#[trigger] final(queue)@[i]).1 <= d + 1,
        occ_view(occ) != Some(n as int) ==> final(visited)@[n as int],
        forall|cc: int| 0 <= cc < 81 && #[trigger] old(visited)@[cc] ==> final(visited)@[cc],
{
    let occ_free: bool = match occ {
        Some(o) => o != n,
        None => true,
    };
    if occ_free {
        if !visited[n] {
            let ghost qa = queue@;
            let ghost va = visited@;
            visited[n] = true;
            let d2: usize = d + 1;
            proof {
                assert(valid_step(walls@, occ_view(occ), c as int, n as int));
                lemma_extend_reach(walls@, occ_view(occ), start as int, c as int, d as int,
                    n as int);
                lemma_push_invariants(walls@, occ_view(occ), start as int, qa, va, visited@, n, d2);
            }
            queue.push((n, d2));
        }
    }
}

/// Breadth-first search from cell `start` for the nearest cell on row
/// `gy`, never stepping onto `occ`.  Returns the least number of steps of
/// any admissible path, or `None` when no admissible path reaches the row.
#[verifier::rlimit(100)]
pub fn bfs_min_goal_dist(walls: &Vec<Wall>, start: usize, gy: usize, occ: Option<usize>) -> (r:
    Option<usize>)
    requires
        valid_cell(start as int),
        gy < 9,
    ensures
        match r {
            Some(d) => is_min_goal_dist(walls@, occ_view(occ), start as int, gy as int, d as int)
                && d <= 80,
            None => !goal_reachable(walls@, occ_view(occ), start as int, gy as int),
        },
{
    let ghost occs = occ_view(occ);
    let mut visited: Vec<bool> = Vec::new();
    let mut z: usize = 0;
    while z < 81
        invariant
            visited@.len() == z,
            z <= 81,
            forall|i: int| 0 <= i < z ==> !(#[trigger] visited@[i]),
        decreases 81 - z,
    {
        visited.push(false);
        z = z + 1;
    }
    let mut queue: Vec<(usize, usize)> = Vec::new();
    queue.push((start, 0));
    visited[start] = true;
    let mut head: usize = 0;
    proof {
        reveal(reaches);
        reveal(paths_covered);
        reveal(settled_closed);
        assert(queue@[0] == (start, 0usize));
        assert forall|c: int| 0 <= c < 81 implies #[trigger] visited@[c] == in_queue(queue@, c) by {
            if c == start as int {
                assert(queue@[0].0 == c);
            } else {
                if in_queue(queue@, c) {
                    let i = choose|i: int| 0 <= i < queue@.len() && (#[trigger] queue@[i]).0 == c;
                    assert(false);
                }
            }
        }
        let p0 = seq![start as int];
        assert(is_path(walls@, occs, p0));
        assert(p0[0] == start as int && p0.last() == start as int && p0.len() == 1);
        assert(reaches(walls@, occs, start as int, start as int, 0));
        assert forall|p: Seq<int>|
            #[trigger] is_path(walls@, occs, p) && p[0] == start as int implies exists|k: int|
            0 <= k < p.len() && blocked_at(queue@, 0, p, k) by {
            assert(labeled_le(queue@, p[0], 0)) by {
                assert(queue@[0].0 == p[0] && queue@[0].1 <= 0);
            }
            assert(pending(queue@, 0, p[0])) by {
                assert(queue@[0].0 == p[0]);
            }
            assert(blocked_at(queue@, 0, p, 0));
        }
    }
    while head < queue.len()
        invariant
            valid_cell(start as int),
            gy < 9,
            occs == occ_view(occ),
            visited@.len() == 81,
            head <= queue@.len(),
            queue@.len() <= 81,
            forall|i: int|
                0 <= i < queue@.len() ==> valid_cell((#[trigger] queue@[i]).0 as int)
                    && queue@[i].1 <= i,
            entry_cells_distinct(queue@),
            forall|c: int| 0 <= c < 81 ==> #[trigger] visited@[c] == in_queue(queue@, c),
            forall|i: int|
                0 <= i < queue@.len() ==> reaches(walls@, occs, start as int, (
                #[trigger] queue@[i]).0 as int, queue@[i].1 as int),
            forall|i: int, j: int|
                0 <= i <= j < queue@.len() ==> (#[trigger] queue@[i]).1 <= (#[trigger] queue@[j]).1,
            forall|i: int|
                head <= i < queue@.len() ==> (#[trigger] queue@[i]).1 <= (if head == 0 {
                    0int
                } else {
                    queue@[head - 1].1 + 1
                }),
            settled_closed(walls@, occs, queue@, head as int),
            forall|i: int| 0 <= i < head ==> cell_y((#[trigger] queue@[i]).0 as int) != gy as int,
            paths_covered(walls@, occs, queue@, head as int, start as int),
        decreases 81 - head,
    {
        let cd: (usize, usize) = queue[head];
        let c: usize = cd.0;
        let d: usize = cd.1;
        proof {
            lemma_cell_coords(c as int);
        }
        let cx: usize = c % 9;
        let cy: usize = c / 9;
        if cy == gy {
            proof {
                lemma_pop_is_min(walls@, occs, start as int, queue@, head as int, gy as int);
            }
            return Some(d);
        }
        head = head + 1;
        let ghost qtop = queue@;
        let ghost h0 = head as int;
        proof {
            assert(qtop[h0 - 1] == (c, d));
            assert forall|i: int| 0 <= i < qtop.len() implies (#[trigger] qtop[i]).1 <= d as int
                + 1 by {
                if i <= h0 - 1 {
                    assert(qtop[i].1 <= qtop[h0 - 1].1);
                } else {
                    if h0 - 1 == 0 {
                        assert(qtop[i].1 <= 0);
                    } else {
                        assert(qtop[i].1 <= qtop[h0 - 2].1 + 1);
                        assert(qtop[h0 - 2].1 <= qtop[h0 - 1].1);
                    }
                }
            }
        }
        // step toward larger x
        if cx < 8 {
            if !oriented_collision(walls, Orientation::Vertical, cx as i64, cy as i64) {
                proof {
                    lemma_cell_id_coords(cx as int + 1, cy as int);
                    assert(step_open(walls@, c as int, c as int + 1));
                }
                push_neighbor(walls, &mut queue, &mut visited, start, c, d, c + 1, occ);
            }
        }
        // step toward smaller x
        if cx > 0 {
            if !oriented_collision(walls, Orientation::Vertical, cx as i64 - 1, cy as i64) {
                proof {
                    lemma_cell_id_coords(cx as int - 1, cy as int);
                    assert(step_open(walls@, c as int, c as int - 1));
                }
                push_neighbor(walls, &mut queue, &mut visited, start, c, d, c - 1, occ);
            }
        }
        // step toward larger y
        if cy < 8 {
            if !oriented_collision(walls, Orientation::Horizontal, cx as i64, cy as i64) {
                proof {
                    lemma_cell_id_coords(cx as int, cy as int + 1);
                    assert(step_open(walls@, c as int, c as int + 9));
                }
                push_neighbor(walls, &mut queue, &mut visited, start, c, d, c + 9, occ);
            }
        }
        // step toward smaller y
        if cy > 0 {
            if !oriented_collision(walls, Orientation::Horizontal, cx as i64, cy as i64 - 1) {
                proof {
                    lemma_cell_id_coords(cx as int, cy as int - 1);
                    assert(step_open(walls@, c as int, c as int - 9));
                }
                push_neighbor(walls, &mut queue, &mut visited, start, c, d, c - 9, occ);
            }
        }
        proof {
            let qf = queue@;
            assert(qf.len() >= qtop.len() && forall|i: int| 0 <= i < qtop.len() ==> qf[i]
                == qtop[i]);
            assert((cell_x(c as int) < 8 && !v_blocked(walls@, cell_x(c as int), cell_y(c as int))
                && occs != Some(c as int + 1)) ==> visited@[c as int + 1]);
            assert((cell_x(c as int) > 0 && !v_blocked(walls@, cell_x(c as int) - 1, cell_y(
                c as int,
            )) && occs != Some(c as int - 1)) ==> visited@[c as int - 1]);
            assert((cell_y(c as int) < 8 && !h_blocked(walls@, cell_x(c as int), cell_y(c as int))
                && occs != Some(c as int + 9)) ==> visited@[c as int + 9]);
            assert((cell_y(c as int) > 0 && !h_blocked(walls@, cell_x(c as int), cell_y(c as int)
                - 1) && occs != Some(c as int - 9)) ==> visited@[c as int - 9]);
            lemma_frontier_closed(walls@, occs, qtop, qf, h0, c, d, visited@);
            lemma_paths_covered_step(walls@, occs, start as int, qtop, qf, h0);
        }
    }
    proof {
        lemma_exhausted(walls@, occs, start as int, queue@, gy as int);
    }
    None
}

} // verus!
