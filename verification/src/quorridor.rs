//! The game state: both pawns, the placed walls, the active player and the
//! remaining wall budgets, together with the elementary collision queries.

use vstd::prelude::*;

use crate::path::{bfs_min_goal_dist, cell_id, goal_reachable, is_min_goal_dist};
use crate::piece::Piece;
use crate::wall::{covers, Orientation, Wall};

verus! {

/// Side length of the board, in cells.
pub const BOARD_SIZE: i64 = 9;

/// How many walls each player may place over a whole game.
pub const WALLS_PER_PLAYER: usize = 9;

/// A full game position.  Player 0 starts on row 0 and aims for row 8;
/// player 1 starts on row 8 and aims for row 0.
#[derive(Clone, Debug, PartialEq)]
pub struct Quorridor {
    pub player_pieces: [Piece; 2],
    pub active_player: usize,
    pub walls: Vec<Wall>,
    pub walls_remaining: [usize; 2],
}

/// A cell coordinate lies on the board.
pub open spec fn cell_in_bounds(x: int, y: int) -> bool {
    0 <= x < 9 && 0 <= y < 9
}

/// The row a player must reach to win.
pub open spec fn goal_row(player: int) -> int {
    if player == 0 {
        8
    } else {
        0
    }
}

/// Some wall of orientation `o` covers slot `(x, y)`.
pub open spec fn oriented_covers(walls: Seq<Wall>, o: Orientation, x: int, y: int) -> bool {
    exists|i: int| 0 <= i < walls.len() && walls[i].orientation == o && covers(walls[i], x, y)
}

/// Some wall, of either orientation, covers slot `(x, y)`.
pub open spec fn any_covers(walls: Seq<Wall>, x: int, y: int) -> bool {
    exists|i: int| 0 <= i < walls.len() && covers(walls[i], x, y)
}

impl Quorridor {
    /// Structural validity: a real player index, both pawns on the board,
    /// every placed wall's footprint on the slot grid, budgets within the
    /// per-player cap.
    pub open spec fn wf(self) -> bool {
        &&& self.active_player < 2
        &&& cell_in_bounds(self.player_pieces@[0].x as int, self.player_pieces@[0].y as int)
        &&& cell_in_bounds(self.player_pieces@[1].x as int, self.player_pieces@[1].y as int)
        &&& forall|i: int|
            0 <= i < self.walls@.len() ==> crate::wall::wall_in_bounds(#[trigger] self.walls@[i])
        &&& self.walls_remaining@[0] <= WALLS_PER_PLAYER
        &&& self.walls_remaining@[1] <= WALLS_PER_PLAYER
    }

    /// Is there a wall segment on slot `(x, y)`?  One lookup answers the
    /// validator's overlap probes regardless of orientation.
    pub fn wall_collision(&self, target_x: i64, target_y: i64) -> (r: bool)
        ensures
            r == any_covers(self.walls@, target_x as int, target_y as int),
    {
        let mut k: usize = 0;
        while k < self.walls.len()
            invariant
                k <= self.walls@.len(),
                forall|i: int|
                    0 <= i < k ==> !covers(#[trigger] self.walls@[i], target_x as int,
                        target_y as int),
            decreases self.walls@.len() - k,
        {
            if crate::wall::wall_covers(self.walls[k], target_x, target_y) {
                return true;
            }
            k = k + 1;
        }
        false
    }

    /// Does the opponent of `player_idx` stand on cell `(x, y)`?
    pub fn player_collision(&self, player_idx: usize, x: i64, y: i64) -> (r: bool)
        requires
            player_idx < 2,
        ensures
            r == (self.player_pieces@[1 - player_idx as int].x == x
                && self.player_pieces@[1 - player_idx as int].y == y),
    {
        let opponent_idx = 1 - player_idx;
        self.player_pieces[opponent_idx].x == x && self.player_pieces[opponent_idx].y == y
    }

    /// Has either pawn reached its goal row?
    pub fn game_over(&self) -> (r: bool)
        ensures
            r == self.is_terminal(),
    {
        self.player_pieces[0].y >= BOARD_SIZE - 1 || self.player_pieces[1].y <= 0
    }

    /// The terminal predicate: pawn 0 on its goal row, or pawn 1 on its.
    pub open spec fn is_terminal(self) -> bool {
        self.player_pieces@[0].y >= 8 || self.player_pieces@[1].y <= 0
    }

    /// Whose turn it is.
    pub fn current_player(&self) -> (r: usize)
        ensures
            r == self.active_player,
    {
        self.active_player
    }
}

/// The cell number the given player's pawn stands on.
pub open spec fn pawn_cell(g: Quorridor, p: int) -> int {
    cell_id(g.player_pieces@[p].x as int, g.player_pieces@[p].y as int)
}

/// Both players can still reach their goal rows over the terrain graph,
/// pawn occupancy ignored.
pub open spec fn players_connected(g: Quorridor) -> bool {
    &&& goal_reachable(g.walls@, None, pawn_cell(g, 0), goal_row(0))
    &&& goal_reachable(g.walls@, None, pawn_cell(g, 1), goal_row(1))
}

/// Both players can reach their goal rows over the terrain graph formed by
/// the given wall list, pawn occupancy ignored.
pub open spec fn connected_with(g: Quorridor, walls: Seq<Wall>) -> bool {
    &&& goal_reachable(walls, None, pawn_cell(g, 0), goal_row(0))
    &&& goal_reachable(walls, None, pawn_cell(g, 1), goal_row(1))
}

/// Some placed wall overlaps candidate `w` (same orientation, shared slot).
pub open spec fn has_overlap(walls: Seq<Wall>, w: Wall) -> bool {
    exists|i: int| 0 <= i < walls.len() && crate::wall::overlaps(#[trigger] walls[i], w)
}

/// Some placed wall crosses candidate `w` (perpendicular, shared slot).
pub open spec fn has_cross(walls: Seq<Wall>, w: Wall) -> bool {
    exists|i: int| 0 <= i < walls.len() && crate::wall::crosses(#[trigger] walls[i], w)
}

/// Placing wall `w` would be accepted: the active player has budget, the
/// footprint is on the board, it neither overlaps nor crosses a placed
/// wall, and both players keep a path to their goal rows.
pub open spec fn placement_ok(g: Quorridor, w: Wall) -> bool {
    &&& g.walls_remaining@[g.active_player as int] > 0
    &&& crate::wall::wall_in_bounds(w)
    &&& !has_overlap(g.walls@, w)
    &&& !has_cross(g.walls@, w)
    &&& connected_with(g, g.walls@.push(w))
}

/// Can a pawn standing on `(px, py)` reach row `gy` through walls `walls`,
/// pawn occupancy ignored?
fn reach_row(walls: &Vec<Wall>, px: i64, py: i64, gy: usize) -> (r: bool)
    requires
        cell_in_bounds(px as int, py as int),
        gy < 9,
    ensures
        r == goal_reachable(walls@, None, cell_id(px as int, py as int), gy as int),
{
    let sid: usize = (py * 9 + px) as usize;
    let r = bfs_min_goal_dist(walls, sid, gy, None);
    match r {
        Some(d) => {
            proof {
                let p = choose|p: Seq<int>|
                    crate::path::is_goal_path(walls@, None, sid as int, gy as int, p) && p.len()
                        == d + 1;
            }
            true
        },
        None => false,
    }
}

/// Both players can reach their goal rows through the candidate wall list.
fn connected_walls(g: &Quorridor, walls: &Vec<Wall>) -> (r: bool)
    requires
        g.wf(),
    ensures
        r == connected_with(*g, walls@),
{
    reach_row(walls, g.player_pieces[0].x, g.player_pieces[0].y, 8) && reach_row(
        walls,
        g.player_pieces[1].x,
        g.player_pieces[1].y,
        0,
    )
}

/// Can `player_idx` still reach their goal row?  This is the terrain-only
/// query the wall validator relies on: the opponent's pawn does not block,
/// only walls do.
pub fn has_path_to_goal(game: &Quorridor, player_idx: usize) -> (r: bool)
    requires
        game.wf(),
        player_idx < 2,
    ensures
        r == goal_reachable(game.walls@, None, pawn_cell(*game, player_idx as int), goal_row(
            player_idx as int,
        )),
{
    let gy: usize = if player_idx == 0 {
        8
    } else {
        0
    };
    reach_row(
        &game.walls,
        game.player_pieces[player_idx].x,
        game.player_pieces[player_idx].y,
        gy,
    )
}

/// The least number of pawn moves `player_idx` needs to reach their goal
/// row, over the same terrain graph as `has_path_to_goal`: walls block,
/// pawn occupancy does not.  `None` means the goal row is unreachable —
/// never observed while the connectivity invariant holds, but handled.
pub fn shortest_path_to_goal(game: &Quorridor, player_idx: usize) -> (r: Option<usize>)
    requires
        game.wf(),
        player_idx < 2,
    ensures
        match r {
            Some(d) => is_min_goal_dist(game.walls@, None, pawn_cell(*game, player_idx as int),
                goal_row(player_idx as int), d as int) && d <= 80,
            None => !goal_reachable(game.walls@, None, pawn_cell(*game, player_idx as int),
                goal_row(player_idx as int)),
        },
{
    let sx: i64 = game.player_pieces[player_idx].x;
    let sy: i64 = game.player_pieces[player_idx].y;
    let sid: usize = (sy * 9 + sx) as usize;
    let gy: usize = if player_idx == 0 {
        8
    } else {
        0
    };
    bfs_min_goal_dist(&game.walls, sid, gy, None)
}

impl Quorridor {
    /// Do both players still have a path to their goal rows?
    pub fn both_players_have_path(&self) -> (r: bool)
        requires
            self.wf(),
        ensures
            r == players_connected(*self),
    {
        has_path_to_goal(self, 0) && has_path_to_goal(self, 1)
    }

    /// Would the wall anchored at `(x, y)` sever either player's last path
    /// to their goal row?  The wall is tried and taken back: the state is
    /// exactly as before the call.
    pub fn wall_blocks_path(&mut self, x: i64, y: i64, orientation: Orientation) -> (r: bool)
        requires
            old(self).wf(),
            crate::wall::wall_in_bounds(Wall { x, y, orientation }),
        ensures
            final(self).player_pieces == old(self).player_pieces,
            final(self).active_player == old(self).active_player,
            final(self).walls@ == old(self).walls@,
            final(self).walls_remaining == old(self).walls_remaining,
            final(self).wf(),
            r == !connected_with(*old(self), old(self).walls@.push(
                Wall { x, y, orientation },
            )),
    {
        self.walls.push(Wall { x, y, orientation });
        let ok = self.both_players_have_path();
        let _dropped = self.walls.pop();
        proof {
            assert(self.walls@ =~= old(self).walls@);
        }
        !ok
    }

    /// Read-only probe: would `place_wall` accept this wall for the active
    /// player in the current position?
    pub fn validate_wall_move(&self, x: i64, y: i64, orientation: &Orientation) -> (r: bool)
        requires
            self.wf(),
        ensures
            r == placement_ok(*self, Wall { x, y, orientation: *orientation }),
    {
        if self.walls_remaining[self.active_player] == 0 {
            return false;
        }
        let w = Wall { x, y, orientation: *orientation };
        let in_b: bool = match orientation {
            Orientation::Horizontal => x >= 0 && x <= 7 && y >= 0 && y <= 8,
            Orientation::Vertical => x >= 0 && x <= 8 && y >= 0 && y <= 7,
        };
        if !in_b {
            return false;
        }
        let mut k: usize = 0;
        while k < self.walls.len()
            invariant
                k <= self.walls@.len(),
                self.walls_remaining@[self.active_player as int] > 0,
                w == (Wall { x, y, orientation: *orientation }),
                crate::wall::wall_in_bounds(w),
                forall|i: int|
                    0 <= i < k ==> !crate::wall::share_slot(#[trigger] self.walls@[i], w),
            decreases self.walls@.len() - k,
        {
            if crate::wall::walls_share_slot(self.walls[k], w) {
                proof {
                    if self.walls@[k as int].orientation == w.orientation {
                        assert(crate::wall::overlaps(self.walls@[k as int], w));
                    } else {
                        assert(crate::wall::crosses(self.walls@[k as int], w));
                    }
                }
                return false;
            }
            k = k + 1;
        }
        proof {
            assert(!has_overlap(self.walls@, w));
            assert(!has_cross(self.walls@, w));
        }
        let mut tmp: Vec<Wall> = Vec::new();
        let mut j: usize = 0;
        while j < self.walls.len()
            invariant
                j <= self.walls@.len(),
                tmp@.len() == j,
                forall|i: int| 0 <= i < j ==> tmp@[i] == self.walls@[i],
            decreases self.walls@.len() - j,
        {
            tmp.push(self.walls[j]);
            j = j + 1;
        }
        tmp.push(w);
        proof {
            assert(tmp@ =~= self.walls@.push(w));
        }
        connected_walls(self, &tmp)
    }
}

/// The spec-level starting position: pawns at the middles of opposite
/// baselines, full budgets, player 0 to move, no walls.
pub open spec fn initial_state(s: Quorridor) -> bool {
    &&& s.player_pieces@[0] == (Piece { x: 4, y: 0 })
    &&& s.player_pieces@[1] == (Piece { x: 4, y: 8 })
    &&& s.active_player == 0
    &&& s.walls@ == Seq::<Wall>::empty()
    &&& s.walls_remaining@[0] == WALLS_PER_PLAYER
    &&& s.walls_remaining@[1] == WALLS_PER_PLAYER
}

impl Default for Quorridor {
    /// The game's starting position.
    fn default() -> (s: Self)
        ensures
            initial_state(s),
            s.wf(),
    {
        let s = Quorridor {
            player_pieces: [Piece { x: 4, y: 0 }, Piece { x: 4, y: 8 }],
            active_player: 0,
            walls: Vec::new(),
            walls_remaining: [WALLS_PER_PLAYER, WALLS_PER_PLAYER],
        };
        assert(s.walls@ =~= Seq::<Wall>::empty());
        s
    }
}

} // verus!
