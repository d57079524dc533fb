//! The move generator: which pawn steps, jumps, diagonal sidesteps and
//! wall placements the active player may take in a position.

use vstd::prelude::*;

use crate::moves::Move;
use crate::path::{edge_open, wall_between};
use crate::piece::Piece;
use crate::quorridor::{cell_in_bounds, placement_ok, Quorridor};
use crate::wall::{Orientation, Wall};

verus! {

broadcast use vstd::seq_lib::lemma_seq_contains_after_push;

/// The active player's pawn.
pub open spec fn active_pawn(g: Quorridor) -> Piece {
    g.player_pieces@[g.active_player as int]
}

/// The waiting player's pawn.
pub open spec fn opponent_pawn(g: Quorridor) -> Piece {
    g.player_pieces@[1 - g.active_player as int]
}

/// The waiting player's pawn stands on cell `(x, y)`.
pub open spec fn opponent_at(g: Quorridor, x: int, y: int) -> bool {
    opponent_pawn(g).x == x && opponent_pawn(g).y == y
}

/// A single step by `(dx, dy)` is legal: the target cell is on the board,
/// the traversed edge carries no wall, and the opponent does not stand on
/// the target.
pub open spec fn step_legal(g: Quorridor, dx: int, dy: int) -> bool {
    let px = active_pawn(g).x as int;
    let py = active_pawn(g).y as int;
    &&& edge_open(g.walls@, px, py, px + dx, py + dy)
    &&& !opponent_at(g, px + dx, py + dy)
}

/// A straight jump by `(dx, dy)` is legal: the opponent stands directly
/// ahead behind an open edge, and the edge beyond the opponent is open
/// onto the board.
pub open spec fn jump_legal(g: Quorridor, dx: int, dy: int) -> bool {
    let px = active_pawn(g).x as int;
    let py = active_pawn(g).y as int;
    &&& edge_open(g.walls@, px, py, px + dx, py + dy)
    &&& opponent_at(g, px + dx, py + dy)
    &&& edge_open(g.walls@, px + dx, py + dy, px + 2 * dx, py + 2 * dy)
}

/// A diagonal sidestep is legal: the opponent stands directly ahead in
/// direction `(dx, dy)` behind an open edge, the straight jump beyond the
/// opponent lands on the board but a wall sits on the slot directly behind
/// the opponent, and the edge from the opponent's cell in the sidestep
/// direction `(ex, ey)` is open.
pub open spec fn diag_legal(g: Quorridor, dx: int, dy: int, ex: int, ey: int) -> bool {
    let px = active_pawn(g).x as int;
    let py = active_pawn(g).y as int;
    &&& edge_open(g.walls@, px, py, px + dx, py + dy)
    &&& opponent_at(g, px + dx, py + dy)
    &&& cell_in_bounds(px + 2 * dx, py + 2 * dy)
    &&& wall_between(g.walls@, px + dx, py + dy, px + 2 * dx, py + 2 * dy)
    &&& edge_open(g.walls@, px + dx, py + dy, px + dx + ex, py + dy + ey)
}

/// A move of the step family.
pub open spec fn is_step_move(m: Move) -> bool {
    m == Move::Up || m == Move::Down || m == Move::Left || m == Move::Right
}

/// A move of the jump or diagonal-sidestep family.
pub open spec fn is_special_move(m: Move) -> bool {
    ||| m == Move::UpJump
    ||| m == Move::DownJump
    ||| m == Move::LeftJump
    ||| m == Move::RightJump
    ||| m == Move::UpLeft
    ||| m == Move::UpRight
    ||| m == Move::DownLeft
    ||| m == Move::DownRight
    ||| m == Move::LeftUp
    ||| m == Move::LeftDown
    ||| m == Move::RightUp
    ||| m == Move::RightDown
}

/// Is the edge from `(x, y)` one unit in direction `(dx, dy)` open: both
/// cells on the board and no wall segment between them?
pub fn edge_is_open(walls: &Vec<Wall>, x: i64, y: i64, dx: i64, dy: i64) -> (r: bool)
    requires
        -16 <= x <= 16,
        -16 <= y <= 16,
        (dx == 1 && dy == 0) || (dx == -1 && dy == 0) || (dx == 0 && dy == 1) || (dx == 0 && dy
            == -1),
    ensures
        r == edge_open(walls@, x as int, y as int, x + dx, y + dy),
{
    if x < 0 || x > 8 || y < 0 || y > 8 {
        return false;
    }
    let nx: i64 = x + dx;
    let ny: i64 = y + dy;
    if nx < 0 || nx > 8 || ny < 0 || ny > 8 {
        return false;
    }
    if dx == 1 {
        !crate::path::oriented_collision(walls, Orientation::Vertical, x, y)
    } else if dx == -1 {
        !crate::path::oriented_collision(walls, Orientation::Vertical, x - 1, y)
    } else if dy == 1 {
        !crate::path::oriented_collision(walls, Orientation::Horizontal, x, y)
    } else {
        !crate::path::oriented_collision(walls, Orientation::Horizontal, x, y - 1)
    }
}

/// Append a move that is not yet in the list, keeping it duplicate-free.
fn push_unique(moves: &mut Vec<Move>, m: Move)
    requires
        !old(moves)@.contains(m),
        old(moves)@.no_duplicates(),
    ensures
        final(moves)@ == old(moves)@.push(m),
        final(moves)@.no_duplicates(),
{
    let ghost s = moves@;
    moves.push(m);
    proof {
        assert forall|i: int, j: int| 0 <= i < j < moves@.len() implies moves@[i]
            != moves@[j] by {
            if j < s.len() {
                assert(s[i] != s[j]);
            } else {
                assert(moves@[i] == s[i]);
                if s[i] == m {
                    assert(s.contains(m));
                }
            }
        }
    }
}

impl Quorridor {
    /// The legal single-step moves of the active player.
    pub fn get_movement_moves(&self) -> (moves: Vec<Move>)
        requires
            self.wf(),
        ensures
            moves@.contains(Move::Up) == step_legal(*self, 0, -1),
            moves@.contains(Move::Down) == step_legal(*self, 0, 1),
            moves@.contains(Move::Left) == step_legal(*self, -1, 0),
            moves@.contains(Move::Right) == step_legal(*self, 1, 0),
            forall|m: Move| moves@.contains(m) ==> is_step_move(m),
            moves@.no_duplicates(),
    {
        let mut moves: Vec<Move> = Vec::new();
        let px: i64 = self.player_pieces[self.active_player].x;
        let py: i64 = self.player_pieces[self.active_player].y;
        if edge_is_open(&self.walls, px, py, 0, -1) && !self.player_collision(
            self.active_player,
            px,
            py - 1,
        ) {
            push_unique(&mut moves, Move::Up);
        }
        if edge_is_open(&self.walls, px, py, 0, 1) && !self.player_collision(
            self.active_player,
            px,
            py + 1,
        ) {
            push_unique(&mut moves, Move::Down);
        }
        if edge_is_open(&self.walls, px, py, -1, 0) && !self.player_collision(
            self.active_player,
            px - 1,
            py,
        ) {
            push_unique(&mut moves, Move::Left);
        }
        if edge_is_open(&self.walls, px, py, 1, 0) && !self.player_collision(
            self.active_player,
            px + 1,
            py,
        ) {
            push_unique(&mut moves, Move::Right);
        }
        moves
    }

    /// Is a straight jump in direction `(dx, dy)` legal?
    fn jump_ok(&self, dx: i64, dy: i64) -> (r: bool)
        requires
            self.wf(),
            (dx == 1 && dy == 0) || (dx == -1 && dy == 0) || (dx == 0 && dy == 1) || (dx == 0 && dy
                == -1),
        ensures
            r == jump_legal(*self, dx as int, dy as int),
    {
        let px: i64 = self.player_pieces[self.active_player].x;
        let py: i64 = self.player_pieces[self.active_player].y;
        edge_is_open(&self.walls, px, py, dx, dy) && self.player_collision(
            self.active_player,
            px + dx,
            py + dy,
        ) && edge_is_open(&self.walls, px + dx, py + dy, dx, dy)
    }

    /// Is a diagonal sidestep legal: jump direction `(dx, dy)`, sidestep
    /// direction `(ex, ey)`?
    fn diag_ok(&self, dx: i64, dy: i64, ex: i64, ey: i64) -> (r: bool)
        requires
            self.wf(),
            (dx == 1 && dy == 0) || (dx == -1 && dy == 0) || (dx == 0 && dy == 1) || (dx == 0 && dy
                == -1),
            (ex == 1 && ey == 0) || (ex == -1 && ey == 0) || (ex == 0 && ey == 1) || (ex == 0 && ey
                == -1),
        ensures
            r == diag_legal(*self, dx as int, dy as int, ex as int, ey as int),
    {
        let px: i64 = self.player_pieces[self.active_player].x;
        let py: i64 = self.player_pieces[self.active_player].y;
        if !edge_is_open(&self.walls, px, py, dx, dy) {
            return false;
        }
        if !self.player_collision(self.active_player, px + dx, py + dy) {
            return false;
        }
        let tx: i64 = px + 2 * dx;
        let ty: i64 = py + 2 * dy;
        if tx < 0 || tx > 8 || ty < 0 || ty > 8 {
            return false;
        }
        if edge_is_open(&self.walls, px + dx, py + dy, dx, dy) {
            return false;
        }
        proof {
            // the opponent's cell and the landing cell are both on the
            // board, so the closed edge between them carries a wall
            assert(wall_between(self.walls@, px + dx, py + dy, px + 2 * dx, py + 2 * dy));
        }
        edge_is_open(&self.walls, px + dx, py + dy, ex, ey)
    }

    /// The legal jumps and diagonal sidesteps of the active player.
    #[verifier::rlimit(30)]
    pub fn get_special_moves(&self) -> (moves: Vec<Move>)
        requires
            self.wf(),
        ensures
            moves@.contains(Move::UpJump) == jump_legal(*self, 0, -1),
            moves@.contains(Move::DownJump) == jump_legal(*self, 0, 1),
            moves@.contains(Move::LeftJump) == jump_legal(*self, -1, 0),
            moves@.contains(Move::RightJump) == jump_legal(*self, 1, 0),
            moves@.contains(Move::UpLeft) == diag_legal(*self, 0, -1, -1, 0),
            moves@.contains(Move::UpRight) == diag_legal(*self, 0, -1, 1, 0),
            moves@.contains(Move::DownLeft) == diag_legal(*self, 0, 1, -1, 0),
            moves@.contains(Move::DownRight) == diag_legal(*self, 0, 1, 1, 0),
            moves@.contains(Move::LeftUp) == diag_legal(*self, -1, 0, 0, -1),
            moves@.contains(Move::LeftDown) == diag_legal(*self, -1, 0, 0, 1),
            moves@.contains(Move::RightUp) == diag_legal(*self, 1, 0, 0, -1),
            moves@.contains(Move::RightDown) == diag_legal(*self, 1, 0, 0, 1),
            forall|m: Move| moves@.contains(m) ==> is_special_move(m),
            moves@.no_duplicates(),
    {
        let mut moves: Vec<Move> = Vec::new();
        if self.jump_ok(0, -1) {
            push_unique(&mut moves, Move::UpJump);
        }
        if self.jump_ok(0, 1) {
            push_unique(&mut moves, Move::DownJump);
        }
        if self.jump_ok(-1, 0) {
            push_unique(&mut moves, Move::LeftJump);
        }
        if self.jump_ok(1, 0) {
            push_unique(&mut moves, Move::RightJump);
        }
        if self.diag_ok(0, -1, -1, 0) {
            push_unique(&mut moves, Move::UpLeft);
        }
        if self.diag_ok(0, -1, 1, 0) {
            push_unique(&mut moves, Move::UpRight);
        }
        if self.diag_ok(0, 1, -1, 0) {
            push_unique(&mut moves, Move::DownLeft);
        }
        if self.diag_ok(0, 1, 1, 0) {
            push_unique(&mut moves, Move::DownRight);
        }
        if self.diag_ok(-1, 0, 0, -1) {
            push_unique(&mut moves, Move::LeftUp);
        }
        if self.diag_ok(-1, 0, 0, 1) {
            push_unique(&mut moves, Move::LeftDown);
        }
        if self.diag_ok(1, 0, 0, -1) {
            push_unique(&mut moves, Move::RightUp);
        }
        if self.diag_ok(1, 0, 0, 1) {
            push_unique(&mut moves, Move::RightDown);
        }
        moves
    }

    /// Every wall placement that `place_wall` would accept for the active
    /// player, as `PlaceWall` moves; empty when the budget is spent.
    pub fn get_wall_moves(&self) -> (moves: Vec<Move>)
        requires
            self.wf(),
        ensures
            forall|x: i64, y: i64, o: Orientation|
                #[trigger] moves@.contains(Move::PlaceWall(x, y, o)) == placement_ok(
                    *self,
                    Wall { x, y, orientation: o },
                ),
            forall|m: Move| moves@.contains(m) ==> m matches Move::PlaceWall(..),
            moves@.no_duplicates(),
    {
        let mut moves: Vec<Move> = Vec::new();
        let mut x: i64 = 0;
        while x < 9
            invariant
                self.wf(),
                0 <= x <= 9,
                forall|xx: i64, yy: i64, oo: Orientation|
                    #[trigger] moves@.contains(Move::PlaceWall(xx, yy, oo)) == (placement_ok(
                        *self,
                        Wall { x: xx, y: yy, orientation: oo },
                    ) && 0 <= xx < x),
                forall|m: Move| moves@.contains(m) ==> m matches Move::PlaceWall(..),
                moves@.no_duplicates(),
            decreases 9 - x,
        {
            let mut y: i64 = 0;
            while y < 9
                invariant
                    self.wf(),
                    0 <= x < 9,
                    0 <= y <= 9,
                    forall|xx: i64, yy: i64, oo: Orientation|
                        #[trigger] moves@.contains(Move::PlaceWall(xx, yy, oo)) == (placement_ok(
                            *self,
                            Wall { x: xx, y: yy, orientation: oo },
                        ) && (0 <= xx < x || (xx == x && 0 <= yy < y))),
                    forall|m: Move| moves@.contains(m) ==> m matches Move::PlaceWall(..),
                    moves@.no_duplicates(),
                decreases 9 - y,
            {
                if self.validate_wall_move(x, y, &Orientation::Horizontal) {
                    push_unique(&mut moves, Move::PlaceWall(x, y, Orientation::Horizontal));
                }
                if self.validate_wall_move(x, y, &Orientation::Vertical) {
                    push_unique(&mut moves, Move::PlaceWall(x, y, Orientation::Vertical));
                }
                y = y + 1;
            }
            x = x + 1;
        }
        proof {
            assert forall|xx: i64, yy: i64, oo: Orientation|
                #[trigger] moves@.contains(Move::PlaceWall(xx, yy, oo)) == placement_ok(
                    *self,
                    Wall { x: xx, y: yy, orientation: oo },
                ) by {
                if placement_ok(*self, Wall { x: xx, y: yy, orientation: oo }) {
                    assert(crate::wall::wall_in_bounds(Wall { x: xx, y: yy, orientation: oo }));
                    assert(0 <= xx < 9);
                }
            }
        }
        moves
    }
}

} // verus!
