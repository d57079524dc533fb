//! The game-state transition function and the search-facing surface: the
//! full legal move set, in-place move application with turn alternation,
//! and a content-based position hash.

use vstd::prelude::*;

use crate::movegen::{
    diag_legal, is_special_move, is_step_move, jump_legal, opponent_pawn, step_legal,
};
use crate::moves::{is_pawn_move, move_dx, move_dy, Move};
use crate::piece::move_player;
use crate::piece::Piece;
use crate::quorridor::{any_covers, placement_ok, Quorridor};
use crate::wall::{place_wall, wall_added, Wall, WallPlacementResult};

verus! {

/// `m` may be played in position `g`: the game is not over and the move
/// passes its family's legality rule.
pub open spec fn legal_move(g: Quorridor, m: Move) -> bool {
    &&& !g.is_terminal()
    &&& match m {
        Move::Up => step_legal(g, 0, -1),
        Move::Down => step_legal(g, 0, 1),
        Move::Left => step_legal(g, -1, 0),
        Move::Right => step_legal(g, 1, 0),
        Move::UpJump => jump_legal(g, 0, -1),
        Move::DownJump => jump_legal(g, 0, 1),
        Move::LeftJump => jump_legal(g, -1, 0),
        Move::RightJump => jump_legal(g, 1, 0),
        Move::UpLeft => diag_legal(g, 0, -1, -1, 0),
        Move::UpRight => diag_legal(g, 0, -1, 1, 0),
        Move::DownLeft => diag_legal(g, 0, 1, -1, 0),
        Move::DownRight => diag_legal(g, 0, 1, 1, 0),
        Move::LeftUp => diag_legal(g, -1, 0, 0, -1),
        Move::LeftDown => diag_legal(g, -1, 0, 0, 1),
        Move::RightUp => diag_legal(g, 1, 0, 0, -1),
        Move::RightDown => diag_legal(g, 1, 0, 0, 1),
        Move::PlaceWall(x, y, o) => placement_ok(g, Wall { x, y, orientation: o }),
    }
}

/// `post` is `pre` after playing `m`: the turn passes, a pawn move shifts
/// the active pawn by the move's offset and touches nothing else, a wall
/// move adds the wall and spends one of the active player's budget.
pub open spec fn transition(pre: Quorridor, post: Quorridor, m: Move) -> bool {
    &&& post.active_player == 1 - pre.active_player
    &&& is_pawn_move(m) ==> {
        &&& post.walls@ == pre.walls@
        &&& post.walls_remaining@ == pre.walls_remaining@
        &&& post.player_pieces@[pre.active_player as int].x == pre.player_pieces@[pre.active_player
            as int].x + move_dx(m)
        &&& post.player_pieces@[pre.active_player as int].y == pre.player_pieces@[pre.active_player
            as int].y + move_dy(m)
        &&& post.player_pieces@[1 - pre.active_player as int] == opponent_pawn(pre)
    }
    &&& m matches Move::PlaceWall(x, y, o) ==> wall_added(pre, post, Wall { x, y, orientation: o })
}

/// Concatenation holds exactly the elements of its two halves.
proof fn lemma_concat_contains<T>(a: Seq<T>, b: Seq<T>)
    ensures
        forall|x: T| #[trigger] (a + b).contains(x) == (a.contains(x) || b.contains(x)),
{
    assert forall|x: T| #[trigger] (a + b).contains(x) == (a.contains(x) || b.contains(x)) by {
        if (a + b).contains(x) {
            let i = choose|i: int| 0 <= i < (a + b).len() && (a + b)[i] == x;
            if i < a.len() {
                assert(a[i] == x);
            } else {
                assert(b[i - a.len()] == x);
            }
        }
        if a.contains(x) {
            let i = choose|i: int| 0 <= i < a.len() && a[i] == x;
            assert((a + b)[i] == x);
        }
        if b.contains(x) {
            let i = choose|i: int| 0 <= i < b.len() && b[i] == x;
            assert((a + b)[a.len() + i] == x);
        }
    }
}

impl Quorridor {
    /// Every move the active player may legally play; empty once the game
    /// is over.
    pub fn available_moves(&self) -> (moves: Vec<Move>)
        requires
            self.wf(),
        ensures
            forall|m: Move| #[trigger] moves@.contains(m) == legal_move(*self, m),
            moves@.no_duplicates(),
            self.is_terminal() ==> moves@ == Seq::<Move>::empty(),
    {
        if self.game_over() {
            let moves: Vec<Move> = Vec::new();
            proof {
                assert(moves@ =~= Seq::<Move>::empty());
            }
            moves
        } else {
            let mut moves = self.get_movement_moves();
            let mut specials = self.get_special_moves();
            let mut walls = self.get_wall_moves();
            let ghost m1 = moves@;
            let ghost m2 = specials@;
            let ghost m3 = walls@;
            moves.append(&mut specials);
            moves.append(&mut walls);
            proof {
                assert(moves@ == (m1 + m2) + m3);
                lemma_concat_contains(m1, m2);
                lemma_concat_contains(m1 + m2, m3);
                assert forall|i: int, j: int| 0 <= i < m1.len() && 0 <= j < m2.len() implies m1[i]
                    != m2[j] by {
                    assert(m1.contains(m1[i]));
                    assert(m2.contains(m2[j]));
                    assert(is_step_move(m1[i]));
                    assert(is_special_move(m2[j]));
                }
                vstd::seq_lib::lemma_no_dup_in_concat(m1, m2);
                assert forall|i: int, j: int|
                    0 <= i < (m1 + m2).len() && 0 <= j < m3.len() implies (m1 + m2)[i]
                    != m3[j] by {
                    if i < m1.len() {
                        assert(m1.contains(m1[i]));
                        assert(is_step_move((m1 + m2)[i]));
                    } else {
                        assert(m2.contains(m2[i - m1.len()]));
                        assert(is_special_move((m1 + m2)[i]));
                    }
                    assert(m3.contains(m3[j]));
                    assert(m3[j] matches Move::PlaceWall(..));
                }
                vstd::seq_lib::lemma_no_dup_in_concat(m1 + m2, m3);
                assert forall|m: Move| #[trigger] moves@.contains(m) == legal_move(
                    *self,
                    m,
                ) by {
                    assert(moves@.contains(m) == (m1.contains(m) || m2.contains(m) || m3.contains(
                        m,
                    )));
                    if m1.contains(m) {
                        assert(is_step_move(m));
                    }
                    if m2.contains(m) {
                        assert(is_special_move(m));
                    }
                    if m3.contains(m) {
                        assert(m matches Move::PlaceWall(..));
                    }
                }
            }
            moves
        }
    }

    /// Play `m`: relocate the active pawn or place the wall, then pass the
    /// turn.  Only moves drawn from `available_moves` may be applied.
    pub fn make_move(&mut self, mov: &Move)
        requires
            old(self).wf(),
            legal_move(*old(self), *mov),
        ensures
            final(self).wf(),
            transition(*old(self), *final(self), *mov),
    {
        let success: bool = match mov {
            Move::Up => {
                move_player(self, 0, -1);
                true
            },
            Move::Down => {
                move_player(self, 0, 1);
                true
            },
            Move::Left => {
                move_player(self, -1, 0);
                true
            },
            Move::Right => {
                move_player(self, 1, 0);
                true
            },
            Move::UpJump => {
                move_player(self, 0, -2);
                true
            },
            Move::DownJump => {
                move_player(self, 0, 2);
                true
            },
            Move::LeftJump => {
                move_player(self, -2, 0);
                true
            },
            Move::RightJump => {
                move_player(self, 2, 0);
                true
            },
            Move::UpLeft => {
                move_player(self, -1, -1);
                true
            },
            Move::UpRight => {
                move_player(self, 1, -1);
                true
            },
            Move::DownLeft => {
                move_player(self, -1, 1);
                true
            },
            Move::DownRight => {
                move_player(self, 1, 1);
                true
            },
            Move::LeftUp => {
                move_player(self, -1, -1);
                true
            },
            Move::LeftDown => {
                move_player(self, -1, 1);
                true
            },
            Move::RightUp => {
                move_player(self, 1, -1);
                true
            },
            Move::RightDown => {
                move_player(self, 1, 1);
                true
            },
            Move::PlaceWall(x, y, orientation) => {
                let r = place_wall(self, *x, *y, *orientation);
                r == WallPlacementResult::Success
            },
        };
        if success {
            self.active_player = 1 - self.active_player;
        }
    }
}

/// Both pawn coordinates packed into one word.
pub open spec fn pawn_pack(p: Piece) -> u64 {
    ((p.x as u64) << 32u64) | (p.y as u64)
}

/// The hash of the turn and the two pawn positions.
pub open spec fn hash_seed(g: Quorridor) -> u64 {
    ((g.active_player as u64).wrapping_mul(31).wrapping_add(
        pawn_pack(g.player_pieces@[0]),
    )).wrapping_mul(31).wrapping_add(pawn_pack(g.player_pieces@[1]))
}

/// Mix slot `k` into the hash when some wall segment covers it.
pub open spec fn slot_step(walls: Seq<Wall>, h: u64, k: int) -> u64 {
    if any_covers(walls, k % 9, k / 9) {
        h.wrapping_mul(31).wrapping_add((((k % 9) as u64) << 8u64) | ((k / 9) as u64))
    } else {
        h
    }
}

/// The hash after folding the first `k` slots, in slot-number order.
pub open spec fn hash_upto(walls: Seq<Wall>, h0: u64, k: int) -> u64
    decreases k,
{
    if k <= 0 {
        h0
    } else {
        slot_step(walls, hash_upto(walls, h0, k - 1), k - 1)
    }
}

/// The content hash of a position: the turn, the pawns, and which slots
/// carry wall segments — independent of the order walls were placed in.
pub open spec fn state_hash(g: Quorridor) -> u64 {
    hash_upto(g.walls@, hash_seed(g), 81)
}

impl Quorridor {
    /// A content-based position hash for transposition tables: equal on
    /// states with the same turn, pawns and covered wall slots, whatever
    /// order the walls were placed in.
    pub fn hash(&self) -> (r: u64)
        requires
            self.wf(),
        ensures
            r == state_hash(*self),
    {
        let mut h: u64 = self.active_player as u64;
        h = h.wrapping_mul(31).wrapping_add(
            ((self.player_pieces[0].x as u64) << 32) | (self.player_pieces[0].y as u64),
        );
        h = h.wrapping_mul(31).wrapping_add(
            ((self.player_pieces[1].x as u64) << 32) | (self.player_pieces[1].y as u64),
        );
        proof {
            assert(h == hash_seed(*self));
        }
        let mut k: usize = 0;
        while k < 81
            invariant
                self.wf(),
                k <= 81,
                h == hash_upto(self.walls@, hash_seed(*self), k as int),
            decreases 81 - k,
        {
            let x: i64 = (k % 9) as i64;
            let y: i64 = (k / 9) as i64;
            if self.wall_collision(x, y) {
                h = h.wrapping_mul(31).wrapping_add(((x as u64) << 8) | (y as u64));
            }
            k = k + 1;
        }
        h
    }
}

/// The position hash reads only content: two states with the same turn,
/// the same pawns and the same covered slots hash alike, whatever order
/// their walls were placed in.
pub proof fn lemma_hash_content_based(a: Quorridor, b: Quorridor)
    requires
        a.active_player == b.active_player,
        a.player_pieces@[0] == b.player_pieces@[0],
        a.player_pieces@[1] == b.player_pieces@[1],
        forall|x: int, y: int| #[trigger] any_covers(a.walls@, x, y) == any_covers(b.walls@, x, y),
    ensures
        state_hash(a) == state_hash(b),
{
    lemma_hash_upto_content(a.walls@, b.walls@, hash_seed(a), 81);
}

proof fn lemma_hash_upto_content(wa: Seq<Wall>, wb: Seq<Wall>, h0: u64, k: int)
    requires
        forall|x: int, y: int| #[trigger] any_covers(wa, x, y) == any_covers(wb, x, y),
    ensures
        hash_upto(wa, h0, k) == hash_upto(wb, h0, k),
    decreases k,
{
    if k > 0 {
        lemma_hash_upto_content(wa, wb, h0, k - 1);
        assert(any_covers(wa, (k - 1) % 9, (k - 1) / 9) == any_covers(wb, (k - 1) % 9, (k - 1)
            / 9));
    }
}

} // verus!
