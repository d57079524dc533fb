//! The wall model: a placed obstacle's footprint and orientation.
//!
//! A wall is anchored at a cell-boundary slot `(x, y)` and spans two
//! contiguous slots: a horizontal wall covers `(x, y)` and `(x + 1, y)`, a
//! vertical wall covers `(x, y)` and `(x, y + 1)`.  A horizontal wall
//! covering slot `(x, y)` blocks pawn movement between cells `(x, y)` and
//! `(x, y + 1)`; a vertical wall covering `(x, y)` blocks movement between
//! `(x, y)` and `(x + 1, y)`.

use vstd::prelude::*;

use crate::quorridor::{connected_with, has_cross, has_overlap, placement_ok, Quorridor};

verus! {

/// Which way a wall runs.
#[derive(Copy, Clone, Debug, PartialEq, Eq, Structural)]
pub enum Orientation {
    Horizontal,
    Vertical,
}

/// The outcome of asking to place a wall.  `Success` mutates the game
/// state; every other variant leaves it untouched.
#[derive(Copy, Clone, Debug, PartialEq, Eq, Structural)]
pub enum WallPlacementResult {
    Success,
    NoWallsRemaining,
    OutOfBounds,
    Overlaps,
    Crosses,
    BlocksPath,
}

/// A placed wall: anchor slot plus orientation.
#[derive(Copy, Clone, Debug, PartialEq, Eq, Structural)]
pub struct Wall {
    pub x: i64,
    pub y: i64,
    pub orientation: Orientation,
}

/// The anchor slot of a wall's footprint.
pub open spec fn slot0(w: Wall) -> (int, int) {
    (w.x as int, w.y as int)
}

/// The second slot of a wall's footprint: one to the right for a
/// horizontal wall, one up (larger `y`) for a vertical one.
pub open spec fn slot1(w: Wall) -> (int, int) {
    match w.orientation {
        Orientation::Horizontal => (w.x + 1, w.y as int),
        Orientation::Vertical => (w.x as int, w.y + 1),
    }
}

/// Does wall `w`'s footprint cover slot `(x, y)`?
pub open spec fn covers(w: Wall, x: int, y: int) -> bool {
    slot0(w) == (x, y) || slot1(w) == (x, y)
}

/// Do two walls share a footprint slot?
pub open spec fn share_slot(a: Wall, b: Wall) -> bool {
    covers(a, slot0(b).0, slot0(b).1) || covers(a, slot1(b).0, slot1(b).1)
}

/// Two walls of the same orientation occupy a common slot.
pub open spec fn overlaps(a: Wall, b: Wall) -> bool {
    a.orientation == b.orientation && share_slot(a, b)
}

/// Two perpendicular walls intersect: their footprints meet at a slot.
pub open spec fn crosses(a: Wall, b: Wall) -> bool {
    a.orientation != b.orientation && share_slot(a, b)
}

/// The whole footprint lies on the board's slot grid.
pub open spec fn wall_in_bounds(w: Wall) -> bool {
    0 <= slot0(w).0 && slot1(w).0 <= 8 && 0 <= slot0(w).1 && slot1(w).1 <= 8
}

/// Sharing a slot is mutual: each wall covers a slot of the other.
pub proof fn lemma_share_slot_symmetric(a: Wall, b: Wall)
    ensures
        share_slot(a, b) == share_slot(b, a),
{
}

/// Crossing is symmetric: wall `a` crosses wall `b` exactly when `b`
/// crosses `a`.
pub proof fn lemma_crosses_symmetric(a: Wall, b: Wall)
    ensures
        crosses(a, b) == crosses(b, a),
{
    lemma_share_slot_symmetric(a, b);
}

/// Does wall `w` cover slot `(x, y)`?
pub fn wall_covers(w: Wall, x: i64, y: i64) -> (r: bool)
    ensures
        r == covers(w, x as int, y as int),
{
    match w.orientation {
        Orientation::Horizontal => w.y == y && (w.x == x || (w.x < i64::MAX && w.x + 1 == x)),
        Orientation::Vertical => w.x == x && (w.y == y || (w.y < i64::MAX && w.y + 1 == y)),
    }
}

/// Do walls `a` and `b` occupy a common footprint slot?
pub fn walls_share_slot(a: Wall, b: Wall) -> (r: bool)
    requires
        b.x < i64::MAX,
        b.y < i64::MAX,
    ensures
        r == share_slot(a, b),
{
    if wall_covers(a, b.x, b.y) {
        return true;
    }
    match b.orientation {
        Orientation::Horizontal => wall_covers(a, b.x + 1, b.y),
        Orientation::Vertical => wall_covers(a, b.x, b.y + 1),
    }
}

impl Wall {
    /// The two slots of this wall's footprint, anchor first.
    pub fn positions(&self) -> (r: [(i64, i64); 2])
        requires
            self.x < i64::MAX,
            self.y < i64::MAX,
        ensures
            r@[0] == (self.x, self.y),
            (r@[1].0 as int, r@[1].1 as int) == slot1(*self),
    {
        match self.orientation {
            Orientation::Horizontal => [(self.x, self.y), (self.x + 1, self.y)],
            Orientation::Vertical => [(self.x, self.y), (self.x, self.y + 1)],
        }
    }
}

/// The active player has no wall left to place.
pub open spec fn no_budget(g: Quorridor) -> bool {
    g.walls_remaining@[g.active_player as int] == 0
}

/// `post` has `pre`'s walls with `w` appended, the active player's budget
/// one lower, the other budget kept, and the pawns where they were.
pub open spec fn wall_added(pre: Quorridor, post: Quorridor, w: Wall) -> bool {
    &&& post.walls@ == pre.walls@.push(w)
    &&& post.walls_remaining@[pre.active_player as int] == pre.walls_remaining@[pre.active_player as int] - 1
    &&& post.walls_remaining@[1 - pre.active_player as int] == pre.walls_remaining@[1 - pre.active_player as int]
    &&& post.player_pieces == pre.player_pieces
}

/// Ask to place a wall for the active player.  The checks run in order —
/// budget, bounds, overlap, crossing, connectivity — and the first failure
/// is reported with the state untouched; on `Success` the wall is added
/// and the active player's budget drops by exactly one.
pub fn place_wall(game: &mut Quorridor, x: i64, y: i64, orientation: Orientation) -> (r:
    WallPlacementResult)
    requires
        old(game).wf(),
    ensures
        final(game).wf(),
        final(game).player_pieces == old(game).player_pieces,
        final(game).active_player == old(game).active_player,
        (r == WallPlacementResult::Success) == placement_ok(*old(game), Wall { x, y, orientation }),
        r == WallPlacementResult::Success ==> wall_added(*old(game), *final(game), Wall { x, y, orientation }),
        r != WallPlacementResult::Success ==> final(game).walls@ == old(game).walls@
            && final(game).walls_remaining@ == old(game).walls_remaining@,
        (r == WallPlacementResult::NoWallsRemaining) == no_budget(*old(game)),
        (r == WallPlacementResult::OutOfBounds) == (!no_budget(*old(game))
            && !wall_in_bounds(Wall { x, y, orientation })),
        (r == WallPlacementResult::Overlaps) == (!no_budget(*old(game))
            && wall_in_bounds(Wall { x, y, orientation })
            && has_overlap(old(game).walls@, Wall { x, y, orientation })),
        (r == WallPlacementResult::Crosses) == (!no_budget(*old(game))
            && wall_in_bounds(Wall { x, y, orientation })
            && !has_overlap(old(game).walls@, Wall { x, y, orientation })
            && has_cross(old(game).walls@, Wall { x, y, orientation })),
        (r == WallPlacementResult::BlocksPath) == (!no_budget(*old(game))
            && wall_in_bounds(Wall { x, y, orientation })
            && !has_overlap(old(game).walls@, Wall { x, y, orientation })
            && !has_cross(old(game).walls@, Wall { x, y, orientation })
            && !connected_with(*old(game), old(game).walls@.push(Wall { x, y, orientation }))),
{
    let idx: usize = game.active_player;
    if game.walls_remaining[idx] == 0 {
        return WallPlacementResult::NoWallsRemaining;
    }
    let w = Wall { x, y, orientation };
    let in_b: bool = match orientation {
        Orientation::Horizontal => x >= 0 && x <= 7 && y >= 0 && y <= 8,
        Orientation::Vertical => x >= 0 && x <= 8 && y >= 0 && y <= 7,
    };
    if !in_b {
        proof {
            assert(!wall_in_bounds(w));
        }
        return WallPlacementResult::OutOfBounds;
    }
    proof {
        assert(wall_in_bounds(w));
    }
    let mut k: usize = 0;
    while k < game.walls.len()
        invariant
            k <= game.walls@.len(),
            w == (Wall { x, y, orientation }),
            wall_in_bounds(w),
            game == old(game),
            old(game).wf(),
            old(game).walls_remaining@[old(game).active_player as int] > 0,
            forall|i: int| 0 <= i < k ==> !overlaps(#[trigger] game.walls@[i], w),
        decreases game.walls@.len() - k,
    {
        let e = game.walls[k];
        if e.orientation == orientation {
            if walls_share_slot(e, w) {
                proof {
                    assert(overlaps(game.walls@[k as int], w));
                }
                return WallPlacementResult::Overlaps;
            }
        }
        k = k + 1;
    }
    let mut k2: usize = 0;
    while k2 < game.walls.len()
        invariant
            k2 <= game.walls@.len(),
            w == (Wall { x, y, orientation }),
            wall_in_bounds(w),
            game == old(game),
            old(game).wf(),
            old(game).walls_remaining@[old(game).active_player as int] > 0,
            !has_overlap(game.walls@, w),
            forall|i: int| 0 <= i < k2 ==> !crosses(#[trigger] game.walls@[i], w),
        decreases game.walls@.len() - k2,
    {
        let e = game.walls[k2];
        if !(e.orientation == orientation) {
            if walls_share_slot(e, w) {
                proof {
                    assert(crosses(game.walls@[k2 as int], w));
                }
                return WallPlacementResult::Crosses;
            }
        }
        k2 = k2 + 1;
    }
    if game.wall_blocks_path(x, y, orientation) {
        return WallPlacementResult::BlocksPath;
    }
    game.walls.push(w);
    let r0: usize = game.walls_remaining[0];
    let r1: usize = game.walls_remaining[1];
    if idx == 0 {
        game.walls_remaining = [r0 - 1, r1];
    } else {
        game.walls_remaining = [r0, r1 - 1];
    }
    WallPlacementResult::Success
}

} // verus!
