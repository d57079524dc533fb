//! The move vocabulary: single steps, straight jumps over the opponent,
//! diagonal sidesteps when a wall behind the opponent blocks the straight
//! jump, and wall placements, together with a dense numeric encoding.

use vstd::prelude::*;

use crate::wall::Orientation;

verus! {

/// One legal action of the active player.  Step moves shift the pawn one
/// cell; jump moves shift it two cells straight over the opponent; the
/// two-word moves are the diagonal sidesteps (first word: the blocked jump
/// direction, second: the sidestep).
#[derive(Copy, Clone, Debug, PartialEq, Eq, Structural)]
pub enum Move {
    Up,
    Down,
    Left,
    Right,
    UpJump,
    DownJump,
    LeftJump,
    RightJump,
    UpLeft,
    UpRight,
    DownLeft,
    DownRight,
    LeftUp,
    LeftDown,
    RightUp,
    RightDown,
    PlaceWall(i64, i64, Orientation),
}

/// Is this a pawn move (anything but a wall placement)?
pub open spec fn is_pawn_move(m: Move) -> bool {
    !(m matches Move::PlaceWall(..))
}

/// How far a pawn move shifts the pawn horizontally.  `Up`/`Down` run
/// along the y axis; y grows toward player 0's goal row.
pub open spec fn move_dx(m: Move) -> int {
    match m {
        Move::Up => 0,
        Move::Down => 0,
        Move::Left => -1,
        Move::Right => 1,
        Move::UpJump => 0,
        Move::DownJump => 0,
        Move::LeftJump => -2,
        Move::RightJump => 2,
        Move::UpLeft => -1,
        Move::UpRight => 1,
        Move::DownLeft => -1,
        Move::DownRight => 1,
        Move::LeftUp => -1,
        Move::LeftDown => -1,
        Move::RightUp => 1,
        Move::RightDown => 1,
        Move::PlaceWall(..) => 0,
    }
}

/// How far a pawn move shifts the pawn vertically.
pub open spec fn move_dy(m: Move) -> int {
    match m {
        Move::Up => -1,
        Move::Down => 1,
        Move::Left => 0,
        Move::Right => 0,
        Move::UpJump => -2,
        Move::DownJump => 2,
        Move::LeftJump => 0,
        Move::RightJump => 0,
        Move::UpLeft => -1,
        Move::UpRight => -1,
        Move::DownLeft => 1,
        Move::DownRight => 1,
        Move::LeftUp => -1,
        Move::LeftDown => 1,
        Move::RightUp => -1,
        Move::RightDown => 1,
        Move::PlaceWall(..) => 0,
    }
}

/// The dense index of a move: pawn moves take `0..16`, wall placements
/// `16..` by slot and orientation.
pub open spec fn encode_move_spec(m: Move) -> int {
    match m {
        Move::Up => 0,
        Move::Down => 1,
        Move::Left => 2,
        Move::Right => 3,
        Move::UpJump => 4,
        Move::DownJump => 5,
        Move::LeftJump => 6,
        Move::RightJump => 7,
        Move::UpLeft => 8,
        Move::UpRight => 9,
        Move::DownLeft => 10,
        Move::DownRight => 11,
        Move::LeftUp => 12,
        Move::LeftDown => 13,
        Move::RightUp => 14,
        Move::RightDown => 15,
        Move::PlaceWall(x, y, o) => 16 + (x * 10 + y) * 2 + (if o is Vertical {
            1int
        } else {
            0int
        }),
    }
}

/// Map a move to its dense index, for policy vectors and training logs.
pub fn encode_move(mov: &Move) -> (r: usize)
    requires
        (*mov) matches Move::PlaceWall(x, y, _) ==> 0 <= x && x <= 8 && 0 <= y && y <= 8,
    ensures
        r == encode_move_spec(*mov),
{
    match mov {
        Move::Up => 0,
        Move::Down => 1,
        Move::Left => 2,
        Move::Right => 3,
        Move::UpJump => 4,
        Move::DownJump => 5,
        Move::LeftJump => 6,
        Move::RightJump => 7,
        Move::UpLeft => 8,
        Move::UpRight => 9,
        Move::DownLeft => 10,
        Move::DownRight => 11,
        Move::LeftUp => 12,
        Move::LeftDown => 13,
        Move::RightUp => 14,
        Move::RightDown => 15,
        Move::PlaceWall(x, y, orientation) => {
            let pos_idx: i64 = *x * 10 + *y;
            let orient: i64 = match orientation {
                Orientation::Horizontal => 0,
                Orientation::Vertical => 1,
            };
            (16 + pos_idx * 2 + orient) as usize
        },
    }
}

} // verus!
