//! A player's pawn: a coordinate in cell space.

use vstd::prelude::*;

use crate::quorridor::Quorridor;

verus! {

/// A pawn's position on the board, in cell coordinates.
#[derive(Copy, Clone, Debug, PartialEq, Eq, Structural)]
pub struct Piece {
    pub x: i64,
    pub y: i64,
}

/// Shift the active player's pawn by `(x, y)`; everything else stays put.
pub fn move_player(game: &mut Quorridor, x: i64, y: i64)
    requires
        old(game).active_player < 2,
        i64::MIN <= old(game).player_pieces@[old(game).active_player as int].x + x <= i64::MAX,
        i64::MIN <= old(game).player_pieces@[old(game).active_player as int].y + y <= i64::MAX,
    ensures
        final(game).player_pieces@[old(game).active_player as int].x == old(
            game,
        ).player_pieces@[old(game).active_player as int].x + x,
        final(game).player_pieces@[old(game).active_player as int].y == old(
            game,
        ).player_pieces@[old(game).active_player as int].y + y,
        final(game).player_pieces@[1 - old(game).active_player as int] == old(
            game,
        ).player_pieces@[1 - old(game).active_player as int],
        final(game).active_player == old(game).active_player,
        final(game).walls@ == old(game).walls@,
        final(game).walls_remaining@ == old(game).walls_remaining@,
{
    let idx: usize = game.active_player;
    let p: Piece = game.player_pieces[idx];
    let np = Piece { x: p.x + x, y: p.y + y };
    if idx == 0 {
        game.player_pieces = [np, game.player_pieces[1]];
    } else {
        game.player_pieces = [game.player_pieces[0], np];
    }
}

} // verus!
