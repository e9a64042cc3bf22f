use vstd::prelude::*;

verus! {

use crate::bitboard::{bit_indices, square_of};
use crate::game::{Game, Position};
use crate::moves::{Move, moves_from_bitboard, moves_to_targets, slider_attacks_incl, slider_attacks_excl, slider_pin_from};
use crate::moves_bishop::{
    generate_bishop_attacked_squares_excluding_own,
    generate_bishop_attacked_squares_including_own,
    generate_bishop_pinned_piece,
};
use crate::moves_rook::{
    generate_rook_attacked_squares_excluding_own,
    generate_rook_attacked_squares_including_own,
    generate_rook_pinned_piece,
};

/// The squares a queen on `sq` can move to: the bishop moves together with the rook moves.
pub open spec fn queen_moves_mask(sq: int, occupied: u64, own: u64) -> u64 {
    slider_attacks_excl(false, sq, occupied, own, 4) | slider_attacks_excl(true, sq, occupied, own, 4)
}

/// The squares a queen on `sq` attacks, blockers included.
pub open spec fn queen_attacks_mask(sq: int, occupied: u64) -> u64 {
    slider_attacks_incl(false, sq, occupied, 4) | slider_attacks_incl(true, sq, occupied, 4)
}

/// The queen's bishop-line overlap with the king together with its rook-line overlap.
pub open spec fn queen_pin_mask(sq: int, occupied: u64, king_sq: int) -> u64 {
    slider_pin_from(false, sq, occupied, king_sq, 0) | slider_pin_from(true, sq, occupied, king_sq, 0)
}

pub fn generate_queen_attacked_squares(from_square: usize, game: &Game) -> (attacked: u64)
    requires
        from_square < 64,
    ensures
        attacked == queen_moves_mask(from_square as int, game@.occupied_bits(), game@.friendly_bits()),
{
    generate_bishop_attacked_squares_excluding_own(from_square, game)
        | generate_rook_attacked_squares_excluding_own(from_square, game)
}

pub fn generate_queen_attacked_squares_including_own(from_square: usize, game: &Game, occupied: u64) -> (attacked: u64)
    requires
        from_square < 64,
    ensures
        attacked == queen_attacks_mask(from_square as int, occupied),
{
    generate_bishop_attacked_squares_including_own(from_square, game, occupied)
        | generate_rook_attacked_squares_including_own(from_square, game, occupied)
}

pub fn generate_queen_pinned_piece(from_square: usize, game: &Game, king_bit: u64) -> (pin: u64)
    requires
        from_square < 64,
        square_of(king_bit) < 64,
    ensures
        pin == queen_pin_mask(from_square as int, game@.occupied_bits(), square_of(king_bit)),
{
    generate_bishop_pinned_piece(from_square, game, king_bit) | generate_rook_pinned_piece(from_square, game, king_bit)
}

pub fn generate_queen_moves(from_square: usize, game: &Game) -> (possible_moves: Vec<Move>)
    requires
        from_square < 64,
    ensures
        possible_moves@ == moves_to_targets(
            from_square,
            bit_indices(queen_moves_mask(from_square as int, game@.occupied_bits(), game@.friendly_bits())),
            true,
        ),
{
    let valid_moves = generate_queen_attacked_squares(from_square, game);
    moves_from_bitboard(from_square, valid_moves, true)
}

} // verus!
