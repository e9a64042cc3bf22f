use vstd::prelude::*;

verus! {

use crate::bitboard::{bit_indices, square_of, bit_to_onebit_index};
use crate::game::{Game, Position};
use crate::moves::{
    Move,
    moves_from_bitboard,
    moves_to_targets,
    slider_attacks_incl,
    slider_attacks_excl,
    slider_pin_from,
    slider_ray,
    slider_ray_exec,
    slider_attacks_including_own,
    slider_attacks_excluding_own,
    slider_pinned_piece,
};

/// The squares a rook on `from_square` attacks, each ray stopping at (and including) its first
/// square in `occupied`.
pub fn generate_rook_attacked_squares_including_own(from_square: usize, game: &Game, occupied: u64) -> (attacked_squares: u64)
    requires
        from_square < 64,
    ensures
        attacked_squares == slider_attacks_incl(true, from_square as int, occupied, 4),
{
    slider_attacks_including_own(true, from_square, occupied)
}

/// The squares a rook on `from_square` can move to: each ray stops at its first occupied
/// square, which is included unless it holds a piece of the side to move.
pub fn generate_rook_attacked_squares_excluding_own(from_square: usize, game: &Game) -> (attacked_squares: u64)
    requires
        from_square < 64,
    ensures
        attacked_squares == slider_attacks_excl(true, from_square as int, game@.occupied_bits(), game@.friendly_bits(), 4),
{
    let occupied = game.get_occupied_bitboard();
    let own_pieces = game.get_friendly_piece_bitboard();
    slider_attacks_excluding_own(true, from_square, occupied, own_pieces)
}

/// For a rook on `from_square` and the king on `king_bit`: in the first direction where the
/// rook's blocked ray meets the king's blocked ray from the opposite side, the squares they
/// share (the piece between them, or the empty line when none is); 0 otherwise.
pub fn generate_rook_pinned_piece(from_square: usize, game: &Game, king_bit: u64) -> (pin: u64)
    requires
        from_square < 64,
        square_of(king_bit) < 64,
    ensures
        pin == slider_pin_from(true, from_square as int, game@.occupied_bits(), square_of(king_bit), 0),
{
    let occupied = game.get_occupied_bitboard();
    let king_square = bit_to_onebit_index(king_bit);
    slider_pinned_piece(true, from_square, occupied, king_square)
}

pub fn generate_rook_moves(from_square: usize, game: &Game) -> (possible_moves: Vec<Move>)
    requires
        from_square < 64,
    ensures
        possible_moves@ == moves_to_targets(
            from_square,
            bit_indices(slider_attacks_excl(true, from_square as int, game@.occupied_bits(), game@.friendly_bits(), 4)),
            true,
        ),
{
    let valid_moves = generate_rook_attacked_squares_excluding_own(from_square, game);
    moves_from_bitboard(from_square, valid_moves, true)
}

/// The rook rays of every square: entry `d` of the table holds the rays in direction `d`.
pub fn precompute_rook_attack_masks() -> (masks: Vec<Vec<u64>>)
    ensures
        masks@.len() == 4,
        forall|d: int| 0 <= d < 4 ==> #[trigger] masks@[d]@.len() == 64,
        forall|d: int, sq: int| 0 <= d < 4 && 0 <= sq < 64 ==> #[trigger] masks@[d]@[sq] == slider_ray(true, d, sq),
{
    let mut masks: Vec<Vec<u64>> = Vec::new();
    let mut direction: usize = 0;
    while direction < 4
        invariant
            direction <= 4,
            masks@.len() == direction,
            forall|d: int| 0 <= d < direction ==> #[trigger] masks@[d]@.len() == 64,
            forall|d: int, sq: int| 0 <= d < direction && 0 <= sq < 64 ==> #[trigger] masks@[d]@[sq] == slider_ray(true, d, sq),
        decreases 4 - direction,
    {
        let mut row: Vec<u64> = Vec::new();
        let mut square: usize = 0;
        while square < 64
            invariant
                direction < 4,
                square <= 64,
                row@.len() == square,
                forall|sq: int| 0 <= sq < square ==> #[trigger] row@[sq] == slider_ray(true, direction as int, sq),
            decreases 64 - square,
        {
            row.push(slider_ray_exec(true, direction, square));
            square += 1;
        }
        masks.push(row);
        direction += 1;
    }
    masks
}


} // verus!
