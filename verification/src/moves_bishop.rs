use vstd::prelude::*;

verus! {

use crate::bitboard::{bit_indices, square_of, square_bit, bit_to_onebit_index, onebit_index_to_bit};
use crate::game::{Game, Position};
use crate::moves::{
    Move,
    moves_from_bitboard,
    moves_to_targets,
    slider_attacks_incl,
    slider_attacks_excl,
    slider_pin_from,
    slider_ray,
    slider_ray_exec,
    slider_attacks_including_own,
    slider_attacks_excluding_own,
    slider_pinned_piece,
    sliding_including_own,
    calculate_sliding_attacked_squares_including_own,
};

/// The squares a bishop on `from_square` attacks, each ray stopping at (and including) its first
/// square in `occupied`.
pub fn generate_bishop_attacked_squares_including_own(from_square: usize, game: &Game, occupied: u64) -> (attacked_squares: u64)
    requires
        from_square < 64,
    ensures
        attacked_squares == slider_attacks_incl(false, from_square as int, occupied, 4),
{
    slider_attacks_including_own(false, from_square, occupied)
}

/// The squares a bishop on `from_square` can move to: each ray stops at its first occupied
/// square, which is included unless it holds a piece of the side to move.
pub fn generate_bishop_attacked_squares_excluding_own(from_square: usize, game: &Game) -> (attacked_squares: u64)
    requires
        from_square < 64,
    ensures
        attacked_squares == slider_attacks_excl(false, from_square as int, game@.occupied_bits(), game@.friendly_bits(), 4),
{
    let occupied = game.get_occupied_bitboard();
    let own_pieces = game.get_friendly_piece_bitboard();
    slider_attacks_excluding_own(false, from_square, occupied, own_pieces)
}

/// For a bishop on `from_square` and the king on `king_bit`: in the first direction where the
/// bishop's blocked ray meets the king's blocked ray from the opposite side, the squares they
/// share (the piece between them, or the empty line when none is); 0 otherwise.
pub fn generate_bishop_pinned_piece(from_square: usize, game: &Game, king_bit: u64) -> (pin: u64)
    requires
        from_square < 64,
        square_of(king_bit) < 64,
    ensures
        pin == slider_pin_from(false, from_square as int, game@.occupied_bits(), square_of(king_bit), 0),
{
    let occupied = game.get_occupied_bitboard();
    let king_square = bit_to_onebit_index(king_bit);
    slider_pinned_piece(false, from_square, occupied, king_square)
}

pub fn generate_bishop_moves(from_square: usize, game: &Game) -> (possible_moves: Vec<Move>)
    requires
        from_square < 64,
    ensures
        possible_moves@ == moves_to_targets(
            from_square,
            bit_indices(slider_attacks_excl(false, from_square as int, game@.occupied_bits(), game@.friendly_bits(), 4)),
            true,
        ),
{
    let valid_moves = generate_bishop_attacked_squares_excluding_own(from_square, game);
    moves_from_bitboard(from_square, valid_moves, true)
}

/// The bishop rays of every square: entry `d` of the table holds the rays in direction `d`.
pub fn precompute_bishop_attack_masks() -> (masks: Vec<Vec<u64>>)
    ensures
        masks@.len() == 4,
        forall|d: int| 0 <= d < 4 ==> #[trigger] masks@[d]@.len() == 64,
        forall|d: int, sq: int| 0 <= d < 4 && 0 <= sq < 64 ==> #[trigger] masks@[d]@[sq] == slider_ray(false, d, sq),
{
    let mut masks: Vec<Vec<u64>> = Vec::new();
    let mut direction: usize = 0;
    while direction < 4
        invariant
            direction <= 4,
            masks@.len() == direction,
            forall|d: int| 0 <= d < direction ==> #[trigger] masks@[d]@.len() == 64,
            forall|d: int, sq: int| 0 <= d < direction && 0 <= sq < 64 ==> #[trigger] masks@[d]@[sq] == slider_ray(false, d, sq),
        decreases 4 - direction,
    {
        let mut row: Vec<u64> = Vec::new();
        let mut square: usize = 0;
        while square < 64
            invariant
                direction < 4,
                square <= 64,
                row@.len() == square,
                forall|sq: int| 0 <= sq < square ==> #[trigger] row@[sq] == slider_ray(false, direction as int, sq),
            decreases 64 - square,
        {
            row.push(slider_ray_exec(false, direction, square));
            square += 1;
        }
        masks.push(row);
        direction += 1;
    }
    masks
}

/// The ray from a bishop on `from_square` towards the king on `king_bit`, ignoring every
/// other piece, together with the bishop's own square; 0 when the king is on none of its rays.
pub fn generate_bishop_absolute_pin(from_square: usize, game: &Game, king_bit: u64) -> (pin: u64)
    requires
        from_square < 64,
    ensures
        pin == bishop_absolute_pin_from(from_square as int, king_bit, 0),
{
    let occupied = king_bit;
    let mut direction: usize = 0;
    while direction < 4
        invariant
            from_square < 64,
            direction <= 4,
            occupied == king_bit,
            bishop_absolute_pin_from(from_square as int, king_bit, 0) == bishop_absolute_pin_from(from_square as int, king_bit, direction as int),
        decreases 4 - direction,
    {
        let moves_in_direction = calculate_sliding_attacked_squares_including_own(
            slider_ray_exec(false, direction, from_square),
            occupied,
            direction,
        );
        if moves_in_direction & king_bit != 0 {
            return moves_in_direction | onebit_index_to_bit(from_square);
        }
        direction += 1;
    }
    0
}

/// Scanning directions from `d` on: the first bishop ray from `sq`, blocked only by the king,
/// that reaches the king, with the bishop's square added; 0 when there is none.
pub open spec fn bishop_absolute_pin_from(sq: int, king_bit: u64, d: int) -> u64
    decreases 4 - d,
{
    if d < 0 || d >= 4 {
        0
    } else {
        let m = sliding_including_own(slider_ray(false, d, sq), king_bit, d);
        if m & king_bit != 0 {
            m | square_bit(sq)
        } else {
            bishop_absolute_pin_from(sq, king_bit, d + 1)
        }
    }
}

} // verus!
