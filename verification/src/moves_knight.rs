use vstd::prelude::*;

verus! {

use crate::bitboard::{step_bit, step_bit_exec, bit_indices, has_bit, lemma_has_bit_or, lemma_step_bit_has_bit};
use crate::game::{Game, Position};
use crate::moves::{Move, moves_from_bitboard, moves_to_targets};

/// The squares a knight on `sq` attacks.
pub open spec fn knight_mask(sq: int) -> u64 {
    step_bit(sq, 2, 1) | step_bit(sq, 2, -1) | step_bit(sq, -2, 1) | step_bit(sq, -2, -1)
        | step_bit(sq, 1, 2) | step_bit(sq, 1, -2) | step_bit(sq, -1, 2) | step_bit(sq, -1, -2)
}

/// Whether `t` is a knight's jump away from `sq`: two ranks and one file, or one rank and
/// two files.
pub open spec fn knight_jump(sq: int, t: int) -> bool {
    let dr = t / 8 - sq / 8;
    let df = t % 8 - sq % 8;
    ((dr == 2 || dr == -2) && (df == 1 || df == -1)) || ((dr == 1 || dr == -1) && (df == 2 || df
        == -2))
}

/// A knight attacks exactly the squares a knight's jump away.
pub proof fn lemma_knight_mask_squares(sq: int, t: int)
    requires
        0 <= sq < 64,
        0 <= t < 64,
    ensures
        has_bit(knight_mask(sq), t) <==> knight_jump(sq, t),
{
    let a = step_bit(sq, 2, 1);
    let b = step_bit(sq, 2, -1);
    let c = step_bit(sq, -2, 1);
    let d = step_bit(sq, -2, -1);
    let e = step_bit(sq, 1, 2);
    let f = step_bit(sq, 1, -2);
    let g = step_bit(sq, -1, 2);
    let h = step_bit(sq, -1, -2);
    lemma_has_bit_or(a, b, t);
    lemma_has_bit_or(a | b, c, t);
    lemma_has_bit_or(a | b | c, d, t);
    lemma_has_bit_or(a | b | c | d, e, t);
    lemma_has_bit_or(a | b | c | d | e, f, t);
    lemma_has_bit_or(a | b | c | d | e | f, g, t);
    lemma_has_bit_or(a | b | c | d | e | f | g, h, t);
    lemma_step_bit_has_bit(sq, 2, 1, t);
    lemma_step_bit_has_bit(sq, 2, -1, t);
    lemma_step_bit_has_bit(sq, -2, 1, t);
    lemma_step_bit_has_bit(sq, -2, -1, t);
    lemma_step_bit_has_bit(sq, 1, 2, t);
    lemma_step_bit_has_bit(sq, 1, -2, t);
    lemma_step_bit_has_bit(sq, -1, 2, t);
    lemma_step_bit_has_bit(sq, -1, -2, t);
}

/// The squares a knight on `square` attacks.
pub fn knight_move_mask(square: usize) -> (moves: u64)
    requires
        square < 64,
    ensures
        moves == knight_mask(square as int),
{
    step_bit_exec(square, 2, 1) | step_bit_exec(square, 2, -1) | step_bit_exec(square, -2, 1)
        | step_bit_exec(square, -2, -1) | step_bit_exec(square, 1, 2) | step_bit_exec(square, 1, -2)
        | step_bit_exec(square, -1, 2) | step_bit_exec(square, -1, -2)
}

/// The knight attack table, indexed by square.
pub fn precompute_knight_move_bitboards() -> (knight_moves: Vec<u64>)
    ensures
        knight_moves@.len() == 64,
        forall|sq: int| 0 <= sq < 64 ==> #[trigger] knight_moves@[sq] == knight_mask(sq),
{
    let mut knight_moves: Vec<u64> = Vec::new();
    let mut square: usize = 0;
    while square < 64
        invariant
            square <= 64,
            knight_moves@.len() == square,
            forall|sq: int| 0 <= sq < square ==> #[trigger] knight_moves@[sq] == knight_mask(sq),
        decreases 64 - square,
    {
        knight_moves.push(knight_move_mask(square));
        square += 1;
    }
    knight_moves
}

pub fn generate_knight_moves(from_square: usize, game: &Game) -> (possible_moves: Vec<Move>)
    requires
        from_square < 64,
    ensures
        possible_moves@ == moves_to_targets(
            from_square,
            bit_indices(knight_mask(from_square as int) & !game@.friendly_bits()),
            false,
        ),
{
    let valid_moves = generate_knight_attacked_squares_excluding_own(from_square, game);
    moves_from_bitboard(from_square, valid_moves, false)
}

pub fn generate_knight_attacked_squares_including_own(from_square: usize) -> (attacked: u64)
    requires
        from_square < 64,
    ensures
        attacked == knight_mask(from_square as int),
        forall|t: int| 0 <= t < 64 ==> (#[trigger] has_bit(attacked, t) <==> knight_jump(from_square as int, t)),
{
    proof {
        assert forall|t: int| 0 <= t < 64 implies (#[trigger] has_bit(knight_mask(from_square as int), t) <==> knight_jump(from_square as int, t)) by {
            lemma_knight_mask_squares(from_square as int, t);
        }
    }
    knight_move_mask(from_square)
}

pub fn generate_knight_attacked_squares_excluding_own(from_square: usize, game: &Game) -> (valid_moves: u64)
    requires
        from_square < 64,
    ensures
        valid_moves == knight_mask(from_square as int) & !game@.friendly_bits(),
{
    let knight_moves = generate_knight_attacked_squares_including_own(from_square);
    let occupied_by_friends = game.get_friendly_piece_bitboard();
    knight_moves & !occupied_by_friends
}

} // verus!
