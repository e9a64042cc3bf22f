use vstd::prelude::*;

verus! {

use vstd::std_specs::bits::{
    u64_trailing_zeros,
    u64_leading_zeros,
    axiom_u64_trailing_zeros,
    axiom_u64_leading_zeros,
};
use crate::utils::get_piece_index;
use crate::game::{Square, CastlingRights, wk, wq, bk, bq, opponent, opposite_colour, castling_kings_in_range, kingside_right, queenside_right, pieces_on_squares, PieceType, Piece, Colour, Game, Position, king_bit_of, find_first, king_of, find_from, lemma_find_from_facts, find_king_bit, copy_squares};
use crate::moves_pawn::{pawn_attacks, generate_pawn_attacked_squares_including_own};
use crate::moves_knight::{knight_mask, generate_knight_attacked_squares_including_own};
use crate::moves_king::{king_mask, legal_king_moves, castle_moves, add_castle_moves, queenside_castle_allowed, kingside_castle_allowed, generate_legal_king_moves, generate_king_attacked_squares_including_own};
use crate::moves_pawn::{pawn_moves_of, generate_pawn_moves, expand_promotions, promotion_variants, pawn_pushes, pawn_capture, pawn_en_passant, last_rank, pawn_direction, plain_move, start_rank};
use crate::moves_knight::generate_knight_moves;
use crate::moves_bishop::generate_bishop_moves;
use crate::moves_rook::generate_rook_moves;
use crate::moves_queen::{queen_moves_mask, generate_queen_moves};
use crate::moves_queen::{queen_attacks_mask, queen_pin_mask, generate_queen_attacked_squares_including_own, generate_queen_pinned_piece};
use crate::moves_bishop::{generate_bishop_attacked_squares_including_own, generate_bishop_pinned_piece};
use crate::moves_rook::{generate_rook_attacked_squares_including_own, generate_rook_pinned_piece};
use crate::bitboard::{
    has_bit,
    square_bit,
    lemma_has_bit_and,
    lemma_has_bit_or,
    lemma_square_bit_nonzero,
    ray_mask,
    ray_bits_exec,
    bit_indices,
    bitboard_to_indices,
    square_of,
    is_square_bit,
    bit_to_onebit_index,
    lemma_square_of_square_bit,
    lemma_set_bits_from_range,
    onebit_index_to_bit,
};

#[derive(Debug, PartialEq, Eq, Structural, Clone, Copy)]
pub struct Move {
    pub from_square: usize,
    pub to_square: usize,
    pub promotion: Option<PieceType>,
    pub capture_square: Option<usize>,
}

#[derive(Debug, PartialEq, Eq, Structural, Clone, Copy)]
pub struct MoveToUnmake {
    pub from_square: usize,
    pub to_square: usize,
    pub promotion: Option<PieceType>,
    pub captured_piece_index: Option<usize>,
    pub captured_piece_square: Option<usize>,
    pub previous_castling_rights: CastlingRights,
    pub previous_en_passant: Option<u64>,
    pub previous_colour_in_check: Option<Colour>,
    pub previous_last_move: Option<Move>,
    pub previous_castled_rook_piece_index: Option<usize>,
    pub previous_castled_rook_piece_from_square: Option<usize>,
    pub previous_castled_rook_piece_to_square: Option<usize>,
}

/// No bit of `x` is set strictly below square `j`.
pub open spec fn none_below(x: u64, j: int) -> bool {
    forall|k: int| 0 <= k < j ==> !has_bit(x, k)
}

/// No bit of `x` is set strictly above square `j`.
pub open spec fn none_above(x: u64, j: int) -> bool {
    forall|k: int| j < k < 64 ==> !has_bit(x, k)
}

/// The lowest set bit of a non-empty board.
pub open spec fn lowest_bit(x: u64) -> u64 {
    square_bit(u64_trailing_zeros(x) as int)
}

/// The highest set bit of a non-empty board.
pub open spec fn highest_bit(x: u64) -> u64 {
    square_bit(63 - u64_leading_zeros(x))
}

/// The squares of a ray mask that a sliding piece attacks, its first blocker included.
/// Directions 0 and 1 run towards higher squares, 2 and 3 towards lower ones.
pub open spec fn sliding_including_own(attack_mask: u64, occupied: u64, direction: int) -> u64 {
    let blockers = attack_mask & occupied;
    if blockers == 0 {
        attack_mask
    } else if direction == 0 || direction == 1 {
        let b = lowest_bit(blockers);
        attack_mask & (b | ((b - 1) as u64))
    } else {
        let b = highest_bit(blockers);
        attack_mask & !((b - 1) as u64)
    }
}

/// The squares of a ray mask that a sliding piece can move to: the first blocker is
/// included only when it is not one of `own_pieces`.
pub open spec fn sliding_excluding_own(
    attack_mask: u64,
    occupied: u64,
    direction: int,
    own_pieces: u64,
) -> u64 {
    let blockers = attack_mask & occupied;
    if blockers == 0 {
        attack_mask
    } else if direction == 0 || direction == 1 {
        let b = lowest_bit(blockers);
        if b & own_pieces == 0 {
            attack_mask & (b | ((b - 1) as u64))
        } else {
            attack_mask & ((b - 1) as u64)
        }
    } else {
        let b = highest_bit(blockers);
        if b & own_pieces == 0 {
            attack_mask & !((b - 1) as u64)
        } else {
            attack_mask & (!b & !((b - 1) as u64))
        }
    }
}

/// Which blockers cut a ray at square `j`: those below it for the upward directions,
/// those above it for the downward ones.
pub open spec fn unblocked(blockers: u64, direction: int, j: int) -> bool {
    if direction == 0 || direction == 1 {
        none_below(blockers, j)
    } else {
        none_above(blockers, j)
    }
}

proof fn lemma_low_mask_bv(t: u64, j: u64)
    by (bit_vector)
    requires
        t < 64,
        j < 64,
    ensures
        ((((1u64 << t) | (((1u64 << t) - 1) as u64)) >> j) & 1u64 == 1u64) <==> j <= t,
        (((((1u64 << t) - 1) as u64) >> j) & 1u64 == 1u64) <==> j < t,
        (((!(((1u64 << t) - 1) as u64)) >> j) & 1u64 == 1u64) <==> j >= t,
        (((!(1u64 << t) & !(((1u64 << t) - 1) as u64)) >> j) & 1u64 == 1u64) <==> j > t,
{
}

proof fn lemma_lowest_blocker(blockers: u64)
    requires
        blockers != 0,
    ensures
        0 <= u64_trailing_zeros(blockers) < 64,
        has_bit(blockers, u64_trailing_zeros(blockers) as int),
        none_below(blockers, u64_trailing_zeros(blockers) as int),
{
    axiom_u64_trailing_zeros(blockers);
    let t = u64_trailing_zeros(blockers) as int;
    assert forall|k: int| 0 <= k < t implies !has_bit(blockers, k) by {
        assert((blockers >> (k as u64)) & 1u64 == 0u64);
    }
}

proof fn lemma_highest_blocker(blockers: u64)
    requires
        blockers != 0,
    ensures
        0 <= 63 - u64_leading_zeros(blockers) < 64,
        has_bit(blockers, 63 - u64_leading_zeros(blockers)),
        none_above(blockers, 63 - u64_leading_zeros(blockers)),
{
    axiom_u64_leading_zeros(blockers);
    let t = 63 - u64_leading_zeros(blockers);
    let l = u64_leading_zeros(blockers) as u64;
    assert((blockers >> ((63 - l) as u64)) & 1u64 != 0u64);
    assert(((blockers >> ((63 - l) as u64)) & 1u64 != 0u64) ==> ((blockers >> ((63 - l) as u64))
        & 1u64 == 1u64)) by (bit_vector);
    assert forall|k: int| t < k < 64 implies !has_bit(blockers, k) by {
        assert((blockers >> (k as u64)) & 1u64 == 0u64);
    }
}

/// Bit-level meaning of the including-own truncation.
pub proof fn lemma_sliding_including_own_bits(attack_mask: u64, occupied: u64, direction: int, j: int)
    requires
        0 <= j < 64,
    ensures
        has_bit(sliding_including_own(attack_mask, occupied, direction), j) <==> has_bit(
            attack_mask,
            j,
        ) && unblocked(attack_mask & occupied, direction, j),
{
    let blockers = attack_mask & occupied;
    let r = sliding_including_own(attack_mask, occupied, direction);
    if blockers == 0 {
        assert forall|k: int| 0 <= k < 64 implies !has_bit(blockers, k) by {
            let b = k as u64;
            assert((0u64 >> b) & 1u64 == 0u64) by (bit_vector);
        }
    } else if direction == 0 || direction == 1 {
        lemma_lowest_blocker(blockers);
        let t = u64_trailing_zeros(blockers) as u64;
        lemma_low_mask_bv(t, j as u64);
        let b = lowest_bit(blockers);
        lemma_has_bit_and(attack_mask, b | ((b - 1) as u64), j);
    } else {
        lemma_highest_blocker(blockers);
        let t = (63 - u64_leading_zeros(blockers)) as u64;
        lemma_low_mask_bv(t, j as u64);
        let b = highest_bit(blockers);
        lemma_has_bit_and(attack_mask, !((b - 1) as u64), j);
    }
}

/// Bit-level meaning of the excluding-own truncation: the first blocker is dropped when it
/// is an own piece.
pub proof fn lemma_sliding_excluding_own_bits(
    attack_mask: u64,
    occupied: u64,
    direction: int,
    own_pieces: u64,
    j: int,
)
    requires
        0 <= j < 64,
    ensures
        has_bit(sliding_excluding_own(attack_mask, occupied, direction, own_pieces), j) <==> has_bit(
            attack_mask,
            j,
        ) && unblocked(attack_mask & occupied, direction, j) && !(has_bit(attack_mask & occupied, j)
            && has_bit(own_pieces, j)),
{
    let blockers = attack_mask & occupied;
    if blockers == 0 {
        assert forall|k: int| 0 <= k < 64 implies !has_bit(blockers, k) by {
            let b = k as u64;
            assert((0u64 >> b) & 1u64 == 0u64) by (bit_vector);
        }
    } else if direction == 0 || direction == 1 {
        lemma_lowest_blocker(blockers);
        let t = u64_trailing_zeros(blockers) as u64;
        lemma_low_mask_bv(t, j as u64);
        let b = lowest_bit(blockers);
        lemma_own_bit(t, own_pieces);
        lemma_has_bit_and(attack_mask, b | ((b - 1) as u64), j);
        lemma_has_bit_and(attack_mask, (b - 1) as u64, j);
    } else {
        lemma_highest_blocker(blockers);
        let t = (63 - u64_leading_zeros(blockers)) as u64;
        lemma_low_mask_bv(t, j as u64);
        let b = highest_bit(blockers);
        lemma_own_bit(t, own_pieces);
        lemma_has_bit_and(attack_mask, !((b - 1) as u64), j);
        lemma_has_bit_and(attack_mask, !b & !((b - 1) as u64), j);
    }
}

proof fn lemma_own_bit(t: u64, own: u64)
    requires
        t < 64,
    ensures
        ((1u64 << t) & own == 0) <==> !has_bit(own, t as int),
{
    assert(t < 64 ==> (((1u64 << t) & own == 0u64) <==> !((own >> t) & 1u64 == 1u64))) by (bit_vector);
}

/// The attacked squares along one ray, stopping at (and including) the first occupied square.
pub fn calculate_sliding_attacked_squares_including_own(
    attack_mask: u64,
    occupied: u64,
    direction: usize,
) -> (truncated_mask: u64)
    requires
        (attack_mask & occupied) != 0 ==> direction < 4,
    ensures
        truncated_mask == sliding_including_own(attack_mask, occupied, direction as int),
        forall|j: int|
            0 <= j < 64 ==> (#[trigger] has_bit(truncated_mask, j) <==> has_bit(attack_mask, j)
                && unblocked(attack_mask & occupied, direction as int, j)),
{
    let blockers = attack_mask & occupied;
    let mut truncated_mask = attack_mask;
    proof {
        assert forall|j: int| 0 <= j < 64 implies (#[trigger] has_bit(
            sliding_including_own(attack_mask, occupied, direction as int),
            j,
        ) <==> has_bit(attack_mask, j) && unblocked(attack_mask & occupied, direction as int, j)) by {
            lemma_sliding_including_own_bits(attack_mask, occupied, direction as int, j);
        }
    }
    if blockers != 0 {
        if direction == 0 || direction == 1 {
            proof {
                lemma_lowest_blocker(blockers);
            }
            let first_blocker = blockers.trailing_zeros() as usize;
            let blocker_bit = 1u64 << (first_blocker as u64);
            proof {
                lemma_square_bit_nonzero(first_blocker as int);
            }
            truncated_mask &= blocker_bit | (blocker_bit - 1);
        } else {
            proof {
                lemma_highest_blocker(blockers);
            }
            let first_blocker = 63 - blockers.leading_zeros() as usize;
            let blocker_bit = 1u64 << (first_blocker as u64);
            proof {
                lemma_square_bit_nonzero(first_blocker as int);
            }
            truncated_mask &= !(blocker_bit - 1);
        }
    }
    truncated_mask
}

/// The squares along one ray that a sliding piece can move to: it stops at the first occupied
/// square, which it may take only when the piece there is not one of `own_pieces`.
pub fn calculate_sliding_attacked_squares_excluding_own(
    attack_mask: u64,
    occupied: u64,
    direction: usize,
    own_pieces: u64,
) -> (truncated_mask: u64)
    requires
        (attack_mask & occupied) != 0 ==> direction < 4,
    ensures
        truncated_mask == sliding_excluding_own(attack_mask, occupied, direction as int, own_pieces),
        forall|j: int|
            0 <= j < 64 ==> (#[trigger] has_bit(truncated_mask, j) <==> has_bit(attack_mask, j)
                && unblocked(attack_mask & occupied, direction as int, j) && !(has_bit(
                attack_mask & occupied,
                j,
            ) && has_bit(own_pieces, j))),
{
    let blockers = attack_mask & occupied;
    let mut truncated_mask = attack_mask;
    proof {
        assert forall|j: int| 0 <= j < 64 implies (#[trigger] has_bit(
            sliding_excluding_own(attack_mask, occupied, direction as int, own_pieces),
            j,
        ) <==> has_bit(attack_mask, j) && unblocked(attack_mask & occupied, direction as int, j)
            && !(has_bit(attack_mask & occupied, j) && has_bit(own_pieces, j))) by {
            lemma_sliding_excluding_own_bits(attack_mask, occupied, direction as int, own_pieces, j);
        }
    }
    if blockers != 0 {
        if direction == 0 || direction == 1 {
            proof {
                lemma_lowest_blocker(blockers);
            }
            let first_blocker = blockers.trailing_zeros() as usize;
            let blocker_bit = 1u64 << (first_blocker as u64);
            proof {
                lemma_square_bit_nonzero(first_blocker as int);
            }
            if blocker_bit & own_pieces == 0 {
                truncated_mask &= blocker_bit | (blocker_bit - 1);
            } else {
                truncated_mask &= blocker_bit - 1;
            }
        } else {
            proof {
                lemma_highest_blocker(blockers);
            }
            let first_blocker = 63 - blockers.leading_zeros() as usize;
            let blocker_bit = 1u64 << (first_blocker as u64);
            proof {
                lemma_square_bit_nonzero(first_blocker as int);
            }
            if blocker_bit & own_pieces == 0 {
                truncated_mask &= !(blocker_bit - 1);
            } else {
                truncated_mask &= !blocker_bit & !(blocker_bit - 1);
            }
        }
    }
    truncated_mask
}

/// The step of direction `d` of a rook (north, east, south, west) or of a bishop
/// (north-west, north-east, south-east, south-west), as (rank step, file step).
pub open spec fn direction_step(rook: bool, d: int) -> (int, int) {
    if rook {
        if d == 0 {
            (1, 0)
        } else if d == 1 {
            (0, 1)
        } else if d == 2 {
            (-1, 0)
        } else {
            (0, -1)
        }
    } else {
        if d == 0 {
            (1, -1)
        } else if d == 1 {
            (1, 1)
        } else if d == 2 {
            (-1, 1)
        } else {
            (-1, -1)
        }
    }
}

/// The full ray of a rook (`rook`) or bishop (`!rook`) from `sq` in direction `d`.
pub open spec fn slider_ray(rook: bool, d: int, sq: int) -> u64 {
    ray_mask(sq, direction_step(rook, d).0, direction_step(rook, d).1)
}

/// The full ray of a rook (`rook`) or bishop (`!rook`) from `square` in direction `direction`.
pub fn slider_ray_exec(rook: bool, direction: usize, square: usize) -> (mask: u64)
    requires
        direction < 4,
        square < 64,
    ensures
        mask == slider_ray(rook, direction as int, square as int),
{
    let (dr, df): (i64, i64) = if rook {
        if direction == 0 {
            (1, 0)
        } else if direction == 1 {
            (0, 1)
        } else if direction == 2 {
            (-1, 0)
        } else {
            (0, -1)
        }
    } else {
        if direction == 0 {
            (1, -1)
        } else if direction == 1 {
            (1, 1)
        } else if direction == 2 {
            (-1, 1)
        } else {
            (-1, -1)
        }
    };
    ray_bits_exec((square / 8) as i64, (square % 8) as i64, dr, df, 7)
}

/// The union, over the first `n` directions, of the squares a slider on `sq` attacks,
/// blockers included.
pub open spec fn slider_attacks_incl(rook: bool, sq: int, occupied: u64, n: int) -> u64
    decreases n,
{
    if n <= 0 {
        0
    } else {
        slider_attacks_incl(rook, sq, occupied, n - 1) | sliding_including_own(
            slider_ray(rook, n - 1, sq),
            occupied,
            n - 1,
        )
    }
}

/// The union, over the first `n` directions, of the squares a slider on `sq` can move to.
pub open spec fn slider_attacks_excl(rook: bool, sq: int, occupied: u64, own: u64, n: int) -> u64
    decreases n,
{
    if n <= 0 {
        0
    } else {
        slider_attacks_excl(rook, sq, occupied, own, n - 1) | sliding_excluding_own(
            slider_ray(rook, n - 1, sq),
            occupied,
            n - 1,
            own,
        )
    }
}

/// Scanning directions from `d` on: the first non-empty overlap between the slider's
/// blocked ray and the king's blocked ray in the opposite direction; 0 when there is none.
pub open spec fn slider_pin_from(rook: bool, sq: int, occupied: u64, king_sq: int, d: int) -> u64
    decreases 4 - d,
{
    if d < 0 || d >= 4 {
        0
    } else {
        let od = (d + 2) % 4;
        let overlap = sliding_including_own(slider_ray(rook, d, sq), occupied, d)
            & sliding_including_own(slider_ray(rook, od, king_sq), occupied, od);
        if overlap != 0 {
            overlap
        } else {
            slider_pin_from(rook, sq, occupied, king_sq, d + 1)
        }
    }
}

/// The squares a rook or bishop on `square` attacks, each ray stopping at (and including)
/// its first occupied square.
pub fn slider_attacks_including_own(rook: bool, square: usize, occupied: u64) -> (attacked: u64)
    requires
        square < 64,
    ensures
        attacked == slider_attacks_incl(rook, square as int, occupied, 4),
{
    let mut attacked: u64 = 0;
    let mut direction: usize = 0;
    while direction < 4
        invariant
            square < 64,
            direction <= 4,
            attacked == slider_attacks_incl(rook, square as int, occupied, direction as int),
        decreases 4 - direction,
    {
        let mask = slider_ray_exec(rook, direction, square);
        attacked = attacked | calculate_sliding_attacked_squares_including_own(
            mask,
            occupied,
            direction,
        );
        direction += 1;
    }
    attacked
}

/// The squares a rook or bishop on `square` can move to: each ray stops at its first occupied
/// square, which is included unless it holds one of `own`.
pub fn slider_attacks_excluding_own(rook: bool, square: usize, occupied: u64, own: u64) -> (attacked: u64)
    requires
        square < 64,
    ensures
        attacked == slider_attacks_excl(rook, square as int, occupied, own, 4),
{
    let mut attacked: u64 = 0;
    let mut direction: usize = 0;
    while direction < 4
        invariant
            square < 64,
            direction <= 4,
            attacked == slider_attacks_excl(rook, square as int, occupied, own, direction as int),
        decreases 4 - direction,
    {
        let mask = slider_ray_exec(rook, direction, square);
        attacked = attacked | calculate_sliding_attacked_squares_excluding_own(
            mask,
            occupied,
            direction,
            own,
        );
        direction += 1;
    }
    attacked
}

/// The first non-empty overlap between a slider's blocked rays and the king's blocked rays
/// in the opposite directions: the line between them when it is empty, the single piece on
/// it when there is exactly one.
pub fn slider_pinned_piece(rook: bool, square: usize, occupied: u64, king_square: usize) -> (overlap: u64)
    requires
        square < 64,
        king_square < 64,
    ensures
        overlap == slider_pin_from(rook, square as int, occupied, king_square as int, 0),
{
    let mut direction: usize = 0;
    while direction < 4
        invariant
            square < 64,
            king_square < 64,
            direction <= 4,
            slider_pin_from(rook, square as int, occupied, king_square as int, 0)
                == slider_pin_from(rook, square as int, occupied, king_square as int, direction as int),
        decreases 4 - direction,
    {
        let moves_in_direction = calculate_sliding_attacked_squares_including_own(
            slider_ray_exec(rook, direction, square),
            occupied,
            direction,
        );
        let opposite_direction = (direction + 2) % 4;
        let moves_in_opposite_direction = calculate_sliding_attacked_squares_including_own(
            slider_ray_exec(rook, opposite_direction, king_square),
            occupied,
            opposite_direction,
        );
        let overlap = moves_in_direction & moves_in_opposite_direction;
        if overlap != 0 {
            return overlap;
        }
        direction += 1;
    }
    0
}

/// The moves from `from` to each set square of `targets`, in ascending order of target.
pub open spec fn moves_to_targets(from: usize, targets: Seq<usize>, with_capture_square: bool) -> Seq<Move> {
    targets.map_values(|t: usize| Move {
        from_square: from,
        to_square: t,
        promotion: None,
        capture_square: if with_capture_square { Some(t) } else { None },
    })
}

/// The moves from `from_square` to each square of `targets`, in ascending order; each move
/// names its target as capture square when `with_capture_square` holds.
pub fn moves_from_bitboard(from_square: usize, targets: u64, with_capture_square: bool) -> (moves: Vec<Move>)
    ensures
        moves@ == moves_to_targets(from_square, bit_indices(targets), with_capture_square),
{
    let indices = bitboard_to_indices(targets);
    let mut moves: Vec<Move> = Vec::new();
    let mut i: usize = 0;
    while i < indices.len()
        invariant
            0 <= i <= indices@.len(),
            indices@ == bit_indices(targets),
            moves@ == moves_to_targets(from_square, indices@.take(i as int), with_capture_square),
        decreases indices@.len() - i,
    {
        let target_square = indices[i];
        moves.push(Move {
            from_square,
            to_square: target_square,
            promotion: None,
            capture_square: if with_capture_square { Some(target_square) } else { None },
        });
        proof {
            assert(indices@.take(i + 1) =~= indices@.take(i as int).push(target_square));
            assert(moves_to_targets(from_square, indices@.take(i + 1), with_capture_square) =~= moves_to_targets(from_square, indices@.take(i as int), with_capture_square).push(moves@.last()));
        }
        i += 1;
    }
    proof {
        assert(indices@.take(i as int) =~= indices@);
    }
    moves
}

/// The squares a piece of colour `colour` attacks, with `occupied` blocking its rays.
pub open spec fn piece_attacks(p: Piece, colour: Colour, occupied: u64) -> u64 {
    let from = square_of(p.bit);
    match p.piece_type {
        PieceType::Pawn => pawn_attacks(from, colour),
        PieceType::Knight => knight_mask(from),
        PieceType::Bishop => slider_attacks_incl(false, from, occupied, 4),
        PieceType::Rook => slider_attacks_incl(true, from, occupied, 4),
        PieceType::Queen => queen_attacks_mask(from, occupied),
        PieceType::King => king_mask(from),
    }
}

/// The union of the squares attacked by the live pieces of colour `colour` in `ps`.
pub open spec fn attacks_of(ps: Seq<Piece>, colour: Colour, occupied: u64) -> u64
    decreases ps.len(),
{
    if ps.len() == 0 {
        0
    } else {
        let p = ps.last();
        if p.colour == colour && !p.taken {
            attacks_of(ps.drop_last(), colour, occupied) | piece_attacks(p, colour, occupied)
        } else {
            attacks_of(ps.drop_last(), colour, occupied)
        }
    }
}

/// The squares attacked by `opponent`'s pieces, with the king of the side to move lifted off
/// the board so that it cannot hide behind itself from a slider.
pub open spec fn squares_attacked_by(g: Position, opponent: Colour) -> u64 {
    attacks_of(
        g.pieces,
        opponent,
        g.occupied_bits() & !king_bit_of(g.pieces, g.active_colour),
    )
}

/// The bits of the live pieces of colour `colour` (kings aside) whose attacks reach `king_bit`.
pub open spec fn checks_of(ps: Seq<Piece>, colour: Colour, occupied: u64, king_bit: u64) -> u64
    decreases ps.len(),
{
    if ps.len() == 0 {
        0
    } else {
        let p = ps.last();
        let prev = checks_of(ps.drop_last(), colour, occupied, king_bit);
        if p.colour == colour && !p.taken && p.piece_type != PieceType::King && piece_attacks(
            p,
            colour,
            occupied,
        ) & king_bit != 0 {
            prev | p.bit
        } else {
            prev
        }
    }
}

/// The pieces of `opponent` giving check to the king of the side to move.
pub open spec fn checking_pieces(g: Position, opponent: Colour) -> u64 {
    checks_of(g.pieces, opponent, g.occupied_bits(), king_bit_of(g.pieces, g.active_colour))
}

/// The line overlaps of a slider of colour `colour` with the king on `king_sq`.
pub open spec fn piece_pin(p: Piece, occupied: u64, king_sq: int) -> u64 {
    let from = square_of(p.bit);
    match p.piece_type {
        PieceType::Bishop => slider_pin_from(false, from, occupied, king_sq, 0),
        PieceType::Rook => slider_pin_from(true, from, occupied, king_sq, 0),
        PieceType::Queen => queen_pin_mask(from, occupied, king_sq),
        _ => 0,
    }
}

/// The union of the line overlaps of the live sliders of colour `colour` with the king.
pub open spec fn pins_of(ps: Seq<Piece>, colour: Colour, occupied: u64, king_sq: int) -> u64
    decreases ps.len(),
{
    if ps.len() == 0 {
        0
    } else {
        let p = ps.last();
        let prev = pins_of(ps.drop_last(), colour, occupied, king_sq);
        if p.colour == colour && !p.taken && (p.piece_type == PieceType::Bishop || p.piece_type
            == PieceType::Rook || p.piece_type == PieceType::Queen) {
            prev | piece_pin(p, occupied, king_sq)
        } else {
            prev
        }
    }
}

/// The pieces standing between `opponent`'s sliders and the king of the side to move, and
/// the empty lines along which they check it.
pub open spec fn pinned_pieces(g: Position, opponent: Colour) -> u64 {
    pins_of(
        g.pieces,
        opponent,
        g.occupied_bits(),
        square_of(king_bit_of(g.pieces, g.active_colour)),
    )
}

/// The bit of the first king of colour `c` is a square of the board when the pieces stand on
/// squares and there is such a king.
pub proof fn lemma_king_bit_square(ps: Seq<Piece>, c: Colour)
    requires
        pieces_on_squares(ps),
        find_first(ps, king_of(c)) is Some,
    ensures
        is_square_bit(king_bit_of(ps, c)),
        0 <= square_of(king_bit_of(ps, c)) < 64,
        king_bit_of(ps, c) == square_bit(square_of(king_bit_of(ps, c))),
{
    lemma_find_from_facts(ps, king_of(c), 0);
    let i = find_first(ps, king_of(c))->0;
    assert(is_square_bit(ps[i].bit));
    lemma_square_of_square_bit(king_bit_of(ps, c));
}

fn piece_attacks_exec(piece: Piece, colour: Colour, occupied: u64, game: &Game) -> (attacks: u64)
    requires
        is_square_bit(piece.bit),
    ensures
        attacks == piece_attacks(piece, colour, occupied),
{
    proof {
        lemma_square_of_square_bit(piece.bit);
    }
    let from_square = bit_to_onebit_index(piece.bit);
    match piece.piece_type {
        PieceType::Pawn => generate_pawn_attacked_squares_including_own(from_square, colour),
        PieceType::Knight => generate_knight_attacked_squares_including_own(from_square),
        PieceType::Bishop => generate_bishop_attacked_squares_including_own(from_square, game, occupied),
        PieceType::Rook => generate_rook_attacked_squares_including_own(from_square, game, occupied),
        PieceType::Queen => generate_queen_attacked_squares_including_own(from_square, game, occupied),
        PieceType::King => generate_king_attacked_squares_including_own(from_square),
    }
}

pub fn squares_attacked_by_opponent_bitboard(game: &Game, opponent_colour: Colour) -> (attacked_squares: u64)
    requires
        pieces_on_squares(game.pieces@),
    ensures
        attacked_squares == squares_attacked_by(game@, opponent_colour),
{
    let king_bit = find_king_bit(&game.pieces, game.active_colour);
    let occupied = game.get_occupied_bitboard();
    let occupied_excluding_king = occupied & !king_bit;
    let mut attacked_squares: u64 = 0;
    let mut i: usize = 0;
    while i < game.pieces.len()
        invariant
            0 <= i <= game.pieces@.len(),
            pieces_on_squares(game.pieces@),
            attacked_squares == attacks_of(game.pieces@.take(i as int), opponent_colour, occupied_excluding_king),
        decreases game.pieces@.len() - i,
    {
        let piece = game.pieces[i];
        proof {
            assert(game.pieces@.take(i + 1).drop_last() =~= game.pieces@.take(i as int));
            assert(is_square_bit(game.pieces@[i as int].bit));
        }
        if piece.colour == opponent_colour && piece.taken == false {
            attacked_squares = attacked_squares | piece_attacks_exec(piece, opponent_colour, occupied_excluding_king, game);
        }
        i += 1;
    }
    proof {
        assert(game.pieces@.take(i as int) =~= game.pieces@);
    }
    attacked_squares
}

pub fn pieces_giving_check_bitboard(game: &Game, opponent_colour: Colour) -> (checking: u64)
    requires
        pieces_on_squares(game.pieces@),
    ensures
        checking == checking_pieces(game@, opponent_colour),
{
    let king_bit = find_king_bit(&game.pieces, game.active_colour);
    let occupied = game.get_occupied_bitboard();
    let mut pieces_giving_check: u64 = 0;
    let mut i: usize = 0;
    while i < game.pieces.len()
        invariant
            0 <= i <= game.pieces@.len(),
            pieces_on_squares(game.pieces@),
            pieces_giving_check == checks_of(game.pieces@.take(i as int), opponent_colour, occupied, king_bit),
        decreases game.pieces@.len() - i,
    {
        let piece = game.pieces[i];
        proof {
            assert(game.pieces@.take(i + 1).drop_last() =~= game.pieces@.take(i as int));
            assert(is_square_bit(game.pieces@[i as int].bit));
        }
        if piece.colour == opponent_colour && piece.taken == false && piece.piece_type != PieceType::King {
            let attacks = piece_attacks_exec(piece, opponent_colour, occupied, game);
            if attacks & king_bit != 0 {
                pieces_giving_check = pieces_giving_check | piece.bit;
            }
        }
        i += 1;
    }
    proof {
        assert(game.pieces@.take(i as int) =~= game.pieces@);
    }
    pieces_giving_check
}

pub fn pinned_pieces_bitboard(game: &Game, opponent_colour: Colour) -> (pinned: u64)
    requires
        pieces_on_squares(game.pieces@),
        find_first(game.pieces@, king_of(game.active_colour)) is Some,
    ensures
        pinned == pinned_pieces(game@, opponent_colour),
{
    let king_bit = find_king_bit(&game.pieces, game.active_colour);
    proof {
        lemma_king_bit_square(game.pieces@, game.active_colour);
    }
    let ghost occupied = game@.occupied_bits();
    let mut pinned_pieces_bitboard: u64 = 0;
    let mut i: usize = 0;
    while i < game.pieces.len()
        invariant
            0 <= i <= game.pieces@.len(),
            pieces_on_squares(game.pieces@),
            king_bit == king_bit_of(game.pieces@, game.active_colour),
            square_of(king_bit) < 64,
            occupied == game@.occupied_bits(),
            pinned_pieces_bitboard == pins_of(game.pieces@.take(i as int), opponent_colour, occupied, square_of(king_bit)),
        decreases game.pieces@.len() - i,
    {
        let piece = game.pieces[i];
        proof {
            assert(game.pieces@.take(i + 1).drop_last() =~= game.pieces@.take(i as int));
            assert(is_square_bit(game.pieces@[i as int].bit));
            lemma_square_of_square_bit(piece.bit);
        }
        if piece.colour == opponent_colour && piece.taken == false {
            let from_square = bit_to_onebit_index(piece.bit);
            match piece.piece_type {
                PieceType::Bishop => {
                    pinned_pieces_bitboard = pinned_pieces_bitboard | generate_bishop_pinned_piece(from_square, game, king_bit);
                },
                PieceType::Rook => {
                    pinned_pieces_bitboard = pinned_pieces_bitboard | generate_rook_pinned_piece(from_square, game, king_bit);
                },
                PieceType::Queen => {
                    pinned_pieces_bitboard = pinned_pieces_bitboard | generate_queen_pinned_piece(from_square, game, king_bit);
                },
                _ => {},
            }
        }
        i += 1;
    }
    proof {
        assert(game.pieces@.take(i as int) =~= game.pieces@);
    }
    pinned_pieces_bitboard
}

/// The moves of one piece of the side to move, before checks are considered.
pub open spec fn piece_moves(g: Position, p: Piece) -> Seq<Move> {
    let from = square_of(p.bit);
    match p.piece_type {
        PieceType::Pawn => pawn_moves_of(from, g),
        PieceType::Knight => moves_to_targets(
            from as usize,
            bit_indices(knight_mask(from) & !g.friendly_bits()),
            false,
        ),
        PieceType::Bishop => moves_to_targets(
            from as usize,
            bit_indices(slider_attacks_excl(false, from, g.occupied_bits(), g.friendly_bits(), 4)),
            true,
        ),
        PieceType::Rook => moves_to_targets(
            from as usize,
            bit_indices(slider_attacks_excl(true, from, g.occupied_bits(), g.friendly_bits(), 4)),
            true,
        ),
        PieceType::Queen => moves_to_targets(
            from as usize,
            bit_indices(queen_moves_mask(from, g.occupied_bits(), g.friendly_bits())),
            true,
        ),
        PieceType::King => legal_king_moves(from, g),
    }
}

/// The moves of the live pieces of the side to move among `ps`, piece by piece in list order.
pub open spec fn moves_of_pieces(g: Position, ps: Seq<Piece>) -> Seq<Move>
    decreases ps.len(),
{
    if ps.len() == 0 {
        Seq::empty()
    } else {
        let p = ps.last();
        if p.colour == g.active_colour && !p.taken {
            moves_of_pieces(g, ps.drop_last()).add(piece_moves(g, p))
        } else {
            moves_of_pieces(g, ps.drop_last())
        }
    }
}

/// The moves of all the pieces of the side to move, castling aside and checks not considered
/// (king moves excepted: they avoid attacked squares).
pub open spec fn pseudolegal_moves_without_castling(g: Position) -> Seq<Move> {
    moves_of_pieces(g, g.pieces)
}

/// What move generation needs of a position: pieces on squares and a king of the side to move.
pub open spec fn can_generate(g: Position) -> bool {
    &&& pieces_on_squares(g.pieces)
    &&& find_first(g.pieces, king_of(g.active_colour)) is Some
}

fn piece_moves_exec(piece: Piece, game: &Game) -> (moves: Vec<Move>)
    requires
        is_square_bit(piece.bit),
        can_generate(game@),
    ensures
        moves@ == piece_moves(game@, piece),
{
    proof {
        lemma_square_of_square_bit(piece.bit);
    }
    let from_square = bit_to_onebit_index(piece.bit);
    match piece.piece_type {
        PieceType::Pawn => generate_pawn_moves(from_square, game),
        PieceType::Knight => generate_knight_moves(from_square, game),
        PieceType::Bishop => generate_bishop_moves(from_square, game),
        PieceType::Rook => generate_rook_moves(from_square, game),
        PieceType::Queen => generate_queen_moves(from_square, game),
        PieceType::King => generate_legal_king_moves(from_square, game),
    }
}

pub fn generate_pseudolegal_moves_without_castling(game: &Game) -> (possible_moves: Vec<Move>)
    requires
        can_generate(game@),
    ensures
        possible_moves@ == pseudolegal_moves_without_castling(game@),
{
    let mut possible_moves: Vec<Move> = Vec::new();
    let mut i: usize = 0;
    while i < game.pieces.len()
        invariant
            0 <= i <= game.pieces@.len(),
            can_generate(game@),
            possible_moves@ == moves_of_pieces(game@, game.pieces@.take(i as int)),
        decreases game.pieces@.len() - i,
    {
        let piece = game.pieces[i];
        proof {
            assert(game.pieces@.take(i + 1).drop_last() =~= game.pieces@.take(i as int));
            assert(is_square_bit(game.pieces@[i as int].bit));
        }
        if piece.colour == game.active_colour && piece.taken == false {
            let mut moves = piece_moves_exec(piece, game);
            possible_moves.append(&mut moves);
        }
        i += 1;
    }
    proof {
        assert(game.pieces@.take(i as int) =~= game.pieces@);
    }
    possible_moves
}

/// Whether some move of `moves` ends on `square`.
pub open spec fn under_threat(square: int, moves: Seq<Move>) -> bool {
    exists|k: int| 0 <= k < moves.len() && (#[trigger] moves[k]).to_square == square
}

pub fn square_under_threat(square_index: usize, opponent_moves: &Vec<Move>) -> (threatened: bool)
    ensures
        threatened == under_threat(square_index as int, opponent_moves@),
{
    let mut i: usize = 0;
    while i < opponent_moves.len()
        invariant
            0 <= i <= opponent_moves@.len(),
            forall|k: int| 0 <= k < i ==> (#[trigger] opponent_moves@[k]).to_square != square_index,
        decreases opponent_moves@.len() - i,
    {
        if opponent_moves[i].to_square == square_index {
            return true;
        }
        i += 1;
    }
    false
}

/// The move lands on the board, and so does its capture square when it names one.
pub open spec fn move_on_board(m: Move) -> bool {
    &&& m.from_square < 64
    &&& m.to_square < 64
    &&& m.capture_square matches Some(c) ==> c < 64
}

/// Every move of the sequence lands on the board.
pub open spec fn all_on_board(ms: Seq<Move>) -> bool {
    forall|k: int| 0 <= k < ms.len() ==> move_on_board(#[trigger] ms[k])
}

pub proof fn lemma_targets_on_board(from: usize, bb: u64, cap: bool)
    requires
        from < 64,
    ensures
        all_on_board(moves_to_targets(from, bit_indices(bb), cap)),
{
    lemma_set_bits_from_range(bb, 0);
}

proof fn lemma_expand_on_board(ms: Seq<Move>, c: Colour)
    requires
        all_on_board(ms),
    ensures
        all_on_board(expand_promotions(ms, c)),
    decreases ms.len(),
{
    if ms.len() > 0 {
        lemma_expand_on_board(ms.drop_last(), c);
        let a = expand_promotions(ms.drop_last(), c);
        let b = promotion_variants(ms.last(), c);
        assert(move_on_board(ms.last()));
        assert forall|k: int| 0 <= k < a.add(b).len() implies move_on_board(#[trigger] a.add(b)[k]) by {
            if k < a.len() {
                assert(a.add(b)[k] == a[k]);
            } else {
                assert(a.add(b)[k] == b[k - a.len()]);
            }
        }
    }
}

proof fn lemma_add_on_board(a: Seq<Move>, b: Seq<Move>)
    requires
        all_on_board(a),
        all_on_board(b),
    ensures
        all_on_board(a.add(b)),
{
    assert forall|k: int| 0 <= k < a.add(b).len() implies move_on_board(#[trigger] a.add(b)[k]) by {
        if k < a.len() {
            assert(a.add(b)[k] == a[k]);
        } else {
            assert(a.add(b)[k] == b[k - a.len()]);
        }
    }
}

proof fn lemma_pawn_moves_on_board(from: int, g: Position)
    requires
        0 <= from < 64,
    ensures
        all_on_board(pawn_moves_of(from, g)),
{
    if from / 8 != last_rank(g.active_colour) {
        let base = pawn_pushes(from, g).add(pawn_capture(from, g, -1)).add(pawn_capture(from, g, 1)).add(
            pawn_en_passant(from, g, -1),
        ).add(pawn_en_passant(from, g, 1));
        assert(all_on_board(pawn_pushes(from, g)));
        assert(all_on_board(pawn_capture(from, g, -1)));
        assert(all_on_board(pawn_capture(from, g, 1)));
        assert(all_on_board(pawn_en_passant(from, g, -1)));
        assert(all_on_board(pawn_en_passant(from, g, 1)));
        lemma_add_on_board(pawn_pushes(from, g), pawn_capture(from, g, -1));
        lemma_add_on_board(pawn_pushes(from, g).add(pawn_capture(from, g, -1)), pawn_capture(from, g, 1));
        lemma_add_on_board(pawn_pushes(from, g).add(pawn_capture(from, g, -1)).add(pawn_capture(from, g, 1)), pawn_en_passant(from, g, -1));
        lemma_add_on_board(pawn_pushes(from, g).add(pawn_capture(from, g, -1)).add(pawn_capture(from, g, 1)).add(pawn_en_passant(from, g, -1)), pawn_en_passant(from, g, 1));
        lemma_expand_on_board(base, g.active_colour);
    }
}

proof fn lemma_piece_moves_on_board(g: Position, p: Piece)
    requires
        is_square_bit(p.bit),
    ensures
        all_on_board(piece_moves(g, p)),
{
    lemma_square_of_square_bit(p.bit);
    let from = square_of(p.bit);
    match p.piece_type {
        PieceType::Pawn => lemma_pawn_moves_on_board(from, g),
        PieceType::Knight => lemma_targets_on_board(from as usize, knight_mask(from) & !g.friendly_bits(), false),
        PieceType::Bishop => lemma_targets_on_board(from as usize, slider_attacks_excl(false, from, g.occupied_bits(), g.friendly_bits(), 4), true),
        PieceType::Rook => lemma_targets_on_board(from as usize, slider_attacks_excl(true, from, g.occupied_bits(), g.friendly_bits(), 4), true),
        PieceType::Queen => lemma_targets_on_board(from as usize, queen_moves_mask(from, g.occupied_bits(), g.friendly_bits()), true),
        PieceType::King => lemma_targets_on_board(from as usize, (king_mask(from) & !g.friendly_bits()) & !squares_attacked_by(g, opponent(g.active_colour)), false),
    }
}

proof fn lemma_moves_of_pieces_on_board(g: Position, ps: Seq<Piece>)
    requires
        pieces_on_squares(ps),
    ensures
        all_on_board(moves_of_pieces(g, ps)),
    decreases ps.len(),
{
    if ps.len() > 0 {
        assert(pieces_on_squares(ps.drop_last()));
        lemma_moves_of_pieces_on_board(g, ps.drop_last());
        assert(is_square_bit(ps[ps.len() - 1].bit));
        lemma_piece_moves_on_board(g, ps.last());
        if ps.last().colour == g.active_colour && !ps.last().taken {
            lemma_add_on_board(moves_of_pieces(g, ps.drop_last()), piece_moves(g, ps.last()));
        }
    }
}

/// The castling moves of every king of the side to move among `ps`, in list order.
pub open spec fn castles_of_pieces(g: Position, ps: Seq<Piece>) -> Seq<Move>
    decreases ps.len(),
{
    if ps.len() == 0 {
        Seq::empty()
    } else {
        let p = ps.last();
        if p.colour == g.active_colour && p.piece_type == PieceType::King {
            castles_of_pieces(g, ps.drop_last()).add(castle_moves(square_of(p.bit), g))
        } else {
            castles_of_pieces(g, ps.drop_last())
        }
    }
}

/// All the moves of the side to move, castling included, before checks are considered.
pub open spec fn pseudolegal_moves(g: Position) -> Seq<Move> {
    pseudolegal_moves_without_castling(g).add(castles_of_pieces(g, g.pieces))
}

proof fn lemma_castles_on_board(g: Position, ps: Seq<Piece>)
    requires
        pieces_on_squares(ps),
        castling_kings_in_range(ps, g.castling_rights, g.active_colour),
        g.squares.len() == 64,
    ensures
        all_on_board(castles_of_pieces(g, ps)),
    decreases ps.len(),
{
    if ps.len() > 0 {
        let p = ps.last();
        assert(pieces_on_squares(ps.drop_last()));
        assert forall|i: int| 0 <= i < ps.drop_last().len() && (#[trigger] ps.drop_last()[i]).piece_type == PieceType::King && ps.drop_last()[i].colour == g.active_colour implies (g.castling_rights.has(kingside_right(g.active_colour)) ==> square_of(ps.drop_last()[i].bit) <= 61) && (g.castling_rights.has(
            queenside_right(g.active_colour),
        ) ==> square_of(ps.drop_last()[i].bit) >= 2) by {
            assert(ps.drop_last()[i] == ps[i]);
        }
        lemma_castles_on_board(g, ps.drop_last());
        if p.colour == g.active_colour && p.piece_type == PieceType::King {
            assert(is_square_bit(ps[ps.len() - 1].bit));
            lemma_square_of_square_bit(p.bit);
            assert(ps[ps.len() - 1] == p);
            let from = square_of(p.bit);
            if kingside_castle_allowed(g) {
                assert(g.castling_rights.has(kingside_right(g.active_colour)));
            }
            if queenside_castle_allowed(g) {
                assert(g.castling_rights.has(queenside_right(g.active_colour)));
            }
            lemma_add_on_board(castles_of_pieces(g, ps.drop_last()), castle_moves(from, g));
        }
    }
}

/// Every generated move lands on the board.
pub proof fn lemma_pseudolegal_on_board(g: Position)
    requires
        g.wf(),
    ensures
        all_on_board(pseudolegal_moves(g)),
{
    lemma_moves_of_pieces_on_board(g, g.pieces);
    if g.active_colour == Colour::White {
        lemma_castles_on_board(g, g.pieces);
    } else {
        lemma_castles_on_board(g, g.pieces);
    }
    lemma_add_on_board(pseudolegal_moves_without_castling(g), castles_of_pieces(g, g.pieces));
}

proof fn lemma_wf_generates(g: Position)
    requires
        g.wf(),
    ensures
        can_generate(g),
{
}

fn generate_pseudolegal_moves(game: &Game) -> (possible_moves: Vec<Move>)
    requires
        game@.wf(),
    ensures
        possible_moves@ == pseudolegal_moves(game@),
{
    proof {
        lemma_wf_generates(game@);
    }
    let mut possible_moves = generate_pseudolegal_moves_without_castling(game);
    let ghost base = possible_moves@;
    let mut i: usize = 0;
    while i < game.pieces.len()
        invariant
            0 <= i <= game.pieces@.len(),
            game@.wf(),
            possible_moves@ == base.add(castles_of_pieces(game@, game.pieces@.take(i as int))),
        decreases game.pieces@.len() - i,
    {
        let piece = game.pieces[i];
        proof {
            assert(game.pieces@.take(i + 1).drop_last() =~= game.pieces@.take(i as int));
            assert(is_square_bit(game.pieces@[i as int].bit));
        }
        if piece.colour == game.active_colour && piece.piece_type == PieceType::King {
            proof {
                lemma_square_of_square_bit(piece.bit);
                assert(game.pieces@[i as int] == piece);
                if queenside_castle_allowed(game@) {
                    assert(game@.castling_rights.has(queenside_right(game.active_colour)));
                }
            }
            let from_square = bit_to_onebit_index(piece.bit);
            let ghost prev = possible_moves@;
            possible_moves = add_castle_moves(from_square, possible_moves, game);
            proof {
                assert(possible_moves@ =~= base.add(castles_of_pieces(game@, game.pieces@.take(i + 1))));
            }
        }
        i += 1;
    }
    proof {
        assert(game.pieces@.take(i as int) =~= game.pieces@);
    }
    possible_moves
}

/// Whether some move of the side to move (castling included, checks not considered) ends on
/// `king_square`.
pub open spec fn attacks_square(g: Position, king_square: int) -> bool {
    under_threat(king_square, pseudolegal_moves(g))
}

pub fn inactive_colour_in_check(game: &Game, king_square: usize) -> (in_check: bool)
    requires
        game@.wf(),
    ensures
        in_check == attacks_square(game@, king_square as int),
{
    let next_possible_moves = generate_pseudolegal_moves(game);
    square_under_threat(king_square, &next_possible_moves)
}

/// The square of the first king of the side to move in the piece list.
pub open spec fn king_square_of(g: Position) -> int {
    square_of(king_bit_of(g.pieces, g.active_colour))
}

/// Live pieces standing exactly on the board `b`.
pub open spec fn on_board_exactly(b: u64) -> spec_fn(Piece) -> bool {
    |p: Piece| p.bit == b && !p.taken
}

/// The type the moving piece has once the move's promotion is applied, if a live piece of the
/// side to move stands on the start square.
pub open spec fn shifting_type(g: Position, m: Move) -> Option<PieceType> {
    match find_first(g.pieces, live_on_of(square_bit(m.from_square as int), g.active_colour)) {
        Some(i) => Some(
            match m.promotion {
                Some(t) => t,
                None => g.pieces[i].piece_type,
            },
        ),
        None => None,
    }
}

/// The square of the pawn a move takes en passant: behind the target when a pawn lands on the
/// en passant square.
pub open spec fn en_passant_capture_square(g: Position, m: Move) -> Option<int> {
    if g.en_passant == Some(square_bit(m.to_square as int)) && shifting_type(g, m) == Some(PieceType::Pawn) {
        Some(
            if g.active_colour == Colour::White {
                m.to_square - 8
            } else {
                m.to_square + 8
            },
        )
    } else {
        None
    }
}

/// A piece after a move that does not move the king, as far as attacks go: a live piece of the
/// side to move on the start square stands on the target, a live piece on the target square
/// or taken en passant is taken, any other piece stays.
pub open spec fn piece_shifted(p: Piece, g: Position, m: Move) -> Piece {
    if !p.taken && p.bit == square_bit(m.from_square as int) && p.colour == g.active_colour {
        Piece { bit: square_bit(m.to_square as int), ..p }
    } else if !p.taken && (p.bit == square_bit(m.to_square as int) || (en_passant_capture_square(g, m) matches Some(c)
        && 0 <= c < 64 && p.bit == square_bit(c))) {
        Piece { taken: true, ..p }
    } else {
        p
    }
}

/// The position with the pieces shifted by a move (see `piece_shifted`).
pub open spec fn board_after_shift(g: Position, m: Move) -> Position {
    Position { pieces: g.pieces.map_values(|p: Piece| piece_shifted(p, g, m)), ..g }
}

/// Whether, once the pieces are shifted by a move, no piece of the other side attacks the king
/// of the side to move.
pub open spec fn king_safe_after(g: Position, m: Move) -> bool {
    squares_attacked_by(board_after_shift(g, m), opponent(g.active_colour)) & king_bit_of(g.pieces, g.active_colour) == 0
}

/// Whether the legality filter keeps a move: king moves always (their generation already
/// avoids attacked squares), any other move when it leaves the king of the side to move
/// unattacked.
pub open spec fn keeps_move(g: Position, m: Move) -> bool {
    m.from_square == king_square_of(g) || king_safe_after(g, m)
}

fn shift_piece(p: Piece, game: &Game, m: Move, from_bit: u64, to_bit: u64, en_passant_bit: Option<u64>) -> (shifted: Piece)
    requires
        from_bit == square_bit(m.from_square as int),
        to_bit == square_bit(m.to_square as int),
        en_passant_bit == match en_passant_capture_square(game@, m) {
            Some(c) => if 0 <= c < 64 { Some(square_bit(c)) } else { None },
            None => None,
        },
    ensures
        shifted == piece_shifted(p, game@, m),
{
    if !p.taken && p.bit == from_bit && p.colour == game.active_colour {
        Piece { bit: to_bit, ..p }
    } else if !p.taken && (p.bit == to_bit || match en_passant_bit {
        Some(b) => p.bit == b,
        None => false,
    }) {
        Piece { taken: true, ..p }
    } else {
        p
    }
}

/// Whether a move that does not move the king leaves the king of the side to move unattacked.
fn king_safe_after_exec(game: &Game, m: Move, king_bit: u64) -> (safe: bool)
    requires
        move_on_board(m),
        pieces_on_squares(game.pieces@),
        king_bit == king_bit_of(game.pieces@, game.active_colour),
    ensures
        safe == king_safe_after(game@, m),
{
    let from_bit = onebit_index_to_bit(m.from_square);
    let to_bit = onebit_index_to_bit(m.to_square);
    let moves_pawn = match find_first_exec_live_of(&game.pieces, from_bit, game.active_colour) {
        Some(i) => {
            proof {
                lemma_find_from_facts(game.pieces@, live_on_of(from_bit, game.active_colour), 0);
            }
            match m.promotion {
                Some(t) => t == PieceType::Pawn,
                None => game.pieces[i].piece_type == PieceType::Pawn,
            }
        },
        None => false,
    };
    let lands_on_en_passant = match game.en_passant {
        Some(b) => b == to_bit,
        None => false,
    };
    let en_passant_bit: Option<u64> = if lands_on_en_passant && moves_pawn {
        match game.active_colour {
            Colour::White => if m.to_square >= 8 { Some(onebit_index_to_bit(m.to_square - 8)) } else { None },
            Colour::Black => if m.to_square + 8 < 64 { Some(onebit_index_to_bit(m.to_square + 8)) } else { None },
        }
    } else {
        None
    };
    let mut shifted: Vec<Piece> = Vec::new();
    let mut i: usize = 0;
    while i < game.pieces.len()
        invariant
            0 <= i <= game.pieces@.len(),
            from_bit == square_bit(m.from_square as int),
            to_bit == square_bit(m.to_square as int),
            en_passant_bit == match en_passant_capture_square(game@, m) {
                Some(c) => if 0 <= c < 64 { Some(square_bit(c)) } else { None },
                None => None,
            },
            shifted@ == game.pieces@.take(i as int).map_values(|p: Piece| piece_shifted(p, game@, m)),
        decreases game.pieces@.len() - i,
    {
        let p = shift_piece(game.pieces[i], game, m, from_bit, to_bit, en_passant_bit);
        shifted.push(p);
        i += 1;
        proof {
            assert(shifted@ =~= game.pieces@.take(i as int).map_values(|p: Piece| piece_shifted(p, game@, m)));
        }
    }
    proof {
        assert(game.pieces@.take(i as int) =~= game.pieces@);
    }
    let board = Game {
        pieces: shifted,
        squares: copy_squares(&game.squares),
        active_colour: game.active_colour,
        castling_rights: game.castling_rights,
        en_passant: game.en_passant,
        halfmove_clock: game.halfmove_clock,
        fullmove_number: game.fullmove_number,
        colour_in_check: game.colour_in_check,
        last_move: game.last_move,
        players: game.players,
    };
    proof {
        assert(board@ =~= board_after_shift(game@, m));
        assert forall|k: int| 0 <= k < board.pieces@.len() implies is_square_bit(#[trigger] board.pieces@[k].bit) by {
            assert(is_square_bit(game.pieces@[k].bit));
            lemma_square_bit_is_square(m.to_square as int);
        }
    }
    let attacked = squares_attacked_by_opponent_bitboard(&board, opposite_colour(game.active_colour));
    attacked & king_bit == 0
}

proof fn lemma_square_bit_is_square(i: int)
    requires
        0 <= i < 64,
    ensures
        is_square_bit(square_bit(i)),
{
}

/// The moves of `ms` that the legality filter keeps, in order.
pub open spec fn kept_moves(g: Position, ms: Seq<Move>) -> Seq<Move>
    decreases ms.len(),
{
    if ms.len() == 0 {
        Seq::empty()
    } else if keeps_move(g, ms.last()) {
        kept_moves(g, ms.drop_last()).push(ms.last())
    } else {
        kept_moves(g, ms.drop_last())
    }
}

/// The moves the side to move may play.
pub open spec fn legal_moves(g: Position) -> Seq<Move> {
    kept_moves(g, pseudolegal_moves(g))
}

/// The legality filter keeps only moves it accepts.
pub proof fn lemma_kept_moves_kept(g: Position, ms: Seq<Move>)
    ensures
        forall|k: int| 0 <= k < kept_moves(g, ms).len() ==> keeps_move(g, #[trigger] kept_moves(g, ms)[k]),
    decreases ms.len(),
{
    if ms.len() > 0 {
        let prev = ms.drop_last();
        lemma_kept_moves_kept(g, prev);
        assert forall|k: int| 0 <= k < kept_moves(g, ms).len() implies keeps_move(g, #[trigger] kept_moves(g, ms)[k]) by {
            if k < kept_moves(g, prev).len() {
                assert(kept_moves(g, ms)[k] == kept_moves(g, prev)[k]);
            }
        }
    }
}

/// The legality filter keeps only moves of its input.
pub proof fn lemma_kept_moves_from(g: Position, ms: Seq<Move>)
    ensures
        forall|k: int| 0 <= k < kept_moves(g, ms).len() ==> ms.contains(#[trigger] kept_moves(g, ms)[k]),
    decreases ms.len(),
{
    if ms.len() > 0 {
        let prev = ms.drop_last();
        lemma_kept_moves_from(g, prev);
        assert forall|k: int| 0 <= k < kept_moves(g, ms).len() implies ms.contains(#[trigger] kept_moves(g, ms)[k]) by {
            if k < kept_moves(g, prev).len() {
                assert(prev.contains(kept_moves(g, prev)[k]));
                let j = choose|j: int| 0 <= j < prev.len() && prev[j] == kept_moves(g, prev)[k];
                assert(ms[j] == prev[j]);
            } else {
                assert(ms[ms.len() - 1] == ms.last());
            }
        }
    }
}

/// The moves the side to move may play land on the board.
pub proof fn lemma_legal_moves_on_board(g: Position)
    requires
        g.wf(),
    ensures
        all_on_board(legal_moves(g)),
{
    lemma_pseudolegal_on_board(g);
    lemma_kept_moves_from(g, pseudolegal_moves(g));
    assert forall|k: int| 0 <= k < legal_moves(g).len() implies move_on_board(#[trigger] legal_moves(g)[k]) by {
        let ms = pseudolegal_moves(g);
        assert(ms.contains(legal_moves(g)[k]));
        let j = choose|j: int| 0 <= j < ms.len() && ms[j] == legal_moves(g)[k];
        assert(move_on_board(ms[j]));
    }
}

fn find_live_piece_on(pieces: &Vec<Piece>, bit: u64) -> (index: Option<usize>)
    ensures
        index matches Some(i) ==> find_first(pieces@, on_board_exactly(bit)) == Some(i as int),
        index is None ==> find_first(pieces@, on_board_exactly(bit)) is None,
{
    let mut i: usize = 0;
    while i < pieces.len()
        invariant
            0 <= i <= pieces@.len(),
            find_first(pieces@, on_board_exactly(bit)) == find_from(pieces@, on_board_exactly(bit), i as int),
        decreases pieces@.len() - i,
    {
        if pieces[i].bit == bit && !pieces[i].taken {
            return Some(i);
        }
        i += 1;
    }
    None
}

pub fn generate_moves(game: &Game) -> (new_possible_moves: Vec<Move>)
    requires
        game@.wf(),
    ensures
        new_possible_moves@ == legal_moves(game@),
{
    let possible_moves = generate_pseudolegal_moves(game);
    proof {
        lemma_pseudolegal_on_board(game@);
        lemma_king_bit_square(game.pieces@, game.active_colour);
    }
    let king_bit = find_king_bit(&game.pieces, game.active_colour);
    let king_square = bit_to_onebit_index(king_bit);
    let mut new_possible_moves: Vec<Move> = Vec::new();
    let mut i: usize = 0;
    while i < possible_moves.len()
        invariant
            0 <= i <= possible_moves@.len(),
            possible_moves@ == pseudolegal_moves(game@),
            all_on_board(possible_moves@),
            king_square == king_square_of(game@),
            pieces_on_squares(game.pieces@),
            king_bit == king_bit_of(game.pieces@, game.active_colour),
            new_possible_moves@ == kept_moves(game@, possible_moves@.take(i as int)),
        decreases possible_moves@.len() - i,
    {
        let possible_move = possible_moves[i];
        proof {
            assert(possible_moves@.take(i + 1).drop_last() =~= possible_moves@.take(i as int));
            assert(move_on_board(possible_moves@[i as int]));
        }
        if possible_move.from_square == king_square {
            // King moves already avoid attacked squares.
            new_possible_moves.push(possible_move);
        } else if king_safe_after_exec(game, possible_move, king_bit) {
            // Any other move must leave the king unattacked.
            new_possible_moves.push(possible_move);
        }
        i += 1;
    }
    proof {
        assert(possible_moves@.take(i as int) =~= possible_moves@);
    }
    new_possible_moves
}

/// The rights with the flags of `f` cleared.
pub open spec fn without_right(r: CastlingRights, f: CastlingRights) -> CastlingRights {
    CastlingRights { bits: r.bits & !f.bits }
}

/// The rights left once the rook square `sq` is vacated or captured on.
pub open spec fn rights_after_rook_square(r: CastlingRights, sq: int) -> CastlingRights {
    if sq == 0 {
        without_right(r, wq())
    } else if sq == 7 {
        without_right(r, wk())
    } else if sq == 56 {
        without_right(r, bq())
    } else if sq == 63 {
        without_right(r, bk())
    } else {
        r
    }
}

/// Live pieces of colour `c` on board `b`.
pub open spec fn live_on_of(b: u64, c: Colour) -> spec_fn(Piece) -> bool {
    |p: Piece| !p.taken && p.bit == b && p.colour == c
}

/// Pieces, taken or not, on board `b`.
pub open spec fn any_on(b: u64) -> spec_fn(Piece) -> bool {
    |p: Piece| p.bit == b
}

/// The index of the piece that `m` moves: the first live piece of the side to move on its
/// start square.
pub open spec fn moving_index(g: Position, m: Move) -> Option<int> {
    find_first(g.pieces, live_on_of(square_bit(m.from_square as int), g.active_colour))
}

/// The distance between the two squares of a move.
pub open spec fn move_distance(m: Move) -> int {
    if m.to_square >= m.from_square {
        m.to_square - m.from_square
    } else {
        m.from_square - m.to_square
    }
}

/// The move's promotion applied to the moving piece.
pub open spec fn promotion_stage(g: Position, m: Move, idx: int) -> Position {
    match m.promotion {
        Some(pt) => Position { pieces: g.pieces.update(idx, Piece { piece_type: pt, ..g.pieces[idx] }), ..g },
        None => g,
    }
}

/// For a king move: both rights of the side to move dropped, and for a two-square king move
/// the rook moved next to the king (the first piece on the rook's home square gets the new
/// square; the squares are updated from the piece that stands three files away king side or
/// four files away queen side). Returns the rook's index and squares when it was moved on the
/// squares.
pub open spec fn castling_stage(g: Position, m: Move, idx: int) -> (Position, Option<(usize, usize, usize)>) {
    if g.pieces[idx].piece_type == PieceType::King {
        let c = g.active_colour;
        let from = m.from_square as int;
        let g1 = Position {
            castling_rights: without_right(
                without_right(g.castling_rights, kingside_right(c)),
                queenside_right(c),
            ),
            ..g
        };
        if move_distance(m) == 2 {
            let kingside = m.to_square > m.from_square;
            let rook_home: int = if kingside {
                if c == Colour::White { 7 } else { 63 }
            } else {
                if c == Colour::White { 0 } else { 56 }
            };
            let rook_to: int = if kingside { from + 1 } else { from - 1 };
            let rook_from: int = if kingside { from + 3 } else { from - 4 };
            let pieces = match find_first(g1.pieces, any_on(square_bit(rook_home))) {
                Some(r) => g1.pieces.update(r, Piece { bit: square_bit(rook_to), ..g1.pieces[r] }),
                None => g1.pieces,
            };
            match g1.squares[rook_from] {
                Square::Occupied(ri) => (
                    Position {
                        pieces,
                        squares: g1.squares.update(rook_to, Square::Occupied(ri)).update(
                            rook_from,
                            Square::Empty,
                        ),
                        ..g1
                    },
                    Some((ri, rook_from as usize, rook_to as usize)),
                ),
                Square::Empty => (Position { pieces, ..g1 }, None),
            }
        } else {
            (g1, None)
        }
    } else {
        (g, None)
    }
}

/// A rook leaving its home square loses that side's right.
pub open spec fn rook_rights_stage(g: Position, m: Move, idx: int) -> Position {
    if g.pieces[idx].piece_type == PieceType::Rook {
        Position { castling_rights: rights_after_rook_square(g.castling_rights, m.from_square as int), ..g }
    } else {
        g
    }
}

/// The en passant capture: a pawn landing on the en passant square takes the live piece
/// behind it. Returns the taken piece's index and square.
pub open spec fn en_passant_stage(g: Position, m: Move, idx: int) -> (Position, Option<(usize, usize)>) {
    match g.en_passant {
        Some(ep) => {
            if square_bit(m.to_square as int) == ep && g.pieces[idx].piece_type == PieceType::Pawn {
                let cps: int = if g.active_colour == Colour::White {
                    m.to_square - 8
                } else {
                    m.to_square + 8
                };
                match find_first(g.pieces, on_board_exactly(square_bit(cps))) {
                    Some(ci) => (
                        Position {
                            pieces: g.pieces.update(ci, Piece { taken: true, ..g.pieces[ci] }),
                            squares: g.squares.update(cps, Square::Empty),
                            ..g
                        },
                        Some((ci as usize, cps as usize)),
                    ),
                    None => (g, None),
                }
            } else {
                (g, None)
            }
        },
        None => (g, None),
    }
}

/// The ordinary capture: the first live piece on the target square is taken, and taking a
/// rook on its home square drops that side's right. Returns the taken piece's index and square.
pub open spec fn capture_stage(g: Position, m: Move) -> (Position, Option<(usize, usize)>) {
    match find_first(g.pieces, on_board_exactly(square_bit(m.to_square as int))) {
        Some(ti) => {
            let cps = square_of(g.pieces[ti].bit);
            (
                Position {
                    pieces: g.pieces.update(ti, Piece { taken: true, ..g.pieces[ti] }),
                    castling_rights: if g.pieces[ti].piece_type == PieceType::Rook {
                        rights_after_rook_square(g.castling_rights, cps)
                    } else {
                        g.castling_rights
                    },
                    ..g
                },
                Some((ti as usize, cps as usize)),
            )
        },
        None => (g, None),
    }
}

/// The moving piece relocated: the square index of its start square carried to the target,
/// the start emptied, the piece's bit set to the target; the en passant square set behind a
/// double pawn push and cleared otherwise.
pub open spec fn relocation_stage(g: Position, m: Move, idx: int) -> Position {
    let pi = g.squares[m.from_square as int]->Occupied_0;
    Position {
        squares: g.squares.update(m.to_square as int, Square::Occupied(pi)).update(
            m.from_square as int,
            Square::Empty,
        ),
        pieces: g.pieces.update(idx, Piece { bit: square_bit(m.to_square as int), ..g.pieces[idx] }),
        en_passant: if g.pieces[idx].piece_type == PieceType::Pawn && move_distance(m) == 16 {
            Some(square_bit((m.from_square + m.to_square) / 2))
        } else {
            None
        },
        ..g
    }
}

/// The pieces and squares stages after the promotion, with the castled rook's record and the
/// captured piece's record (the ordinary capture's when there is one, else the en passant one).
pub open spec fn move_stages(g1: Position, m: Move, idx: int) -> (Position, Option<(usize, usize, usize)>, Option<(usize, usize)>) {
    let (g2, rook) = castling_stage(g1, m, idx);
    let g3 = rook_rights_stage(g2, m, idx);
    let (g4, ep) = en_passant_stage(g3, m, idx);
    let (g5, cap) = capture_stage(g4, m);
    (g5, rook, match cap {
        Some(c) => Some(c),
        None => ep,
    })
}

/// The board after the stages that follow the promotion.
pub open spec fn board_from(g1: Position, m: Move, idx: int) -> Position {
    relocation_stage(move_stages(g1, m, idx).0, m, idx)
}

/// Kings of the colour other than `c`.
pub open spec fn enemy_king_of(c: Colour) -> spec_fn(Piece) -> bool {
    |p: Piece| p.piece_type == PieceType::King && p.colour != c
}

/// The position once the board is updated: the check flag set when a move of the mover
/// (castling included) would reach the first enemy king (left as it was when there is no enemy
/// king), the full move number advanced after Black's move, and the other side to move.
pub open spec fn finish_from(g1: Position, m: Move, idx: int) -> Position {
    let b = board_from(g1, m, idx);
    let check = match find_first(b.pieces, enemy_king_of(g1.active_colour)) {
        Some(k) => if attacks_square(b, square_of(b.pieces[k].bit)) {
            Some(opponent(g1.active_colour))
        } else {
            None
        },
        None => g1.colour_in_check,
    };
    Position {
        colour_in_check: check,
        fullmove_number: if g1.active_colour == Colour::Black {
            (g1.fullmove_number + 1) as usize
        } else {
            g1.fullmove_number
        },
        active_colour: opponent(g1.active_colour),
        ..b
    }
}

/// The record that lets the move be taken back.
pub open spec fn record_from(g1: Position, m: Move, idx: int) -> MoveToUnmake {
    let (_, rook, captured) = move_stages(g1, m, idx);
    MoveToUnmake {
        from_square: m.from_square,
        to_square: m.to_square,
        promotion: m.promotion,
        captured_piece_index: match captured { Some(c) => Some(c.0), None => None },
        captured_piece_square: match captured { Some(c) => Some(c.1), None => None },
        previous_castling_rights: g1.castling_rights,
        previous_en_passant: g1.en_passant,
        previous_colour_in_check: g1.colour_in_check,
        previous_last_move: g1.last_move,
        previous_castled_rook_piece_index: match rook { Some(r) => Some(r.0), None => None },
        previous_castled_rook_piece_from_square: match rook { Some(r) => Some(r.1), None => None },
        previous_castled_rook_piece_to_square: match rook { Some(r) => Some(r.2), None => None },
    }
}

/// The conditions under which the stages after the promotion do not fail: the castling rook's
/// squares and the en passant victim's square are on the board, the start square still holds
/// a piece when the mover is relocated, the board afterwards satisfies the conditions of move
/// generation, and the full move number can advance.
pub open spec fn stages_defined(g1: Position, m: Move, idx: int) -> bool {
    let g2 = castling_stage(g1, m, idx).0;
    let g3 = rook_rights_stage(g2, m, idx);
    let g5 = move_stages(g1, m, idx).0;
    &&& m.from_square < 64
    &&& m.to_square < 64
    &&& g1.squares.len() == 64
    &&& 0 <= idx < g1.pieces.len()
    &&& (g1.pieces[idx].piece_type == PieceType::King && move_distance(m) == 2) ==> (if m.to_square
        > m.from_square {
        m.from_square + 3 < 64
    } else {
        m.from_square >= 4
    })
    &&& (g3.en_passant == Some(square_bit(m.to_square as int)) && g3.pieces[idx].piece_type
        == PieceType::Pawn) ==> (if g1.active_colour == Colour::White {
        m.to_square >= 8
    } else {
        m.to_square + 8 < 64
    })
    &&& g5.squares[m.from_square as int] is Occupied
    &&& board_from(g1, m, idx).wf()
    &&& g1.active_colour == Colour::Black ==> g1.fullmove_number < usize::MAX
}

/// The position after a move.
pub open spec fn position_after_move(g: Position, m: Move) -> Position {
    let idx = moving_index(g, m)->0;
    finish_from(promotion_stage(g, m, idx), m, idx)
}

/// The record that lets a move be taken back.
pub open spec fn undo_record(g: Position, m: Move) -> MoveToUnmake {
    let idx = moving_index(g, m)->0;
    record_from(promotion_stage(g, m, idx), m, idx)
}

/// The conditions under which a move can be made without failing: its squares are on the
/// board, a live piece of the side to move stands on its start square, and the later stages
/// do not fail.
pub open spec fn make_move_defined(g: Position, m: Move) -> bool {
    let idx = moving_index(g, m)->0;
    &&& m.from_square < 64
    &&& m.to_square < 64
    &&& g.squares.len() == 64
    &&& moving_index(g, m) is Some
    &&& stages_defined(promotion_stage(g, m, idx), m, idx)
}

pub(crate) fn find_first_exec_live_of(pieces: &Vec<Piece>, bit: u64, c: Colour) -> (index: Option<usize>)
    ensures
        index matches Some(i) ==> find_first(pieces@, live_on_of(bit, c)) == Some(i as int),
        index is None ==> find_first(pieces@, live_on_of(bit, c)) is None,
{
    let mut i: usize = 0;
    while i < pieces.len()
        invariant
            0 <= i <= pieces@.len(),
            find_first(pieces@, live_on_of(bit, c)) == find_from(pieces@, live_on_of(bit, c), i as int),
        decreases pieces@.len() - i,
    {
        if !pieces[i].taken && pieces[i].bit == bit && pieces[i].colour == c {
            return Some(i);
        }
        i += 1;
    }
    None
}

fn find_first_exec_any_on(pieces: &Vec<Piece>, bit: u64) -> (index: Option<usize>)
    ensures
        index matches Some(i) ==> find_first(pieces@, any_on(bit)) == Some(i as int),
        index is None ==> find_first(pieces@, any_on(bit)) is None,
{
    let mut i: usize = 0;
    while i < pieces.len()
        invariant
            0 <= i <= pieces@.len(),
            find_first(pieces@, any_on(bit)) == find_from(pieces@, any_on(bit), i as int),
        decreases pieces@.len() - i,
    {
        if pieces[i].bit == bit {
            return Some(i);
        }
        i += 1;
    }
    None
}

fn find_first_exec_enemy_king(pieces: &Vec<Piece>, c: Colour) -> (index: Option<usize>)
    ensures
        index matches Some(i) ==> find_first(pieces@, enemy_king_of(c)) == Some(i as int),
        index is None ==> find_first(pieces@, enemy_king_of(c)) is None,
{
    let mut i: usize = 0;
    while i < pieces.len()
        invariant
            0 <= i <= pieces@.len(),
            find_first(pieces@, enemy_king_of(c)) == find_from(pieces@, enemy_king_of(c), i as int),
        decreases pieces@.len() - i,
    {
        if pieces[i].piece_type == PieceType::King && pieces[i].colour != c {
            return Some(i);
        }
        i += 1;
    }
    None
}

/// Drops the castling right of a rook home square.
fn remove_rook_square_right(rights: &mut CastlingRights, square: usize)
    ensures
        *final(rights) == rights_after_rook_square(*old(rights), square as int),
{
    if square == 0 {
        rights.remove(CastlingRights::white_queenside());
    } else if square == 7 {
        rights.remove(CastlingRights::white_kingside());
    } else if square == 56 {
        rights.remove(CastlingRights::black_queenside());
    } else if square == 63 {
        rights.remove(CastlingRights::black_kingside());
    }
}

fn castling_stage_exec(game: &mut Game, move_to_make: Move, start_piece_index: usize) -> (rook_record: Option<(usize, usize, usize)>)
    requires
        move_to_make.from_square < 64,
        move_to_make.to_square < 64,
        old(game).squares@.len() == 64,
        start_piece_index < old(game).pieces@.len(),
        (old(game).pieces@[start_piece_index as int].piece_type == PieceType::King && move_distance(move_to_make) == 2) ==> (if move_to_make.to_square
            > move_to_make.from_square {
            move_to_make.from_square + 3 < 64
        } else {
            move_to_make.from_square >= 4
        }),
    ensures
        final(game).pieces@.len() == old(game).pieces@.len(),
        final(game).squares@.len() == old(game).squares@.len(),
        final(game)@ == castling_stage(old(game)@, move_to_make, start_piece_index as int).0,
        rook_record == castling_stage(old(game)@, move_to_make, start_piece_index as int).1,
{
    let ghost g1 = game@;
    let from_square = move_to_make.from_square;
    let to_square = move_to_make.to_square;
    let mut rook_record: Option<(usize, usize, usize)> = None;
    let distance = if to_square >= from_square { to_square - from_square } else { from_square - to_square };
    if game.pieces[start_piece_index].piece_type == PieceType::King {
        // Remove queen and king side castling rights
        match game.active_colour {
            Colour::White => {
                game.castling_rights.remove(CastlingRights::white_kingside());
                game.castling_rights.remove(CastlingRights::white_queenside());
            },
            Colour::Black => {
                game.castling_rights.remove(CastlingRights::black_kingside());
                game.castling_rights.remove(CastlingRights::black_queenside());
            },
        }
        if distance == 2 {
            let kingside = to_square > from_square;
            let rook_home: usize = if kingside {
                if game.active_colour == Colour::White { 7 } else { 63 }
            } else {
                if game.active_colour == Colour::White { 0 } else { 56 }
            };
            let rook_to: usize = if kingside { from_square + 1 } else { from_square - 1 };
            let rook_from: usize = if kingside { from_square + 3 } else { from_square - 4 };
            match find_first_exec_any_on(&game.pieces, onebit_index_to_bit(rook_home)) {
                Some(r) => {
                    proof {
                        lemma_find_from_facts(game.pieces@, any_on(square_bit(rook_home as int)), 0);
                    }
                    let mut rook = game.pieces[r];
                    rook.bit = onebit_index_to_bit(rook_to);
                    game.pieces.set(r, rook);
                },
                None => {},
            }
            match game.squares[rook_from] {
                Square::Occupied(rook_piece_index) => {
                    game.squares.set(rook_to, Square::Occupied(rook_piece_index));
                    game.squares.set(rook_from, Square::Empty);
                    rook_record = Some((rook_piece_index, rook_from, rook_to));
                },
                Square::Empty => {},
            }
        }
    }
    proof {
        assert(game@ =~= castling_stage(g1, move_to_make, start_piece_index as int).0);
    }
    rook_record
}

fn en_passant_stage_exec(game: &mut Game, move_to_make: Move, start_piece_index: usize, end_bit: u64) -> (captured_record: Option<(usize, usize)>)
    requires
        move_to_make.to_square < 64,
        end_bit == square_bit(move_to_make.to_square as int),
        old(game).squares@.len() == 64,
        start_piece_index < old(game).pieces@.len(),
        (old(game).en_passant == Some(end_bit) && old(game).pieces@[start_piece_index as int].piece_type
            == PieceType::Pawn) ==> (if old(game).active_colour == Colour::White {
            move_to_make.to_square >= 8
        } else {
            move_to_make.to_square + 8 < 64
        }),
    ensures
        final(game).pieces@.len() == old(game).pieces@.len(),
        final(game).squares@.len() == old(game).squares@.len(),
        final(game)@ == en_passant_stage(old(game)@, move_to_make, start_piece_index as int).0,
        captured_record == en_passant_stage(old(game)@, move_to_make, start_piece_index as int).1,
{
    let ghost g3 = game@;
    let to_square = move_to_make.to_square;
    let mut captured_record: Option<(usize, usize)> = None;
    match game.en_passant {
        Some(en_passant_bit) => {
            if end_bit == en_passant_bit && game.pieces[start_piece_index].piece_type == PieceType::Pawn {
                let captured_piece_square = if game.active_colour == Colour::White {
                    to_square - 8
                } else {
                    to_square + 8
                };
                let captured_piece_bit = onebit_index_to_bit(captured_piece_square);
                match find_live_piece_on(&game.pieces, captured_piece_bit) {
                    Some(captured_piece_index) => {
                        proof {
                            lemma_find_from_facts(game.pieces@, on_board_exactly(captured_piece_bit), 0);
                        }
                        let mut captured = game.pieces[captured_piece_index];
                        captured.taken = true;
                        game.pieces.set(captured_piece_index, captured);
                        game.squares.set(captured_piece_square, Square::Empty);
                        captured_record = Some((captured_piece_index, captured_piece_square));
                    },
                    None => {},
                }
            }
        },
        None => {},
    }
    proof {
        assert(game@ =~= en_passant_stage(g3, move_to_make, start_piece_index as int).0);
    }
    captured_record
}

fn capture_stage_exec(game: &mut Game, move_to_make: Move, end_bit: u64) -> (captured_record: Option<(usize, usize)>)
    requires
        end_bit == square_bit(move_to_make.to_square as int),
    ensures
        final(game).pieces@.len() == old(game).pieces@.len(),
        final(game).squares@.len() == old(game).squares@.len(),
        final(game)@ == capture_stage(old(game)@, move_to_make).0,
        captured_record == capture_stage(old(game)@, move_to_make).1,
{
    let ghost g4 = game@;
    let mut captured_record: Option<(usize, usize)> = None;
    match find_live_piece_on(&game.pieces, end_bit) {
        Some(target_index) => {
            proof {
                lemma_find_from_facts(game.pieces@, on_board_exactly(end_bit), 0);
            }
            let mut target = game.pieces[target_index];
            let captured_piece_square = bit_to_onebit_index(target.bit);
            target.taken = true;
            game.pieces.set(target_index, target);
            captured_record = Some((target_index, captured_piece_square));
            if target.piece_type == PieceType::Rook {
                // Remove this rook's side castling rights
                remove_rook_square_right(&mut game.castling_rights, captured_piece_square);
            }
        },
        None => {},
    }
    proof {
        assert(game@ =~= capture_stage(g4, move_to_make).0);
    }
    captured_record
}

fn relocation_stage_exec(game: &mut Game, move_to_make: Move, start_piece_index: usize, end_bit: u64)
    requires
        move_to_make.from_square < 64,
        move_to_make.to_square < 64,
        end_bit == square_bit(move_to_make.to_square as int),
        old(game).squares@.len() == 64,
        start_piece_index < old(game).pieces@.len(),
        old(game).squares@[move_to_make.from_square as int] is Occupied,
    ensures
        final(game).pieces@.len() == old(game).pieces@.len(),
        final(game).squares@.len() == old(game).squares@.len(),
        final(game)@ == relocation_stage(old(game)@, move_to_make, start_piece_index as int),
{
    let ghost g5 = game@;
    let from_square = move_to_make.from_square;
    let to_square = move_to_make.to_square;
    let distance = if to_square >= from_square { to_square - from_square } else { from_square - to_square };
    let piece_index = get_piece_index(&game.squares[from_square]).unwrap();
    game.squares.set(to_square, Square::Occupied(piece_index));
    game.squares.set(from_square, Square::Empty);
    let mut moved = game.pieces[start_piece_index];
    moved.bit = end_bit;
    game.pieces.set(start_piece_index, moved);
    if moved.piece_type == PieceType::Pawn && distance == 16 {
        let en_passant_square = (from_square + to_square) / 2;
        game.en_passant = Some(onebit_index_to_bit(en_passant_square));
    } else {
        game.en_passant = None;
    }
    proof {
        assert(game@ =~= relocation_stage(g5, move_to_make, start_piece_index as int));
    }
}

fn make_non_pawn_promotion_move(game: &mut Game, move_to_make: Move, start_piece_index: usize, end_bit: u64) -> (move_to_unmake: MoveToUnmake)
    requires
        stages_defined(old(game)@, move_to_make, start_piece_index as int),
        end_bit == square_bit(move_to_make.to_square as int),
    ensures
        final(game)@ == finish_from(old(game)@, move_to_make, start_piece_index as int),
        move_to_unmake == record_from(old(game)@, move_to_make, start_piece_index as int),
{
    let ghost g1 = game@;
    let ghost idx = start_piece_index as int;
    let previous_castling_rights = game.castling_rights;
    let previous_en_passant = game.en_passant;
    let previous_colour_in_check = game.colour_in_check;
    let previous_last_move = game.last_move;
    let from_square = move_to_make.from_square;
    let to_square = move_to_make.to_square;
    // Castling
    let rook_record = castling_stage_exec(game, move_to_make, start_piece_index);
    let ghost g2 = game@;
    if game.pieces[start_piece_index].piece_type == PieceType::Rook {
        // Remove this rook's side castling rights
        remove_rook_square_right(&mut game.castling_rights, from_square);
    }
    proof {
        assert(game@ =~= rook_rights_stage(g2, move_to_make, idx));
    }
    // En passant capture
    let en_passant_record = en_passant_stage_exec(game, move_to_make, start_piece_index, end_bit);
    // Standard capture
    let capture_record = capture_stage_exec(game, move_to_make, end_bit);
    let captured_record = match capture_record {
        Some(c) => Some(c),
        None => en_passant_record,
    };
    relocation_stage_exec(game, move_to_make, start_piece_index, end_bit);
    proof {
        assert(game@ == board_from(g1, move_to_make, idx));
    }
    let inactive_colour = opposite_colour(game.active_colour);
    match find_first_exec_enemy_king(&game.pieces, game.active_colour) {
        Some(k) => {
            proof {
                lemma_find_from_facts(game.pieces@, enemy_king_of(game.active_colour), 0);
                assert(is_square_bit(game.pieces@[k as int].bit));
            }
            let king_square = bit_to_onebit_index(game.pieces[k].bit);
            if inactive_colour_in_check(game, king_square) {
                game.colour_in_check = Some(inactive_colour);
            } else {
                game.colour_in_check = None;
            }
        },
        None => {},
    }
    if game.active_colour == Colour::Black {
        game.fullmove_number += 1;
    }
    game.active_colour = inactive_colour;
    proof {
        assert(game@ =~= finish_from(g1, move_to_make, idx));
    }
    MoveToUnmake {
        from_square,
        to_square,
        promotion: move_to_make.promotion,
        captured_piece_index: match captured_record { Some(c) => Some(c.0), None => None },
        captured_piece_square: match captured_record { Some(c) => Some(c.1), None => None },
        previous_castling_rights,
        previous_en_passant,
        previous_colour_in_check,
        previous_last_move,
        previous_castled_rook_piece_index: match rook_record { Some(r) => Some(r.0), None => None },
        previous_castled_rook_piece_from_square: match rook_record { Some(r) => Some(r.1), None => None },
        previous_castled_rook_piece_to_square: match rook_record { Some(r) => Some(r.2), None => None },
    }
}

pub fn make_move(game: &mut Game, move_to_make: Move) -> (move_to_unmake: MoveToUnmake)
    requires
        make_move_defined(old(game)@, move_to_make),
    ensures
        final(game)@ == position_after_move(old(game)@, move_to_make),
        move_to_unmake == undo_record(old(game)@, move_to_make),
{
    let ghost g0 = game@;
    let start_bit = onebit_index_to_bit(move_to_make.from_square);
    let end_bit = onebit_index_to_bit(move_to_make.to_square);
    let start_piece_index = find_first_exec_live_of(&game.pieces, start_bit, game.active_colour).unwrap();
    proof {
        lemma_find_from_facts(game.pieces@, live_on_of(start_bit, game.active_colour), 0);
    }
    // Promote first so check will be calculated if promoted piece puts king in check
    match move_to_make.promotion {
        Some(promotion_piece) => {
            let mut promoted = game.pieces[start_piece_index];
            promoted.piece_type = promotion_piece;
            game.pieces.set(start_piece_index, promoted);
        },
        None => {},
    }
    proof {
        assert(game@ =~= promotion_stage(g0, move_to_make, start_piece_index as int));
    }
    make_non_pawn_promotion_move(game, move_to_make, start_piece_index, end_bit)
}

/// Live pieces of the colour other than `c` on board `b`.
pub open spec fn live_on_not_of(b: u64, c: Colour) -> spec_fn(Piece) -> bool {
    |p: Piece| !p.taken && p.bit == b && p.colour != c
}

/// The index of the piece that a take-back moves back: the first live piece of the side that
/// just moved on the move's target square.
pub open spec fn unmake_index(g: Position, u: MoveToUnmake) -> Option<int> {
    find_first(g.pieces, live_on_not_of(square_bit(u.to_square as int), g.active_colour))
}

/// The position after taking a move back: when the moved piece is found, it is demoted to a
/// pawn if the move promoted, put back on its start square, the captured piece (when recorded)
/// put back, the castled rook (when recorded) put back, the rights, en passant square, check
/// flag and last move restored, the full move number stepped back after Black's move, and the
/// other side to move. When no moved piece is found nothing changes.
pub open spec fn position_after_unmake(g: Position, u: MoveToUnmake) -> Position {
    match unmake_index(g, u) {
        None => g,
        Some(pi) => {
            let from = u.from_square as int;
            let to = u.to_square as int;
            let p1 = match u.promotion {
                Some(_) => g.pieces.update(pi, Piece { piece_type: PieceType::Pawn, ..g.pieces[pi] }),
                None => g.pieces,
            };
            let p2 = p1.update(pi, Piece { bit: square_bit(from), ..p1[pi] });
            let s1 = g.squares.update(from, Square::Occupied(pi as usize)).update(to, Square::Empty);
            let (p3, s2) = match (u.captured_piece_index, u.captured_piece_square) {
                (Some(ci), Some(cs)) => (
                    p2.update(ci as int, Piece { taken: false, ..p2[ci as int] }),
                    s1.update(cs as int, Square::Occupied(ci)),
                ),
                _ => (p2, s1),
            };
            let (p4, s3) = match (
                u.previous_castled_rook_piece_index,
                u.previous_castled_rook_piece_from_square,
                u.previous_castled_rook_piece_to_square,
            ) {
                (Some(ri), Some(rf), Some(rt)) => (
                    p3.update(ri as int, Piece { bit: square_bit(rf as int), ..p3[ri as int] }),
                    s2.update(rf as int, Square::Occupied(ri)).update(rt as int, Square::Empty),
                ),
                _ => (p3, s2),
            };
            Position {
                pieces: p4,
                squares: s3,
                castling_rights: u.previous_castling_rights,
                en_passant: u.previous_en_passant,
                colour_in_check: u.previous_colour_in_check,
                last_move: u.previous_last_move,
                fullmove_number: if g.active_colour == Colour::White {
                    (g.fullmove_number - 1) as usize
                } else {
                    g.fullmove_number
                },
                active_colour: opponent(g.active_colour),
                ..g
            }
        },
    }
}

/// The conditions under which taking a move back does not fail: its squares are on the board
/// and, when the moved piece is found, the recorded indices and squares exist and the full
/// move number can step back.
pub open spec fn unmake_move_defined(g: Position, u: MoveToUnmake) -> bool {
    &&& u.from_square < 64
    &&& u.to_square < 64
    &&& unmake_index(g, u) is Some ==> {
        &&& g.squares.len() == 64
        &&& (u.captured_piece_index, u.captured_piece_square) matches (Some(ci), Some(cs)) ==> ci < g.pieces.len() && cs < 64
        &&& (u.previous_castled_rook_piece_index, u.previous_castled_rook_piece_from_square, u.previous_castled_rook_piece_to_square) matches (Some(ri), Some(rf), Some(rt)) ==> ri < g.pieces.len() && rf < 64 && rt < 64
        &&& g.active_colour == Colour::White ==> g.fullmove_number >= 1
    }
}

fn find_first_exec_live_not_of(pieces: &Vec<Piece>, bit: u64, c: Colour) -> (index: Option<usize>)
    ensures
        index matches Some(i) ==> find_first(pieces@, live_on_not_of(bit, c)) == Some(i as int),
        index is None ==> find_first(pieces@, live_on_not_of(bit, c)) is None,
{
    let mut i: usize = 0;
    while i < pieces.len()
        invariant
            0 <= i <= pieces@.len(),
            find_first(pieces@, live_on_not_of(bit, c)) == find_from(pieces@, live_on_not_of(bit, c), i as int),
        decreases pieces@.len() - i,
    {
        if !pieces[i].taken && pieces[i].bit == bit && pieces[i].colour != c {
            return Some(i);
        }
        i += 1;
    }
    None
}

pub fn unmake_move(game: &mut Game, move_to_unmake: MoveToUnmake)
    requires
        unmake_move_defined(old(game)@, move_to_unmake),
    ensures
        final(game)@ == position_after_unmake(old(game)@, move_to_unmake),
{
    let ghost g = game@;
    let start_bit = onebit_index_to_bit(move_to_unmake.from_square);
    let end_bit = onebit_index_to_bit(move_to_unmake.to_square);
    match find_first_exec_live_not_of(&game.pieces, end_bit, game.active_colour) {
        Some(piece_index) => {
            proof {
                lemma_find_from_facts(game.pieces@, live_on_not_of(end_bit, game.active_colour), 0);
            }
            let mut piece = game.pieces[piece_index];
            match move_to_unmake.promotion {
                Some(_) => {
                    piece.piece_type = PieceType::Pawn;
                },
                None => {},
            }
            piece.bit = start_bit;
            game.pieces.set(piece_index, piece);
            game.squares.set(move_to_unmake.from_square, Square::Occupied(piece_index));
            game.squares.set(move_to_unmake.to_square, Square::Empty);
            match (move_to_unmake.captured_piece_index, move_to_unmake.captured_piece_square) {
                (Some(captured_piece_index), Some(captured_piece_square)) => {
                    let mut captured = game.pieces[captured_piece_index];
                    captured.taken = false;
                    game.pieces.set(captured_piece_index, captured);
                    game.squares.set(captured_piece_square, Square::Occupied(captured_piece_index));
                },
                _ => {},
            }
            match (
                move_to_unmake.previous_castled_rook_piece_index,
                move_to_unmake.previous_castled_rook_piece_from_square,
                move_to_unmake.previous_castled_rook_piece_to_square,
            ) {
                (Some(rook_index), Some(rook_from), Some(rook_to)) => {
                    let mut rook = game.pieces[rook_index];
                    rook.bit = onebit_index_to_bit(rook_from);
                    game.pieces.set(rook_index, rook);
                    game.squares.set(rook_from, Square::Occupied(rook_index));
                    game.squares.set(rook_to, Square::Empty);
                },
                _ => {},
            }
            game.castling_rights = move_to_unmake.previous_castling_rights;
            game.en_passant = move_to_unmake.previous_en_passant;
            game.colour_in_check = move_to_unmake.previous_colour_in_check;
            game.last_move = move_to_unmake.previous_last_move;
            // If Black has just moved
            if game.active_colour == Colour::White {
                game.fullmove_number -= 1;
            }
            game.active_colour = opposite_colour(game.active_colour);
            proof {
                assert(game@ =~= position_after_unmake(g, move_to_unmake));
            }
        },
        None => {},
    }
}

/// Whether a move can be made without failing (see `make_move_defined`): the stages of the
/// move are run on a copy of the game, each checked before it runs.
pub fn move_can_be_made(game: &Game, m: Move) -> (ok: bool)
    ensures
        ok == make_move_defined(game@, m),
{
    if m.from_square >= 64 || m.to_square >= 64 || game.squares.len() != 64 {
        return false;
    }
    let from_bit = onebit_index_to_bit(m.from_square);
    let to_bit = onebit_index_to_bit(m.to_square);
    let idx = match find_first_exec_live_of(&game.pieces, from_bit, game.active_colour) {
        Some(i) => i,
        None => {
            return false;
        },
    };
    proof {
        lemma_find_from_facts(game.pieces@, live_on_of(from_bit, game.active_colour), 0);
    }
    let ghost g = game@;
    let mut copy = game.duplicate();
    match m.promotion {
        Some(t) => {
            let mut promoted = copy.pieces[idx];
            promoted.piece_type = t;
            copy.pieces.set(idx, promoted);
        },
        None => {},
    }
    let ghost g1 = copy@;
    assert(g1 =~= promotion_stage(g, m, idx as int));
    let distance = if m.to_square >= m.from_square { m.to_square - m.from_square } else { m.from_square - m.to_square };
    if copy.pieces[idx].piece_type == PieceType::King && distance == 2 {
        let in_range = if m.to_square > m.from_square { m.from_square + 3 < 64 } else { m.from_square >= 4 };
        if !in_range {
            return false;
        }
    }
    castling_stage_exec(&mut copy, m, idx);
    if copy.pieces[idx].piece_type == PieceType::Rook {
        remove_rook_square_right(&mut copy.castling_rights, m.from_square);
    }
    let ghost g3 = copy@;
    assert(g3 =~= rook_rights_stage(castling_stage(g1, m, idx as int).0, m, idx as int));
    let lands_on_en_passant = match copy.en_passant {
        Some(b) => b == to_bit,
        None => false,
    };
    if lands_on_en_passant && copy.pieces[idx].piece_type == PieceType::Pawn {
        let in_range = match copy.active_colour {
            Colour::White => m.to_square >= 8,
            Colour::Black => m.to_square + 8 < 64,
        };
        if !in_range {
            return false;
        }
    }
    en_passant_stage_exec(&mut copy, m, idx, to_bit);
    capture_stage_exec(&mut copy, m, to_bit);
    assert(copy@ == move_stages(g1, m, idx as int).0);
    match copy.squares[m.from_square] {
        Square::Empty => {
            return false;
        },
        Square::Occupied(_) => {},
    }
    relocation_stage_exec(&mut copy, m, idx, to_bit);
    assert(copy@ == board_from(g1, m, idx as int));
    if !copy.is_playable() {
        return false;
    }
    match game.active_colour {
        Colour::Black => game.fullmove_number < usize::MAX,
        Colour::White => true,
    }
}

} // verus!
