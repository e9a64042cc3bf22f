use vstd::prelude::*;

verus! {

use crate::bitboard::{step_bit, step_bit_exec, has_bit, lemma_has_bit_or, lemma_step_bit_has_bit, square_bit, onebit_index_to_bit};
use crate::game::{Game, Position, Colour, Square, CastlingRights, opponent, opposite_colour, pieces_on_squares, wk, wq, bk, bq, king_of, find_first};
use crate::bitboard::bit_indices;
use crate::moves::{Move, moves_from_bitboard, moves_to_targets, squares_attacked_by, squares_attacked_by_opponent_bitboard, under_threat, square_under_threat, pseudolegal_moves_without_castling, generate_pseudolegal_moves_without_castling, can_generate};

/// The squares a king on `sq` attacks.
pub open spec fn king_mask(sq: int) -> u64 {
    step_bit(sq, -1, 0) | step_bit(sq, 1, 0) | step_bit(sq, 0, -1) | step_bit(sq, 0, 1)
        | step_bit(sq, -1, -1) | step_bit(sq, -1, 1) | step_bit(sq, 1, -1) | step_bit(sq, 1, 1)
}

/// Whether `t` is next to `sq`, orthogonally or diagonally.
pub open spec fn king_step(sq: int, t: int) -> bool {
    let dr = t / 8 - sq / 8;
    let df = t % 8 - sq % 8;
    -1 <= dr <= 1 && -1 <= df <= 1 && !(dr == 0 && df == 0)
}

/// A king attacks exactly the squares next to it.
pub proof fn lemma_king_mask_squares(sq: int, t: int)
    requires
        0 <= sq < 64,
        0 <= t < 64,
    ensures
        has_bit(king_mask(sq), t) <==> king_step(sq, t),
{
    let a = step_bit(sq, -1, 0);
    let b = step_bit(sq, 1, 0);
    let c = step_bit(sq, 0, -1);
    let d = step_bit(sq, 0, 1);
    let e = step_bit(sq, -1, -1);
    let f = step_bit(sq, -1, 1);
    let g = step_bit(sq, 1, -1);
    let h = step_bit(sq, 1, 1);
    lemma_has_bit_or(a, b, t);
    lemma_has_bit_or(a | b, c, t);
    lemma_has_bit_or(a | b | c, d, t);
    lemma_has_bit_or(a | b | c | d, e, t);
    lemma_has_bit_or(a | b | c | d | e, f, t);
    lemma_has_bit_or(a | b | c | d | e | f, g, t);
    lemma_has_bit_or(a | b | c | d | e | f | g, h, t);
    lemma_step_bit_has_bit(sq, -1, 0, t);
    lemma_step_bit_has_bit(sq, 1, 0, t);
    lemma_step_bit_has_bit(sq, 0, -1, t);
    lemma_step_bit_has_bit(sq, 0, 1, t);
    lemma_step_bit_has_bit(sq, -1, -1, t);
    lemma_step_bit_has_bit(sq, -1, 1, t);
    lemma_step_bit_has_bit(sq, 1, -1, t);
    lemma_step_bit_has_bit(sq, 1, 1, t);
}

/// The squares a king on `square` attacks.
pub fn king_move_mask(square: usize) -> (moves: u64)
    requires
        square < 64,
    ensures
        moves == king_mask(square as int),
{
    step_bit_exec(square, -1, 0) | step_bit_exec(square, 1, 0) | step_bit_exec(square, 0, -1)
        | step_bit_exec(square, 0, 1) | step_bit_exec(square, -1, -1) | step_bit_exec(square, -1, 1)
        | step_bit_exec(square, 1, -1) | step_bit_exec(square, 1, 1)
}

/// The king attack table, indexed by square.
pub fn precompute_king_move_bitboards() -> (king_moves: Vec<u64>)
    ensures
        king_moves@.len() == 64,
        forall|sq: int| 0 <= sq < 64 ==> #[trigger] king_moves@[sq] == king_mask(sq),
{
    let mut king_moves: Vec<u64> = Vec::new();
    let mut square: usize = 0;
    while square < 64
        invariant
            square <= 64,
            king_moves@.len() == square,
            forall|sq: int| 0 <= sq < square ==> #[trigger] king_moves@[sq] == king_mask(sq),
        decreases 64 - square,
    {
        king_moves.push(king_move_mask(square));
        square += 1;
    }
    king_moves
}

/// The squares a king on `from_square` attacks.
pub fn generate_king_attacked_squares_including_own(from_square: usize) -> (attacked: u64)
    requires
        from_square < 64,
    ensures
        attacked == king_mask(from_square as int),
        forall|t: int| 0 <= t < 64 ==> (#[trigger] has_bit(attacked, t) <==> king_step(from_square as int, t)),
{
    proof {
        assert forall|t: int| 0 <= t < 64 implies (#[trigger] has_bit(king_mask(from_square as int), t) <==> king_step(from_square as int, t)) by {
            lemma_king_mask_squares(from_square as int, t);
        }
    }
    king_move_mask(from_square)
}

/// The squares next to `from_square` not holding a piece of the side to move.
pub fn generate_king_attacked_squares(from_square: usize, game: &Game) -> (valid_moves: u64)
    requires
        from_square < 64,
    ensures
        valid_moves == king_mask(from_square as int) & !game@.friendly_bits(),
{
    let king_moves = king_move_mask(from_square);
    let occupied_by_friends = game.get_friendly_piece_bitboard();
    king_moves & !occupied_by_friends
}

/// The king moves of the side to move from `from`: the squares next to it that hold no own
/// piece and that the opponent does not attack.
pub open spec fn legal_king_moves(from: int, g: Position) -> Seq<Move> {
    moves_to_targets(
        from as usize,
        bit_indices((king_mask(from) & !g.friendly_bits()) & !squares_attacked_by(g, opponent(g.active_colour))),
        false,
    )
}

pub fn generate_legal_king_moves(from_square: usize, game: &Game) -> (possible_moves: Vec<Move>)
    requires
        from_square < 64,
        pieces_on_squares(game.pieces@),
    ensures
        possible_moves@ == legal_king_moves(from_square as int, game@),
{
    let pseudolegal_moves = generate_king_attacked_squares(from_square, game);
    let opponent_colour = opposite_colour(game.active_colour);
    let squares_attacked_by_opponent = squares_attacked_by_opponent_bitboard(game, opponent_colour);
    // Don't move the king into check
    let valid_moves = pseudolegal_moves & !squares_attacked_by_opponent;
    moves_from_bitboard(from_square, valid_moves, false)
}

/// The squares the other side attacks, which castling must not start on or pass through.
pub open spec fn castling_attacks(g: Position) -> u64 {
    squares_attacked_by(g, opponent(g.active_colour))
}

/// Whether square `i` is among the attacked squares `a`.
pub open spec fn attacked_square(i: int, a: u64) -> bool {
    a & square_bit(i) != 0
}

/// A castling move of the king from `from` to `to`.
pub open spec fn castle_move(from: int, to: int) -> Move {
    Move { from_square: from as usize, to_square: to as usize, promotion: None, capture_square: None }
}

/// Whether the side to move may castle king side: the right is held, the squares between king
/// and rook are empty, and neither the king's square nor the two it crosses is attacked.
pub open spec fn kingside_castle_allowed(g: Position) -> bool {
    let a = castling_attacks(g);
    if g.active_colour == Colour::White {
        g.castling_rights.has(wk()) && g.squares[5] == Square::Empty && g.squares[6] == Square::Empty
            && !attacked_square(4, a) && !attacked_square(5, a) && !attacked_square(6, a)
    } else {
        g.castling_rights.has(bk()) && g.squares[61] == Square::Empty && g.squares[62]
            == Square::Empty && !attacked_square(60, a) && !attacked_square(61, a)
            && !attacked_square(62, a)
    }
}

/// Whether the side to move may castle queen side.
pub open spec fn queenside_castle_allowed(g: Position) -> bool {
    let a = castling_attacks(g);
    if g.active_colour == Colour::White {
        g.castling_rights.has(wq()) && g.squares[1] == Square::Empty && g.squares[2] == Square::Empty
            && g.squares[3] == Square::Empty && !attacked_square(2, a) && !attacked_square(3, a)
            && !attacked_square(4, a)
    } else {
        g.castling_rights.has(bq()) && g.squares[57] == Square::Empty && g.squares[58]
            == Square::Empty && g.squares[59] == Square::Empty && !attacked_square(58, a)
            && !attacked_square(59, a) && !attacked_square(60, a)
    }
}

/// The castling moves of a king of the side to move on `from`: king side, then queen side.
pub open spec fn castle_moves(from: int, g: Position) -> Seq<Move> {
    (if kingside_castle_allowed(g) {
        seq![castle_move(from, from + 2)]
    } else {
        Seq::empty()
    }).add(
        if queenside_castle_allowed(g) {
            seq![castle_move(from, from - 2)]
        } else {
            Seq::empty()
        },
    )
}

fn all_empty(squares: &Vec<Square>, start: usize, end: usize) -> (r: bool)
    requires
        start <= end <= squares@.len(),
    ensures
        r == forall|i: int| start <= i < end ==> squares@[i] == Square::Empty,
{
    let mut i = start;
    while i < end
        invariant
            start <= i <= end <= squares@.len(),
            forall|k: int| start <= k < i ==> squares@[k] == Square::Empty,
        decreases end - i,
    {
        if squares[i] != Square::Empty {
            return false;
        }
        i += 1;
    }
    true
}

fn none_attacked(start: usize, end: usize, attacked: u64) -> (r: bool)
    requires
        start <= end <= 64,
    ensures
        r == forall|i: int| start <= i < end ==> !attacked_square(i, attacked),
{
    let mut i = start;
    while i < end
        invariant
            start <= i <= end <= 64,
            forall|k: int| start <= k < i ==> !attacked_square(k, attacked),
        decreases end - i,
    {
        if attacked & onebit_index_to_bit(i) != 0 {
            assert(attacked_square(i as int, attacked));
            return false;
        }
        i += 1;
    }
    true
}

pub fn add_castle_moves(from_square: usize, possible_moves: Vec<Move>, game: &Game) -> (moves: Vec<Move>)
    requires
        from_square < 64,
        game.squares@.len() == 64,
        pieces_on_squares(game.pieces@),
        queenside_castle_allowed(game@) ==> from_square >= 2,
    ensures
        moves@ == possible_moves@.add(castle_moves(from_square as int, game@)),
{
    let mut possible_moves = possible_moves;
    let ghost before = possible_moves@;
    let attacked = squares_attacked_by_opponent_bitboard(game, opposite_colour(game.active_colour));
    let kingside: bool;
    let queenside: bool;
    if game.active_colour == Colour::White {
        kingside = game.castling_rights.contains(CastlingRights::white_kingside()) && all_empty(&game.squares, 5, 7) && none_attacked(4, 7, attacked);
        queenside = game.castling_rights.contains(CastlingRights::white_queenside()) && all_empty(&game.squares, 1, 4) && none_attacked(2, 5, attacked);
    } else {
        kingside = game.castling_rights.contains(CastlingRights::black_kingside()) && all_empty(&game.squares, 61, 63) && none_attacked(60, 63, attacked);
        queenside = game.castling_rights.contains(CastlingRights::black_queenside()) && all_empty(&game.squares, 57, 60) && none_attacked(58, 61, attacked);
    }
    proof {
        assert(kingside == kingside_castle_allowed(game@));
        assert(queenside == queenside_castle_allowed(game@));
    }
    if kingside {
        possible_moves.push(Move {
            from_square,
            to_square: from_square + 2,
            promotion: None,
            capture_square: None,
        });
    }
    if queenside {
        possible_moves.push(Move {
            from_square,
            to_square: from_square - 2,
            promotion: None,
            capture_square: None,
        });
    }
    proof {
        assert(possible_moves@ =~= before.add(castle_moves(from_square as int, game@)));
    }
    possible_moves
}

} // verus!
