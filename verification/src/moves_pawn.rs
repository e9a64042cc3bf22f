use vstd::prelude::*;

verus! {

use crate::bitboard::{step_bit, square_bit, square_of, has_bit, lemma_has_bit_or, lemma_step_bit_has_bit, onebit_index_to_bit, bit_to_onebit_index, lemma_square_of_square_bit};
use crate::game::{pieces_on_squares, Colour, Game, Position, Piece, PieceType, king_bit_of, king_of, find_first, find_king_bit};
use crate::moves::{Move, sliding_including_own, slider_ray, slider_ray_exec, calculate_sliding_attacked_squares_including_own, lemma_king_bit_square};

/// The rank direction in which pawns of colour `c` advance.
pub open spec fn pawn_direction(c: Colour) -> int {
    if c == Colour::White {
        1
    } else {
        -1
    }
}

/// The rank on which pawns of colour `c` stop advancing.
pub open spec fn last_rank(c: Colour) -> int {
    if c == Colour::White {
        7
    } else {
        0
    }
}

/// The squares a pawn of colour `c` on `sq` attacks: the two squares diagonally in front of it.
pub open spec fn pawn_attacks(sq: int, c: Colour) -> u64 {
    if sq / 8 == last_rank(c) {
        0
    } else {
        step_bit(sq, pawn_direction(c), -1) | step_bit(sq, pawn_direction(c), 1)
    }
}

/// A pawn attacks exactly the squares diagonally in front of it.
pub proof fn lemma_pawn_attacks_squares(sq: int, c: Colour, t: int)
    requires
        0 <= sq < 64,
        0 <= t < 64,
    ensures
        has_bit(pawn_attacks(sq, c), t) <==> (sq / 8 != last_rank(c) && t / 8 == sq / 8
            + pawn_direction(c) && (t % 8 == sq % 8 - 1 || t % 8 == sq % 8 + 1)),
{
    if sq / 8 == last_rank(c) {
        let b = t as u64;
        assert((0u64 >> b) & 1u64 == 0u64) by (bit_vector);
    } else {
        lemma_has_bit_or(step_bit(sq, pawn_direction(c), -1), step_bit(sq, pawn_direction(c), 1), t);
        lemma_step_bit_has_bit(sq, pawn_direction(c), -1, t);
        lemma_step_bit_has_bit(sq, pawn_direction(c), 1, t);
    }
}

pub fn generate_pawn_attacked_squares_including_own(from_square: usize, colour: Colour) -> (attacked_squares: u64)
    requires
        from_square < 64,
    ensures
        attacked_squares == pawn_attacks(from_square as int, colour),
        forall|t: int| 0 <= t < 64 ==> (#[trigger] has_bit(attacked_squares, t) <==> (from_square / 8 != last_rank(colour) && t / 8 == from_square / 8
            + pawn_direction(colour) && (t % 8 == from_square % 8 - 1 || t % 8 == from_square % 8 + 1))),
{
    proof {
        assert forall|t: int| 0 <= t < 64 implies (#[trigger] has_bit(pawn_attacks(from_square as int, colour), t) <==> (from_square / 8 != last_rank(colour) && t / 8 == from_square / 8
            + pawn_direction(colour) && (t % 8 == from_square % 8 - 1 || t % 8 == from_square % 8 + 1))) by {
            lemma_pawn_attacks_squares(from_square as int, colour, t);
        }
    }
    let increment: i64;
    let end_row_index: usize;
    if colour == Colour::White {
        increment = 8;
        end_row_index = 7;
    } else {
        increment = -8;
        end_row_index = 0;
    }
    let current_index = from_square / 8;
    if current_index == end_row_index {
        let none: u64 = 0;
        assert(none == pawn_attacks(from_square as int, colour));
        return none;
    }
    let left: u64 = if from_square % 8 > 0 {
        onebit_index_to_bit((from_square as i64 + increment - 1) as usize)
    } else {
        0
    };
    let right: u64 = if from_square % 8 < 7 {
        onebit_index_to_bit((from_square as i64 + increment + 1) as usize)
    } else {
        0
    };
    left | right
}

/// The rank on which pawns of colour `c` start.
pub open spec fn start_rank(c: Colour) -> int {
    if c == Colour::White {
        1
    } else {
        6
    }
}

/// A move with no promotion.
pub open spec fn plain_move(from: int, to: int, capture: Option<usize>) -> Move {
    Move { from_square: from as usize, to_square: to as usize, promotion: None, capture_square: capture }
}

/// The single and double pushes of a pawn of the side to move on `from`.
pub open spec fn pawn_pushes(from: int, g: Position) -> Seq<Move> {
    let inc = 8 * pawn_direction(g.active_colour);
    let all = g.occupied_bits();
    if square_bit(from + inc) & all == 0 {
        seq![plain_move(from, from + inc, None)].add(
            if from / 8 == start_rank(g.active_colour) && square_bit(from + 2 * inc) & all == 0 {
                seq![plain_move(from, from + 2 * inc, None)]
            } else {
                Seq::empty()
            },
        )
    } else {
        Seq::empty()
    }
}

/// The diagonal capture of a pawn of the side to move on `from` towards file step `df`.
pub open spec fn pawn_capture(from: int, g: Position, df: int) -> Seq<Move> {
    let target = from + 8 * pawn_direction(g.active_colour) + df;
    if (if df < 0 { from % 8 > 0 } else { from % 8 < 7 }) && square_bit(target) & g.enemy_bits() != 0 {
        seq![plain_move(from, target, Some(target as usize))]
    } else {
        Seq::empty()
    }
}

/// The squares a rook on the king's square would reach along the rank towards `from`, with
/// `occupied` blocking it.
pub open spec fn horizontal_through(from: int, occupied: u64, king_bit: u64) -> u64 {
    let king_sq = square_of(king_bit);
    if king_sq < from {
        sliding_including_own(slider_ray(true, 1, king_sq), occupied, 1)
    } else {
        sliding_including_own(slider_ray(true, 3, king_sq), occupied, 3)
    }
}

/// No piece of the list, taken or not, that is a rook or a queen lies on `mask`.
pub open spec fn no_rook_or_queen_on(ps: Seq<Piece>, mask: u64) -> bool {
    forall|i: int| 0 <= i < ps.len() ==> (#[trigger] ps[i]).bit & mask == 0 || !(ps[i].piece_type == PieceType::Queen || ps[i].piece_type == PieceType::Rook)
}

/// The en passant capture of a pawn of the side to move on `from` towards file step `df`,
/// left out when lifting both pawns off the rank would open a rook or queen line to the king.
pub open spec fn pawn_en_passant(from: int, g: Position, df: int) -> Seq<Move> {
    match g.en_passant {
        None => Seq::empty(),
        Some(ep) => {
            let ep_sq = square_of(ep);
            let king_bit = king_bit_of(g.pieces, g.active_colour);
            let target = from + 8 * pawn_direction(g.active_colour) + df;
            let pawns_bits = square_bit(from + df) | square_bit(from);
            let occupied_without_pawns = g.occupied_bits() & !pawns_bits;
            let horizontal = horizontal_through(from, occupied_without_pawns, king_bit);
            let others = horizontal & occupied_without_pawns & !king_bit;
            if (if df < 0 { from % 8 > 0 } else { from % 8 < 7 }) && target == ep_sq && (horizontal
                & pawns_bits == 0 || no_rook_or_queen_on(g.pieces, others)) {
                seq![plain_move(from, ep_sq, Some((from + df) as usize))]
            } else {
                Seq::empty()
            }
        },
    }
}

/// A move, or its four promotions (queen, rook, bishop, knight) when a pawn of colour `c`
/// reaches the last rank with it.
pub open spec fn promotion_variants(m: Move, c: Colour) -> Seq<Move> {
    if (c == Colour::White && m.to_square >= 56) || (c == Colour::Black && m.to_square < 8) {
        seq![
            Move { promotion: Some(PieceType::Queen), ..m },
            Move { promotion: Some(PieceType::Rook), ..m },
            Move { promotion: Some(PieceType::Bishop), ..m },
            Move { promotion: Some(PieceType::Knight), ..m },
        ]
    } else {
        seq![m]
    }
}

/// Each move replaced by its promotion variants, in order.
pub open spec fn expand_promotions(ms: Seq<Move>, c: Colour) -> Seq<Move>
    decreases ms.len(),
{
    if ms.len() == 0 {
        Seq::empty()
    } else {
        expand_promotions(ms.drop_last(), c).add(promotion_variants(ms.last(), c))
    }
}

/// The moves of a pawn of the side to move on `from`: pushes, captures and en passant
/// captures, each expanded into its promotions on the last rank.
pub open spec fn pawn_moves_of(from: int, g: Position) -> Seq<Move> {
    if from / 8 == last_rank(g.active_colour) {
        Seq::empty()
    } else {
        expand_promotions(
            pawn_pushes(from, g).add(pawn_capture(from, g, -1)).add(pawn_capture(from, g, 1)).add(
                pawn_en_passant(from, g, -1),
            ).add(pawn_en_passant(from, g, 1)),
            g.active_colour,
        )
    }
}

fn get_horizontal_moves_through_en_passant_pawns(from_square: usize, occupied_without_pawns: u64, king_bit: u64) -> (horizontal_moves: u64)
    requires
        square_of(king_bit) < 64,
    ensures
        horizontal_moves == horizontal_through(from_square as int, occupied_without_pawns, king_bit),
{
    let king_square = bit_to_onebit_index(king_bit);
    if king_square < from_square {
        calculate_sliding_attacked_squares_including_own(
            slider_ray_exec(true, 1, king_square),
            occupied_without_pawns,
            1,
        )
    } else {
        calculate_sliding_attacked_squares_including_own(
            slider_ray_exec(true, 3, king_square),
            occupied_without_pawns,
            3,
        )
    }
}

fn no_rook_or_queen_on_exec(pieces: &Vec<Piece>, mask: u64) -> (r: bool)
    ensures
        r == no_rook_or_queen_on(pieces@, mask),
{
    let mut i: usize = 0;
    while i < pieces.len()
        invariant
            0 <= i <= pieces@.len(),
            forall|j: int| 0 <= j < i ==> (#[trigger] pieces@[j]).bit & mask == 0 || !(pieces@[j].piece_type == PieceType::Queen || pieces@[j].piece_type == PieceType::Rook),
        decreases pieces@.len() - i,
    {
        let p = pieces[i];
        if !(p.bit & mask == 0 || !(p.piece_type == PieceType::Queen || p.piece_type == PieceType::Rook)) {
            return false;
        }
        i += 1;
    }
    true
}

fn en_passant_move(from_square: usize, game: &Game, left: bool, increment: i64) -> (moves: Vec<Move>)
    requires
        from_square < 64,
        from_square / 8 != last_rank(game.active_colour),
        increment == 8 * pawn_direction(game.active_colour),
        pieces_on_squares(game.pieces@),
        game.en_passant is Some ==> find_first(game.pieces@, king_of(game.active_colour)) is Some,
    ensures
        moves@ == pawn_en_passant(from_square as int, game@, if left { -1 } else { 1 }),
{
    let mut moves: Vec<Move> = Vec::new();
    match game.en_passant {
        Some(en_passant) => {
            let en_passant_onebit_index = bit_to_onebit_index(en_passant);
            let king_bit = find_king_bit(&game.pieces, game.active_colour);
            proof {
                lemma_king_bit_square(game.pieces@, game.active_colour);
            }
            if left {
                if from_square % 8 > 0 {
                    let target = from_square as i64 + increment - 1;
                    let pawns_bits = onebit_index_to_bit(from_square - 1) | onebit_index_to_bit(from_square);
                    let occupied_without_pawns = game.get_occupied_bitboard() & !pawns_bits;
                    if target == en_passant_onebit_index as i64 {
                        let horizontal_moves = get_horizontal_moves_through_en_passant_pawns(from_square, occupied_without_pawns, king_bit);
                        let others = horizontal_moves & occupied_without_pawns & !king_bit;
                        if horizontal_moves & pawns_bits == 0 || no_rook_or_queen_on_exec(&game.pieces, others) {
                            moves.push(Move {
                                from_square,
                                to_square: en_passant_onebit_index,
                                promotion: None,
                                capture_square: Some(from_square - 1),
                            });
                        }
                    }
                }
            } else {
                if from_square % 8 < 7 {
                    let target = from_square as i64 + increment + 1;
                    let pawns_bits = onebit_index_to_bit(from_square + 1) | onebit_index_to_bit(from_square);
                    let occupied_without_pawns = game.get_occupied_bitboard() & !pawns_bits;
                    if target == en_passant_onebit_index as i64 {
                        let horizontal_moves = get_horizontal_moves_through_en_passant_pawns(from_square, occupied_without_pawns, king_bit);
                        let others = horizontal_moves & occupied_without_pawns & !king_bit;
                        if horizontal_moves & pawns_bits == 0 || no_rook_or_queen_on_exec(&game.pieces, others) {
                            moves.push(Move {
                                from_square,
                                to_square: en_passant_onebit_index,
                                promotion: None,
                                capture_square: Some(from_square + 1),
                            });
                        }
                    }
                }
            }
        },
        None => {},
    }
    proof {
        assert(moves@ =~= pawn_en_passant(from_square as int, game@, if left { -1 } else { 1 }));
    }
    moves
}

pub fn generate_pawn_moves(from_square: usize, game: &Game) -> (possible_moves: Vec<Move>)
    requires
        from_square < 64,
        pieces_on_squares(game.pieces@),
        game.en_passant is Some ==> find_first(game.pieces@, king_of(game.active_colour)) is Some,
    ensures
        possible_moves@ == pawn_moves_of(from_square as int, game@),
{
    let mut possible_moves: Vec<Move> = Vec::new();
    let increment: i64;
    let start_row_index: usize;
    let end_row_index: usize;
    let mut pawn_moves: Vec<Move> = Vec::new();
    if game.active_colour == Colour::White {
        increment = 8;
        start_row_index = 1;
        end_row_index = 7;
    } else {
        increment = -8;
        start_row_index = 6;
        end_row_index = 0;
    }
    let current_index = from_square / 8;
    if current_index == end_row_index {
        proof {
            assert(possible_moves@ =~= pawn_moves_of(from_square as int, game@));
        }
        return possible_moves;
    }
    let all_pieces = game.get_occupied_bitboard();
    let ghost colour = game.active_colour;
    // One square forwards
    let mut target_square = from_square as i64 + increment;
    let mut target_bit = onebit_index_to_bit(target_square as usize);
    if (target_bit & all_pieces) == 0 {
        pawn_moves.push(Move {
            from_square,
            to_square: target_square as usize,
            promotion: None,
            capture_square: None,
        });
        // Two squares forwards
        if current_index == start_row_index {
            target_square += increment;
            target_bit = onebit_index_to_bit(target_square as usize);
            if (target_bit & all_pieces) == 0 {
                pawn_moves.push(Move {
                    from_square,
                    to_square: target_square as usize,
                    promotion: None,
                    capture_square: None,
                });
            }
        }
    }
    proof {
        assert(pawn_moves@ =~= pawn_pushes(from_square as int, game@));
    }
    let enemy_pieces = game.get_enemy_piece_bitboard();
    let ghost after_pushes = pawn_moves@;
    // Left diagonal capture
    if from_square % 8 > 0 {
        let left_diagonal_target_square = from_square as i64 + increment - 1;
        let left_diagonal_target_bit = onebit_index_to_bit(left_diagonal_target_square as usize);
        if (left_diagonal_target_bit & enemy_pieces) != 0 {
            pawn_moves.push(Move {
                from_square,
                to_square: left_diagonal_target_square as usize,
                promotion: None,
                capture_square: Some(left_diagonal_target_square as usize),
            });
        }
    }
    proof {
        assert(pawn_moves@ =~= after_pushes.add(pawn_capture(from_square as int, game@, -1)));
    }
    let ghost after_left = pawn_moves@;
    // Right diagonal capture
    if from_square % 8 < 7 {
        let right_diagonal_target_square = from_square as i64 + increment + 1;
        let right_diagonal_target_bit = onebit_index_to_bit(right_diagonal_target_square as usize);
        if (right_diagonal_target_bit & enemy_pieces) != 0 {
            pawn_moves.push(Move {
                from_square,
                to_square: right_diagonal_target_square as usize,
                promotion: None,
                capture_square: Some(right_diagonal_target_square as usize),
            });
        }
    }
    proof {
        assert(pawn_moves@ =~= after_left.add(pawn_capture(from_square as int, game@, 1)));
    }
    // En passant
    let mut left_en_passant = en_passant_move(from_square, game, true, increment);
    let mut right_en_passant = en_passant_move(from_square, game, false, increment);
    pawn_moves.append(&mut left_en_passant);
    pawn_moves.append(&mut right_en_passant);
    let ghost base = pawn_moves@;
    proof {
        assert(base =~= pawn_pushes(from_square as int, game@).add(pawn_capture(from_square as int, game@, -1)).add(pawn_capture(from_square as int, game@, 1)).add(
                pawn_en_passant(from_square as int, game@, -1),
            ).add(pawn_en_passant(from_square as int, game@, 1)));
    }
    let mut i: usize = 0;
    while i < pawn_moves.len()
        invariant
            0 <= i <= pawn_moves@.len(),
            pawn_moves@ == base,
            colour == game.active_colour,
            possible_moves@ == expand_promotions(base.take(i as int), colour),
        decreases pawn_moves@.len() - i,
    {
        let pawn_move = pawn_moves[i];
        proof {
            assert(base.take(i + 1).drop_last() =~= base.take(i as int));
        }
        if (game.active_colour == Colour::White && pawn_move.to_square >= 56) || (game.active_colour == Colour::Black && pawn_move.to_square < 8) {
            possible_moves.push(Move { promotion: Some(PieceType::Queen), ..pawn_move });
            possible_moves.push(Move { promotion: Some(PieceType::Rook), ..pawn_move });
            possible_moves.push(Move { promotion: Some(PieceType::Bishop), ..pawn_move });
            possible_moves.push(Move { promotion: Some(PieceType::Knight), ..pawn_move });
        } else {
            possible_moves.push(pawn_move);
        }
        proof {
            assert(possible_moves@ =~= expand_promotions(base.take(i as int), colour).add(promotion_variants(base[i as int], colour)));
        }
        i += 1;
    }
    proof {
        assert(base.take(i as int) =~= base);
    }
    possible_moves
}


/// A move a pawn of colour `c` on `from` makes before its promotions are spelled out: no
/// promotion, from `from` to a square of the board.
pub open spec fn unpromoted_pawn_move(m: Move, from: int) -> bool {
    &&& m.promotion is None
    &&& m.from_square == from
    &&& m.to_square < 64
}

/// The shape of a list of pawn moves of colour `c` from `from`: each starts on `from`, ends on
/// the board and promotes exactly when it reaches the last rank, and each queen promotion is
/// followed by the rook, bishop and knight promotions to the same square.
pub open spec fn pawn_moves_shaped(ms: Seq<Move>, from: int, c: Colour) -> bool {
    &&& forall|k: int|
        0 <= k < ms.len() ==> {
            &&& (#[trigger] ms[k]).from_square == from
            &&& ms[k].to_square < 64
            &&& (ms[k].promotion is Some <==> ms[k].to_square / 8 == last_rank(c))
        }
    &&& forall|k: int|
        0 <= k < ms.len() && (#[trigger] ms[k]).promotion == Some(PieceType::Queen) ==> {
            &&& k + 3 < ms.len()
            &&& ms[k + 1] == Move { promotion: Some(PieceType::Rook), ..ms[k] }
            &&& ms[k + 2] == Move { promotion: Some(PieceType::Bishop), ..ms[k] }
            &&& ms[k + 3] == Move { promotion: Some(PieceType::Knight), ..ms[k] }
        }
}

proof fn lemma_expand_promotions_shaped(ms: Seq<Move>, from: int, c: Colour)
    requires
        forall|k: int| 0 <= k < ms.len() ==> unpromoted_pawn_move(#[trigger] ms[k], from),
    ensures
        pawn_moves_shaped(expand_promotions(ms, c), from, c),
    decreases ms.len(),
{
    if ms.len() > 0 {
        let prev = ms.drop_last();
        assert forall|k: int| 0 <= k < prev.len() implies unpromoted_pawn_move(#[trigger] prev[k], from) by {
            assert(prev[k] == ms[k]);
        }
        lemma_expand_promotions_shaped(prev, from, c);
        let e = expand_promotions(prev, c);
        let m = ms.last();
        assert(unpromoted_pawn_move(ms[ms.len() - 1], from));
        let v = promotion_variants(m, c);
        let r = expand_promotions(ms, c);
        assert(r == e + v);
        assert forall|k: int| 0 <= k < r.len() implies {
            &&& (#[trigger] r[k]).from_square == from
            &&& r[k].to_square < 64
            &&& (r[k].promotion is Some <==> r[k].to_square / 8 == last_rank(c))
        } by {
            if k < e.len() {
                assert(r[k] == e[k]);
            } else {
                assert(r[k] == v[k - e.len()]);
            }
        }
        assert forall|k: int| 0 <= k < r.len() && (#[trigger] r[k]).promotion == Some(PieceType::Queen) implies {
            &&& k + 3 < r.len()
            &&& r[k + 1] == Move { promotion: Some(PieceType::Rook), ..r[k] }
            &&& r[k + 2] == Move { promotion: Some(PieceType::Bishop), ..r[k] }
            &&& r[k + 3] == Move { promotion: Some(PieceType::Knight), ..r[k] }
        } by {
            if k < e.len() {
                assert(r[k] == e[k]);
                assert(e[k].promotion == Some(PieceType::Queen));
                assert(r[k + 1] == e[k + 1]);
                assert(r[k + 2] == e[k + 2]);
                assert(r[k + 3] == e[k + 3]);
            } else {
                assert(r[k] == v[k - e.len()]);
                assert(k == e.len());
                assert(r[k + 1] == v[1]);
                assert(r[k + 2] == v[2]);
                assert(r[k + 3] == v[3]);
            }
        }
    }
}

proof fn lemma_unpromoted_add(a: Seq<Move>, b: Seq<Move>, from: int)
    requires
        forall|k: int| 0 <= k < a.len() ==> unpromoted_pawn_move(#[trigger] a[k], from),
        forall|k: int| 0 <= k < b.len() ==> unpromoted_pawn_move(#[trigger] b[k], from),
    ensures
        forall|k: int| 0 <= k < (a + b).len() ==> unpromoted_pawn_move(#[trigger] (a + b)[k], from),
{
    assert forall|k: int| 0 <= k < (a + b).len() implies unpromoted_pawn_move(#[trigger] (a + b)[k], from) by {
        if k < a.len() {
            assert((a + b)[k] == a[k]);
        } else {
            assert((a + b)[k] == b[k - a.len()]);
        }
    }
}

/// The moves of a pawn of the side to move on `from`: none from the last rank; otherwise each
/// starts on `from`, ends on the board and promotes exactly when it reaches the last rank, and
/// the promotions to a square come as four moves in the order queen, rook, bishop, knight.
pub proof fn lemma_pawn_moves_shape(from: int, g: Position)
    requires
        0 <= from < 64,
    ensures
        from / 8 == last_rank(g.active_colour) ==> pawn_moves_of(from, g).len() == 0,
        pawn_moves_shaped(pawn_moves_of(from, g), from, g.active_colour),
{
    let c = g.active_colour;
    if from / 8 != last_rank(c) {
        let pushes = pawn_pushes(from, g);
        let left = pawn_capture(from, g, -1);
        let right = pawn_capture(from, g, 1);
        let ep_left = pawn_en_passant(from, g, -1);
        let ep_right = pawn_en_passant(from, g, 1);
        assert forall|k: int| 0 <= k < pushes.len() implies unpromoted_pawn_move(#[trigger] pushes[k], from) by {
            if k == 1 {
                assert(from / 8 == start_rank(c));
            }
        }
        assert forall|k: int| 0 <= k < left.len() implies unpromoted_pawn_move(#[trigger] left[k], from) by {}
        assert forall|k: int| 0 <= k < right.len() implies unpromoted_pawn_move(#[trigger] right[k], from) by {}
        assert forall|k: int| 0 <= k < ep_left.len() implies unpromoted_pawn_move(#[trigger] ep_left[k], from) by {}
        assert forall|k: int| 0 <= k < ep_right.len() implies unpromoted_pawn_move(#[trigger] ep_right[k], from) by {}
        lemma_unpromoted_add(pushes, left, from);
        lemma_unpromoted_add(pushes + left, right, from);
        lemma_unpromoted_add(pushes + left + right, ep_left, from);
        lemma_unpromoted_add(pushes + left + right + ep_left, ep_right, from);
        lemma_expand_promotions_shaped(pushes + left + right + ep_left + ep_right, from, c);
    }
}

} // verus!
