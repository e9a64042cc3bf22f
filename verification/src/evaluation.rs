use vstd::prelude::*;

verus! {

use crate::bitboard::{square_of, square_bit, onebit_index_to_bit, bit_to_onebit_index, lemma_square_of_square_bit};
use crate::game::{Colour, Game, Piece, PieceType, Position, opponent, opposite_colour, pieces_on_squares, find_first, find_from, lemma_find_from_facts};
use crate::moves::{Move, move_on_board, all_on_board, on_board_exactly, legal_moves, lemma_legal_moves_on_board, generate_moves, make_move, unmake_move, make_move_defined, position_after_move};
use crate::move_laws::{undoable, lemma_unmake_undoes_make};
use crate::search_laws::{plain_value, lemma_search_finds_minimax};
use crate::moves_pawn::{pawn_attacks, generate_pawn_attacked_squares_including_own};
use crate::square_tables::{
    pawn_square_bonus,
    knight_square_bonus,
    bishop_square_bonus,
    rook_square_bonus,
    queen_square_bonus,
    king_middlegame_bonus,
    king_endgame_bonus,
    pawn_square_bonus_exec,
    knight_square_bonus_exec,
    bishop_square_bonus_exec,
    rook_square_bonus_exec,
    queen_square_bonus_exec,
    king_middlegame_bonus_exec,
    king_endgame_bonus_exec,
};

/// The material value of a piece type in centipawns.
pub open spec fn value_of(piece_type: PieceType) -> i32 {
    match piece_type {
        PieceType::Pawn => 100,
        PieceType::Bishop => 320,
        PieceType::Knight => 330,
        PieceType::Rook => 500,
        PieceType::Queen => 900,
        PieceType::King => 20000,
    }
}

pub fn piece_value(piece_type: PieceType) -> (value: i32)
    ensures
        value == value_of(piece_type),
{
    match piece_type {
        PieceType::Pawn => 100,
        PieceType::Bishop => 320,
        PieceType::Knight => 330,
        PieceType::Rook => 500,
        PieceType::Queen => 900,
        PieceType::King => 20_000,
    }
}

/// The king's positional bonus on table square `sq`, by game phase.
pub open spec fn king_bonus(sq: usize, is_endgame: bool) -> i32 {
    if is_endgame {
        king_endgame_bonus(sq)
    } else {
        king_middlegame_bonus(sq)
    }
}

pub fn king_positional_eval(piece_square: usize, is_endgame: bool) -> (bonus: i32)
    requires
        piece_square < 64,
    ensures
        bonus == king_bonus(piece_square, is_endgame),
{
    if is_endgame {
        king_endgame_bonus_exec(piece_square)
    } else {
        king_middlegame_bonus_exec(piece_square)
    }
}

/// The table square of a piece: its square seen from Black's side, mirrored for White.
pub open spec fn table_square(p: Piece) -> usize {
    if p.colour == Colour::White {
        (63 - square_of(p.bit)) as usize
    } else {
        square_of(p.bit) as usize
    }
}

/// A piece's worth: its material value plus the positional bonus of its square.
pub open spec fn piece_worth(p: Piece, is_endgame: bool) -> i32 {
    let sq = table_square(p);
    (value_of(p.piece_type) + match p.piece_type {
        PieceType::Pawn => pawn_square_bonus(sq),
        PieceType::Bishop => bishop_square_bonus(sq),
        PieceType::Knight => knight_square_bonus(sq),
        PieceType::Rook => rook_square_bonus(sq),
        PieceType::Queen => queen_square_bonus(sq),
        PieceType::King => king_bonus(sq, is_endgame),
    }) as i32
}

proof fn lemma_square_bonus_bounds(sq: usize)
    requires
        sq < 64,
    ensures
        -50 <= pawn_square_bonus(sq) <= 50,
        -50 <= knight_square_bonus(sq) <= 50,
        -50 <= bishop_square_bonus(sq) <= 50,
        -50 <= rook_square_bonus(sq) <= 50,
        -50 <= queen_square_bonus(sq) <= 50,
        -50 <= king_middlegame_bonus(sq) <= 50,
        -50 <= king_endgame_bonus(sq) <= 50,
{
}

/// Every piece is worth between 50 and 20050 centipawns.
pub proof fn lemma_piece_worth_bounds(p: Piece, is_endgame: bool)
    requires
        square_of(p.bit) < 64,
    ensures
        50 <= piece_worth(p, is_endgame) <= 20050,
{
    lemma_square_bonus_bounds(table_square(p));
}

pub fn piece_evaluation(piece: &Piece, is_endgame: bool) -> (worth: i32)
    requires
        square_of(piece.bit) < 64,
    ensures
        worth == piece_worth(*piece, is_endgame),
{
    let mut piece_square = bit_to_onebit_index(piece.bit);
    if piece.colour == Colour::White {
        piece_square = 63 - piece_square;
    }
    proof {
        lemma_square_bonus_bounds(piece_square);
    }
    match piece.piece_type {
        PieceType::Pawn => piece_value(PieceType::Pawn) + pawn_square_bonus_exec(piece_square),
        PieceType::Bishop => piece_value(PieceType::Bishop) + bishop_square_bonus_exec(piece_square),
        PieceType::Knight => piece_value(PieceType::Knight) + knight_square_bonus_exec(piece_square),
        PieceType::Rook => piece_value(PieceType::Rook) + rook_square_bonus_exec(piece_square),
        PieceType::Queen => piece_value(PieceType::Queen) + queen_square_bonus_exec(piece_square),
        PieceType::King => piece_value(PieceType::King) + king_positional_eval(piece_square, is_endgame),
    }
}

/// The number of live pieces.
pub open spec fn live_count(ps: Seq<Piece>) -> nat
    decreases ps.len(),
{
    if ps.len() == 0 {
        0
    } else {
        live_count(ps.drop_last()) + if ps.last().taken { 0nat } else { 1nat }
    }
}

/// The worth of the live pieces of `colour` minus that of the other live pieces.
pub open spec fn material_balance(ps: Seq<Piece>, colour: Colour, is_endgame: bool) -> int
    decreases ps.len(),
{
    if ps.len() == 0 {
        0
    } else {
        let p = ps.last();
        let rest = material_balance(ps.drop_last(), colour, is_endgame);
        if p.taken {
            rest
        } else if p.colour == colour {
            rest + piece_worth(p, is_endgame)
        } else {
            rest - piece_worth(p, is_endgame)
        }
    }
}

proof fn lemma_material_bounds(ps: Seq<Piece>, colour: Colour, is_endgame: bool)
    requires
        pieces_on_squares(ps),
    ensures
        -20050 * ps.len() <= material_balance(ps, colour, is_endgame) <= 20050 * ps.len(),
        live_count(ps) <= ps.len(),
    decreases ps.len(),
{
    if ps.len() > 0 {
        assert(pieces_on_squares(ps.drop_last()));
        lemma_material_bounds(ps.drop_last(), colour, is_endgame);
        assert(crate::bitboard::is_square_bit(ps[ps.len() - 1].bit));
        lemma_square_of_square_bit(ps.last().bit);
        lemma_piece_worth_bounds(ps.last(), is_endgame);
    }
}

/// The evaluation of a position for `maximizing_colour` in centipawns: the material balance
/// (positional bonuses included, king tables switched to the end game below five live
/// pieces), with 50 for a check, or 10000 for a checkmate (no moves while in check), counted
/// against the side in check.
pub open spec fn evaluation_of(g: Position, maximizing_colour: Colour, no_moves: bool) -> int {
    let is_endgame = live_count(g.pieces) < 5;
    let material = material_balance(g.pieces, maximizing_colour, is_endgame);
    match g.colour_in_check {
        Some(c) => {
            let check = if no_moves { 10000int } else { 50int };
            if c == maximizing_colour {
                material - check
            } else {
                material + check
            }
        },
        None => material,
    }
}

proof fn lemma_material_zero_sum(ps: Seq<Piece>, colour: Colour, is_endgame: bool)
    ensures
        material_balance(ps, colour, is_endgame) == -material_balance(ps, opponent(colour), is_endgame),
    decreases ps.len(),
{
    if ps.len() > 0 {
        lemma_material_zero_sum(ps.drop_last(), colour, is_endgame);
    }
}

/// The evaluation is zero-sum: what one colour gains the other loses.
pub proof fn lemma_evaluation_zero_sum(g: Position, colour: Colour, no_moves: bool)
    ensures
        evaluation_of(g, colour, no_moves) == -evaluation_of(g, opponent(colour), no_moves),
{
    let is_endgame = live_count(g.pieces) < 5;
    lemma_material_zero_sum(g.pieces, colour, is_endgame);
}

/// Checks and checkmates count against the side in check: checkmate (no moves while in check)
/// costs it 10000 centipawns and gains its opponent as much, a mere check 50, so being mated
/// always scores below being in check, which scores below the bare material.
pub proof fn lemma_check_and_mate_scores(g: Position, colour: Colour)
    requires
        g.colour_in_check == Some(colour),
    ensures
        ({
            let is_endgame = live_count(g.pieces) < 5;
            let mine = material_balance(g.pieces, colour, is_endgame);
            let theirs = material_balance(g.pieces, opponent(colour), is_endgame);
            &&& evaluation_of(g, colour, true) == mine - 10000
            &&& evaluation_of(g, colour, false) == mine - 50
            &&& evaluation_of(g, opponent(colour), true) == theirs + 10000
            &&& evaluation_of(g, opponent(colour), false) == theirs + 50
            &&& evaluation_of(g, colour, true) < evaluation_of(g, colour, false)
            &&& evaluation_of(g, colour, false) < mine
            &&& evaluation_of(g, opponent(colour), true) > evaluation_of(g, opponent(colour), false)
        }),
{
    assert(opponent(colour) != colour);
}

/// Without a check the evaluation is the bare material balance, with or without moves (a
/// stalemate scores as the material stands).
pub proof fn lemma_quiet_position_scores_material(g: Position, colour: Colour, no_moves: bool)
    requires
        g.colour_in_check is None,
    ensures
        evaluation_of(g, colour, no_moves) == material_balance(g.pieces, colour, live_count(g.pieces) < 5),
{
}

/// Evaluates the position for `maximizing_colour`, in centipawns; `possible_moves` are the
/// moves of the side to move (none while in check is checkmate).
pub fn evaluate_game(game: &Game, maximizing_colour: Colour, possible_moves: &Vec<Move>) -> (evaluation: i32)
    requires
        pieces_on_squares(game.pieces@),
        game.pieces@.len() <= 100_000,
    ensures
        evaluation == evaluation_of(game@, maximizing_colour, possible_moves@.len() == 0),
{
    let mut pieces_remaining: usize = 0;
    let mut i: usize = 0;
    while i < game.pieces.len()
        invariant
            0 <= i <= game.pieces@.len(),
            pieces_remaining == live_count(game.pieces@.take(i as int)),
            pieces_remaining <= i,
        decreases game.pieces@.len() - i,
    {
        proof {
            assert(game.pieces@.take(i + 1).drop_last() =~= game.pieces@.take(i as int));
        }
        if !game.pieces[i].taken {
            pieces_remaining += 1;
        }
        i += 1;
    }
    proof {
        assert(game.pieces@.take(i as int) =~= game.pieces@);
    }
    let is_endgame = pieces_remaining < 5;
    let mut evaluation: i32 = 0;
    let mut j: usize = 0;
    while j < game.pieces.len()
        invariant
            0 <= j <= game.pieces@.len(),
            game.pieces@.len() <= 100_000,
            pieces_on_squares(game.pieces@),
            evaluation == material_balance(game.pieces@.take(j as int), maximizing_colour, is_endgame),
        decreases game.pieces@.len() - j,
    {
        let piece = game.pieces[j];
        proof {
            assert(game.pieces@.take(j + 1).drop_last() =~= game.pieces@.take(j as int));
            assert(pieces_on_squares(game.pieces@.take(j as int)));
            lemma_material_bounds(game.pieces@.take(j as int), maximizing_colour, is_endgame);
            assert(crate::bitboard::is_square_bit(game.pieces@[j as int].bit));
            lemma_square_of_square_bit(piece.bit);
            lemma_piece_worth_bounds(piece, is_endgame);
        }
        if !piece.taken {
            if piece.colour == maximizing_colour {
                evaluation = evaluation + piece_evaluation(&piece, is_endgame);
            } else {
                evaluation = evaluation - piece_evaluation(&piece, is_endgame);
            }
        }
        j += 1;
    }
    proof {
        assert(game.pieces@.take(j as int) =~= game.pieces@);
        lemma_material_bounds(game.pieces@, maximizing_colour, is_endgame);
    }
    match game.colour_in_check {
        Some(colour_in_check) => {
            let check_evaluation: i32 = if possible_moves.len() == 0 {
                // Checkmate
                10000
            } else {
                // Check
                50
            };
            if colour_in_check == maximizing_colour {
                evaluation - check_evaluation
            } else {
                evaluation + check_evaluation
            }
        },
        None => evaluation,
    }
}


/// The squares attacked by the live pawns of colour `c`.
pub open spec fn pawn_cover(ps: Seq<Piece>, c: Colour) -> u64
    decreases ps.len(),
{
    if ps.len() == 0 {
        0
    } else {
        let p = ps.last();
        let rest = pawn_cover(ps.drop_last(), c);
        if p.colour == c && !p.taken && p.piece_type == PieceType::Pawn {
            rest | pawn_attacks(square_of(p.bit), c)
        } else {
            rest
        }
    }
}

/// The guess at a move's worth that orders the search: ten times the value of a captured
/// piece less the mover's value, plus the value of a promotion piece, less the mover's value
/// when an enemy pawn guards the target square. `None` when no live piece stands on the
/// move's start square.
pub open spec fn move_score(g: Position, m: Move, covered: u64) -> Option<i32> {
    match find_first(g.pieces, on_board_exactly(square_bit(m.from_square as int))) {
        None => None,
        Some(mi) => {
            let mover = value_of(g.pieces[mi].piece_type) as int;
            let capture = match find_first(g.pieces, on_board_exactly(square_bit(m.to_square as int))) {
                Some(ci) => 10 * value_of(g.pieces[ci].piece_type) - mover,
                None => 0,
            };
            let promotion = match m.promotion {
                Some(t) => value_of(t) as int,
                None => 0,
            };
            let threat = if covered & square_bit(m.to_square as int) != 0 {
                mover
            } else {
                0
            };
            Some((capture + promotion - threat) as i32)
        },
    }
}

/// The moves of `ms` that have a score, each paired with it, in order.
pub open spec fn scored_moves(g: Position, ms: Seq<Move>) -> Seq<(Move, i32)>
    decreases ms.len(),
{
    if ms.len() == 0 {
        Seq::empty()
    } else {
        let covered = pawn_cover(g.pieces, opponent(g.active_colour));
        match move_score(g, ms.last(), covered) {
            Some(score) => scored_moves(g, ms.drop_last()).push((ms.last(), score)),
            None => scored_moves(g, ms.drop_last()),
        }
    }
}

/// The first index from `k` on whose score is below `v`, or the length.
pub open spec fn insert_pos(s: Seq<(Move, i32)>, v: i32, k: int) -> int
    decreases s.len() - k,
{
    if k < 0 || k >= s.len() {
        s.len() as int
    } else if s[k].1 < v {
        k
    } else {
        insert_pos(s, v, k + 1)
    }
}

/// `x` placed after every entry of `s` whose score is at least its own.
pub open spec fn insert_desc(s: Seq<(Move, i32)>, x: (Move, i32)) -> Seq<(Move, i32)> {
    s.insert(insert_pos(s, x.1, 0), x)
}

/// The entries sorted by descending score, entries of equal score in their first order.
pub open spec fn sort_desc(s: Seq<(Move, i32)>) -> Seq<(Move, i32)>
    decreases s.len(),
{
    if s.len() == 0 {
        Seq::empty()
    } else {
        insert_desc(sort_desc(s.drop_last()), s.last())
    }
}

/// The moves in the order the search tries them.
pub open spec fn ordered_moves(g: Position, ms: Seq<Move>) -> Seq<Move> {
    sort_desc(scored_moves(g, ms)).map_values(|e: (Move, i32)| e.0)
}

proof fn lemma_insert_pos_range(s: Seq<(Move, i32)>, v: i32, k: int)
    requires
        0 <= k,
    ensures
        k <= s.len() ==> k <= insert_pos(s, v, k) <= s.len(),
        k > s.len() ==> insert_pos(s, v, k) == s.len(),
    decreases s.len() - k,
{
    if k < s.len() {
        lemma_insert_pos_range(s, v, k + 1);
    }
}

proof fn lemma_insert_pos_facts(s: Seq<(Move, i32)>, v: i32, k: int)
    requires
        0 <= k <= s.len(),
    ensures
        forall|j: int| k <= j < insert_pos(s, v, k) ==> s[j].1 >= v,
        insert_pos(s, v, k) < s.len() ==> s[insert_pos(s, v, k)].1 < v,
    decreases s.len() - k,
{
    if k < s.len() {
        lemma_insert_pos_facts(s, v, k + 1);
    }
}

/// Ordering sorts by descending score and keeps every entry, each as often as it was given.
pub proof fn lemma_sort_desc_sorts(s: Seq<(Move, i32)>)
    ensures
        sort_desc(s).to_multiset() == s.to_multiset(),
        forall|i: int, j: int| 0 <= i <= j < sort_desc(s).len() ==> sort_desc(s)[i].1 >= sort_desc(s)[j].1,
    decreases s.len(),
{
    broadcast use vstd::seq_lib::to_multiset_insert, vstd::seq_lib::to_multiset_build;

    if s.len() == 0 {
        assert(s =~= Seq::<(Move, i32)>::empty());
    } else {
        let prev = s.drop_last();
        let t = sort_desc(prev);
        let x = s.last();
        lemma_sort_desc_sorts(prev);
        lemma_sort_desc_from(prev);
        let pos = insert_pos(t, x.1, 0);
        lemma_insert_pos_range(t, x.1, 0);
        lemma_insert_pos_facts(t, x.1, 0);
        t.insert_ensures(pos, x);
        assert(prev.push(x) =~= s);
        let r = sort_desc(s);
        assert(r.to_multiset() == t.to_multiset().insert(x));
        assert(s.to_multiset() == prev.to_multiset().insert(x));
        assert forall|i: int, j: int| 0 <= i <= j < r.len() implies r[i].1 >= r[j].1 by {
            if i < pos && j < pos {
            } else if i < pos && j == pos {
            } else if i < pos {
                assert(r[j] == t[j - 1]);
            } else if i == pos && j == pos {
            } else if i == pos {
                assert(r[j] == t[j - 1]);
                assert(t[pos].1 >= t[j - 1].1);
            } else {
                assert(r[i] == t[i - 1]);
                assert(r[j] == t[j - 1]);
            }
        }
    }
}

fn insert_position(sorted: &Vec<(Move, i32)>, score: i32) -> (pos: usize)
    ensures
        pos == insert_pos(sorted@, score, 0),
{
    let mut k: usize = 0;
    while k < sorted.len()
        invariant
            0 <= k <= sorted@.len(),
            insert_pos(sorted@, score, 0) == insert_pos(sorted@, score, k as int),
        decreases sorted@.len() - k,
    {
        if sorted[k].1 < score {
            return k;
        }
        k += 1;
    }
    k
}

fn first_live_on(pieces: &Vec<Piece>, bit: u64) -> (index: Option<usize>)
    ensures
        index matches Some(i) ==> find_first(pieces@, on_board_exactly(bit)) == Some(i as int),
        index is None ==> find_first(pieces@, on_board_exactly(bit)) is None,
{
    let mut i: usize = 0;
    while i < pieces.len()
        invariant
            0 <= i <= pieces@.len(),
            find_first(pieces@, on_board_exactly(bit)) == find_from(pieces@, on_board_exactly(bit), i as int),
        decreases pieces@.len() - i,
    {
        if pieces[i].bit == bit && !pieces[i].taken {
            return Some(i);
        }
        i += 1;
    }
    None
}

fn opponent_pawn_cover(game: &Game, c: Colour) -> (covered: u64)
    requires
        pieces_on_squares(game.pieces@),
    ensures
        covered == pawn_cover(game.pieces@, c),
{
    let mut covered: u64 = 0;
    let mut i: usize = 0;
    while i < game.pieces.len()
        invariant
            0 <= i <= game.pieces@.len(),
            pieces_on_squares(game.pieces@),
            covered == pawn_cover(game.pieces@.take(i as int), c),
        decreases game.pieces@.len() - i,
    {
        let piece = game.pieces[i];
        proof {
            assert(game.pieces@.take(i + 1).drop_last() =~= game.pieces@.take(i as int));
            assert(crate::bitboard::is_square_bit(game.pieces@[i as int].bit));
            lemma_square_of_square_bit(piece.bit);
        }
        if piece.colour == c && !piece.taken {
            match piece.piece_type {
                PieceType::Pawn => {
                    let from_square = bit_to_onebit_index(piece.bit);
                    covered = covered | generate_pawn_attacked_squares_including_own(from_square, c);
                },
                _ => {},
            }
        }
        i += 1;
    }
    proof {
        assert(game.pieces@.take(i as int) =~= game.pieces@);
    }
    covered
}

fn score_move(game: &Game, m: Move, covered: u64) -> (score: Option<i32>)
    requires
        move_on_board(m),
    ensures
        score == move_score(game@, m, covered),
{
    let from_bit = onebit_index_to_bit(m.from_square);
    let to_bit = onebit_index_to_bit(m.to_square);
    match first_live_on(&game.pieces, from_bit) {
        None => None,
        Some(mi) => {
            proof {
                lemma_find_from_facts(game.pieces@, on_board_exactly(from_bit), 0);
            }
            let mover = piece_value(game.pieces[mi].piece_type);
            let mut score: i32 = 0;
            match first_live_on(&game.pieces, to_bit) {
                Some(ci) => {
                    proof {
                        lemma_find_from_facts(game.pieces@, on_board_exactly(to_bit), 0);
                    }
                    score = 10 * piece_value(game.pieces[ci].piece_type) - mover;
                },
                None => {},
            }
            match m.promotion {
                Some(promotion_piece_type) => {
                    score = score + piece_value(promotion_piece_type);
                },
                None => {},
            }
            if covered & to_bit != 0 {
                score = score - mover;
            }
            Some(score)
        },
    }
}

/// Orders the moves for the search: the moves whose start square holds a live piece, by
/// descending `move_score`, moves of equal score in their given order.
pub fn order_moves(game: &Game, possible_moves: &Vec<Move>) -> (ordered: Vec<Move>)
    requires
        pieces_on_squares(game.pieces@),
        all_on_board(possible_moves@),
    ensures
        ordered@ == ordered_moves(game@, possible_moves@),
{
    let opponent_colour = opposite_colour(game.active_colour);
    let covered = opponent_pawn_cover(game, opponent_colour);
    let mut sorted: Vec<(Move, i32)> = Vec::new();
    let mut i: usize = 0;
    while i < possible_moves.len()
        invariant
            0 <= i <= possible_moves@.len(),
            all_on_board(possible_moves@),
            covered == pawn_cover(game.pieces@, opponent(game@.active_colour)),
            sorted@ == sort_desc(scored_moves(game@, possible_moves@.take(i as int))),
        decreases possible_moves@.len() - i,
    {
        let unordered_move = possible_moves[i];
        proof {
            assert(possible_moves@.take(i + 1).drop_last() =~= possible_moves@.take(i as int));
            assert(move_on_board(possible_moves@[i as int]));
        }
        match score_move(game, unordered_move, covered) {
            Some(score) => {
                let pos = insert_position(&sorted, score);
                proof {
                    lemma_insert_pos_range(sorted@, score, 0);
                }
                sorted.insert(pos, (unordered_move, score));
                proof {
                    let prev = scored_moves(game@, possible_moves@.take(i as int));
                    assert(prev.push((unordered_move, score)).drop_last() =~= prev);
                }
            },
            None => {},
        }
        i += 1;
    }
    proof {
        assert(possible_moves@.take(i as int) =~= possible_moves@);
    }
    let mut ordered: Vec<Move> = Vec::new();
    let mut j: usize = 0;
    while j < sorted.len()
        invariant
            0 <= j <= sorted@.len(),
            ordered@ == sorted@.take(j as int).map_values(|e: (Move, i32)| e.0),
        decreases sorted@.len() - j,
    {
        ordered.push(sorted[j].0);
        proof {
            assert(sorted@.take(j + 1).map_values(|e: (Move, i32)| e.0) =~= sorted@.take(j as int).map_values(|e: (Move, i32)| e.0).push(sorted@[j as int].0));
        }
        j += 1;
    }
    proof {
        assert(sorted@.take(j as int) =~= sorted@);
    }
    ordered
}


pub(crate) proof fn lemma_sort_desc_from(s: Seq<(Move, i32)>)
    ensures
        sort_desc(s).len() == s.len(),
        forall|k: int| 0 <= k < sort_desc(s).len() ==> s.contains(#[trigger] sort_desc(s)[k]),
    decreases s.len(),
{
    if s.len() > 0 {
        let prev = s.drop_last();
        let t = sort_desc(prev);
        lemma_sort_desc_from(prev);
        let pos = insert_pos(t, s.last().1, 0);
        lemma_insert_pos_range(t, s.last().1, 0);
        t.insert_ensures(pos, s.last());
        assert forall|k: int| 0 <= k < sort_desc(s).len() implies s.contains(#[trigger] sort_desc(s)[k]) by {
            let r = sort_desc(s);
            if k < pos {
                assert(r[k] == t[k]);
                assert(prev.contains(t[k]));
                let j = choose|j: int| 0 <= j < prev.len() && prev[j] == t[k];
                assert(s[j] == prev[j]);
            } else if k == pos {
                assert(s[s.len() - 1] == s.last());
            } else {
                assert(r[k] == t[k - 1]);
                assert(prev.contains(t[k - 1]));
                let j = choose|j: int| 0 <= j < prev.len() && prev[j] == t[k - 1];
                assert(s[j] == prev[j]);
            }
        }
    }
}

pub(crate) proof fn lemma_scored_from(g: Position, ms: Seq<Move>)
    ensures
        forall|k: int| 0 <= k < scored_moves(g, ms).len() ==> ms.contains(#[trigger] scored_moves(g, ms)[k].0),
    decreases ms.len(),
{
    if ms.len() > 0 {
        let prev = ms.drop_last();
        lemma_scored_from(g, prev);
        assert forall|k: int| 0 <= k < scored_moves(g, ms).len() implies ms.contains(#[trigger] scored_moves(g, ms)[k].0) by {
            if k < scored_moves(g, prev).len() {
                assert(scored_moves(g, ms)[k] == scored_moves(g, prev)[k]);
                assert(prev.contains(scored_moves(g, prev)[k].0));
                let j = choose|j: int| 0 <= j < prev.len() && prev[j] == scored_moves(g, prev)[k].0;
                assert(ms[j] == prev[j]);
            } else {
                assert(ms[ms.len() - 1] == ms.last());
            }
        }
    }
}

/// The search tries only moves it was given.
pub proof fn lemma_ordered_moves_from(g: Position, ms: Seq<Move>)
    ensures
        forall|k: int| 0 <= k < ordered_moves(g, ms).len() ==> ms.contains(#[trigger] ordered_moves(g, ms)[k]),
{
    let sc = scored_moves(g, ms);
    lemma_sort_desc_from(sc);
    lemma_scored_from(g, ms);
    assert forall|k: int| 0 <= k < ordered_moves(g, ms).len() implies ms.contains(#[trigger] ordered_moves(g, ms)[k]) by {
        let e = sort_desc(sc)[k];
        assert(sc.contains(e));
        let j = choose|j: int| 0 <= j < sc.len() && sc[j] == e;
        assert(ms.contains(sc[j].0));
    }
}

/// The result of a search `depth` plies deep from `g` with alpha-beta pruning: the best value
/// for the side to move (largest when `maximizing`, else smallest) that `colour`'s evaluation
/// gives, and the move that reaches it. At depth 0 or without moves it is the position's own
/// evaluation and no move.
#[verifier::opaque]
pub open spec fn minimax_value(
    g: Position,
    depth: nat,
    maximizing: bool,
    colour: Colour,
    alpha: i64,
    beta: i64,
) -> (i64, Option<Move>)
    decreases depth, 1int, 0int,
{
    let moves = legal_moves(g);
    if depth == 0 || moves.len() == 0 {
        (evaluation_of(g, colour, moves.len() == 0) as i64, None)
    } else {
        search_from(
            g,
            ordered_moves(g, moves),
            0,
            depth,
            maximizing,
            colour,
            alpha,
            beta,
            if maximizing { i64::MIN } else { i64::MAX },
            None,
        )
    }
}

/// The search over the moves of `ms` from index `i` on, with bounds `alpha` and `beta` and the
/// best value and move found so far; it stops as soon as the best value leaves the window.
pub open spec fn search_from(
    g: Position,
    ms: Seq<Move>,
    i: int,
    depth: nat,
    maximizing: bool,
    colour: Colour,
    alpha: i64,
    beta: i64,
    best: i64,
    best_move: Option<Move>,
) -> (i64, Option<Move>)
    decreases depth, 0int, ms.len() - i,
{
    if depth == 0 || i < 0 || i >= ms.len() {
        (best, best_move)
    } else {
        let m = ms[i];
        let e = minimax_value(position_after_move(g, m), (depth - 1) as nat, !maximizing, colour, alpha, beta).0;
        if maximizing {
            let b = if e > best { e } else { best };
            let bm = if e > best { Some(m) } else { best_move };
            if b >= beta {
                (b, bm)
            } else {
                search_from(g, ms, i + 1, depth, maximizing, colour, if b > alpha { b } else { alpha }, beta, b, bm)
            }
        } else {
            let b = if e < best { e } else { best };
            let bm = if e < best { Some(m) } else { best_move };
            if b <= alpha {
                (b, bm)
            } else {
                search_from(g, ms, i + 1, depth, maximizing, colour, alpha, if b < beta { b } else { beta }, b, bm)
            }
        }
    }
}

/// The positions on which a search `depth` plies deep runs: each position reached is well
/// formed (as move generation asks) with at most 100000 pieces (so that its evaluation fits
/// an `i32`), and each position whose moves are searched is consistent and each of its moves
/// can be made and taken back.
#[verifier::opaque]
pub open spec fn search_ok(g: Position, depth: nat) -> bool
    decreases depth,
{
    &&& g.wf()
    &&& g.pieces.len() <= 100_000
    &&& depth > 0 ==> g.consistent()
    &&& depth > 0 ==> forall|m: Move|
        #[trigger] legal_moves(g).contains(m) ==> {
            &&& make_move_defined(g, m)
            &&& undoable(g, m)
            &&& search_ok(position_after_move(g, m), (depth - 1) as nat)
        }
}

pub(crate) proof fn lemma_search_ok_position(g: Position, depth: nat)
    requires
        search_ok(g, depth),
    ensures
        g.wf(),
        depth > 0 ==> g.consistent(),
        g.pieces.len() <= 100_000,
{
    reveal(search_ok);
}

pub(crate) proof fn lemma_search_step(g: Position, depth: nat, m: Move)
    requires
        search_ok(g, depth),
        depth > 0,
        legal_moves(g).contains(m),
    ensures
        make_move_defined(g, m),
        undoable(g, m),
        search_ok(position_after_move(g, m), (depth - 1) as nat),
        g.consistent(),
{
    reveal(search_ok);
}

pub(crate) proof fn lemma_search_from_unfold(
    g: Position,
    ms: Seq<Move>,
    i: int,
    depth: nat,
    maximizing: bool,
    colour: Colour,
    alpha: i64,
    beta: i64,
    best: i64,
    best_move: Option<Move>,
)
    requires
        depth > 0,
        0 <= i < ms.len(),
    ensures
        ({
            let e = minimax_value(position_after_move(g, ms[i]), (depth - 1) as nat, !maximizing, colour, alpha, beta).0;
            let b = if maximizing { if e > best { e } else { best } } else { if e < best { e } else { best } };
            let bm = if (maximizing && e > best) || (!maximizing && e < best) { Some(ms[i]) } else { best_move };
            search_from(g, ms, i, depth, maximizing, colour, alpha, beta, best, best_move) == if maximizing {
                if b >= beta {
                    (b, bm)
                } else {
                    search_from(g, ms, i + 1, depth, maximizing, colour, if b > alpha { b } else { alpha }, beta, b, bm)
                }
            } else {
                if b <= alpha {
                    (b, bm)
                } else {
                    search_from(g, ms, i + 1, depth, maximizing, colour, alpha, if b < beta { b } else { beta }, b, bm)
                }
            }
        }),
{
    reveal(minimax_value);
}

/// Makes move `m`, searches the position reached one ply less deep for the other side, and
/// takes the move back.
fn search_move(
    game: &mut Game,
    m: Move,
    depth: u32,
    maximizing_player: bool,
    maximizing_colour: Colour,
    alpha: i64,
    beta: i64,
) -> (evaluation: i64)
    requires
        depth > 0,
        search_ok(old(game)@, depth as nat),
        legal_moves(old(game)@).contains(m),
    ensures
        final(game)@ == old(game)@,
        evaluation == minimax_value(
            position_after_move(old(game)@, m),
            (depth - 1) as nat,
            !maximizing_player,
            maximizing_colour,
            alpha,
            beta,
        ).0,
    decreases depth, 0int,
{
    let ghost g = game@;
    proof {
        lemma_search_step(g, depth as nat, m);
    }
    let move_to_unmake = make_move(game, m);
    let (evaluation, _) = minimax(game, depth - 1, !maximizing_player, maximizing_colour, alpha, beta);
    proof {
        lemma_unmake_undoes_make(g, m);
    }
    unmake_move(game, move_to_unmake);
    evaluation
}

/// Searches `depth` plies deep with alpha-beta pruning; the game is left as it was.
pub fn minimax(
    game: &mut Game,
    depth: u32,
    maximizing_player: bool,
    maximizing_colour: Colour,
    alpha: i64,
    beta: i64,
) -> (result: (i64, Option<Move>))
    requires
        search_ok(old(game)@, depth as nat),
    ensures
        final(game)@ == old(game)@,
        result == minimax_value(old(game)@, depth as nat, maximizing_player, maximizing_colour, alpha, beta),
    decreases depth, 1int,
{
    let ghost g = game@;
    proof {
        lemma_search_ok_position(g, depth as nat);
    }
    let possible_moves = generate_moves(game);
    if depth == 0 || possible_moves.len() == 0 {
        let evaluation = evaluate_game(game, maximizing_colour, &possible_moves);
        assert(minimax_value(g, depth as nat, maximizing_player, maximizing_colour, alpha, beta)
            == (evaluation as i64, None::<Move>)) by {
            reveal(minimax_value);
        }
        return (evaluation as i64, None);
    }
    proof {
        lemma_legal_moves_on_board(g);
        lemma_ordered_moves_from(g, possible_moves@);
    }
    let ordered = order_moves(game, &possible_moves);
    let mut lower = alpha;
    let mut upper = beta;
    let mut best_move: Option<Move> = None;
    let mut best_evaluation: i64 = if maximizing_player { i64::MIN } else { i64::MAX };
    let ghost result = minimax_value(g, depth as nat, maximizing_player, maximizing_colour, alpha, beta);
    assert(search_from(g, ordered@, 0, depth as nat, maximizing_player, maximizing_colour, alpha, beta, best_evaluation, best_move) == result) by {
        reveal(minimax_value);
    }
    let mut i: usize = 0;
    while i < ordered.len()
        invariant
            0 <= i <= ordered@.len(),
            depth > 0,
            game@ == g,
            g == old(game)@,
            result == minimax_value(old(game)@, depth as nat, maximizing_player, maximizing_colour, alpha, beta),
            search_ok(g, depth as nat),
            forall|k: int| 0 <= k < ordered@.len() ==> legal_moves(g).contains(#[trigger] ordered@[k]),
            search_from(g, ordered@, i as int, depth as nat, maximizing_player, maximizing_colour, lower, upper, best_evaluation, best_move) == result,
        decreases ordered@.len() - i,
    {
        let possible_move = ordered[i];
        assert(legal_moves(g).contains(possible_move));
        let evaluation = search_move(game, possible_move, depth, maximizing_player, maximizing_colour, lower, upper);
        proof {
            lemma_search_from_unfold(g, ordered@, i as int, depth as nat, maximizing_player, maximizing_colour, lower, upper, best_evaluation, best_move);
        }
        if maximizing_player {
            if evaluation > best_evaluation {
                best_evaluation = evaluation;
                best_move = Some(possible_move);
            }
            if best_evaluation >= upper {
                return (best_evaluation, best_move);
            }
            if best_evaluation > lower {
                lower = best_evaluation;
            }
        } else {
            if evaluation < best_evaluation {
                best_evaluation = evaluation;
                best_move = Some(possible_move);
            }
            if best_evaluation <= lower {
                return (best_evaluation, best_move);
            }
            if best_evaluation < upper {
                upper = best_evaluation;
            }
        }
        i += 1;
    }
    (best_evaluation, best_move)
}


/// A search that runs at some depth runs at every smaller depth.
pub proof fn lemma_search_ok_shallower(g: Position, depth: nat, shallower: nat)
    requires
        search_ok(g, depth),
        shallower <= depth,
    ensures
        search_ok(g, shallower),
    decreases shallower,
{
    reveal(search_ok);
    if shallower > 0 {
        assert forall|m: Move| #[trigger] legal_moves(g).contains(m) implies {
            &&& make_move_defined(g, m)
            &&& undoable(g, m)
            &&& search_ok(position_after_move(g, m), (shallower - 1) as nat)
        } by {
            lemma_search_ok_shallower(position_after_move(g, m), (depth - 1) as nat, (shallower - 1) as nat);
        }
    }
}

pub(crate) proof fn lemma_evaluation_in_range(g: Position, colour: Colour, no_moves: bool)
    requires
        pieces_on_squares(g.pieces),
        g.pieces.len() <= 100_000,
    ensures
        i32::MIN <= evaluation_of(g, colour, no_moves) <= i32::MAX,
{
    let is_endgame = live_count(g.pieces) < 5;
    lemma_material_bounds(g.pieces, colour, is_endgame);
    assert(20050 * g.pieces.len() <= 20050 * 100_000) by (nonlinear_arith)
        requires
            g.pieces.len() <= 100_000,
    ;
}

proof fn lemma_scored_all(g: Position, ms: Seq<Move>)
    requires
        forall|k: int| 0 <= k < ms.len() ==> (move_score(g, #[trigger] ms[k], pawn_cover(g.pieces, opponent(g.active_colour))) is Some),
    ensures
        scored_moves(g, ms).len() == ms.len(),
    decreases ms.len(),
{
    if ms.len() > 0 {
        let prev = ms.drop_last();
        assert forall|k: int| 0 <= k < prev.len() implies (move_score(g, #[trigger] prev[k], pawn_cover(g.pieces, opponent(g.active_colour))) is Some) by {
            assert(prev[k] == ms[k]);
        }
        lemma_scored_all(g, prev);
        assert(ms[ms.len() - 1] == ms.last());
    }
}

/// Each move that a search can make has a live piece on its start square, so ordering keeps
/// every move.
pub(crate) proof fn lemma_legal_moves_scored(g: Position, depth: nat)
    requires
        search_ok(g, depth),
        depth > 0,
    ensures
        scored_moves(g, legal_moves(g)).len() == legal_moves(g).len(),
{
    assert forall|k: int| 0 <= k < legal_moves(g).len() implies make_move_defined(g, #[trigger] legal_moves(g)[k]) by {
        assert(legal_moves(g).contains(legal_moves(g)[k]));
        lemma_search_step(g, depth, legal_moves(g)[k]);
    }
    lemma_defined_moves_scored(g);
}

/// Ordering keeps every move whose start square holds a live piece of the side to move.
pub(crate) proof fn lemma_defined_moves_scored(g: Position)
    requires
        forall|k: int| 0 <= k < legal_moves(g).len() ==> make_move_defined(g, #[trigger] legal_moves(g)[k]),
    ensures
        scored_moves(g, legal_moves(g)).len() == legal_moves(g).len(),
{
    let ms = legal_moves(g);
    let covered = pawn_cover(g.pieces, opponent(g.active_colour));
    assert forall|k: int| 0 <= k < ms.len() implies (move_score(g, #[trigger] ms[k], covered) is Some) by {
        let m = ms[k];
        assert(make_move_defined(g, legal_moves(g)[k]));
        let b = square_bit(m.from_square as int);
        let mover = crate::moves::live_on_of(b, g.active_colour);
        lemma_find_from_facts(g.pieces, mover, 0);
        lemma_find_from_facts(g.pieces, on_board_exactly(b), 0);
        let i = find_first(g.pieces, mover)->0;
        assert(on_board_exactly(b)(g.pieces[i]));
    }
    lemma_scored_all(g, ms);
}

/// Whether a value lies in the range of `i32`.
pub open spec fn in_i32_range(v: i64) -> bool {
    i32::MIN <= v <= i32::MAX
}

proof fn lemma_value_in_range(g: Position, depth: nat, maximizing: bool, colour: Colour, alpha: i64, beta: i64)
    requires
        search_ok(g, depth),
    ensures
        in_i32_range(minimax_value(g, depth, maximizing, colour, alpha, beta).0),
    decreases depth, 1int, 0int,
{
    reveal(minimax_value);
    lemma_search_ok_position(g, depth);
    let moves = legal_moves(g);
    if depth == 0 || moves.len() == 0 {
        lemma_evaluation_in_range(g, colour, moves.len() == 0);
    } else {
        let ms = ordered_moves(g, moves);
        lemma_ordered_moves_from(g, moves);
        lemma_sort_desc_from(scored_moves(g, moves));
        lemma_legal_moves_scored(g, depth);
        let best = if maximizing { i64::MIN } else { i64::MAX };
        lemma_search_from_in_range(g, ms, 0, depth, maximizing, colour, alpha, beta, best, None);
    }
}

proof fn lemma_search_from_in_range(
    g: Position,
    ms: Seq<Move>,
    i: int,
    depth: nat,
    maximizing: bool,
    colour: Colour,
    alpha: i64,
    beta: i64,
    best: i64,
    best_move: Option<Move>,
)
    requires
        search_ok(g, depth),
        0 <= i,
        forall|k: int| 0 <= k < ms.len() ==> legal_moves(g).contains(#[trigger] ms[k]),
    ensures
        in_i32_range(best) ==> in_i32_range(search_from(g, ms, i, depth, maximizing, colour, alpha, beta, best, best_move).0),
        (depth > 0 && i < ms.len() && best == if maximizing { i64::MIN } else { i64::MAX }) ==> in_i32_range(
            search_from(g, ms, i, depth, maximizing, colour, alpha, beta, best, best_move).0,
        ),
    decreases depth, 0int, ms.len() - i,
{
    if depth > 0 && i < ms.len() {
        let m = ms[i];
        assert(legal_moves(g).contains(m));
        lemma_search_step(g, depth, m);
        lemma_value_in_range(position_after_move(g, m), (depth - 1) as nat, !maximizing, colour, alpha, beta);
        lemma_search_from_unfold(g, ms, i, depth, maximizing, colour, alpha, beta, best, best_move);
        let e = minimax_value(position_after_move(g, m), (depth - 1) as nat, !maximizing, colour, alpha, beta).0;
        let b = if maximizing { if e > best { e } else { best } } else { if e < best { e } else { best } };
        let bm = if (maximizing && e > best) || (!maximizing && e < best) { Some(m) } else { best_move };
        if maximizing {
            lemma_search_from_in_range(g, ms, i + 1, depth, maximizing, colour, if b > alpha { b } else { alpha }, beta, b, bm);
        } else {
            lemma_search_from_in_range(g, ms, i + 1, depth, maximizing, colour, alpha, if b < beta { b } else { beta }, b, bm);
        }
    }
}

/// The move chosen by a search of `max_depth` plies for the side to move: the move that a
/// full-window search at that depth finds, none at depth 0.
pub open spec fn deepening_choice(g: Position, max_depth: nat) -> Option<Move> {
    if max_depth == 0 {
        None
    } else {
        minimax_value(g, max_depth, true, g.active_colour, i64::MIN, i64::MAX).1
    }
}

/// Searches at depths 1 to `max_depth` in turn for the side to move and returns the move that
/// the deepest search chose: a move of the side to move that reaches the minimax value of the
/// position at that depth. The game is left as it was.
pub fn iterative_deepening_minimax(game: &mut Game, max_depth: u32) -> (best_move: Option<Move>)
    requires
        search_ok(old(game)@, max_depth as nat),
    ensures
        final(game)@ == old(game)@,
        best_move == deepening_choice(old(game)@, max_depth as nat),
        max_depth > 0 && legal_moves(old(game)@).len() > 0 ==> (best_move matches Some(m) && legal_moves(
            old(game)@,
        ).contains(m) && plain_value(
            position_after_move(old(game)@, m),
            (max_depth - 1) as nat,
            false,
            old(game)@.active_colour,
        ) == plain_value(old(game)@, max_depth as nat, true, old(game)@.active_colour)),
{
    proof {
        if max_depth > 0 {
            lemma_search_finds_minimax(game@, max_depth as nat, true, game@.active_colour);
        }
    }
    let ghost g = game@;
    let mut best_move: Option<Move> = None;
    let mut depth: u32 = 0;
    while depth < max_depth
        invariant
            depth <= max_depth,
            game@ == g,
            search_ok(g, max_depth as nat),
            best_move == deepening_choice(g, depth as nat),
        decreases max_depth - depth,
    {
        depth += 1;
        let best_evaluation: i64 = i64::MIN;
        proof {
            lemma_search_ok_shallower(g, max_depth as nat, depth as nat);
            lemma_value_in_range(g, depth as nat, true, g.active_colour, i64::MIN, i64::MAX);
        }
        let (evaluation, best) = minimax(game, depth, true, game.active_colour, i64::MIN, i64::MAX);
        // Store the best move if evaluation improves
        if evaluation > best_evaluation {
            best_move = best;
        }
    }
    best_move
}

} // verus!
