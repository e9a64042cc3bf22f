use vstd::prelude::*;

verus! {

use crate::evaluation::{
    evaluation_of, lemma_evaluation_in_range, lemma_legal_moves_scored, lemma_ordered_moves_from,
    lemma_search_from_unfold, lemma_search_ok_position, lemma_search_step, lemma_sort_desc_from,
    minimax_value, ordered_moves, scored_moves, search_from, search_ok,
};
use crate::game::{Colour, Position};
use crate::moves::{legal_moves, position_after_move, Move};

/// The plain minimax value of a position searched `depth` plies deep, without pruning: the
/// evaluation for `colour` at depth 0 or without moves, else the largest (when `maximizing`)
/// or smallest value of the positions its moves reach.
pub open spec fn plain_value(g: Position, depth: nat, maximizing: bool, colour: Colour) -> i64
    decreases depth, 1int, 0int,
{
    let moves = legal_moves(g);
    if depth == 0 || moves.len() == 0 {
        evaluation_of(g, colour, moves.len() == 0) as i64
    } else {
        plain_from(g, ordered_moves(g, moves), 0, depth, maximizing, colour, if maximizing { i64::MIN } else { i64::MAX })
    }
}

/// The best of `acc` and the plain values of the positions that the moves of `ms` from index
/// `i` on reach.
pub open spec fn plain_from(g: Position, ms: Seq<Move>, i: int, depth: nat, maximizing: bool, colour: Colour, acc: i64) -> i64
    decreases depth, 0int, ms.len() - i,
{
    if depth == 0 || i < 0 || i >= ms.len() {
        acc
    } else {
        let v = plain_value(position_after_move(g, ms[i]), (depth - 1) as nat, !maximizing, colour);
        let next = if maximizing { if v > acc { v } else { acc } } else { if v < acc { v } else { acc } };
        plain_from(g, ms, i + 1, depth, maximizing, colour, next)
    }
}

/// How a value `r` found with window (`alpha`, `beta`) stands to the true value `v`: exact
/// inside the window, between the true value and the bound outside it.
pub open spec fn window_bound(r: i64, v: i64, alpha: i64, beta: i64) -> bool {
    &&& v <= alpha ==> v <= r <= alpha
    &&& alpha < v < beta ==> r == v
    &&& v >= beta ==> beta <= r <= v
}

/// The move found reaches the value found, when that value lies inside the window.
pub open spec fn move_reaches(g: Position, ms: Seq<Move>, depth: nat, maximizing: bool, colour: Colour, r: (i64, Option<Move>), alpha: i64, beta: i64) -> bool {
    alpha < r.0 < beta ==> (r.1 matches Some(mv) && ms.contains(mv) && plain_value(
        position_after_move(g, mv),
        (depth - 1) as nat,
        !maximizing,
        colour,
    ) == r.0)
}

/// What holds of the search state after some moves: the window is the starting one narrowed
/// by the best value, and the best value and move stand to the true best so far `m` as the
/// window allows.
pub open spec fn loop_state(
    g: Position,
    ms: Seq<Move>,
    depth: nat,
    maximizing: bool,
    colour: Colour,
    alpha0: i64,
    beta0: i64,
    alpha: i64,
    beta: i64,
    best: i64,
    best_move: Option<Move>,
    m: i64,
) -> bool {
    &&& alpha0 < beta0
    &&& if maximizing {
        &&& beta == beta0
        &&& best < beta0
        &&& alpha == (if best > alpha0 { best } else { alpha0 })
        &&& m > alpha0 ==> best == m && (best_move matches Some(mv) && ms.contains(mv) && plain_value(
            position_after_move(g, mv),
            (depth - 1) as nat,
            !maximizing,
            colour,
        ) == m)
        &&& m <= alpha0 ==> m <= best <= alpha0
    } else {
        &&& alpha == alpha0
        &&& best > alpha0
        &&& beta == (if best < beta0 { best } else { beta0 })
        &&& m < beta0 ==> best == m && (best_move matches Some(mv) && ms.contains(mv) && plain_value(
            position_after_move(g, mv),
            (depth - 1) as nat,
            !maximizing,
            colour,
        ) == m)
        &&& m >= beta0 ==> beta0 <= best <= m
    }
}

#[verifier::rlimit(50)]
proof fn lemma_search_from_bounds(
    g: Position,
    ms: Seq<Move>,
    i: int,
    depth: nat,
    maximizing: bool,
    colour: Colour,
    alpha0: i64,
    beta0: i64,
    alpha: i64,
    beta: i64,
    best: i64,
    best_move: Option<Move>,
    m: i64,
)
    requires
        search_ok(g, depth),
        depth > 0,
        0 <= i <= ms.len(),
        forall|k: int| 0 <= k < ms.len() ==> legal_moves(g).contains(#[trigger] ms[k]),
        loop_state(g, ms, depth, maximizing, colour, alpha0, beta0, alpha, beta, best, best_move, m),
    ensures
        window_bound(
            search_from(g, ms, i, depth, maximizing, colour, alpha, beta, best, best_move).0,
            plain_from(g, ms, i, depth, maximizing, colour, m),
            alpha0,
            beta0,
        ),
        move_reaches(g, ms, depth, maximizing, colour, search_from(g, ms, i, depth, maximizing, colour, alpha, beta, best, best_move), alpha0, beta0),
    decreases depth, 0int, ms.len() - i,
{
    reveal(minimax_value);
    if i < ms.len() {
        let mv = ms[i];
        assert(legal_moves(g).contains(mv));
        lemma_search_step(g, depth, mv);
        let child = position_after_move(g, mv);
        lemma_search_from_unfold(g, ms, i, depth, maximizing, colour, alpha, beta, best, best_move);
        lemma_alpha_beta_bounds(child, (depth - 1) as nat, !maximizing, colour, alpha, beta);
        let e = minimax_value(child, (depth - 1) as nat, !maximizing, colour, alpha, beta).0;
        let v = plain_value(child, (depth - 1) as nat, !maximizing, colour);
        assert(ms.contains(mv)) by {
            assert(ms[i] == mv);
        }
        if maximizing {
            let b = if e > best { e } else { best };
            let bm = if e > best { Some(mv) } else { best_move };
            let m2 = if v > m { v } else { m };
            if b >= beta {
            } else {
                let a2 = if b > alpha { b } else { alpha };
                assert(loop_state(g, ms, depth, maximizing, colour, alpha0, beta0, a2, beta, b, bm, m2));
                lemma_search_from_bounds(g, ms, i + 1, depth, maximizing, colour, alpha0, beta0, a2, beta, b, bm, m2);
            }
            lemma_plain_from_monotone(g, ms, i + 1, depth, maximizing, colour, m2);
        } else {
            let b = if e < best { e } else { best };
            let bm = if e < best { Some(mv) } else { best_move };
            let m2 = if v < m { v } else { m };
            if b <= alpha {
            } else {
                let b2 = if b < beta { b } else { beta };
                assert(loop_state(g, ms, depth, maximizing, colour, alpha0, beta0, alpha, b2, b, bm, m2));
                lemma_search_from_bounds(g, ms, i + 1, depth, maximizing, colour, alpha0, beta0, alpha, b2, b, bm, m2);
            }
            lemma_plain_from_monotone(g, ms, i + 1, depth, maximizing, colour, m2);
        }
    }
}

/// The fold only moves its accumulator one way: up when maximizing, down otherwise.
proof fn lemma_plain_from_monotone(g: Position, ms: Seq<Move>, i: int, depth: nat, maximizing: bool, colour: Colour, acc: i64)
    ensures
        maximizing ==> plain_from(g, ms, i, depth, maximizing, colour, acc) >= acc,
        !maximizing ==> plain_from(g, ms, i, depth, maximizing, colour, acc) <= acc,
    decreases ms.len() - i,
{
    if depth > 0 && 0 <= i < ms.len() {
        let v = plain_value(position_after_move(g, ms[i]), (depth - 1) as nat, !maximizing, colour);
        let next = if maximizing { if v > acc { v } else { acc } } else { if v < acc { v } else { acc } };
        lemma_plain_from_monotone(g, ms, i + 1, depth, maximizing, colour, next);
    }
}

/// Alpha-beta search with window (`alpha`, `beta`) gives the plain minimax value when that
/// value lies inside the window, and otherwise a value between the true value and the bound
/// it passed; a value found inside the window comes with a move that reaches it.
pub proof fn lemma_alpha_beta_bounds(g: Position, depth: nat, maximizing: bool, colour: Colour, alpha: i64, beta: i64)
    requires
        search_ok(g, depth),
        alpha < beta,
    ensures
        window_bound(
            minimax_value(g, depth, maximizing, colour, alpha, beta).0,
            plain_value(g, depth, maximizing, colour),
            alpha,
            beta,
        ),
        depth > 0 && legal_moves(g).len() > 0 ==> move_reaches(
            g,
            legal_moves(g),
            depth,
            maximizing,
            colour,
            minimax_value(g, depth, maximizing, colour, alpha, beta),
            alpha,
            beta,
        ),
    decreases depth, 1int, 0int,
{
    reveal(minimax_value);
    let moves = legal_moves(g);
    if depth > 0 && moves.len() > 0 {
        let ms = ordered_moves(g, moves);
        lemma_ordered_moves_from(g, moves);
        let init = if maximizing { i64::MIN } else { i64::MAX };
        assert(loop_state(g, ms, depth, maximizing, colour, alpha, beta, alpha, beta, init, None, init));
        lemma_search_from_bounds(g, ms, 0, depth, maximizing, colour, alpha, beta, alpha, beta, init, None, init);
        let r = minimax_value(g, depth, maximizing, colour, alpha, beta);
        if alpha < r.0 < beta {
            let mv = r.1->0;
            assert(ms.contains(mv));
            let j = choose|j: int| 0 <= j < ms.len() && ms[j] == mv;
            assert(moves.contains(ms[j]));
        }
    }
}

proof fn lemma_plain_in_range(g: Position, depth: nat, maximizing: bool, colour: Colour)
    requires
        search_ok(g, depth),
    ensures
        i32::MIN <= plain_value(g, depth, maximizing, colour) <= i32::MAX,
    decreases depth, 1int, 0int,
{
    lemma_search_ok_position(g, depth);
    let moves = legal_moves(g);
    if depth == 0 || moves.len() == 0 {
        lemma_evaluation_in_range(g, colour, moves.len() == 0);
    } else {
        let ms = ordered_moves(g, moves);
        lemma_ordered_moves_from(g, moves);
        lemma_sort_desc_from(scored_moves(g, moves));
        lemma_legal_moves_scored(g, depth);
        let init = if maximizing { i64::MIN } else { i64::MAX };
        lemma_plain_from_in_range(g, ms, 0, depth, maximizing, colour, init);
    }
}

proof fn lemma_plain_from_in_range(g: Position, ms: Seq<Move>, i: int, depth: nat, maximizing: bool, colour: Colour, acc: i64)
    requires
        search_ok(g, depth),
        0 <= i,
        forall|k: int| 0 <= k < ms.len() ==> legal_moves(g).contains(#[trigger] ms[k]),
    ensures
        i32::MIN <= acc <= i32::MAX ==> i32::MIN <= plain_from(g, ms, i, depth, maximizing, colour, acc) <= i32::MAX,
        (depth > 0 && i < ms.len() && acc == if maximizing { i64::MIN } else { i64::MAX }) ==> i32::MIN <= plain_from(
            g,
            ms,
            i,
            depth,
            maximizing,
            colour,
            acc,
        ) <= i32::MAX,
    decreases depth, 0int, ms.len() - i,
{
    if depth > 0 && i < ms.len() {
        let mv = ms[i];
        assert(legal_moves(g).contains(mv));
        lemma_search_step(g, depth, mv);
        lemma_plain_in_range(position_after_move(g, mv), (depth - 1) as nat, !maximizing, colour);
        let v = plain_value(position_after_move(g, mv), (depth - 1) as nat, !maximizing, colour);
        let next = if maximizing { if v > acc { v } else { acc } } else { if v < acc { v } else { acc } };
        lemma_plain_from_in_range(g, ms, i + 1, depth, maximizing, colour, next);
    }
}

/// A search with the full window finds the plain minimax value, and the move it returns is a
/// move of the position that reaches that value.
pub proof fn lemma_search_finds_minimax(g: Position, depth: nat, maximizing: bool, colour: Colour)
    requires
        search_ok(g, depth),
    ensures
        minimax_value(g, depth, maximizing, colour, i64::MIN, i64::MAX).0 == plain_value(g, depth, maximizing, colour),
        depth > 0 && legal_moves(g).len() > 0 ==> (minimax_value(g, depth, maximizing, colour, i64::MIN, i64::MAX).1 matches Some(
            mv,
        ) && legal_moves(g).contains(mv) && plain_value(position_after_move(g, mv), (depth - 1) as nat, !maximizing, colour)
            == plain_value(g, depth, maximizing, colour)),
{
    lemma_plain_in_range(g, depth, maximizing, colour);
    lemma_alpha_beta_bounds(g, depth, maximizing, colour, i64::MIN, i64::MAX);
}

} // verus!
