use vstd::prelude::*;

verus! {

use crate::game::{Colour, Game, Position};
use crate::moves::{
    Move,
    legal_moves,
    lemma_legal_moves_on_board,
    generate_moves,
    make_move,
    unmake_move,
    make_move_defined,
    move_can_be_made,
    position_after_move,
};
use crate::move_laws::{undoable, lemma_unmake_undoes_make, move_can_be_undone};
use crate::evaluation::{
    minimax_value,
    search_from,
    search_ok,
    ordered_moves,
    scored_moves,
    order_moves,
    evaluate_game,
    in_i32_range,
    deepening_choice,
    lemma_search_from_unfold,
    lemma_ordered_moves_from,
    lemma_search_ok_position,
    lemma_search_step,
    lemma_search_ok_shallower,
    lemma_evaluation_in_range,
    lemma_defined_moves_scored,
    lemma_sort_desc_from,
};

/// Every move of the side to move can be made and taken back exactly (see `undoable`).
pub open spec fn moves_reversible(g: Position) -> bool {
    forall|k: int|
        0 <= k < legal_moves(g).len() ==> make_move_defined(g, #[trigger] legal_moves(g)[k]) && undoable(
            g,
            legal_moves(g)[k],
        )
}

/// Whether the search that `minimax_value` describes can run from `g`: each position it visits
/// is well formed with at most 100000 pieces, and each position whose moves it searches is
/// consistent, with every move of it able to be made and taken back. Moves that the pruning
/// skips are not visited.
#[verifier::opaque]
pub open spec fn search_runs(
    g: Position,
    depth: nat,
    maximizing: bool,
    colour: Colour,
    alpha: i64,
    beta: i64,
) -> bool
    decreases depth, 1int, 0int,
{
    &&& g.wf()
    &&& g.pieces.len() <= 100_000
    &&& (depth > 0 && legal_moves(g).len() > 0) ==> {
        &&& g.consistent()
        &&& moves_reversible(g)
        &&& runs_from(
            g,
            ordered_moves(g, legal_moves(g)),
            0,
            depth,
            maximizing,
            colour,
            alpha,
            beta,
            if maximizing { i64::MIN } else { i64::MAX },
        )
    }
}

/// Whether the search over the moves of `ms` from index `i` on runs (see `search_runs`), with
/// the bounds and best value that `search_from` has at that index.
pub open spec fn runs_from(
    g: Position,
    ms: Seq<Move>,
    i: int,
    depth: nat,
    maximizing: bool,
    colour: Colour,
    alpha: i64,
    beta: i64,
    best: i64,
) -> bool
    decreases depth, 0int, ms.len() - i,
{
    if depth == 0 || i < 0 || i >= ms.len() {
        true
    } else {
        let child = position_after_move(g, ms[i]);
        let e = minimax_value(child, (depth - 1) as nat, !maximizing, colour, alpha, beta).0;
        &&& search_runs(child, (depth - 1) as nat, !maximizing, colour, alpha, beta)
        &&& if maximizing {
            let b = if e > best { e } else { best };
            b >= beta || runs_from(g, ms, i + 1, depth, maximizing, colour, if b > alpha { b } else { alpha }, beta, b)
        } else {
            let b = if e < best { e } else { best };
            b <= alpha || runs_from(g, ms, i + 1, depth, maximizing, colour, alpha, if b < beta { b } else { beta }, b)
        }
    }
}

proof fn lemma_runs_from_unfold(
    g: Position,
    ms: Seq<Move>,
    i: int,
    depth: nat,
    maximizing: bool,
    colour: Colour,
    alpha: i64,
    beta: i64,
    best: i64,
)
    requires
        depth > 0,
        0 <= i < ms.len(),
    ensures
        ({
            let child = position_after_move(g, ms[i]);
            let e = minimax_value(child, (depth - 1) as nat, !maximizing, colour, alpha, beta).0;
            let b = if maximizing { if e > best { e } else { best } } else { if e < best { e } else { best } };
            runs_from(g, ms, i, depth, maximizing, colour, alpha, beta, best) == (search_runs(
                child,
                (depth - 1) as nat,
                !maximizing,
                colour,
                alpha,
                beta,
            ) && if maximizing {
                b >= beta || runs_from(g, ms, i + 1, depth, maximizing, colour, if b > alpha { b } else { alpha }, beta, b)
            } else {
                b <= alpha || runs_from(g, ms, i + 1, depth, maximizing, colour, alpha, if b < beta { b } else { beta }, b)
            })
        }),
{
    reveal(search_runs);
}

proof fn lemma_runs_done(
    g: Position,
    ms: Seq<Move>,
    i: int,
    depth: nat,
    maximizing: bool,
    colour: Colour,
    alpha: i64,
    beta: i64,
    best: i64,
)
    requires
        depth == 0 || i >= ms.len(),
    ensures
        runs_from(g, ms, i, depth, maximizing, colour, alpha, beta, best),
{
    reveal(search_runs);
}

proof fn lemma_search_runs_unfold(g: Position, depth: nat, maximizing: bool, colour: Colour, alpha: i64, beta: i64)
    ensures
        search_runs(g, depth, maximizing, colour, alpha, beta) == {
            &&& g.wf()
            &&& g.pieces.len() <= 100_000
            &&& (depth > 0 && legal_moves(g).len() > 0) ==> {
                &&& g.consistent()
                &&& moves_reversible(g)
                &&& runs_from(
                    g,
                    ordered_moves(g, legal_moves(g)),
                    0,
                    depth,
                    maximizing,
                    colour,
                    alpha,
                    beta,
                    if maximizing { i64::MIN } else { i64::MAX },
                )
            }
        },
{
    reveal(search_runs);
}

/// Whether every move of `moves` can be made in the game and taken back exactly.
fn all_moves_reversible(game: &Game, moves: &Vec<Move>) -> (ok: bool)
    ensures
        ok == forall|k: int|
            0 <= k < moves@.len() ==> make_move_defined(game@, #[trigger] moves@[k]) && undoable(game@, moves@[k]),
{
    let mut i: usize = 0;
    while i < moves.len()
        invariant
            0 <= i <= moves@.len(),
            forall|k: int| 0 <= k < i ==> make_move_defined(game@, #[trigger] moves@[k]) && undoable(game@, moves@[k]),
        decreases moves@.len() - i,
    {
        let m = moves[i];
        if !move_can_be_made(game, m) {
            assert(!(make_move_defined(game@, moves@[i as int]) && undoable(game@, moves@[i as int])));
            return false;
        }
        if !move_can_be_undone(game, m) {
            assert(!(make_move_defined(game@, moves@[i as int]) && undoable(game@, moves@[i as int])));
            return false;
        }
        i += 1;
    }
    true
}

proof fn lemma_legal_index(g: Position, m: Move)
    requires
        legal_moves(g).contains(m),
        moves_reversible(g),
    ensures
        make_move_defined(g, m),
        undoable(g, m),
{
    let k = choose|k: int| 0 <= k < legal_moves(g).len() && legal_moves(g)[k] == m;
    assert(make_move_defined(g, legal_moves(g)[k]));
}

/// Makes move `m`, runs the checked search one ply less deep for the other side, and takes
/// the move back.
fn checked_move(
    game: &mut Game,
    m: Move,
    depth: u32,
    maximizing_player: bool,
    maximizing_colour: Colour,
    alpha: i64,
    beta: i64,
) -> (evaluation: Option<i64>)
    requires
        depth > 0,
        old(game)@.consistent(),
        make_move_defined(old(game)@, m),
        undoable(old(game)@, m),
    ensures
        final(game)@ == old(game)@,
        evaluation is Some <==> search_runs(
            position_after_move(old(game)@, m),
            (depth - 1) as nat,
            !maximizing_player,
            maximizing_colour,
            alpha,
            beta,
        ),
        evaluation matches Some(e) ==> e == minimax_value(
            position_after_move(old(game)@, m),
            (depth - 1) as nat,
            !maximizing_player,
            maximizing_colour,
            alpha,
            beta,
        ).0,
    decreases depth, 0int,
{
    let ghost g = game@;
    let move_to_unmake = make_move(game, m);
    let result = checked_minimax(game, depth - 1, !maximizing_player, maximizing_colour, alpha, beta);
    proof {
        lemma_unmake_undoes_make(g, m);
    }
    unmake_move(game, move_to_unmake);
    match result {
        Some((evaluation, _)) => Some(evaluation),
        None => None,
    }
}

/// A search whose every reachable position can be played, with every move made and taken back
/// (see `search_ok`), runs whatever its window.
pub proof fn lemma_search_ok_runs(g: Position, depth: nat, maximizing: bool, colour: Colour, alpha: i64, beta: i64)
    requires
        search_ok(g, depth),
    ensures
        search_runs(g, depth, maximizing, colour, alpha, beta),
    decreases depth, 1int, 0int,
{
    lemma_search_runs_unfold(g, depth, maximizing, colour, alpha, beta);
    lemma_search_ok_position(g, depth);
    let moves = legal_moves(g);
    if depth > 0 && moves.len() > 0 {
        assert forall|k: int| 0 <= k < moves.len() implies make_move_defined(g, #[trigger] moves[k]) && undoable(g, moves[k]) by {
            assert(moves.contains(moves[k]));
            lemma_search_step(g, depth, moves[k]);
        }
        lemma_ordered_moves_from(g, moves);
        lemma_search_ok_runs_from(
            g,
            ordered_moves(g, moves),
            0,
            depth,
            maximizing,
            colour,
            alpha,
            beta,
            if maximizing { i64::MIN } else { i64::MAX },
        );
    }
}

proof fn lemma_search_ok_runs_from(
    g: Position,
    ms: Seq<Move>,
    i: int,
    depth: nat,
    maximizing: bool,
    colour: Colour,
    alpha: i64,
    beta: i64,
    best: i64,
)
    requires
        search_ok(g, depth),
        0 <= i,
        forall|k: int| 0 <= k < ms.len() ==> legal_moves(g).contains(#[trigger] ms[k]),
    ensures
        runs_from(g, ms, i, depth, maximizing, colour, alpha, beta, best),
    decreases depth, 0int, ms.len() - i,
{
    if depth > 0 && i < ms.len() {
        let m = ms[i];
        assert(legal_moves(g).contains(m));
        lemma_search_step(g, depth, m);
        lemma_search_ok_runs(position_after_move(g, m), (depth - 1) as nat, !maximizing, colour, alpha, beta);
        lemma_runs_from_unfold(g, ms, i, depth, maximizing, colour, alpha, beta, best);
        let e = minimax_value(position_after_move(g, m), (depth - 1) as nat, !maximizing, colour, alpha, beta).0;
        let b = if maximizing { if e > best { e } else { best } } else { if e < best { e } else { best } };
        if maximizing {
            lemma_search_ok_runs_from(g, ms, i + 1, depth, maximizing, colour, if b > alpha { b } else { alpha }, beta, b);
        } else {
            lemma_search_ok_runs_from(g, ms, i + 1, depth, maximizing, colour, alpha, if b < beta { b } else { beta }, b);
        }
    } else {
        lemma_runs_done(g, ms, i, depth, maximizing, colour, alpha, beta, best);
    }
}

/// The value of a search that runs lies in the range of `i32`: every evaluation does.
pub proof fn lemma_runs_value_in_range(g: Position, depth: nat, maximizing: bool, colour: Colour, alpha: i64, beta: i64)
    requires
        search_runs(g, depth, maximizing, colour, alpha, beta),
    ensures
        in_i32_range(minimax_value(g, depth, maximizing, colour, alpha, beta).0),
    decreases depth, 1int, 0int,
{
    reveal(minimax_value);
    lemma_search_runs_unfold(g, depth, maximizing, colour, alpha, beta);
    let moves = legal_moves(g);
    if depth == 0 || moves.len() == 0 {
        lemma_evaluation_in_range(g, colour, moves.len() == 0);
    } else {
        let ms = ordered_moves(g, moves);
        lemma_ordered_moves_from(g, moves);
        lemma_sort_desc_from(scored_moves(g, moves));
        lemma_defined_moves_scored(g);
        let best = if maximizing { i64::MIN } else { i64::MAX };
        lemma_runs_from_in_range(g, ms, 0, depth, maximizing, colour, alpha, beta, best, None);
    }
}

proof fn lemma_runs_from_in_range(
    g: Position,
    ms: Seq<Move>,
    i: int,
    depth: nat,
    maximizing: bool,
    colour: Colour,
    alpha: i64,
    beta: i64,
    best: i64,
    best_move: Option<Move>,
)
    requires
        runs_from(g, ms, i, depth, maximizing, colour, alpha, beta, best),
        0 <= i,
    ensures
        in_i32_range(best) ==> in_i32_range(search_from(g, ms, i, depth, maximizing, colour, alpha, beta, best, best_move).0),
        (depth > 0 && i < ms.len() && best == if maximizing { i64::MIN } else { i64::MAX }) ==> in_i32_range(
            search_from(g, ms, i, depth, maximizing, colour, alpha, beta, best, best_move).0,
        ),
    decreases depth, 0int, ms.len() - i,
{
    if depth > 0 && i < ms.len() {
        let m = ms[i];
        lemma_runs_from_unfold(g, ms, i, depth, maximizing, colour, alpha, beta, best);
        lemma_runs_value_in_range(position_after_move(g, m), (depth - 1) as nat, !maximizing, colour, alpha, beta);
        lemma_search_from_unfold(g, ms, i, depth, maximizing, colour, alpha, beta, best, best_move);
        let e = minimax_value(position_after_move(g, m), (depth - 1) as nat, !maximizing, colour, alpha, beta).0;
        let b = if maximizing { if e > best { e } else { best } } else { if e < best { e } else { best } };
        let bm = if (maximizing && e > best) || (!maximizing && e < best) { Some(m) } else { best_move };
        if maximizing {
            if b < beta {
                lemma_runs_from_in_range(g, ms, i + 1, depth, maximizing, colour, if b > alpha { b } else { alpha }, beta, b, bm);
            }
        } else {
            if b > alpha {
                lemma_runs_from_in_range(g, ms, i + 1, depth, maximizing, colour, alpha, if b < beta { b } else { beta }, b, bm);
            }
        }
    } else {
        reveal(minimax_value);
    }
}

/// The alpha-beta search of `minimax`, run on any game: it gives `None` when a position it
/// visits is not well formed, has more than 100000 pieces, or has its moves searched while it
/// is not consistent or holds a move that cannot be made and taken back exactly (see
/// `search_runs`), and otherwise the value and move that `minimax` gives. The game is left as
/// it was.
pub fn checked_minimax(
    game: &mut Game,
    depth: u32,
    maximizing_player: bool,
    maximizing_colour: Colour,
    alpha: i64,
    beta: i64,
) -> (result: Option<(i64, Option<Move>)>)
    ensures
        final(game)@ == old(game)@,
        result is Some <==> search_runs(old(game)@, depth as nat, maximizing_player, maximizing_colour, alpha, beta),
        result matches Some(r) ==> r == minimax_value(old(game)@, depth as nat, maximizing_player, maximizing_colour, alpha, beta),
        result matches Some((_, Some(mv))) ==> legal_moves(old(game)@).contains(mv),
        search_ok(old(game)@, depth as nat) ==> result is Some,
    decreases depth, 1int,
{
    let ghost g = game@;
    proof {
        lemma_search_move_legal(g, depth as nat, maximizing_player, maximizing_colour, alpha, beta);
        lemma_search_runs_unfold(g, depth as nat, maximizing_player, maximizing_colour, alpha, beta);
        if search_ok(g, depth as nat) {
            lemma_search_ok_runs(g, depth as nat, maximizing_player, maximizing_colour, alpha, beta);
        }
    }
    if !game.is_playable() || game.pieces.len() > 100_000 {
        return None;
    }
    let possible_moves = generate_moves(game);
    if depth == 0 || possible_moves.len() == 0 {
        let evaluation = evaluate_game(game, maximizing_colour, &possible_moves);
        assert(minimax_value(g, depth as nat, maximizing_player, maximizing_colour, alpha, beta)
            == (evaluation as i64, None::<Move>)) by {
            reveal(minimax_value);
        }
        return Some((evaluation as i64, None));
    }
    if !game.is_consistent() {
        return None;
    }
    if !all_moves_reversible(game, &possible_moves) {
        return None;
    }
    proof {
        lemma_legal_moves_on_board(g);
        lemma_ordered_moves_from(g, possible_moves@);
    }
    let ordered = order_moves(game, &possible_moves);
    let mut lower = alpha;
    let mut upper = beta;
    let mut best_move: Option<Move> = None;
    let mut best_evaluation: i64 = if maximizing_player { i64::MIN } else { i64::MAX };
    let ghost value = minimax_value(g, depth as nat, maximizing_player, maximizing_colour, alpha, beta);
    let ghost runs = search_runs(g, depth as nat, maximizing_player, maximizing_colour, alpha, beta);
    assert(search_from(g, ordered@, 0, depth as nat, maximizing_player, maximizing_colour, alpha, beta, best_evaluation, best_move) == value) by {
        reveal(minimax_value);
    }
    let mut i: usize = 0;
    while i < ordered.len()
        invariant
            0 <= i <= ordered@.len(),
            depth > 0,
            game@ == g,
            g == old(game)@,
            g.consistent(),
            moves_reversible(g),
            value == minimax_value(old(game)@, depth as nat, maximizing_player, maximizing_colour, alpha, beta),
            runs == search_runs(old(game)@, depth as nat, maximizing_player, maximizing_colour, alpha, beta),
            search_ok(g, depth as nat) ==> runs,
            value.1 matches Some(mv) ==> legal_moves(g).contains(mv),
            forall|k: int| 0 <= k < ordered@.len() ==> legal_moves(g).contains(#[trigger] ordered@[k]),
            search_from(g, ordered@, i as int, depth as nat, maximizing_player, maximizing_colour, lower, upper, best_evaluation, best_move) == value,
            runs_from(g, ordered@, i as int, depth as nat, maximizing_player, maximizing_colour, lower, upper, best_evaluation) == runs,
        decreases ordered@.len() - i,
    {
        let possible_move = ordered[i];
        assert(legal_moves(g).contains(possible_move));
        proof {
            lemma_legal_index(g, possible_move);
            lemma_search_from_unfold(g, ordered@, i as int, depth as nat, maximizing_player, maximizing_colour, lower, upper, best_evaluation, best_move);
            lemma_runs_from_unfold(g, ordered@, i as int, depth as nat, maximizing_player, maximizing_colour, lower, upper, best_evaluation);
        }
        let evaluation = match checked_move(game, possible_move, depth, maximizing_player, maximizing_colour, lower, upper) {
            Some(e) => e,
            None => {
                return None;
            },
        };
        if maximizing_player {
            if evaluation > best_evaluation {
                best_evaluation = evaluation;
                best_move = Some(possible_move);
            }
            if best_evaluation >= upper {
                return Some((best_evaluation, best_move));
            }
            if best_evaluation > lower {
                lower = best_evaluation;
            }
        } else {
            if evaluation < best_evaluation {
                best_evaluation = evaluation;
                best_move = Some(possible_move);
            }
            if best_evaluation <= lower {
                return Some((best_evaluation, best_move));
            }
            if best_evaluation < upper {
                upper = best_evaluation;
            }
        }
        i += 1;
    }
    proof {
        lemma_runs_done(g, ordered@, i as int, depth as nat, maximizing_player, maximizing_colour, lower, upper, best_evaluation);
    }
    Some((best_evaluation, best_move))
}


/// The move a search returns is one of the moves it was given, or the best move it started with.
proof fn lemma_search_from_move(
    g: Position,
    ms: Seq<Move>,
    i: int,
    depth: nat,
    maximizing: bool,
    colour: Colour,
    alpha: i64,
    beta: i64,
    best: i64,
    best_move: Option<Move>,
)
    requires
        0 <= i,
    ensures
        search_from(g, ms, i, depth, maximizing, colour, alpha, beta, best, best_move).1 matches Some(mv) ==> (
        best_move == Some(mv) || ms.contains(mv)),
        best_move is Some ==> search_from(g, ms, i, depth, maximizing, colour, alpha, beta, best, best_move).1 is Some,
    decreases ms.len() - i,
{
    if depth > 0 && i < ms.len() {
        lemma_search_from_unfold(g, ms, i, depth, maximizing, colour, alpha, beta, best, best_move);
        let m = ms[i];
        let e = minimax_value(position_after_move(g, m), (depth - 1) as nat, !maximizing, colour, alpha, beta).0;
        let b = if maximizing { if e > best { e } else { best } } else { if e < best { e } else { best } };
        let bm = if (maximizing && e > best) || (!maximizing && e < best) { Some(m) } else { best_move };
        if maximizing {
            lemma_search_from_move(g, ms, i + 1, depth, maximizing, colour, if b > alpha { b } else { alpha }, beta, b, bm);
        } else {
            lemma_search_from_move(g, ms, i + 1, depth, maximizing, colour, alpha, if b < beta { b } else { beta }, b, bm);
        }
    }
}

/// The move a search chooses is a legal move of the position, and a search that runs at least
/// one ply deep from a position with moves chooses one.
pub proof fn lemma_search_move_legal(g: Position, depth: nat, maximizing: bool, colour: Colour, alpha: i64, beta: i64)
    ensures
        minimax_value(g, depth, maximizing, colour, alpha, beta).1 matches Some(mv) ==> legal_moves(g).contains(mv),
        (search_runs(g, depth, maximizing, colour, alpha, beta) && depth > 0 && legal_moves(g).len() > 0) ==> minimax_value(
            g,
            depth,
            maximizing,
            colour,
            alpha,
            beta,
        ).1 is Some,
{
    reveal(minimax_value);
    let moves = legal_moves(g);
    if depth > 0 && moves.len() > 0 {
        let ms = ordered_moves(g, moves);
        let best = if maximizing { i64::MIN } else { i64::MAX };
        lemma_ordered_moves_from(g, moves);
        lemma_search_from_move(g, ms, 0, depth, maximizing, colour, alpha, beta, best, None);
        if let Some(mv) = minimax_value(g, depth, maximizing, colour, alpha, beta).1 {
            let k = choose|k: int| 0 <= k < ms.len() && ms[k] == mv;
            assert(moves.contains(ms[k]));
        }
        if search_runs(g, depth, maximizing, colour, alpha, beta) {
            lemma_search_runs_unfold(g, depth, maximizing, colour, alpha, beta);
            lemma_sort_desc_from(scored_moves(g, moves));
            assert forall|k: int| 0 <= k < moves.len() implies make_move_defined(g, #[trigger] moves[k]) by {
                assert(make_move_defined(g, moves[k]) && undoable(g, moves[k]));
            }
            lemma_defined_moves_scored(g);
            assert(ms.len() > 0);
            let m = ms[0];
            lemma_runs_from_unfold(g, ms, 0, depth, maximizing, colour, alpha, beta, best);
            lemma_runs_value_in_range(position_after_move(g, m), (depth - 1) as nat, !maximizing, colour, alpha, beta);
            lemma_search_from_unfold(g, ms, 0, depth, maximizing, colour, alpha, beta, best, None);
            let e = minimax_value(position_after_move(g, m), (depth - 1) as nat, !maximizing, colour, alpha, beta).0;
            let b = if maximizing { if e > best { e } else { best } } else { if e < best { e } else { best } };
            let bm = if (maximizing && e > best) || (!maximizing && e < best) { Some(m) } else { None };
            assert(bm is Some);
            if maximizing {
                lemma_search_from_move(g, ms, 1, depth, maximizing, colour, if b > alpha { b } else { alpha }, beta, b, bm);
            } else {
                lemma_search_from_move(g, ms, 1, depth, maximizing, colour, alpha, if b < beta { b } else { beta }, b, bm);
            }
        }
    }
}

/// Whether the searches at depths 1 to `max_depth` that iterative deepening makes for the
/// side to move all run (see `search_runs`).
pub open spec fn deepening_runs(g: Position, max_depth: nat) -> bool {
    forall|d: nat| 1 <= d <= max_depth ==> #[trigger] search_runs(g, d, true, g.active_colour, i64::MIN, i64::MAX)
}

/// Iterative deepening on any game: `None` when one of the searches at depths 1 to
/// `max_depth` cannot run (see `search_runs`), and otherwise the move that
/// `iterative_deepening_minimax` chooses. The game is left as it was.
pub fn try_iterative_deepening_minimax(game: &mut Game, max_depth: u32) -> (result: Option<Option<Move>>)
    ensures
        final(game)@ == old(game)@,
        result is Some <==> deepening_runs(old(game)@, max_depth as nat),
        result matches Some(best_move) ==> best_move == deepening_choice(old(game)@, max_depth as nat),
        result matches Some(Some(mv)) ==> legal_moves(old(game)@).contains(mv),
        (result is Some && max_depth > 0 && legal_moves(old(game)@).len() > 0) ==> result matches Some(Some(_)),
        search_ok(old(game)@, max_depth as nat) ==> result is Some,
{
    let ghost g = game@;
    let mut best_move: Option<Move> = None;
    let mut depth: u32 = 0;
    while depth < max_depth
        invariant
            depth <= max_depth,
            game@ == g,
            g == old(game)@,
            forall|d: nat| 1 <= d <= depth ==> #[trigger] search_runs(g, d, true, g.active_colour, i64::MIN, i64::MAX),
            best_move == deepening_choice(g, depth as nat),
        decreases max_depth - depth,
    {
        depth += 1;
        let best_evaluation: i64 = i64::MIN;
        match checked_minimax(game, depth, true, game.active_colour, i64::MIN, i64::MAX) {
            None => {
                proof {
                    assert(!search_runs(g, depth as nat, true, g.active_colour, i64::MIN, i64::MAX));
                    if search_ok(g, max_depth as nat) {
                        lemma_search_ok_shallower(g, max_depth as nat, depth as nat);
                    }
                }
                return None;
            },
            Some((evaluation, best)) => {
                proof {
                    lemma_runs_value_in_range(g, depth as nat, true, g.active_colour, i64::MIN, i64::MAX);
                }
                if evaluation > best_evaluation {
                    best_move = best;
                }
            },
        }
    }
    proof {
        if max_depth > 0 {
            lemma_search_move_legal(g, max_depth as nat, true, g.active_colour, i64::MIN, i64::MAX);
            assert(search_runs(g, max_depth as nat, true, g.active_colour, i64::MIN, i64::MAX));
        }
    }
    Some(best_move)
}

} // verus!
