use rust_chess::evaluation::{evaluate_game, iterative_deepening_minimax, minimax, order_moves, piece_evaluation, piece_value, king_positional_eval};
use rust_chess::game::{Colour, Game, Piece, PieceType};
use rust_chess::moves::{generate_moves, make_move, move_can_be_made, unmake_move};
use rust_chess::move_laws::move_can_be_undone;
use rust_chess::checked_search::{checked_minimax, try_iterative_deepening_minimax};

const STARTING_FEN: &str = "rnbqkbnr/pppppppp/8/8/8/8/PPPPPPPP/RNBQKBNR w KQkq - 0 1";
const QUEEN_HANGS_FEN: &str = "4k3/8/8/3q4/8/8/8/3RK3 w - - 0 1";
const KIWIPETE_FEN: &str = "r3k2r/p1ppqpb1/bn2pnp1/3PN3/1p2P3/2N2Q1p/PPPBBPPP/R3K2R w KQkq - 0 1";
const ROOKLESS_CASTLE_FEN: &str = "4k3/8/8/8/8/8/8/4K3 w K - 0 1";

#[test]
fn piece_values_in_centipawns() {
    assert_eq!(piece_value(PieceType::Pawn), 100);
    assert_eq!(piece_value(PieceType::Bishop), 320);
    assert_eq!(piece_value(PieceType::Knight), 330);
    assert_eq!(piece_value(PieceType::Rook), 500);
    assert_eq!(piece_value(PieceType::Queen), 900);
    assert_eq!(piece_value(PieceType::King), 20_000);
}

#[test]
fn king_table_switches_in_the_end_game() {
    assert_eq!(king_positional_eval(0, false), -30);
    assert_eq!(king_positional_eval(0, true), -50);
}

#[test]
fn piece_evaluation_adds_the_square_bonus() {
    // A white knight on b1 is seen from Black's side as square 62 of the table.
    let knight = Piece { bit: 1u64 << 1, colour: Colour::White, piece_type: PieceType::Knight, taken: false };
    assert_eq!(piece_evaluation(&knight, false), 330 - 40);
    let pawn = Piece { bit: 1u64 << 52, colour: Colour::Black, piece_type: PieceType::Pawn, taken: false };
    assert_eq!(piece_evaluation(&pawn, false), 100 - 20);
}

#[test]
fn evaluations_of_the_two_sides_are_opposite() {
    let game = Game::initialize(STARTING_FEN);
    let moves = generate_moves(&game);
    let white = evaluate_game(&game, Colour::White, &moves);
    assert_eq!(evaluate_game(&game, Colour::Black, &moves), -white);
    assert!(white.abs() < 100);
}

#[test]
fn captures_are_tried_first() {
    let game = Game::initialize(QUEEN_HANGS_FEN);
    let moves = generate_moves(&game);
    let ordered = order_moves(&game, &moves);
    assert_eq!(ordered.len(), moves.len());
    assert_eq!((ordered[0].from_square, ordered[0].to_square), (3, 35));
}

#[test]
fn search_takes_the_hanging_queen() {
    let mut game = Game::initialize(QUEEN_HANGS_FEN);
    let before = Game::write_FEN_without_move_counts(&game);
    let best = iterative_deepening_minimax(&mut game, 2).unwrap();
    assert_eq!((best.from_square, best.to_square), (3, 35));
    assert_eq!(Game::write_FEN_without_move_counts(&game), before);
    assert_eq!(iterative_deepening_minimax(&mut game, 0), None);
}

#[test]
fn minimax_at_depth_zero_is_the_evaluation() {
    let mut game = Game::initialize(QUEEN_HANGS_FEN);
    let moves = generate_moves(&game);
    let evaluation = evaluate_game(&game, Colour::White, &moves) as i64;
    assert_eq!(minimax(&mut game, 0, true, Colour::White, i64::MIN, i64::MAX), (evaluation, None));
    let (value, best) = minimax(&mut game, 1, true, Colour::White, i64::MIN, i64::MAX);
    assert!(value > evaluation);
    assert_eq!(best.map(|m| (m.from_square, m.to_square)), Some((3, 35)));
}

fn plain_minimax(game: &mut Game, depth: u32, maximizing: bool, colour: Colour) -> i64 {
    let moves = generate_moves(game);
    if depth == 0 || moves.is_empty() {
        return evaluate_game(game, colour, &moves) as i64;
    }
    let mut best = if maximizing { i64::MIN } else { i64::MAX };
    for m in order_moves(game, &moves) {
        let undo = make_move(game, m);
        let value = plain_minimax(game, depth - 1, !maximizing, colour);
        unmake_move(game, undo);
        best = if maximizing { best.max(value) } else { best.min(value) };
    }
    best
}

#[test]
fn alpha_beta_finds_the_plain_minimax_value() {
    for fen in [STARTING_FEN, QUEEN_HANGS_FEN, KIWIPETE_FEN] {
        let mut game = Game::initialize(fen);
        let colour = game.active_colour;
        for depth in 1..=2 {
            let plain = plain_minimax(&mut game, depth, true, colour);
            let (value, best) = minimax(&mut game, depth, true, colour, i64::MIN, i64::MAX);
            assert_eq!(value, plain);
            // The move found reaches that value.
            let best = best.unwrap();
            let undo = make_move(&mut game, best);
            assert_eq!(plain_minimax(&mut game, depth - 1, false, colour), plain);
            unmake_move(&mut game, undo);
        }
    }
}

#[test]
fn narrow_windows_bound_the_value() {
    let mut game = Game::initialize(KIWIPETE_FEN);
    let colour = game.active_colour;
    let plain = plain_minimax(&mut game, 2, true, colour);
    let (low, _) = minimax(&mut game, 2, true, colour, plain + 10, plain + 20);
    assert!(plain <= low && low <= plain + 10);
    let (high, _) = minimax(&mut game, 2, true, colour, plain - 20, plain - 10);
    assert!(plain - 10 <= high && high <= plain);
    let (exact, _) = minimax(&mut game, 2, true, colour, plain - 1, plain + 1);
    assert_eq!(exact, plain);
}

#[test]
fn checked_search_agrees_with_minimax() {
    for fen in [STARTING_FEN, QUEEN_HANGS_FEN, KIWIPETE_FEN] {
        let mut game = Game::initialize(fen);
        let colour = game.active_colour;
        let before = Game::write_FEN_without_move_counts(&game);
        for depth in 0..=2 {
            let checked = checked_minimax(&mut game, depth, true, colour, i64::MIN, i64::MAX);
            assert_eq!(checked, Some(minimax(&mut game, depth, true, colour, i64::MIN, i64::MAX)));
            assert_eq!(Game::write_FEN_without_move_counts(&game), before);
        }
    }
}

#[test]
fn checked_search_refuses_a_game_without_kings() {
    let mut game = Game::initialize("8/8/8/8/8/8/8/8 w - - 0 1");
    assert_eq!(checked_minimax(&mut game, 1, true, Colour::White, i64::MIN, i64::MAX), None);
    assert_eq!(try_iterative_deepening_minimax(&mut game, 2), None);
}

#[test]
fn checked_deepening_takes_the_hanging_queen() {
    let mut game = Game::initialize(QUEEN_HANGS_FEN);
    let before = Game::write_FEN_without_move_counts(&game);
    let best = try_iterative_deepening_minimax(&mut game, 2).unwrap().unwrap();
    assert_eq!((best.from_square, best.to_square), (3, 35));
    assert_eq!(Game::write_FEN_without_move_counts(&game), before);
    assert_eq!(try_iterative_deepening_minimax(&mut game, 0), Some(None));
    assert_eq!(try_iterative_deepening_minimax(&mut game, 2), Some(iterative_deepening_minimax(&mut game, 2)));
}

#[test]
fn castling_without_a_rook_is_searched_and_taken_back() {
    let mut game = Game::initialize(ROOKLESS_CASTLE_FEN);
    let before = Game::write_FEN_without_move_counts(&game);
    let moves = generate_moves(&game);
    let castle = moves.iter().copied().find(|m| m.from_square == 4 && m.to_square == 6).unwrap();
    assert!(move_can_be_made(&game, castle));
    assert!(move_can_be_undone(&game, castle));
    let pieces = game.pieces.clone();
    let squares = game.squares.clone();
    let undo = make_move(&mut game, castle);
    unmake_move(&mut game, undo);
    assert_eq!(game.pieces, pieces);
    assert_eq!(game.squares, squares);
    assert_eq!(Game::write_FEN_without_move_counts(&game), before);
    let value = minimax(&mut game, 2, true, Colour::White, i64::MIN, i64::MAX);
    assert_eq!(checked_minimax(&mut game, 2, true, Colour::White, i64::MIN, i64::MAX), Some(value));
    assert!(try_iterative_deepening_minimax(&mut game, 2).unwrap().is_some());
    assert_eq!(Game::write_FEN_without_move_counts(&game), before);
}

#[test]
fn checked_search_refuses_a_castle_it_cannot_take_back() {
    // A taken knight left on h1 stands where the castling king looks for its rook.
    let mut game = Game::initialize(ROOKLESS_CASTLE_FEN);
    game.pieces.push(Piece { bit: 1u64 << 7, colour: Colour::White, piece_type: PieceType::Knight, taken: true });
    let castle = generate_moves(&game).into_iter().find(|m| m.from_square == 4 && m.to_square == 6).unwrap();
    assert!(move_can_be_made(&game, castle));
    assert!(!move_can_be_undone(&game, castle));
    let moves = generate_moves(&game);
    let evaluation = evaluate_game(&game, Colour::White, &moves) as i64;
    assert_eq!(checked_minimax(&mut game, 0, true, Colour::White, i64::MIN, i64::MAX), Some((evaluation, None)));
    assert_eq!(checked_minimax(&mut game, 1, true, Colour::White, i64::MIN, i64::MAX), None);
    assert_eq!(try_iterative_deepening_minimax(&mut game, 1), None);
}
