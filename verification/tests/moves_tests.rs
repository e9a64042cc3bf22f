use rust_chess::game::{Colour, Game, PieceType};
use rust_chess::moves::{
    calculate_sliding_attacked_squares_excluding_own, calculate_sliding_attacked_squares_including_own,
    generate_moves, generate_pseudolegal_moves_without_castling, make_move, pieces_giving_check_bitboard,
    pinned_pieces_bitboard, square_under_threat, squares_attacked_by_opponent_bitboard, unmake_move, Move,
};
use rust_chess::moves_king::{generate_king_attacked_squares_including_own, precompute_king_move_bitboards};
use rust_chess::moves_knight::{generate_knight_attacked_squares_including_own, precompute_knight_move_bitboards};
use rust_chess::moves_pawn::{generate_pawn_attacked_squares_including_own, generate_pawn_moves};
use rust_chess::utils::onebit_index_to_coords;

const STARTING_FEN: &str = "rnbqkbnr/pppppppp/8/8/8/8/PPPPPPPP/RNBQKBNR w KQkq - 0 1";
const PERFT_3_FEN: &str = "8/2p5/3p4/KP5r/1R3p1k/8/4P1P1/8 w - - 0 1";
const PERFT_2_FEN: &str = "r3k2r/p1ppqpb1/bn2pnp1/3PN3/1p2P3/2N2Q1p/PPPBBPPP/R3K2R w KQkq - 0 1";
const PERFT_4_FEN: &str = "r3k2r/Pppp1ppp/1b3nbN/nP6/BBP1P3/q4N2/Pp1P2PP/R2Q1RK1 w kq - 0 1";
const PERFT_5_FEN: &str = "rnbq1k1r/pp1Pbppp/2p5/8/2B5/8/PPP1NnPP/RNBQK2R w KQ - 1 8";
const PERFT_6_FEN: &str = "r4rk1/1pp1qppp/p1np1n2/2b1p1B1/2B1P1b1/P1NP1N2/1PP1QPPP/R4RK1 w - - 0 1";
const CASTLING_FEN: &str = "5k2/8/8/8/8/8/2R5/R3K2R w KQkq - 0 1";
const LEGAL_TEST_FEN: &str = "8/4k3/8/8/4R3/8/8/4K3 b - - 0 1";
const LEGAL_TEST_4_FEN: &str = "8/8/8/2k5/3Pp3/8/8/4K3 b - d3 0 1";

fn perft_func(depth: u32, game: &mut Game) -> u32 {
    if depth == 0 {
        return 1;
    }
    let mut total = 0;

    let n_moves = generate_moves(game);
    for n_move in n_moves.iter() {
        let move_to_unmake = make_move(game, *n_move);
        let nodes: u32 = perft_func(depth - 1, game);
        let depth_to_print = 3;
        if depth == depth_to_print {
            println!(
                "{:?}{:?}: {}",
                onebit_index_to_coords(n_move.from_square).to_string(),
                onebit_index_to_coords(n_move.to_square).to_string(),
                nodes
            );
        }
        total += nodes;
        unmake_move(game, move_to_unmake);
    }
    total
}

fn run_perft_test(game: &mut Game, expected_node_counts: &[u32], test_number: i32) {
    for (depth, &expected_nodes) in expected_node_counts.iter().enumerate() {
        let nodes = perft_func(depth as u32, game);
        assert_eq!(nodes, expected_nodes, "Mismatch at depth {}", depth);
        println!("Test {}: Depth {}: Success! Expected {} nodes, got {}", test_number, depth, expected_nodes, nodes);
    }
}

#[test]
fn perft_1() {
    let test_number = 1;
    let expected_node_counts = [1, 20, 400, 8_902];

    let mut game = Game::initialize(STARTING_FEN);
    run_perft_test(&mut game, &expected_node_counts, test_number);
}

#[test]
fn perft_2() {
    let test_number = 2;
    let expected_node_counts = [1, 48, 2_039, 97_862];

    let mut game = Game::initialize(PERFT_2_FEN);
    run_perft_test(&mut game, &expected_node_counts, test_number);
}

#[test]
fn perft_3_standard_counts() {
    // The third perft position with its standard node counts.
    let test_number = 3;
    let expected_node_counts = [1, 14, 191, 2_812, 43_238];

    let mut game = Game::initialize(PERFT_3_FEN);
    run_perft_test(&mut game, &expected_node_counts, test_number);
}

#[test]
fn pinned_pawn_may_not_expose_the_king() {
    // The b5 pawn is pinned against the king on a5 by the rook on h5.
    let game = Game::initialize(PERFT_3_FEN);
    let moves = generate_moves(&game);
    assert_eq!(moves.len(), 14);
    assert!(!moves.iter().any(|m| m.from_square == 33 && m.to_square == 41));
}

#[test]
fn perft_4() {
    let test_number = 4;
    let expected_node_counts = [1, 6, 264, 9_467];

    let mut game = Game::initialize(PERFT_4_FEN);
    run_perft_test(&mut game, &expected_node_counts, test_number);
}

#[test]
fn perft_5() {
    let test_number = 5;
    let expected_node_counts = [1, 44, 1_486, 62_379];

    let mut game = Game::initialize(PERFT_5_FEN);
    run_perft_test(&mut game, &expected_node_counts, test_number);
}

#[test]
fn perft_6() {
    let test_number = 6;
    let expected_node_counts = [1, 46, 2_079, 89_890];

    let mut game = Game::initialize(PERFT_6_FEN);
    run_perft_test(&mut game, &expected_node_counts, test_number);
}

#[test]
fn starting_position_move_counts() {
    let mut game = Game::initialize(STARTING_FEN);
    assert_eq!(generate_moves(&game).len(), 20);
    assert_eq!(perft_func(2, &mut game), 400);
}

#[test]
fn make_then_unmake_restores_the_game() {
    let mut game = Game::initialize(STARTING_FEN);
    let before = Game::write_FEN_without_move_counts(&game);
    for m in generate_moves(&game) {
        let pieces = game.pieces.clone();
        let squares = game.squares.clone();
        let undo = make_move(&mut game, m);
        assert_ne!(Game::write_FEN_without_move_counts(&game), before);
        unmake_move(&mut game, undo);
        assert_eq!(game.pieces, pieces);
        assert_eq!(game.squares, squares);
        assert_eq!(game.active_colour, Colour::White);
        assert_eq!(Game::write_FEN_without_move_counts(&game), before);
    }
}

#[test]
fn making_a_move_switches_sides() {
    let mut game = Game::initialize(STARTING_FEN);
    let e4 = Move { from_square: 12, to_square: 28, promotion: None, capture_square: None };
    let moves = generate_moves(&game);
    let m = *moves.iter().find(|m| m.from_square == e4.from_square && m.to_square == e4.to_square).unwrap();
    make_move(&mut game, m);
    assert_eq!(game.active_colour, Colour::Black);
    assert_eq!(
        Game::write_FEN_without_move_counts(&game),
        "rnbqkbnr/pppppppp/8/8/4P3/8/PPPP1PPP/RNBQKBNR b KQkq e3"
    );
}

#[test]
fn castling_moves_are_generated() {
    let game = Game::initialize(CASTLING_FEN);
    let moves = generate_moves(&game);
    assert!(moves.iter().any(|m| m.from_square == 4 && m.to_square == 6));
    assert!(moves.iter().any(|m| m.from_square == 4 && m.to_square == 2));
}

#[test]
fn castling_moves_the_rook() {
    let mut game = Game::initialize(CASTLING_FEN);
    let moves = generate_moves(&game);
    let castle = *moves.iter().find(|m| m.from_square == 4 && m.to_square == 6).unwrap();
    let undo = make_move(&mut game, castle);
    assert_eq!(Game::write_FEN_without_move_counts(&game), "5k2/8/8/8/8/8/2R5/R4RK1 b kq -");
    unmake_move(&mut game, undo);
    assert_eq!(Game::write_FEN_without_move_counts(&game), "5k2/8/8/8/8/8/2R5/R3K2R w KQkq -");
}

#[test]
fn in_check_only_escapes_are_legal() {
    let game = Game::initialize(LEGAL_TEST_FEN);
    let moves = generate_moves(&game);
    assert!(!moves.is_empty());
    // The king on e7 may not stay on the e-file.
    assert!(moves.iter().all(|m| m.from_square == 52 && m.to_square % 8 != 4));
    let checking = pieces_giving_check_bitboard(&game, Colour::White);
    assert_eq!(checking, 1u64 << 28);
}

#[test]
fn en_passant_capture_is_generated() {
    let game = Game::initialize(LEGAL_TEST_4_FEN);
    let moves = generate_moves(&game);
    assert!(moves.iter().any(|m| m.from_square == 28 && m.to_square == 19 && m.capture_square == Some(27)));
}

#[test]
fn attacked_squares_of_the_opponent() {
    let game = Game::initialize(STARTING_FEN);
    let attacked = squares_attacked_by_opponent_bitboard(&game, Colour::Black);
    // Black attacks the whole sixth rank at the start.
    assert_eq!(attacked & 0x0000_ff00_0000_0000, 0x0000_ff00_0000_0000);
    assert_eq!(attacked & 0xffff_ffff, 0);
    assert_eq!(pinned_pieces_bitboard(&game, Colour::Black), 0);
    let pseudo = generate_pseudolegal_moves_without_castling(&game);
    assert_eq!(pseudo.len(), 20);
    assert!(square_under_threat(28, &pseudo));
    assert!(!square_under_threat(36, &pseudo));
}

#[test]
fn knight_and_king_steps() {
    assert_eq!(generate_knight_attacked_squares_including_own(0), (1u64 << 10) | (1u64 << 17));
    assert_eq!(generate_king_attacked_squares_including_own(0), (1u64 << 1) | (1u64 << 8) | (1u64 << 9));
    let knights = precompute_knight_move_bitboards();
    let kings = precompute_king_move_bitboards();
    assert_eq!(knights.len(), 64);
    assert_eq!(kings.len(), 64);
    assert_eq!(knights[63], (1u64 << 46) | (1u64 << 53));
    assert_eq!(kings[27].count_ones(), 8);
}

#[test]
fn pawn_attacks_diagonally_forward() {
    assert_eq!(generate_pawn_attacked_squares_including_own(12, Colour::White), (1u64 << 19) | (1u64 << 21));
    assert_eq!(generate_pawn_attacked_squares_including_own(8, Colour::White), 1u64 << 17);
    assert_eq!(generate_pawn_attacked_squares_including_own(52, Colour::Black), (1u64 << 43) | (1u64 << 45));
    assert_eq!(generate_pawn_attacked_squares_including_own(60, Colour::White), 0);
}

#[test]
fn sliding_attacks_stop_at_blockers() {
    // The north ray of a1: a2 .. a8, blocked on a4.
    let ray: u64 = (1u64 << 8) | (1u64 << 16) | (1u64 << 24) | (1u64 << 32) | (1u64 << 40) | (1u64 << 48) | (1u64 << 56);
    let occupied = 1u64 << 24;
    assert_eq!(calculate_sliding_attacked_squares_including_own(ray, occupied, 0), (1u64 << 8) | (1u64 << 16) | (1u64 << 24));
    assert_eq!(calculate_sliding_attacked_squares_excluding_own(ray, occupied, 0, occupied), (1u64 << 8) | (1u64 << 16));
    assert_eq!(calculate_sliding_attacked_squares_including_own(ray, 0, 0), ray);
}

fn squares_and_pieces_agree(game: &Game) -> bool {
    for (s, square) in game.squares.iter().enumerate() {
        if let rust_chess::game::Square::Occupied(i) = square {
            let p = &game.pieces[*i];
            if p.taken || p.bit != 1u64 << s {
                return false;
            }
        }
    }
    game.pieces.iter().enumerate().all(|(i, p)| {
        p.taken || game.squares[p.bit.trailing_zeros() as usize] == rust_chess::game::Square::Occupied(i)
    })
}

#[test]
fn moves_keep_squares_and_pieces_in_agreement() {
    let mut game = Game::initialize(PERFT_2_FEN);
    assert!(squares_and_pieces_agree(&game));
    for m in generate_moves(&game) {
        let undo = make_move(&mut game, m);
        assert!(squares_and_pieces_agree(&game));
        for reply in generate_moves(&game) {
            let undo_reply = make_move(&mut game, reply);
            assert!(squares_and_pieces_agree(&game));
            unmake_move(&mut game, undo_reply);
        }
        unmake_move(&mut game, undo);
    }
}

#[test]
fn captures_mark_the_victim_taken() {
    let mut game = Game::initialize("4k3/8/8/3q4/8/8/8/3RK3 w - - 0 1");
    let moves = generate_moves(&game);
    let capture = *moves.iter().find(|m| m.from_square == 3 && m.to_square == 35).unwrap();
    let queen = game.pieces.iter().position(|p| p.bit == 1u64 << 35).unwrap();
    let undo = make_move(&mut game, capture);
    assert!(game.pieces[queen].taken);
    assert_eq!(undo.captured_piece_index, Some(queen));
    assert_eq!(Game::write_FEN_without_move_counts(&game), "4k3/8/8/3R4/8/8/8/4K3 b - -");
}

#[test]
fn playable_positions() {
    assert!(Game::initialize(STARTING_FEN).is_playable());
    assert!(!Game::initialize("8/8/8/8/8/8/8/4K3 w - - 0 1").is_playable());
    assert!(Game::initialize("8/8/8/8/8/8/8/k6K w - - 0 1").is_playable());
    assert!(!Game::initialize("k6K/8/8/8/8/8/8/8 w K - 0 1").is_playable());
}

#[test]
fn castling_refused_through_a_pawn_attack() {
    // The black pawn on e2 attacks f1, which the king would cross.
    let game = Game::initialize("4k3/8/8/8/8/8/4p3/4K2R w K - 0 1");
    let moves = generate_moves(&game);
    assert!(!moves.iter().any(|m| m.from_square == 4 && m.to_square == 6));
    let game = Game::initialize("4k3/8/8/8/8/8/8/4K2R w K - 0 1");
    assert!(generate_moves(&game).iter().any(|m| m.from_square == 4 && m.to_square == 6));
}

#[test]
fn knight_may_take_the_checking_piece() {
    // The rook on e4 checks the king on e7; the knight on f6 can take it.
    let game = Game::initialize("8/4k3/5n2/8/4R3/8/8/4K3 b - - 0 1");
    let moves = generate_moves(&game);
    assert!(moves.iter().any(|m| m.from_square == 45 && m.to_square == 28));
    assert!(moves.iter().filter(|m| m.from_square == 45).count() == 1);
}

#[test]
fn consistency_of_parsed_positions() {
    for fen in [
        STARTING_FEN,
        "r3k2r/p1ppqpb1/bn2pnp1/3PN3/1p2P3/2N2Q1p/PPPBBPPP/R3K2R w KQkq - 0 1",
        "8/2p5/3p4/KP5r/1R3p1k/8/4P1P1/8 w - - 0 1",
    ] {
        let game = Game::initialize(fen);
        assert!(game.is_consistent());
        assert!(game.pieces.iter().all(|p| !p.taken));
        assert_eq!(game.colour_in_check, None);
        assert_eq!(game.last_move, None);
    }
    let mut broken = Game::initialize(STARTING_FEN);
    broken.squares[0] = broken.squares[1];
    assert!(!broken.is_consistent());
}

#[test]
fn rook_moves_and_captures_drop_corner_rights() {
    let mut game = Game::initialize("r3k2r/8/8/8/8/8/8/R3K2R w KQkq - 0 1");
    let moves = generate_moves(&game);
    // The rook on h1 takes the rook on h8: White loses the king side, Black the king side too.
    let capture = *moves.iter().find(|m| m.from_square == 7 && m.to_square == 63).unwrap();
    make_move(&mut game, capture);
    assert_eq!(game.castling_rights.bits(), 2 | 8);
    // The black king steps aside: Black keeps no right.
    let moves = generate_moves(&game);
    let step = *moves.iter().find(|m| m.from_square == 60 && m.to_square == 52).unwrap();
    make_move(&mut game, step);
    assert_eq!(game.castling_rights.bits(), 2);
}

#[test]
fn promotions_come_in_order_queen_rook_bishop_knight() {
    let game = Game::initialize("1n6/P7/8/8/8/8/8/k6K w - - 0 1");
    let moves = generate_pawn_moves(48, &game);
    let expected = [
        (56, Some(PieceType::Queen)),
        (56, Some(PieceType::Rook)),
        (56, Some(PieceType::Bishop)),
        (56, Some(PieceType::Knight)),
        (57, Some(PieceType::Queen)),
        (57, Some(PieceType::Rook)),
        (57, Some(PieceType::Bishop)),
        (57, Some(PieceType::Knight)),
    ];
    assert_eq!(moves.len(), expected.len());
    for (m, (to, promotion)) in moves.iter().zip(expected.iter()) {
        assert_eq!(m.from_square, 48);
        assert_eq!(m.to_square, *to);
        assert_eq!(m.promotion, *promotion);
    }
    // A pawn on the last rank has no moves.
    let game = Game::initialize("P7/8/8/8/8/8/8/k6K w - - 0 1");
    assert!(generate_pawn_moves(56, &game).is_empty());
}

#[test]
fn king_steps_avoid_attacked_squares() {
    // A rook on d2 covers the second rank and the d-file; taking it is allowed.
    let game = Game::initialize("4k3/8/8/8/8/8/3r4/4K3 w - - 0 1");
    let mut targets: Vec<usize> = generate_moves(&game).iter().map(|m| m.to_square).collect();
    targets.sort();
    assert_eq!(targets, vec![5, 11]);
    // A rook checking along the first rank also covers the square behind the king.
    let game = Game::initialize("4k3/8/8/8/8/8/8/r3K3 w - - 0 1");
    let mut targets: Vec<usize> = generate_moves(&game).iter().map(|m| m.to_square).collect();
    targets.sort();
    assert_eq!(targets, vec![11, 12, 13]);
}
