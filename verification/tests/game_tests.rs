use rust_chess::game::{CastlingRights, Colour, Game, GameStatus, PieceType, PositionCounts, Square};
use rust_chess::moves::{generate_moves, Move};
use rust_chess::game::{engine_to_move, has_piece_to_move, is_fivefold_repetition};

const STARTING_FEN: &str = "rnbqkbnr/pppppppp/8/8/8/8/PPPPPPPP/RNBQKBNR w KQkq - 0 1";
const PERFT_2_FEN: &str = "r3k2r/p1ppqpb1/bn2pnp1/3PN3/1p2P3/2N2Q1p/PPPBBPPP/R3K2R w KQkq - 0 1";
const PERFT_5_FEN: &str = "rnbq1k1r/pp1Pbppp/2p5/8/2B5/8/PPP1NnPP/RNBQK2R w KQ - 1 8";
const LEGAL_TEST_4_FEN: &str = "8/8/8/2k5/3Pp3/8/8/4K3 b - d3 0 1";
const DRAW_FEN: &str = "4kn1n/8/8/8/8/8/8/4K3 w KQkq - 0 1";
const KNIGHT_DRAW_FEN: &str = "4kn2/8/8/8/8/8/8/4K3 w - - 0 1";

#[test]
fn starting_position_reads() {
    let game = Game::initialize(STARTING_FEN);
    assert_eq!(game.pieces.len(), 32);
    assert_eq!(game.squares.len(), 64);
    assert_eq!(game.active_colour, Colour::White);
    assert_eq!(game.castling_rights.bits(), 15);
    assert_eq!(game.en_passant, None);
    assert_eq!(game.halfmove_clock, 0);
    assert_eq!(game.fullmove_number, 1);
    // a8 is the first piece read, a black rook
    assert_eq!(game.pieces[0].piece_type, PieceType::Rook);
    assert_eq!(game.pieces[0].colour, Colour::Black);
    assert_eq!(game.pieces[0].bit, 1u64 << 56);
    assert_eq!(game.squares[56], Square::Occupied(0));
    assert_eq!(game.squares[0], Square::Occupied(24));
    assert_eq!(game.pieces[24].piece_type, PieceType::Rook);
    assert_eq!(game.pieces[24].colour, Colour::White);
    assert_eq!(game.squares[27], Square::Empty);
}

#[test]
fn fen_fields_read() {
    let game = Game::initialize(PERFT_5_FEN);
    assert_eq!(game.castling_rights.bits(), 3);
    assert_eq!(game.halfmove_clock, 1);
    assert_eq!(game.fullmove_number, 8);
    let game = Game::initialize(LEGAL_TEST_4_FEN);
    assert_eq!(game.active_colour, Colour::Black);
    assert_eq!(game.en_passant, Some(1u64 << 19));
    assert_eq!(game.castling_rights.bits(), 0);
}

#[test]
fn unreadable_fen_records_are_refused() {
    assert!(Game::try_initialize(STARTING_FEN).is_some());
    assert!(Game::try_initialize("rnbqkbnr/ppppxppp/8/8/8/8/PPPPPPPP/RNBQKBNR w KQkq - 0 1").is_none());
    assert!(Game::try_initialize("rnbqkbnr/pppppppp/8/8/8/8/PPPPPPPP/RNBQKBNR x KQkq - 0 1").is_none());
    assert!(Game::try_initialize("rnbqkbnr/pppppppp/8/8/8/8/PPPPPPPP/RNBQKBNR w KQxq - 0 1").is_none());
    assert!(Game::try_initialize("rnbqkbnr/pppppppp/8/8/8/8/PPPPPPPP/RNBQKBNR w KQkq z9 0 1").is_none());
    assert!(Game::try_initialize("rnbqkbnr/pppppppp/8/8/8/8/PPPPPPPP/RNBQKBNR w KQkq - x 1").is_none());
    assert!(Game::try_initialize("rnbqkbnr/pppppppp/8/8/8/8/PPPPPPPP/RNBQKBNR w KQkq - 0").is_none());
    assert!(Game::try_initialize("rnbqkbnrr/pppppppp/8/8/8/8/PPPPPPPP/RNBQKBNR w KQkq - 0 1").is_none());
    assert!(Game::try_initialize("").is_none());
}

#[test]
fn fen_written_back_without_move_counts() {
    for fen in [STARTING_FEN, PERFT_2_FEN, PERFT_5_FEN, LEGAL_TEST_4_FEN] {
        let game = Game::initialize(fen);
        let written = Game::write_FEN_without_move_counts(&game);
        let expected: Vec<&str> = fen.split(' ').take(4).collect();
        assert_eq!(written, expected.join(" "));
    }
}

#[test]
fn castling_rights_flags() {
    let mut rights = CastlingRights::none();
    assert!(rights.is_empty());
    rights.insert(CastlingRights::white_kingside());
    rights.insert(CastlingRights::black_queenside());
    assert_eq!(rights.bits(), 9);
    assert!(rights.contains(CastlingRights::white_kingside()));
    assert!(!rights.contains(CastlingRights::white_queenside()));
    rights.remove(CastlingRights::white_kingside());
    assert_eq!(rights.bits(), 8);
    assert_eq!(CastlingRights::from_bits_truncate(0xff).bits(), 15);
    assert_eq!(CastlingRights::all().bits(), 15);
}

#[test]
fn board_drawing_has_ranks_and_files() {
    let game = Game::initialize(STARTING_FEN);
    let text = game.to_string();
    assert!(text.starts_with("   a  b  c  d  e  f  g  h\n8 "));
    assert!(text.ends_with(" 1\n   a  b  c  d  e  f  g  h"));
    assert_eq!(text.matches('\n').count(), 9);
    assert!(text.contains("\x1b[97m ♚ "));
    assert!(text.contains("\x1b[30m ♛ "));
    assert_eq!(game.pieces[0].to_string(), "\x1b[30m ♜ ");
}

#[test]
fn game_status_of_positions() {
    let game = Game::initialize(STARTING_FEN);
    let moves = generate_moves(&game);
    assert_eq!(rust_chess::game::game_status(&game, &moves), GameStatus::Ongoing { in_check: false });
    // Two knights and a king are more than two pieces: play goes on.
    let game = Game::initialize(DRAW_FEN);
    let moves = generate_moves(&game);
    assert_eq!(rust_chess::game::game_status(&game, &moves), GameStatus::Ongoing { in_check: false });
    let game = Game::initialize(KNIGHT_DRAW_FEN);
    let moves = generate_moves(&game);
    assert_eq!(rust_chess::game::game_status(&game, &moves), GameStatus::InsufficientMaterial);
    let mut game = Game::initialize(STARTING_FEN);
    game.colour_in_check = Some(Colour::White);
    assert_eq!(rust_chess::game::game_status(&game, &Vec::new()), GameStatus::Checkmate(Colour::Black));
    game.colour_in_check = None;
    assert_eq!(rust_chess::game::game_status(&game, &Vec::new()), GameStatus::Stalemate);
}

#[test]
fn position_counts_count_each_record() {
    let mut counts = PositionCounts::new();
    assert_eq!(counts.get(&"a".to_string()), 0);
    assert_eq!(counts.record("a".to_string()), 1);
    assert_eq!(counts.record("b".to_string()), 1);
    assert_eq!(counts.record("a".to_string()), 2);
    assert_eq!(counts.get(&"a".to_string()), 2);
    assert_eq!(counts.get(&"b".to_string()), 1);
    for _ in 0..3 {
        counts.record("a".to_string());
    }
    assert_eq!(counts.get(&"a".to_string()), 5);
}

#[test]
fn bitboards_of_the_sides() {
    let game = Game::initialize(STARTING_FEN);
    assert_eq!(game.get_friendly_piece_bitboard(), 0xffff);
    assert_eq!(game.get_enemy_piece_bitboard(), 0xffff_0000_0000_0000);
    assert_eq!(game.get_occupied_bitboard(), 0xffff_0000_0000_ffff);
}

#[test]
fn turn_decisions() {
    assert!(engine_to_move(0, Colour::White));
    assert!(engine_to_move(1, Colour::Black));
    assert!(!engine_to_move(1, Colour::White));
    assert!(!engine_to_move(2, Colour::Black));
    assert!(is_fivefold_repetition(5));
    assert!(!is_fivefold_repetition(4));
    let game = Game::initialize(STARTING_FEN);
    assert!(has_piece_to_move(&game, Move { from_square: 12, to_square: 28, promotion: None, capture_square: None }));
    assert!(!has_piece_to_move(&game, Move { from_square: 52, to_square: 36, promotion: None, capture_square: None }));
    assert!(!has_piece_to_move(&game, Move { from_square: 28, to_square: 36, promotion: None, capture_square: None }));
    assert!(game.can_be_written());
    let mut broken = Game::initialize(STARTING_FEN);
    broken.squares[20] = Square::Occupied(99);
    assert!(!broken.can_be_written());
}
