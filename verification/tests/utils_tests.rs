use rust_chess::utils::{
    algebraic_matches, ascii_lowercase, bit_to_coords, bit_to_onebit_index, bitboard_to_indices,
    choose_match, coords_to_bit, coords_to_onebit_index, decimal, find_promotion_match,
    get_piece_index, onebit_index_to_bit, onebit_index_to_coords, parse_FEN_row, parse_unsigned,
    promotion_choice, split_on, splits_cleanly, MoveChoice,
};
use rust_chess::game::{Colour, Game, PieceType, Square};
use rust_chess::uci::parse_go_depth;
use rust_chess::moves::generate_moves;

const STARTING_FEN: &str = "rnbqkbnr/pppppppp/8/8/8/8/PPPPPPPP/RNBQKBNR w KQkq - 0 1";
const PROMOTION_FEN: &str = "1n2k21/PPP5/4PPPP/8/8/8/8/RNBQKBNR w KQkq - 0 1";
const AMBIGUOUS_FEN: &str = "3r3r/2k5/8/R7/4Q2Q/8/8/RK5Q w KQkq - 0 1";

#[test]
fn split_on_space_works() {
    let test_string = "A B C D";
    let (should_be_a, _rest) = split_on(test_string, ' ');
    assert_eq!(should_be_a, "A");
    let (_should_be_b, _rest) = split_on(test_string, ' ');
}

#[test]
fn split_on_ascii_works() {
    for i in 0..128u8 {
        let ch = char::from(i);
        if ch == 'A' {
            continue;
        }
        let test_string = format!("AA{}BB{}CC{}DD", ch, ch, ch);
        let (should_be_a, rest) = split_on(&test_string, ch);
        assert_eq!(should_be_a, "AA", "{}, {}, {}", test_string, ch, i);
        assert_eq!(rest, &format!("BB{}CC{}DD", ch, ch));
    }
}

#[test]
fn split_on_without_separator_keeps_everything() {
    let (before, after) = split_on("abc", ' ');
    assert_eq!(before, "abc");
    assert_eq!(after, "");
    let (before, after) = split_on("abc ", ' ');
    assert_eq!(before, "abc");
    assert_eq!(after, "");
}

#[test]
fn split_on_rejoins_to_the_text() {
    let text = "rnbqkbnr/pppppppp w KQkq";
    let (before, after) = split_on(text, ' ');
    assert_eq!(format!("{} {}", before, after), text);
}

#[test]
fn splits_cleanly_checks_ascii_up_to_separator() {
    assert!(splits_cleanly("ab cé", ' '));
    assert!(!splits_cleanly("é b", ' '));
    assert!(splits_cleanly("éé", ' '));
}

#[test]
fn coords_of_corner_squares() {
    assert_eq!(onebit_index_to_coords(0), "a1");
    assert_eq!(onebit_index_to_coords(7), "h1");
    assert_eq!(onebit_index_to_coords(28), "e4");
    assert_eq!(onebit_index_to_coords(63), "h8");
    assert_eq!(onebit_index_to_coords(64), "a9");
    assert_eq!(onebit_index_to_coords(80), "a11");
}

#[test]
fn coords_round_trip_on_every_square() {
    for i in 0..64usize {
        let coords = onebit_index_to_coords(i);
        assert_eq!(coords_to_onebit_index(&coords), Ok(i));
        assert_eq!(coords_to_bit(&coords), Ok(1u64 << i));
        assert_eq!(bit_to_coords(1u64 << i), Ok(coords));
    }
}

#[test]
fn coords_errors_name_the_problem() {
    assert_eq!(coords_to_onebit_index("e44"), Err("Invalid length: 3, string: 'e44'".to_string()));
    assert_eq!(coords_to_onebit_index(""), Err("Invalid length: 0, string: ''".to_string()));
    assert_eq!(coords_to_onebit_index("é"), Err("Invalid column character: Ã, string: 'é'".to_string()));
    assert_eq!(coords_to_onebit_index("z1"), Err("Invalid column character: z, string: 'z1'".to_string()));
    assert_eq!(coords_to_onebit_index("e9"), Err("Invalid row character: 57, string: 'e9'".to_string()));
    assert_eq!(coords_to_onebit_index("e0"), Err("Invalid row character: 48, string: 'e0'".to_string()));
    assert_eq!(coords_to_bit("x"), Err("Invalid coords: x".to_string()));
    assert_eq!(bit_to_coords(0), Err("No piece present!".to_string()));
}

#[test]
fn bit_and_index_convert_both_ways() {
    for i in 0..64usize {
        assert_eq!(bit_to_onebit_index(onebit_index_to_bit(i)), i);
    }
    assert_eq!(onebit_index_to_bit(5), 32);
}

#[test]
fn bitboard_indices_lowest_first() {
    assert_eq!(bitboard_to_indices(0), Vec::<usize>::new());
    assert_eq!(bitboard_to_indices(0b1010_0001), vec![0, 5, 7]);
    assert_eq!(bitboard_to_indices(1u64 << 63 | 1), vec![0, 63]);
}

#[test]
fn decimal_writes_numbers() {
    assert_eq!(decimal(0), "0");
    assert_eq!(decimal(7), "7");
    assert_eq!(decimal(1234567), "1234567");
}

#[test]
fn unsigned_numbers_read_as_from_str_does() {
    assert_eq!(parse_unsigned("0", usize::MAX), Some(0));
    assert_eq!(parse_unsigned("42", usize::MAX), Some(42));
    assert_eq!(parse_unsigned("+7", usize::MAX), Some(7));
    assert_eq!(parse_unsigned("+", usize::MAX), None);
    assert_eq!(parse_unsigned("", usize::MAX), None);
    assert_eq!(parse_unsigned("-1", usize::MAX), None);
    assert_eq!(parse_unsigned("1x", usize::MAX), None);
    assert_eq!(parse_unsigned("300", 255), None);
    assert_eq!(parse_unsigned("255", 255), Some(255));
}

#[test]
fn get_piece_index_reads_squares() {
    assert_eq!(get_piece_index(&Square::Occupied(3)), Some(3));
    assert_eq!(get_piece_index(&Square::Empty), None);
}

#[test]
fn fen_row_reads_pieces_and_empty_squares() {
    let (pieces, squares) = parse_FEN_row("r2Qk3", 4, 56);
    assert_eq!(pieces.len(), 3);
    assert_eq!(pieces[0].piece_type, PieceType::Rook);
    assert_eq!(pieces[0].colour, Colour::Black);
    assert_eq!(pieces[0].bit, 1u64 << 56);
    assert_eq!(pieces[1].piece_type, PieceType::Queen);
    assert_eq!(pieces[1].colour, Colour::White);
    assert_eq!(pieces[1].bit, 1u64 << 59);
    assert_eq!(pieces[2].piece_type, PieceType::King);
    assert_eq!(pieces[2].bit, 1u64 << 60);
    let squares: Vec<Square> = squares.into_iter().collect();
    assert_eq!(
        squares,
        vec![
            Square::Empty,
            Square::Empty,
            Square::Empty,
            Square::Occupied(6),
            Square::Occupied(5),
            Square::Empty,
            Square::Empty,
            Square::Occupied(4),
        ]
    );
}

#[test]
fn lowercase_lowers_ascii_only() {
    assert_eq!(ascii_lowercase("NbE4É"), "nbe4É");
}

#[test]
fn written_moves_match_their_notation() {
    let game = Game::initialize(STARTING_FEN);
    let moves = generate_moves(&game);
    let matches = algebraic_matches(&game, &moves, "Nc3");
    assert_eq!(matches.len(), 1);
    assert_eq!((matches[0].from_square, matches[0].to_square), (1, 18));
    assert_eq!(choose_match(&matches), MoveChoice::Unique(matches[0]));
    let matches = algebraic_matches(&game, &moves, "e2e4");
    assert_eq!(matches.len(), 1);
    assert_eq!(matches[0].from_square, 12);
    assert_eq!(matches[0].to_square, 28);
    assert_eq!(choose_match(&algebraic_matches(&game, &moves, "e5")), MoveChoice::NoMatch);
}

#[test]
fn ambiguous_moves_are_reported() {
    let game = Game::initialize(AMBIGUOUS_FEN);
    let moves = generate_moves(&game);
    let matches = algebraic_matches(&game, &moves, "Qe1");
    assert!(matches.len() > 1);
    assert_eq!(choose_match(&matches), MoveChoice::Ambiguous);
    let matches = algebraic_matches(&game, &moves, "Qh4e1");
    assert_eq!(choose_match(&matches), MoveChoice::Unique(matches[0]));
}

#[test]
fn promotions_need_a_choice() {
    let game = Game::initialize(PROMOTION_FEN);
    let moves = generate_moves(&game);
    let matches = algebraic_matches(&game, &moves, "a8");
    assert_eq!(matches.len(), 4);
    assert_eq!(choose_match(&matches), MoveChoice::NeedsPromotion);
    let knight = find_promotion_match(&matches, promotion_choice("n"));
    assert_eq!(knight.map(|m| m.promotion), Some(Some(PieceType::Knight)));
    assert_eq!(promotion_choice("Q"), Some(PieceType::Queen));
    assert_eq!(promotion_choice(""), None);
    assert_eq!(promotion_choice("x"), None);
}

#[test]
fn go_depth_is_read_from_the_command() {
    assert_eq!(parse_go_depth("depth 7"), Some(7));
    assert_eq!(parse_go_depth("  wtime 1000\tdepth   12 movetime 5"), Some(12));
    assert_eq!(parse_go_depth("depth"), None);
    assert_eq!(parse_go_depth("depth x"), None);
    assert_eq!(parse_go_depth("infinite"), None);
    assert_eq!(parse_go_depth("depth 4294967296"), None);
    assert_eq!(parse_go_depth("depth\u{3000}+3"), Some(3));
}
