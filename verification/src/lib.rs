pub mod bitboard;
pub mod game;
pub mod moves;
pub mod moves_knight;
pub mod moves_rook;
pub mod moves_bishop;
pub mod moves_queen;
pub mod moves_king;
pub mod moves_pawn;
pub mod utils;
pub mod move_laws;
pub mod square_tables;
pub mod evaluation;
pub mod uci;
pub mod search_laws;
pub mod checked_search;
pub mod fen_laws;
pub mod king_laws;
