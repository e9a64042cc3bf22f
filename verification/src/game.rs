use vstd::prelude::*;

verus! {

use std::collections::VecDeque;
use crate::bitboard::{is_square_bit, square_bit, square_of};
use crate::moves::Move;
use crate::utils::{
    ascii_through_separator, coords_index, coords_to_bit, fen_row, first_index_of, read_fen_row,
    parse_unsigned, split_at_first, split_chars, split_on, splits_cleanly, unsigned_value,
    decimal, decimal_digits, push_char, bit_to_coords, coords_of,
};
use crate::bitboard::mod67_entry;
use vstd::string::*;

#[derive(Debug, PartialEq, Eq, Structural, Copy, Clone)]
pub enum Colour {
    White,
    Black,
}

#[derive(Debug, PartialEq, Eq, Structural, Clone, Copy)]
pub enum PieceType {
    Pawn,
    Bishop,
    Knight,
    Rook,
    Queen,
    King,
}

#[derive(Debug, PartialEq, Eq, Structural, Clone, Copy)]
pub struct Piece {
    pub bit: u64,
    pub colour: Colour,
    pub piece_type: PieceType,
    pub taken: bool,
}

#[derive(Debug, PartialEq, Eq, Structural, Clone, Copy)]
pub enum Square {
    Empty,
    Occupied(usize),
}

/// The four castling rights as a set of flags: bit 0 white king side, bit 1 white queen side,
/// bit 2 black king side, bit 3 black queen side.
#[derive(Debug, PartialEq, Eq, Structural, Clone, Copy)]
pub struct CastlingRights {
    pub bits: u8,
}

impl CastlingRights {
    /// Whether every flag of `other` is set in `self`.
    pub open spec fn has(self, other: CastlingRights) -> bool {
        self.bits & other.bits == other.bits
    }

    pub fn none() -> (r: CastlingRights)
        ensures
            r.bits == 0,
    {
        CastlingRights { bits: 0 }
    }

    pub fn white_kingside() -> (r: CastlingRights)
        ensures
            r.bits == 1,
    {
        CastlingRights { bits: 1 }
    }

    pub fn white_queenside() -> (r: CastlingRights)
        ensures
            r.bits == 2,
    {
        CastlingRights { bits: 2 }
    }

    pub fn black_kingside() -> (r: CastlingRights)
        ensures
            r.bits == 4,
    {
        CastlingRights { bits: 4 }
    }

    pub fn black_queenside() -> (r: CastlingRights)
        ensures
            r.bits == 8,
    {
        CastlingRights { bits: 8 }
    }

    pub fn all() -> (r: CastlingRights)
        ensures
            r.bits == 15,
    {
        CastlingRights { bits: 15 }
    }

    /// The flags as a byte.
    pub fn bits(&self) -> (b: u8)
        ensures
            b == self.bits,
    {
        self.bits
    }

    /// The rights of a byte, its bits outside the four flags dropped.
    pub fn from_bits_truncate(bits: u8) -> (r: CastlingRights)
        ensures
            r.bits == bits & 15,
    {
        CastlingRights { bits: bits & 15 }
    }

    /// Whether all the flags of `other` are set.
    pub fn contains(&self, other: CastlingRights) -> (r: bool)
        ensures
            r == self.has(other),
    {
        self.bits & other.bits == other.bits
    }

    /// Sets the flags of `other`.
    pub fn insert(&mut self, other: CastlingRights)
        ensures
            final(self).bits == old(self).bits | other.bits,
    {
        self.bits = self.bits | other.bits;
    }

    /// Clears the flags of `other`.
    pub fn remove(&mut self, other: CastlingRights)
        ensures
            final(self).bits == old(self).bits & !other.bits,
    {
        self.bits = self.bits & !other.bits;
    }

    /// Whether no flag is set.
    pub fn is_empty(&self) -> (r: bool)
        ensures
            r == (self.bits == 0),
    {
        self.bits == 0
    }
}

pub open spec fn wk() -> CastlingRights {
    CastlingRights { bits: 1 }
}

pub open spec fn wq() -> CastlingRights {
    CastlingRights { bits: 2 }
}

pub open spec fn bk() -> CastlingRights {
    CastlingRights { bits: 4 }
}

pub open spec fn bq() -> CastlingRights {
    CastlingRights { bits: 8 }
}

/// The other colour.
pub open spec fn opponent(c: Colour) -> Colour {
    match c {
        Colour::White => Colour::Black,
        Colour::Black => Colour::White,
    }
}

/// The other colour.
pub fn opposite_colour(c: Colour) -> (r: Colour)
    ensures
        r == opponent(c),
{
    match c {
        Colour::White => Colour::Black,
        Colour::Black => Colour::White,
    }
}

#[derive(Clone)]
pub struct Game {
    pub pieces: Vec<Piece>,
    pub squares: Vec<Square>,
    pub active_colour: Colour,
    pub castling_rights: CastlingRights,
    pub en_passant: Option<u64>,
    pub halfmove_clock: usize,
    pub fullmove_number: usize,
    pub colour_in_check: Option<Colour>,
    pub last_move: Option<Move>,
    pub players: i8,
}

/// The mathematical model of a game: its piece list and squares as sequences.
#[verifier::ext_equal]
pub struct Position {
    pub pieces: Seq<Piece>,
    pub squares: Seq<Square>,
    pub active_colour: Colour,
    pub castling_rights: CastlingRights,
    pub en_passant: Option<u64>,
    pub halfmove_clock: usize,
    pub fullmove_number: usize,
    pub colour_in_check: Option<Colour>,
    pub last_move: Option<Move>,
    pub players: i8,
}

impl View for Game {
    type V = Position;

    open spec fn view(&self) -> Position {
        Position {
            pieces: self.pieces@,
            squares: self.squares@,
            active_colour: self.active_colour,
            castling_rights: self.castling_rights,
            en_passant: self.en_passant,
            halfmove_clock: self.halfmove_clock,
            fullmove_number: self.fullmove_number,
            colour_in_check: self.colour_in_check,
            last_move: self.last_move,
            players: self.players,
        }
    }
}

/// The union of the bits of the pieces that `sel` picks.
pub open spec fn selected_bits(ps: Seq<Piece>, sel: spec_fn(Piece) -> bool) -> u64
    decreases ps.len(),
{
    if ps.len() == 0 {
        0
    } else {
        if sel(ps.last()) {
            selected_bits(ps.drop_last(), sel) | ps.last().bit
        } else {
            selected_bits(ps.drop_last(), sel)
        }
    }
}

/// Pieces of colour `c` still on the board.
pub open spec fn live_of(c: Colour) -> spec_fn(Piece) -> bool {
    |p: Piece| p.colour == c && !p.taken
}

/// Pieces of the colour other than `c` still on the board.
pub open spec fn live_not_of(c: Colour) -> spec_fn(Piece) -> bool {
    |p: Piece| p.colour != c && !p.taken
}

/// Pieces still on the board.
pub open spec fn live() -> spec_fn(Piece) -> bool {
    |p: Piece| !p.taken
}

/// The index of the first piece from index `k` on that `pred` picks.
pub open spec fn find_from(ps: Seq<Piece>, pred: spec_fn(Piece) -> bool, k: int) -> Option<int>
    decreases ps.len() - k,
{
    if k < 0 || k >= ps.len() {
        None
    } else if pred(ps[k]) {
        Some(k)
    } else {
        find_from(ps, pred, k + 1)
    }
}

/// The index of the first piece that `pred` picks.
pub open spec fn find_first(ps: Seq<Piece>, pred: spec_fn(Piece) -> bool) -> Option<int> {
    find_from(ps, pred, 0)
}

/// Kings of colour `c`, on the board or taken.
pub open spec fn king_of(c: Colour) -> spec_fn(Piece) -> bool {
    |p: Piece| p.piece_type == PieceType::King && p.colour == c
}

/// The bit of the first king of colour `c` in the piece list, 0 when there is none.
pub open spec fn king_bit_of(ps: Seq<Piece>, c: Colour) -> u64 {
    match find_first(ps, king_of(c)) {
        Some(i) => ps[i].bit,
        None => 0,
    }
}

pub proof fn lemma_find_from_facts(ps: Seq<Piece>, pred: spec_fn(Piece) -> bool, k: int)
    requires
        0 <= k,
    ensures
        find_from(ps, pred, k) matches Some(i) ==> k <= i < ps.len() && pred(ps[i]) && forall|
            j: int,
        | k <= j < i ==> !pred(#[trigger] ps[j]),
        find_from(ps, pred, k) is None ==> forall|j: int| k <= j < ps.len() ==> !pred(
            #[trigger] ps[j],
        ),
    decreases ps.len() - k,
{
    if k < ps.len() {
        lemma_find_from_facts(ps, pred, k + 1);
    }
}

/// Every piece of the list, taken or not, stands on a single square.
pub open spec fn pieces_on_squares(ps: Seq<Piece>) -> bool {
    forall|i: int| 0 <= i < ps.len() ==> is_square_bit(#[trigger] ps[i].bit)
}

/// The king-side right of colour `c`.
pub open spec fn kingside_right(c: Colour) -> CastlingRights {
    if c == Colour::White {
        wk()
    } else {
        bk()
    }
}

/// The queen-side right of colour `c`.
pub open spec fn queenside_right(c: Colour) -> CastlingRights {
    if c == Colour::White {
        wq()
    } else {
        bq()
    }
}

/// With a castling right, each king of colour `c` stands where the castling target two files
/// away is on the board.
pub open spec fn castling_kings_in_range(ps: Seq<Piece>, rights: CastlingRights, c: Colour) -> bool {
    forall|i: int|
        0 <= i < ps.len() && (#[trigger] ps[i]).piece_type == PieceType::King && ps[i].colour == c
            ==> (rights.has(kingside_right(c)) ==> square_of(ps[i].bit) <= 61) && (rights.has(
            queenside_right(c),
        ) ==> square_of(ps[i].bit) >= 2)
}

impl Position {
    /// The conditions under which move generation is defined: 64 squares, each piece's bit a
    /// single square, a king of each colour in the piece list, and every king of a colour with a
    /// king-side right below h-file squares 62 and 63 and, with a queen-side right, above
    /// squares 0 and 1 (so that the castling targets two files away are squares of the board).
    pub open spec fn wf(self) -> bool {
        &&& self.squares.len() == 64
        &&& pieces_on_squares(self.pieces)
        &&& find_first(self.pieces, king_of(Colour::White)) is Some
        &&& find_first(self.pieces, king_of(Colour::Black)) is Some
        &&& castling_kings_in_range(self.pieces, self.castling_rights, Colour::White)
        &&& castling_kings_in_range(self.pieces, self.castling_rights, Colour::Black)
    }

    /// The squares and the live pieces agree: an occupied square names a live piece standing
    /// on it, and each live piece is named by its square.
    pub open spec fn consistent(self) -> bool {
        &&& self.squares.len() == 64
        &&& self.pieces.len() <= usize::MAX
        &&& pieces_on_squares(self.pieces)
        &&& forall|s: int|
            0 <= s < 64 ==> (#[trigger] self.squares[s] matches Square::Occupied(i) ==> i
                < self.pieces.len() && !self.pieces[i as int].taken && self.pieces[i as int].bit
                == square_bit(s))
        &&& forall|i: int|
            0 <= i < self.pieces.len() && !(#[trigger] self.pieces[i]).taken ==> self.squares[square_of(
                self.pieces[i].bit,
            )] == Square::Occupied(i as usize)
    }

    /// The board of the pieces of the side to move.
    pub open spec fn friendly_bits(self) -> u64 {
        selected_bits(self.pieces, live_of(self.active_colour))
    }

    /// The board of the pieces of the other side.
    pub open spec fn enemy_bits(self) -> u64 {
        selected_bits(self.pieces, live_not_of(self.active_colour))
    }

    /// The board of all the pieces on the board.
    pub open spec fn occupied_bits(self) -> u64 {
        selected_bits(self.pieces, live())
    }

}

impl Game {
    pub fn get_friendly_piece_bitboard(&self) -> (bitboard: u64)
        ensures
            bitboard == self@.friendly_bits(),
    {
        let ghost sel = live_of(self.active_colour);
        let mut bitboard = 0u64;
        let mut i: usize = 0;
        while i < self.pieces.len()
            invariant
                0 <= i <= self.pieces@.len(),
                bitboard == selected_bits(self.pieces@.take(i as int), sel),
                sel == live_of(self.active_colour),
            decreases self.pieces@.len() - i,
        {
            let piece = self.pieces[i];
            proof {
                assert(self.pieces@.take(i + 1).drop_last() =~= self.pieces@.take(i as int));
            }
            if piece.colour == self.active_colour && piece.taken == false {
                bitboard = bitboard | piece.bit;
            }
            i += 1;
        }
        proof {
            assert(self.pieces@.take(i as int) =~= self.pieces@);
        }
        bitboard
    }

    pub fn get_enemy_piece_bitboard(&self) -> (bitboard: u64)
        ensures
            bitboard == self@.enemy_bits(),
    {
        let ghost sel = live_not_of(self.active_colour);
        let mut bitboard = 0u64;
        let mut i: usize = 0;
        while i < self.pieces.len()
            invariant
                0 <= i <= self.pieces@.len(),
                bitboard == selected_bits(self.pieces@.take(i as int), sel),
                sel == live_not_of(self.active_colour),
            decreases self.pieces@.len() - i,
        {
            let piece = self.pieces[i];
            proof {
                assert(self.pieces@.take(i + 1).drop_last() =~= self.pieces@.take(i as int));
            }
            if piece.colour != self.active_colour && piece.taken == false {
                bitboard = bitboard | piece.bit;
            }
            i += 1;
        }
        proof {
            assert(self.pieces@.take(i as int) =~= self.pieces@);
        }
        bitboard
    }

    pub fn get_occupied_bitboard(&self) -> (bitboard: u64)
        ensures
            bitboard == self@.occupied_bits(),
    {
        let ghost sel = live();
        let mut bitboard = 0u64;
        let mut i: usize = 0;
        while i < self.pieces.len()
            invariant
                0 <= i <= self.pieces@.len(),
                bitboard == selected_bits(self.pieces@.take(i as int), sel),
                sel == live(),
            decreases self.pieces@.len() - i,
        {
            let piece = self.pieces[i];
            proof {
                assert(self.pieces@.take(i + 1).drop_last() =~= self.pieces@.take(i as int));
            }
            if piece.taken == false {
                bitboard = bitboard | piece.bit;
            }
            i += 1;
        }
        proof {
            assert(self.pieces@.take(i as int) =~= self.pieces@);
        }
        bitboard
    }
}

/// The bit of the first king of colour `c` in the piece list, 0 when there is none.
pub fn find_king_bit(pieces: &Vec<Piece>, c: Colour) -> (bit: u64)
    ensures
        bit == king_bit_of(pieces@, c),
{
    let mut i: usize = 0;
    while i < pieces.len()
        invariant
            0 <= i <= pieces@.len(),
            find_first(pieces@, king_of(c)) == find_from(pieces@, king_of(c), i as int),
        decreases pieces@.len() - i,
    {
        if pieces[i].piece_type == PieceType::King && pieces[i].colour == c {
            return pieces[i].bit;
        }
        i += 1;
    }
    0
}

/// A copy of the piece list.
pub fn copy_pieces(pieces: &Vec<Piece>) -> (copy: Vec<Piece>)
    ensures
        copy@ == pieces@,
{
    let mut copy: Vec<Piece> = Vec::new();
    let mut i: usize = 0;
    while i < pieces.len()
        invariant
            0 <= i <= pieces@.len(),
            copy@ == pieces@.take(i as int),
        decreases pieces@.len() - i,
    {
        copy.push(pieces[i]);
        proof {
            assert(pieces@.take(i + 1) =~= pieces@.take(i as int).push(pieces@[i as int]));
        }
        i += 1;
    }
    proof {
        assert(pieces@.take(i as int) =~= pieces@);
    }
    copy
}

/// A copy of the squares.
pub fn copy_squares(squares: &Vec<Square>) -> (copy: Vec<Square>)
    ensures
        copy@ == squares@,
{
    let mut copy: Vec<Square> = Vec::new();
    let mut i: usize = 0;
    while i < squares.len()
        invariant
            0 <= i <= squares@.len(),
            copy@ == squares@.take(i as int),
        decreases squares@.len() - i,
    {
        copy.push(squares[i]);
        proof {
            assert(squares@.take(i + 1) =~= squares@.take(i as int).push(squares@[i as int]));
        }
        i += 1;
    }
    proof {
        assert(squares@.take(i as int) =~= squares@);
    }
    copy
}

impl Game {
    /// A copy of the game.
    pub fn duplicate(&self) -> (copy: Game)
        ensures
            copy@ == self@,
    {
        Game {
            pieces: copy_pieces(&self.pieces),
            squares: copy_squares(&self.squares),
            active_colour: self.active_colour,
            castling_rights: self.castling_rights,
            en_passant: self.en_passant,
            halfmove_clock: self.halfmove_clock,
            fullmove_number: self.fullmove_number,
            colour_in_check: self.colour_in_check,
            last_move: self.last_move,
            players: self.players,
        }
    }
}


/// A field of a FEN record and the text after it, split at the first space; `None` where a
/// character up to that space is not ASCII.
pub open spec fn fen_field(s: Seq<char>) -> Option<(Seq<char>, Seq<char>)> {
    if ascii_through_separator(s, ' ') {
        Some(split_at_first(s, ' '))
    } else {
        None
    }
}

/// The rows of the placement field: the text split at '/', at most eight parts, the last one
/// holding the rest.
pub open spec fn fen_rows(s: Seq<char>, n: nat) -> Seq<Seq<char>>
    decreases n,
{
    if n <= 1 {
        seq![s]
    } else {
        match first_index_of(s, '/', 0) {
            None => seq![s],
            Some(i) => seq![s.subrange(0, i)] + fen_rows(s.subrange(i + 1, s.len() as int), (n - 1) as nat),
        }
    }
}

/// The pieces and squares of the rows from row `k` on (row `k` being rank 8 - k), added to
/// those read so far; each row's squares go before those of the rows above it.
pub open spec fn fen_board(rows: Seq<Seq<char>>, k: int, pieces: Seq<Piece>, squares: Seq<Square>) -> Option<(Seq<Piece>, Seq<Square>)>
    decreases rows.len() - k,
{
    if k < 0 || k >= rows.len() || k >= 8 {
        Some((pieces, squares))
    } else {
        match fen_row(rows[k], pieces.len(), (56 - 8 * k) as nat) {
            None => None,
            Some(row) => fen_board(rows, k + 1, pieces + row.0, row.1.reverse() + squares),
        }
    }
}

/// The flag a character of the castling field sets: 'K', 'Q', 'k', 'q' for the four rights,
/// none for '-'; other characters are errors.
pub open spec fn castling_flag(c: char) -> Option<u8> {
    if c == 'K' {
        Some(1u8)
    } else if c == 'Q' {
        Some(2u8)
    } else if c == 'k' {
        Some(4u8)
    } else if c == 'q' {
        Some(8u8)
    } else if c == '-' {
        Some(0u8)
    } else {
        None
    }
}

/// The castling rights a castling field names.
pub open spec fn castling_bits_of(field: Seq<char>) -> Option<u8>
    decreases field.len(),
{
    if field.len() == 0 {
        Some(0u8)
    } else {
        match (castling_bits_of(field.drop_last()), castling_flag(field.last())) {
            (Some(b), Some(f)) => Some(b | f),
            _ => None,
        }
    }
}

/// The en passant field: '-' for none, else the coordinates of the square.
pub open spec fn en_passant_of(field: Seq<char>) -> Option<Option<u64>> {
    if field == seq!['-'] {
        Some(None)
    } else {
        match coords_index(field) {
            Ok(i) => Some(Some(square_bit(i as int))),
            Err(_) => None,
        }
    }
}

/// The side to move: "w" or "b".
pub open spec fn colour_of_field(field: Seq<char>) -> Option<Colour> {
    if field == seq!['w'] {
        Some(Colour::White)
    } else if field == seq!['b'] {
        Some(Colour::Black)
    } else {
        None
    }
}

/// The position a FEN record describes: placement, side to move, castling rights, en
/// passant square, half-move clock and full-move number, separated by spaces; one player and
/// no check or last move recorded. `None` for a record that cannot be read.
pub open spec fn fen_parse(fen: Seq<char>) -> Option<Position> {
    match fen_field(fen) {
        None => None,
        Some((placement, rest1)) => match fen_board(fen_rows(placement, 8), 0, Seq::empty(), Seq::empty()) {
            None => None,
            Some((pieces, squares)) => match fen_field(rest1) {
                None => None,
                Some((colour_field, rest2)) => match fen_field(rest2) {
                    None => None,
                    Some((castling_field, rest3)) => match fen_field(rest3) {
                        None => None,
                        Some((en_passant_field, rest4)) => match fen_field(rest4) {
                            None => None,
                            Some((halfmove_field, rest5)) => match fen_field(rest5) {
                                None => None,
                                Some((fullmove_field, _)) => match (
                                    colour_of_field(colour_field),
                                    castling_bits_of(castling_field),
                                    en_passant_of(en_passant_field),
                                    unsigned_value(halfmove_field, usize::MAX as nat),
                                    unsigned_value(fullmove_field, usize::MAX as nat),
                                ) {
                                    (Some(colour), Some(bits), Some(en_passant), Some(halfmove), Some(fullmove)) => Some(Position {
                                        pieces,
                                        squares,
                                        active_colour: colour,
                                        castling_rights: CastlingRights { bits },
                                        en_passant,
                                        halfmove_clock: halfmove as usize,
                                        fullmove_number: fullmove as usize,
                                        colour_in_check: None,
                                        last_move: None,
                                        players: 1,
                                    }),
                                    _ => None,
                                },
                            },
                        },
                    },
                },
            },
        },
    }
}

fn fen_field_exec<'a>(s: &'a str) -> (parts: Option<(&'a str, &'a str)>)
    ensures
        match (parts, fen_field(s@)) {
            (Some(p), Some(q)) => p.0@ == q.0 && p.1@ == q.1,
            (None, None) => true,
            _ => false,
        },
{
    if splits_cleanly(s, ' ') {
        Some(split_on(s, ' '))
    } else {
        None
    }
}

proof fn lemma_fen_rows_len(s: Seq<char>, n: nat)
    requires
        n >= 1,
    ensures
        1 <= fen_rows(s, n).len() <= n,
    decreases n,
{
    if n > 1 {
        match first_index_of(s, '/', 0) {
            None => {},
            Some(i) => {
                lemma_fen_rows_len(s.subrange(i + 1, s.len() as int), (n - 1) as nat);
            },
        }
    }
}

fn placement_rows<'a>(placement: &'a str) -> (rows: Vec<&'a str>)
    ensures
        rows@.map_values(|r: &str| r@) == fen_rows(placement@, 8),
{
    let mut rows: Vec<&'a str> = Vec::new();
    let mut rest: &'a str = placement;
    let mut k: usize = 0;
    let mut done = false;
    while k < 7 && !done
        invariant
            k <= 7,
            rows@.len() == k,
            rows@.map_values(|r: &str| r@) + fen_rows(rest@, (8 - k) as nat) == fen_rows(placement@, 8),
            done ==> first_index_of(rest@, '/', 0) is None,
        decreases 7 - k, if done { 0int } else { 1int },
    {
        let (before, after, found) = split_chars(rest, '/');
        if found {
            proof {
                assert(fen_rows(rest@, (8 - k) as nat) == seq![before@] + fen_rows(after@, (8 - (k + 1)) as nat));
                assert(rows@.push(before).map_values(|r: &str| r@) =~= rows@.map_values(|r: &str| r@).push(before@));
                assert(rows@.map_values(|r: &str| r@).push(before@) + fen_rows(after@, (8 - (k + 1)) as nat) =~= rows@.map_values(|r: &str| r@) + (seq![before@] + fen_rows(after@, (8 - (k + 1)) as nat)));
            }
            rows.push(before);
            rest = after;
            k += 1;
        } else {
            done = true;
        }
    }
    proof {
        assert(fen_rows(rest@, (8 - k) as nat) == seq![rest@]);
        assert(rows@.push(rest).map_values(|r: &str| r@) =~= rows@.map_values(|r: &str| r@).push(rest@));
        assert(rows@.map_values(|r: &str| r@).push(rest@) =~= rows@.map_values(|r: &str| r@) + seq![rest@]);
    }
    rows.push(rest);
    rows
}

fn read_fen_board(rows: &Vec<&str>) -> (board: Option<(Vec<Piece>, Vec<Square>)>)
    requires
        rows@.len() <= 8,
    ensures
        match (board, fen_board(rows@.map_values(|r: &str| r@), 0, Seq::empty(), Seq::empty())) {
            (Some(b), Some(q)) => b.0@ == q.0 && b.1@ == q.1,
            (None, None) => true,
            _ => false,
        },
{
    let ghost rs = rows@.map_values(|r: &str| r@);
    let mut pieces: Vec<Piece> = Vec::new();
    let mut deque_squares: VecDeque<Square> = VecDeque::new();
    let mut k: usize = 0;
    while k < rows.len()
        invariant
            k <= rows@.len() <= 8,
            rs == rows@.map_values(|r: &str| r@),
            fen_board(rs, k as int, pieces@, deque_squares@) == fen_board(rs, 0, Seq::empty(), Seq::empty()),
        decreases rows@.len() - k,
    {
        let onebit_index = 56 - 8 * k;
        assert(rs[k as int] == rows@[k as int]@);
        match read_fen_row(rows[k], pieces.len(), onebit_index) {
            None => {
                return None;
            },
            Some((row_pieces, row_squares)) => {
                let ghost before_pieces = pieces@;
                let ghost before_squares = deque_squares@;
                let mut j: usize = 0;
                while j < row_pieces.len()
                    invariant
                        0 <= j <= row_pieces@.len(),
                        pieces@ == before_pieces + row_pieces@.take(j as int),
                    decreases row_pieces@.len() - j,
                {
                    pieces.push(row_pieces[j]);
                    j += 1;
                    proof {
                        assert(pieces@ =~= before_pieces + row_pieces@.take(j as int));
                    }
                }
                proof {
                    assert(row_pieces@.take(j as int) =~= row_pieces@);
                }
                let mut j: usize = 0;
                while j < row_squares.len()
                    invariant
                        0 <= j <= row_squares@.len(),
                        deque_squares@ == row_squares@.take(j as int).reverse() + before_squares,
                    decreases row_squares@.len() - j,
                {
                    deque_squares.push_front(row_squares[j]);
                    j += 1;
                    proof {
                        assert(deque_squares@ =~= row_squares@.take(j as int).reverse() + before_squares);
                    }
                }
                proof {
                    assert(row_squares@.take(j as int) =~= row_squares@);
                }
            },
        }
        k += 1;
    }
    let mut squares: Vec<Square> = Vec::new();
    let mut idx: usize = 0;
    while idx < deque_squares.len()
        invariant
            0 <= idx <= deque_squares@.len(),
            squares@ == deque_squares@.take(idx as int),
        decreases deque_squares@.len() - idx,
    {
        squares.push(deque_squares[idx]);
        idx += 1;
        proof {
            assert(squares@ =~= deque_squares@.take(idx as int));
        }
    }
    proof {
        assert(deque_squares@.take(idx as int) =~= deque_squares@);
    }
    Some((pieces, squares))
}

fn read_castling_field(field: &str) -> (bits: Option<u8>)
    ensures
        bits == castling_bits_of(field@),
{
    let n = field.unicode_len();
    let mut castling: u8 = 0;
    let mut i: usize = 0;
    while i < n
        invariant
            0 <= i <= n,
            n == field@.len(),
            castling_bits_of(field@.take(i as int)) == Some(castling),
        decreases n - i,
    {
        let ch = field.get_char(i);
        proof {
            assert(field@.take(i + 1).drop_last() =~= field@.take(i as int));
            assert(field@.take(i + 1).last() == ch);
        }
        if ch == 'K' {
            castling = castling | 1;
        } else if ch == 'Q' {
            castling = castling | 2;
        } else if ch == 'k' {
            castling = castling | 4;
        } else if ch == 'q' {
            castling = castling | 8;
        } else if ch == '-' {
            assert(castling | 0u8 == castling) by (bit_vector);
        } else {
            proof {
                lemma_castling_none_after(field@, (i + 1) as int);
            }
            return None;
        }
        i += 1;
    }
    proof {
        assert(field@.take(n as int) =~= field@);
    }
    Some(castling)
}

proof fn lemma_castling_none_after(field: Seq<char>, k: int)
    requires
        0 <= k <= field.len(),
        castling_bits_of(field.take(k)) is None,
    ensures
        castling_bits_of(field) is None,
    decreases field.len() - k,
{
    if k < field.len() {
        assert(field.take(k + 1).drop_last() =~= field.take(k));
        lemma_castling_none_after(field, k + 1);
    } else {
        assert(field.take(k) =~= field);
    }
}

fn read_colour_field(field: &str) -> (colour: Option<Colour>)
    ensures
        colour == colour_of_field(field@),
{
    if field.unicode_len() == 1 {
        let ch = field.get_char(0);
        if ch == 'w' {
            assert(field@ =~= seq!['w']);
            return Some(Colour::White);
        } else if ch == 'b' {
            assert(field@ =~= seq!['b']);
            return Some(Colour::Black);
        }
    }
    None
}

fn read_en_passant_field(field: &str) -> (en_passant: Option<Option<u64>>)
    ensures
        en_passant == en_passant_of(field@),
{
    if field.unicode_len() == 1 && field.get_char(0) == '-' {
        assert(field@ =~= seq!['-']);
        return Some(None);
    }
    match coords_to_bit(field) {
        Ok(bit) => Some(Some(bit)),
        Err(_) => None,
    }
}

impl Game {
    /// Reads a FEN record, or `None` where it cannot be read: a row holding a character that is
    /// neither a piece letter nor a digit or a piece beyond the board, a side to move other
    /// than "w" or "b", an unknown castling character, en passant coordinates off the board,
    /// move counts that are not numbers, or a field before which a character is not ASCII.
    fn read_fen_record(fen: &str) -> (game: Option<Game>)
        ensures
            match (game, fen_parse(fen@)) {
                (Some(g), Some(p)) => g@ == p,
                (None, None) => true,
                _ => false,
            },
    {
        let (position, rest) = match fen_field_exec(fen) {
            Some(parts) => parts,
            None => {
                return None;
            },
        };
        let rows = placement_rows(position);
        proof {
            lemma_fen_rows_len(position@, 8);
        }
        let (pieces, squares) = match read_fen_board(&rows) {
            Some(board) => board,
            None => {
                return None;
            },
        };
        let (colour_to_move, rest) = match fen_field_exec(rest) {
            Some(parts) => parts,
            None => {
                return None;
            },
        };
        let (castling_rights, rest) = match fen_field_exec(rest) {
            Some(parts) => parts,
            None => {
                return None;
            },
        };
        let (en_passant, rest) = match fen_field_exec(rest) {
            Some(parts) => parts,
            None => {
                return None;
            },
        };
        let (halfmove_clock, rest) = match fen_field_exec(rest) {
            Some(parts) => parts,
            None => {
                return None;
            },
        };
        let (fullmove_number, _rest) = match fen_field_exec(rest) {
            Some(parts) => parts,
            None => {
                return None;
            },
        };
        let active_colour = match read_colour_field(colour_to_move) {
            Some(colour) => colour,
            None => {
                return None;
            },
        };
        let castling = match read_castling_field(castling_rights) {
            Some(bits) => bits,
            None => {
                return None;
            },
        };
        let en_passant_bit = match read_en_passant_field(en_passant) {
            Some(square) => square,
            None => {
                return None;
            },
        };
        let halfmove = match parse_unsigned(halfmove_clock, usize::MAX) {
            Some(number) => number,
            None => {
                return None;
            },
        };
        let fullmove = match parse_unsigned(fullmove_number, usize::MAX) {
            Some(number) => number,
            None => {
                return None;
            },
        };
        Some(Game {
            pieces,
            squares,
            active_colour,
            castling_rights: CastlingRights { bits: castling },
            en_passant: en_passant_bit,
            halfmove_clock: halfmove,
            fullmove_number: fullmove,
            colour_in_check: None,
            last_move: None,
            players: 1,
        })
    }

    /// The game a FEN record describes, or `None` for a record that cannot be read.
    pub fn try_initialize(fen_str: &str) -> (game: Option<Game>)
        ensures
            match (game, fen_parse(fen_str@)) {
                (Some(g), Some(p)) => g@ == p,
                (None, None) => true,
                _ => false,
            },
    {
        Game::read_fen_record(fen_str)
    }

    /// The game a FEN record describes.
    pub fn initialize(fen_str: &str) -> (game: Game)
        requires
            fen_parse(fen_str@) is Some,
        ensures
            fen_parse(fen_str@) == Some(game@),
    {
        Game::read_FEN(fen_str)
    }

    /// The game a readable FEN record describes: its pieces in the order the placement field
    /// lists them, from the eighth rank to the first and from the a-file to the h-file, white
    /// for upper-case letters, the squares naming them, and the side to move, castling rights,
    /// en passant square and move counts of the other fields.
    #[allow(non_snake_case)]
    fn read_FEN(fen: &str) -> (game: Game)
        requires
            fen_parse(fen@) is Some,
        ensures
            fen_parse(fen@) == Some(game@),
    {
        match Game::read_fen_record(fen) {
            Some(game) => game,
            None => Game {
                pieces: Vec::new(),
                squares: Vec::new(),
                active_colour: Colour::White,
                castling_rights: CastlingRights { bits: 15 },
                en_passant: None,
                halfmove_clock: 0,
                fullmove_number: 1,
                colour_in_check: None,
                last_move: None,
                players: 1,
            },
        }
    }
}

/// The FEN letter of a piece: uppercase for White.
pub open spec fn piece_letter(p: Piece) -> char {
    let lower = match p.piece_type {
        PieceType::Pawn => 'p',
        PieceType::Knight => 'n',
        PieceType::Bishop => 'b',
        PieceType::Rook => 'r',
        PieceType::Queen => 'q',
        PieceType::King => 'k',
    };
    if p.colour == Colour::White {
        ((lower as u32) - 32) as char
    } else {
        lower
    }
}

/// The text of a run of `n` empty squares: its count, nothing for none.
pub open spec fn empties_text(n: nat) -> Seq<char> {
    if n > 0 {
        decimal_digits(n)
    } else {
        Seq::empty()
    }
}

/// The placement text written after the first `n` squares: the finished ranks (each rank
/// above the first ended by '/', the latest in front), the rank being written, and the run of
/// empty squares not yet written.
pub open spec fn placement_after(g: Position, n: nat) -> (Seq<char>, Seq<char>, nat)
    decreases n,
{
    if n == 0 {
        (Seq::empty(), Seq::empty(), 0)
    } else {
        let i = n - 1;
        let (fen, row, empties) = placement_after(g, (n - 1) as nat);
        let (row1, empties1) = match g.squares[i] {
            Square::Empty => (row, empties + 1),
            Square::Occupied(k) => (row + empties_text(empties).push(piece_letter(g.pieces[k as int])), 0nat),
        };
        if n % 8 == 0 {
            let row2 = row1 + empties_text(empties1);
            let row3 = if i >= 15 { row2.push('/') } else { row2 };
            (row3 + fen, Seq::empty(), 0)
        } else {
            (fen, row1, empties1)
        }
    }
}

/// The castling field: '-' for no right, else the letters of the rights held.
pub open spec fn castling_text(r: CastlingRights) -> Seq<char> {
    if r.bits == 0 {
        seq!['-']
    } else {
        (if r.has(wk()) { seq!['K'] } else { Seq::empty() }) + (if r.has(wq()) { seq!['Q'] } else { Seq::empty() }) + (
        if r.has(bk()) { seq!['k'] } else { Seq::empty() }) + (if r.has(bq()) { seq!['q'] } else { Seq::empty() })
    }
}

/// The FEN record of a position without its two move counts: placement, side to move,
/// castling rights and en passant square.
pub open spec fn fen_without_move_counts(g: Position) -> Seq<char> {
    placement_after(g, g.squares.len()).0 + seq![' ', if g.active_colour == Colour::White { 'w' } else { 'b' }, ' ']
        + castling_text(g.castling_rights) + seq![' '] + match g.en_passant {
        Some(b) => coords_of(mod67_entry(b % 67) as nat),
        None => seq!['-'],
    }
}

/// Every occupied square names a piece of the list.
pub open spec fn squares_name_pieces(g: Position) -> bool {
    forall|i: int| 0 <= i < g.squares.len() ==> (#[trigger] g.squares[i] matches Square::Occupied(k) ==> k < g.pieces.len())
}

fn piece_letter_exec(piece: &Piece) -> (c: char)
    ensures
        c == piece_letter(*piece),
{
    match piece.piece_type {
        PieceType::Pawn => if piece.colour == Colour::White { 'P' } else { 'p' },
        PieceType::Knight => if piece.colour == Colour::White { 'N' } else { 'n' },
        PieceType::Bishop => if piece.colour == Colour::White { 'B' } else { 'b' },
        PieceType::Rook => if piece.colour == Colour::White { 'R' } else { 'r' },
        PieceType::Queen => if piece.colour == Colour::White { 'Q' } else { 'q' },
        PieceType::King => if piece.colour == Colour::White { 'K' } else { 'k' },
    }
}

impl Game {
    /// The FEN record of the game without its two move counts.
    #[allow(non_snake_case)]
    #[verifier::rlimit(60)]
    pub fn write_FEN_without_move_counts(game: &Game) -> (fen: String)
        requires
            squares_name_pieces(game@),
            game.en_passant != Some(0u64),
        ensures
            fen@ == fen_without_move_counts(game@),
    {
        let mut fen_string = String::new();
        let mut consecutive_empty_squares: u8 = 0;
        let mut row_temp = String::new();
        let mut i: usize = 0;
        while i < game.squares.len()
            invariant
                0 <= i <= game.squares@.len(),
                squares_name_pieces(game@),
                placement_after(game@, i as nat) == (fen_string@, row_temp@, consecutive_empty_squares as nat),
                consecutive_empty_squares as nat <= i % 8,
            decreases game.squares@.len() - i,
        {
            match game.squares[i] {
                Square::Empty => {
                    consecutive_empty_squares += 1;
                },
                Square::Occupied(piece_index) => {
                    if consecutive_empty_squares > 0 {
                        let count = decimal(consecutive_empty_squares as usize);
                        row_temp.append(count.as_str());
                    }
                    assert(game.squares@[i as int] matches Square::Occupied(k) ==> k < game.pieces@.len());
                    let piece = game.pieces[piece_index];
                    push_char(&mut row_temp, piece_letter_exec(&piece));
                    consecutive_empty_squares = 0;
                },
            }
            if (i + 1) % 8 == 0 {
                if consecutive_empty_squares > 0 {
                    let count = decimal(consecutive_empty_squares as usize);
                    row_temp.append(count.as_str());
                    consecutive_empty_squares = 0;
                }
                // Second or later row
                if i >= 15 {
                    push_char(&mut row_temp, '/');
                }
                let mut row_first = row_temp.clone();
                row_first.append(fen_string.as_str());
                fen_string = row_first;
                row_temp = String::new();
            }
            i += 1;
        }
        let colour_to_move = match game.active_colour {
            Colour::White => 'w',
            Colour::Black => 'b',
        };
        push_char(&mut fen_string, ' ');
        push_char(&mut fen_string, colour_to_move);
        push_char(&mut fen_string, ' ');
        let ghost with_colour = fen_string@;
        if game.castling_rights.bits == 0 {
            push_char(&mut fen_string, '-');
        } else {
            if game.castling_rights.contains(CastlingRights::white_kingside()) {
                push_char(&mut fen_string, 'K');
            }
            let ghost k1 = fen_string@;
            if game.castling_rights.contains(CastlingRights::white_queenside()) {
                push_char(&mut fen_string, 'Q');
            }
            let ghost k2 = fen_string@;
            if game.castling_rights.contains(CastlingRights::black_kingside()) {
                push_char(&mut fen_string, 'k');
            }
            let ghost k3 = fen_string@;
            if game.castling_rights.contains(CastlingRights::black_queenside()) {
                push_char(&mut fen_string, 'q');
            }
        }
        assert(fen_string@ =~= with_colour + castling_text(game.castling_rights));
        push_char(&mut fen_string, ' ');
        match game.en_passant {
            Some(en_passant) => {
                match bit_to_coords(en_passant) {
                    Ok(coords) => {
                        fen_string.append(coords.as_str());
                    },
                    Err(_) => {},
                }
            },
            None => {
                push_char(&mut fen_string, '-');
            },
        }
        assert(fen_string@ =~= fen_without_move_counts(game@));
        fen_string
    }
}

/// How a piece is drawn: a white (97) or black (30) foreground and the piece's symbol between
/// spaces.
pub open spec fn piece_symbol(p: Piece) -> Seq<char> {
    if p.colour == Colour::White {
        match p.piece_type {
            PieceType::Pawn => "\x1b[97m ♟ "@,
            PieceType::Bishop => "\x1b[97m ♝ "@,
            PieceType::Knight => "\x1b[97m ♞ "@,
            PieceType::Rook => "\x1b[97m ♜ "@,
            PieceType::Queen => "\x1b[97m ♛ "@,
            PieceType::King => "\x1b[97m ♚ "@,
        }
    } else {
        match p.piece_type {
            PieceType::Pawn => "\x1b[30m ♟ "@,
            PieceType::Bishop => "\x1b[30m ♝ "@,
            PieceType::Knight => "\x1b[30m ♞ "@,
            PieceType::Rook => "\x1b[30m ♜ "@,
            PieceType::Queen => "\x1b[30m ♛ "@,
            PieceType::King => "\x1b[30m ♚ "@,
        }
    }
}

/// A piece is drawn as a colour code, white (97) or black (30), then the chess symbol of its
/// type between spaces; the symbol is the same for both colours and is the Unicode chess
/// symbol of the type (U+265A king, U+265B queen, U+265C rook, U+265D bishop, U+265E knight,
/// U+265F pawn), so different types are drawn differently.
pub proof fn lemma_piece_symbol_shape(p: Piece)
    ensures
        piece_symbol(p).len() == 8,
        piece_symbol(p).subrange(0, 5) == if p.colour == Colour::White { "\x1b[97m"@ } else { "\x1b[30m"@ },
        piece_symbol(p)[5] == ' ' && piece_symbol(p)[7] == ' ',
        piece_symbol(p)[6] == piece_symbol(Piece { colour: opponent(p.colour), ..p })[6],
        piece_symbol(p)[6] as u32 == 0x265A + match p.piece_type {
            PieceType::King => 0u32,
            PieceType::Queen => 1u32,
            PieceType::Rook => 2u32,
            PieceType::Bishop => 3u32,
            PieceType::Knight => 4u32,
            PieceType::Pawn => 5u32,
        },
{
    reveal_strlit("\x1b[97m");
    reveal_strlit("\x1b[30m");
    reveal_strlit("\x1b[97m ♟ ");
    reveal_strlit("\x1b[97m ♝ ");
    reveal_strlit("\x1b[97m ♞ ");
    reveal_strlit("\x1b[97m ♜ ");
    reveal_strlit("\x1b[97m ♛ ");
    reveal_strlit("\x1b[97m ♚ ");
    reveal_strlit("\x1b[30m ♟ ");
    reveal_strlit("\x1b[30m ♝ ");
    reveal_strlit("\x1b[30m ♞ ");
    reveal_strlit("\x1b[30m ♜ ");
    reveal_strlit("\x1b[30m ♛ ");
    reveal_strlit("\x1b[30m ♚ ");
    assert(piece_symbol(p).subrange(0, 5) =~= if p.colour == Colour::White { "\x1b[97m"@ } else { "\x1b[30m"@ });
}

impl Piece {
    /// The piece as drawn on the board.
    pub fn to_string(&self) -> (text: String)
        ensures
            text@ == piece_symbol(*self),
    {
        if self.colour == Colour::White {
            let result = match self.piece_type {
                PieceType::Pawn => "\x1b[97m ♟ ",
                PieceType::Bishop => "\x1b[97m ♝ ",
                PieceType::Knight => "\x1b[97m ♞ ",
                PieceType::Rook => "\x1b[97m ♜ ",
                PieceType::Queen => "\x1b[97m ♛ ",
                PieceType::King => "\x1b[97m ♚ ",
            };
            String::from_str(result)
        } else {
            let result = match self.piece_type {
                PieceType::Pawn => "\x1b[30m ♟ ",
                PieceType::Bishop => "\x1b[30m ♝ ",
                PieceType::Knight => "\x1b[30m ♞ ",
                PieceType::Rook => "\x1b[30m ♜ ",
                PieceType::Queen => "\x1b[30m ♛ ",
                PieceType::King => "\x1b[30m ♚ ",
            };
            String::from_str(result)
        }
    }
}

/// The background of square `i`: two shades of brown in a checker pattern, green for the
/// squares of the last move (lighter for its start square).
pub open spec fn square_background(g: Position, i: int) -> Seq<char> {
    let base = if i % 2 == (i / 8) % 2 {
        "\x1b[48;5;130m"@
    } else {
        "\x1b[48;5;172m"@
    };
    match g.last_move {
        Some(m) => if i == m.from_square {
            "\x1b[48;5;149m"@
        } else if i == m.to_square {
            "\x1b[48;5;112m"@
        } else {
            base
        },
        None => base,
    }
}

/// The drawing of square `i`: its background, the piece or three spaces, and the reset.
pub open spec fn square_drawing(g: Position, i: int) -> Seq<char> {
    square_background(g, i) + match g.squares[i] {
        Square::Empty => "   "@,
        Square::Occupied(k) => piece_symbol(g.pieces[k as int]),
    } + "\x1b[0m"@
}

/// The board drawn after the first `n` squares: the finished ranks (the latest on top, under
/// the file letters) and the rank being drawn.
pub open spec fn drawing_after(g: Position, n: nat) -> (Seq<char>, Seq<char>)
    decreases n,
{
    if n == 0 {
        ("   a  b  c  d  e  f  g  h"@, Seq::empty())
    } else {
        let i = n - 1;
        let (board, temp) = drawing_after(g, (n - 1) as nat);
        let rank = decimal_digits((i / 8 + 1) as nat);
        let temp1 = if i % 8 == 0 { temp + rank + seq![' '] } else { temp };
        let temp2 = temp1 + square_drawing(g, i);
        if n % 8 == 0 {
            ((temp2 + seq![' '] + rank + seq!['\n']) + board, Seq::empty())
        } else {
            (board, temp2)
        }
    }
}

/// The board as drawn in a terminal: ranks 8 to 1 between two lines of file letters, each
/// rank numbered on both sides.
pub open spec fn board_drawing(g: Position) -> Seq<char> {
    let (board, temp) = drawing_after(g, g.squares.len());
    temp + ("   a  b  c  d  e  f  g  h\n"@ + board)
}

fn prepend(front: &String, back: &String) -> (text: String)
    ensures
        text@ == front@ + back@,
{
    let mut text = front.clone();
    text.append(back.as_str());
    text
}

impl Game {
    fn draw_square(&self, i: usize) -> (text: String)
        requires
            i < self.squares@.len(),
            squares_name_pieces(self@),
        ensures
            text@ == square_drawing(self@, i as int),
    {
        let mut temp = String::new();
        let mut background_colour = if i % 2 == (i / 8) % 2 {
            "\x1b[48;5;130m"
        } else {
            "\x1b[48;5;172m"
        };
        // Last move highlighting
        match self.last_move {
            Some(last_move) => {
                if i == last_move.to_square {
                    background_colour = "\x1b[48;5;112m";
                }
                if i == last_move.from_square {
                    background_colour = "\x1b[48;5;149m";
                }
            },
            None => {},
        }
        temp.append(background_colour);
        match self.squares[i] {
            Square::Empty => {
                temp.append("   ");
            },
            Square::Occupied(idx) => {
                assert(self.squares@[i as int] matches Square::Occupied(k) ==> k < self.pieces@.len());
                let symbol = self.pieces[idx].to_string();
                temp.append(symbol.as_str());
            },
        }
        temp.append("\x1b[0m");
        temp
    }

    /// The board as drawn in a terminal, with colours.
    #[verifier::rlimit(60)]
    pub fn to_string(&self) -> (board_text: String)
        requires
            squares_name_pieces(self@),
        ensures
            board_text@ == board_drawing(self@),
    {
        let mut board = String::from_str("   a  b  c  d  e  f  g  h");
        let mut temp = String::new();
        let mut i: usize = 0;
        while i < self.squares.len()
            invariant
                0 <= i <= self.squares@.len(),
                squares_name_pieces(self@),
                drawing_after(self@, i as nat) == (board@, temp@),
            decreases self.squares@.len() - i,
        {
            let rank = decimal(i / 8 + 1);
            if i % 8 == 0 {
                temp.append(rank.as_str());
                push_char(&mut temp, ' ');
            }
            let square_text = self.draw_square(i);
            temp.append(square_text.as_str());
            if (i + 1) % 8 == 0 {
                push_char(&mut temp, ' ');
                temp.append(rank.as_str());
                push_char(&mut temp, '\n');
                board = prepend(&temp, &board);
                temp = String::new();
            }
            i += 1;
            proof {
                assert(drawing_after(self@, i as nat) == (board@, temp@));
            }
        }
        let letters = String::from_str("   a  b  c  d  e  f  g  h\n");
        board = prepend(&letters, &board);
        board = prepend(&temp, &board);
        board
    }
}

/// How a game stands before the side to move plays.
#[derive(Debug, PartialEq, Eq, Structural, Clone, Copy)]
pub enum GameStatus {
    /// No queen, rook or pawn is left and each side has at most two pieces: a draw.
    InsufficientMaterial,
    /// The side to move has no move and is in check: the other colour wins.
    Checkmate(Colour),
    /// The side to move has no move and is not in check: a draw.
    Stalemate,
    /// The game goes on; the side to move may be in check.
    Ongoing { in_check: bool },
}

/// The number of pieces of the list that `sel` picks.
pub open spec fn count_where(ps: Seq<Piece>, sel: spec_fn(Piece) -> bool) -> nat
    decreases ps.len(),
{
    if ps.len() == 0 {
        0
    } else {
        count_where(ps.drop_last(), sel) + if sel(ps.last()) { 1nat } else { 0nat }
    }
}

/// Live queens, rooks and pawns: the pieces that can still force a mate.
pub open spec fn live_major_or_pawn() -> spec_fn(Piece) -> bool {
    |p: Piece| !p.taken && (p.piece_type == PieceType::Queen || p.piece_type == PieceType::Rook || p.piece_type == PieceType::Pawn)
}

/// The standing of a position whose side to move has moves or not (`no_moves`).
pub open spec fn status_of(g: Position, no_moves: bool) -> GameStatus {
    if count_where(g.pieces, live_major_or_pawn()) == 0 && count_where(g.pieces, live_of(Colour::White)) <= 2
        && count_where(g.pieces, live_of(Colour::Black)) <= 2 {
        GameStatus::InsufficientMaterial
    } else if no_moves {
        if g.colour_in_check == Some(g.active_colour) {
            GameStatus::Checkmate(opponent(g.active_colour))
        } else {
            GameStatus::Stalemate
        }
    } else {
        GameStatus::Ongoing { in_check: g.colour_in_check == Some(g.active_colour) }
    }
}

proof fn lemma_count_where_zero(ps: Seq<Piece>, sel: spec_fn(Piece) -> bool)
    ensures
        count_where(ps, sel) == 0 <==> forall|i: int| 0 <= i < ps.len() ==> !sel(#[trigger] ps[i]),
    decreases ps.len(),
{
    if ps.len() > 0 {
        let prev = ps.drop_last();
        lemma_count_where_zero(prev, sel);
        if count_where(ps, sel) == 0 {
            assert forall|i: int| 0 <= i < ps.len() implies !sel(#[trigger] ps[i]) by {
                if i < prev.len() {
                    assert(prev[i] == ps[i]);
                }
            }
        }
        if forall|i: int| 0 <= i < ps.len() ==> !sel(#[trigger] ps[i]) {
            assert forall|i: int| 0 <= i < prev.len() implies !sel(#[trigger] prev[i]) by {
                assert(prev[i] == ps[i]);
            }
            assert(!sel(ps[ps.len() - 1]));
        }
    }
}

/// A draw by insufficient material is declared exactly when no live queen, rook or pawn is
/// left and each side has at most two live pieces: a live queen, rook or pawn always lets the
/// game go on.
pub proof fn lemma_insufficient_material_exactly(g: Position, no_moves: bool)
    ensures
        status_of(g, no_moves) == GameStatus::InsufficientMaterial <==> {
            &&& forall|i: int|
                0 <= i < g.pieces.len() && !(#[trigger] g.pieces[i]).taken ==> g.pieces[i].piece_type != PieceType::Queen
                    && g.pieces[i].piece_type != PieceType::Rook && g.pieces[i].piece_type != PieceType::Pawn
            &&& count_where(g.pieces, live_of(Colour::White)) <= 2
            &&& count_where(g.pieces, live_of(Colour::Black)) <= 2
        },
        forall|i: int|
            0 <= i < g.pieces.len() && !(#[trigger] g.pieces[i]).taken && (g.pieces[i].piece_type == PieceType::Queen
                || g.pieces[i].piece_type == PieceType::Rook || g.pieces[i].piece_type == PieceType::Pawn)
                ==> status_of(g, no_moves) != GameStatus::InsufficientMaterial,
{
    lemma_count_where_zero(g.pieces, live_major_or_pawn());
}

/// Checkmate is declared when the side to move is in check and has no moves, for the other
/// side; stalemate when it has no moves and is not in check; otherwise the game goes on,
/// reporting the check. Insufficient material takes precedence.
pub proof fn lemma_status_when_material_suffices(g: Position, no_moves: bool)
    requires
        status_of(g, no_moves) != GameStatus::InsufficientMaterial,
    ensures
        no_moves && g.colour_in_check == Some(g.active_colour) ==> status_of(g, no_moves) == GameStatus::Checkmate(
            opponent(g.active_colour),
        ),
        no_moves && g.colour_in_check != Some(g.active_colour) ==> status_of(g, no_moves) == GameStatus::Stalemate,
        !no_moves ==> status_of(g, no_moves) == (GameStatus::Ongoing { in_check: g.colour_in_check == Some(g.active_colour) }),
        (status_of(g, no_moves) matches GameStatus::Checkmate(w) ==> w != g.active_colour),
{
}

/// How the game stands, given the moves of the side to move.
pub fn game_status(game: &Game, possible_moves: &Vec<Move>) -> (status: GameStatus)
    ensures
        status == status_of(game@, possible_moves@.len() == 0),
{
    let mut majors: usize = 0;
    let mut white: usize = 0;
    let mut black: usize = 0;
    let mut i: usize = 0;
    while i < game.pieces.len()
        invariant
            0 <= i <= game.pieces@.len(),
            majors == count_where(game.pieces@.take(i as int), live_major_or_pawn()),
            white == count_where(game.pieces@.take(i as int), live_of(Colour::White)),
            black == count_where(game.pieces@.take(i as int), live_of(Colour::Black)),
            majors <= i,
            white <= i,
            black <= i,
        decreases game.pieces@.len() - i,
    {
        let piece = game.pieces[i];
        proof {
            assert(game.pieces@.take(i + 1).drop_last() =~= game.pieces@.take(i as int));
            assert(game.pieces@.take(i + 1).last() == piece);
        }
        if !piece.taken {
            match piece.piece_type {
                PieceType::Queen | PieceType::Rook | PieceType::Pawn => {
                    majors += 1;
                },
                _ => {},
            }
            match piece.colour {
                Colour::White => {
                    white += 1;
                },
                Colour::Black => {
                    black += 1;
                },
            }
        }
        i += 1;
    }
    proof {
        assert(game.pieces@.take(i as int) =~= game.pieces@);
    }
    if majors == 0 && white <= 2 && black <= 2 {
        return GameStatus::InsufficientMaterial;
    }
    let in_check = match game.colour_in_check {
        Some(colour) => colour == game.active_colour,
        None => false,
    };
    if possible_moves.len() == 0 {
        if in_check {
            GameStatus::Checkmate(opposite_colour(game.active_colour))
        } else {
            GameStatus::Stalemate
        }
    } else {
        GameStatus::Ongoing { in_check }
    }
}

/// How often each position has been reached, by its FEN record without move counts.
pub struct PositionCounts {
    pub entries: Vec<(String, i32)>,
}

/// The index of the first entry from index `k` on whose record is `key`.
pub open spec fn entry_index(es: Seq<(String, i32)>, key: Seq<char>, k: int) -> Option<int>
    decreases es.len() - k,
{
    if k < 0 || k >= es.len() {
        None
    } else if es[k].0@ == key {
        Some(k)
    } else {
        entry_index(es, key, k + 1)
    }
}

/// How often the position of record `key` has been reached: the count of its first entry, 0
/// without one.
pub open spec fn times_reached(es: Seq<(String, i32)>, key: Seq<char>) -> int {
    match entry_index(es, key, 0) {
        Some(i) => es[i].1 as int,
        None => 0,
    }
}

proof fn lemma_entry_index_facts(es: Seq<(String, i32)>, key: Seq<char>, k: int)
    requires
        0 <= k,
    ensures
        entry_index(es, key, k) matches Some(i) ==> k <= i < es.len() && es[i].0@ == key && forall|j: int| k <= j < i ==> es[j].0@ != key,
        entry_index(es, key, k) is None ==> forall|j: int| k <= j < es.len() ==> es[j].0@ != key,
    decreases es.len() - k,
{
    if k < es.len() {
        lemma_entry_index_facts(es, key, k + 1);
    }
}

proof fn lemma_entry_index_from_facts(es: Seq<(String, i32)>, key: Seq<char>, i: int)
    requires
        0 <= i < es.len(),
        es[i].0@ == key,
        forall|j: int| 0 <= j < i ==> es[j].0@ != key,
    ensures
        entry_index(es, key, 0) == Some(i),
{
    lemma_entry_index_facts(es, key, 0);
    match entry_index(es, key, 0) {
        Some(k) => {
            if k < i {
                assert(es[k].0@ != key);
            } else if k > i {
                assert(es[i].0@ != key);
            }
        },
        None => {
            assert(es[i].0@ != key);
        },
    }
}

proof fn lemma_entry_index_none(es: Seq<(String, i32)>, key: Seq<char>)
    requires
        forall|j: int| 0 <= j < es.len() ==> es[j].0@ != key,
    ensures
        entry_index(es, key, 0) is None,
{
    lemma_entry_index_facts(es, key, 0);
    match entry_index(es, key, 0) {
        Some(k) => {
            assert(es[k].0@ != key);
        },
        None => {},
    }
}

impl PositionCounts {
    /// Each record has at most one entry.
    pub open spec fn wf(self) -> bool {
        forall|i: int, j: int|
            0 <= i < j < self.entries@.len() ==> (#[trigger] self.entries@[i]).0@ != (#[trigger] self.entries@[j]).0@
    }

    /// No position reached yet.
    pub fn new() -> (counts: PositionCounts)
        ensures
            counts.wf(),
            counts.entries@.len() == 0,
            forall|key: Seq<char>| times_reached(counts.entries@, key) == 0,
    {
        PositionCounts { entries: Vec::new() }
    }

    /// How often the position of record `fen` has been reached.
    pub fn get(&self, fen: &String) -> (count: i32)
        ensures
            count == times_reached(self.entries@, fen@),
    {
        let mut i: usize = 0;
        while i < self.entries.len()
            invariant
                0 <= i <= self.entries@.len(),
                entry_index(self.entries@, fen@, 0) == entry_index(self.entries@, fen@, i as int),
            decreases self.entries@.len() - i,
        {
            if self.entries[i].0 == *fen {
                return self.entries[i].1;
            }
            i += 1;
        }
        0
    }

    /// Counts one more reaching of the position of record `fen` and returns its new count;
    /// the counts of other positions stay.
    pub fn record(&mut self, fen: String) -> (count: i32)
        requires
            old(self).wf(),
            times_reached(old(self).entries@, fen@) < i32::MAX,
        ensures
            final(self).wf(),
            count == times_reached(old(self).entries@, fen@) + 1,
            times_reached(final(self).entries@, fen@) == count,
            forall|key: Seq<char>| key != fen@ ==> times_reached(final(self).entries@, key) == times_reached(old(self).entries@, key),
    {
        let ghost old_entries = self.entries@;
        let mut i: usize = 0;
        while i < self.entries.len()
            invariant
                0 <= i <= self.entries@.len(),
                self.entries@ == old_entries,
                old_entries == old(self).entries@,
                old(self).wf(),
                times_reached(old_entries, fen@) < i32::MAX,
                forall|j: int| 0 <= j < i ==> (#[trigger] old_entries[j]).0@ != fen@,
            decreases self.entries@.len() - i,
        {
            if self.entries[i].0 == fen {
                proof {
                    lemma_entry_index_from_facts(old_entries, fen@, i as int);
                }
                let count = self.entries[i].1 + 1;
                let key = self.entries[i].0.clone();
                self.entries.set(i, (key, count));
                proof {
                    let es = self.entries@;
                    assert forall|a: int, b: int| 0 <= a < b < es.len() implies (#[trigger] es[a]).0@ != (#[trigger] es[b]).0@ by {
                        assert(es[a].0@ == old_entries[a].0@);
                        assert(es[b].0@ == old_entries[b].0@);
                        assert(old_entries[a].0@ != old_entries[b].0@);
                    }
                    assert forall|j: int| 0 <= j < i implies es[j].0@ != fen@ by {
                        assert(es[j] == old_entries[j]);
                    }
                    lemma_entry_index_from_facts(es, fen@, i as int);
                    assert forall|key: Seq<char>| key != fen@ implies times_reached(es, key) == times_reached(old_entries, key) by {
                        lemma_entry_index_facts(old_entries, key, 0);
                        lemma_entry_index_facts(es, key, 0);
                        assert(es.len() == old_entries.len());
                        assert forall|j: int| 0 <= j < es.len() implies (es[j].0@ == key) == (old_entries[j].0@ == key) by {
                            if j != i {
                                assert(es[j] == old_entries[j]);
                            }
                        }
                        match entry_index(old_entries, key, 0) {
                            Some(k) => {
                                assert(k != i);
                                lemma_entry_index_from_facts(es, key, k);
                                assert(es[k] == old_entries[k]);
                            },
                            None => {
                                lemma_entry_index_none(es, key);
                            },
                        }
                    }
                }
                return count;
            }
            i += 1;
        }
        proof {
            lemma_entry_index_none(old_entries, fen@);
        }
        self.entries.push((fen, 1));
        proof {
            let es = self.entries@;
            assert forall|a: int, b: int| 0 <= a < b < es.len() implies (#[trigger] es[a]).0@ != (#[trigger] es[b]).0@ by {
                assert(es[a] == old_entries[a]);
                if b < old_entries.len() {
                    assert(es[b] == old_entries[b]);
                    assert(old_entries[a].0@ != old_entries[b].0@);
                } else {
                    assert(old_entries[a].0@ != fen@);
                }
            }
            assert forall|j: int| 0 <= j < old_entries.len() implies es[j].0@ != fen@ by {
                assert(es[j] == old_entries[j]);
            }
            lemma_entry_index_from_facts(es, fen@, old_entries.len() as int);
            assert forall|key: Seq<char>| key != fen@ implies times_reached(es, key) == times_reached(old_entries, key) by {
                lemma_entry_index_facts(old_entries, key, 0);
                match entry_index(old_entries, key, 0) {
                    Some(k) => {
                        assert forall|j: int| 0 <= j < k implies es[j].0@ != key by {
                            assert(es[j] == old_entries[j]);
                        }
                        assert(es[k] == old_entries[k]);
                        lemma_entry_index_from_facts(es, key, k);
                    },
                    None => {
                        assert forall|j: int| 0 <= j < es.len() implies es[j].0@ != key by {
                            if j < old_entries.len() {
                                assert(es[j] == old_entries[j]);
                            }
                        }
                        lemma_entry_index_none(es, key);
                    },
                }
            }
        }
        1
    }
}

fn has_king(pieces: &Vec<Piece>, c: Colour) -> (found: bool)
    ensures
        found == (find_first(pieces@, king_of(c)) is Some),
{
    let mut i: usize = 0;
    while i < pieces.len()
        invariant
            0 <= i <= pieces@.len(),
            find_first(pieces@, king_of(c)) == find_from(pieces@, king_of(c), i as int),
        decreases pieces@.len() - i,
    {
        if pieces[i].piece_type == PieceType::King && pieces[i].colour == c {
            return true;
        }
        i += 1;
    }
    false
}

fn on_a_square(bit: u64) -> (single: bool)
    ensures
        single == is_square_bit(bit),
{
    let square = crate::bitboard::bit_to_onebit_index(bit);
    if square < 64 {
        let back = crate::bitboard::onebit_index_to_bit(square);
        if back == bit {
            return true;
        }
    }
    proof {
        if is_square_bit(bit) {
            let i = choose|i: int| 0 <= i < 64 && bit == square_bit(i);
            assert(square == i);
        }
    }
    false
}

impl Game {
    /// Whether move generation can run on the game: 64 squares, each piece on one square, a
    /// king of each colour, and each king with a castling right placed so that its castling
    /// target is on the board (see `Position::wf`).
    pub fn is_playable(&self) -> (playable: bool)
        ensures
            playable == self@.wf(),
    {
        if self.squares.len() != 64 {
            return false;
        }
        let mut i: usize = 0;
        while i < self.pieces.len()
            invariant
                0 <= i <= self.pieces@.len(),
                forall|k: int| 0 <= k < i ==> is_square_bit(#[trigger] self.pieces@[k].bit),
                forall|k: int|
                    0 <= k < i && (#[trigger] self.pieces@[k]).piece_type == PieceType::King ==> {
                        let c = self.pieces@[k].colour;
                        &&& self.castling_rights.has(kingside_right(c)) ==> square_of(self.pieces@[k].bit) <= 61
                        &&& self.castling_rights.has(queenside_right(c)) ==> square_of(self.pieces@[k].bit) >= 2
                    },
            decreases self.pieces@.len() - i,
        {
            let piece = self.pieces[i];
            if !on_a_square(piece.bit) {
                return false;
            }
            if piece.piece_type == PieceType::King {
                let square = crate::bitboard::bit_to_onebit_index(piece.bit);
                let kingside = match piece.colour {
                    Colour::White => CastlingRights::white_kingside(),
                    Colour::Black => CastlingRights::black_kingside(),
                };
                let queenside = match piece.colour {
                    Colour::White => CastlingRights::white_queenside(),
                    Colour::Black => CastlingRights::black_queenside(),
                };
                if self.castling_rights.contains(kingside) && square > 61 {
                    return false;
                }
                if self.castling_rights.contains(queenside) && square < 2 {
                    return false;
                }
            }
            i += 1;
        }
        has_king(&self.pieces, Colour::White) && has_king(&self.pieces, Colour::Black)
    }
}

proof fn lemma_sides_cover_board_of(ps: Seq<Piece>, c: Colour)
    ensures
        selected_bits(ps, live_of(c)) | selected_bits(ps, live_not_of(c)) == selected_bits(ps, live()),
    decreases ps.len(),
{
    if ps.len() > 0 {
        let rest = ps.drop_last();
        lemma_sides_cover_board_of(rest, c);
        let f = selected_bits(rest, live_of(c));
        let e = selected_bits(rest, live_not_of(c));
        let b = ps.last().bit;
        assert((f | b) | e == (f | e) | b) by (bit_vector);
        assert(f | (e | b) == (f | e) | b) by (bit_vector);
    } else {
        assert(0u64 | 0u64 == 0u64) by (bit_vector);
    }
}

/// The pieces of the side to move and those of the other side together make up the board of
/// all pieces.
pub proof fn lemma_sides_cover_board(g: Position)
    ensures
        g.friendly_bits() | g.enemy_bits() == g.occupied_bits(),
{
    lemma_sides_cover_board_of(g.pieces, g.active_colour);
}

/// Whether the engine plays the side to move: in a game of no players always, in a game of
/// one player for Black.
pub fn engine_to_move(players: i8, active_colour: Colour) -> (engine: bool)
    ensures
        engine == (players == 0 || (players == 1 && active_colour == Colour::Black)),
{
    players == 0 || (players == 1 && active_colour == Colour::Black)
}

/// Whether a position reached this often ends the game in a draw by repetition: at the fifth
/// time.
pub fn is_fivefold_repetition(times: i32) -> (draw: bool)
    ensures
        draw == (times == 5),
{
    times == 5
}

/// Whether a live piece of the side to move stands on the start square of a move.
pub fn has_piece_to_move(game: &Game, m: Move) -> (found: bool)
    requires
        m.from_square < 64,
    ensures
        found == (find_first(game.pieces@, crate::moves::live_on_of(square_bit(m.from_square as int), game.active_colour)) is Some),
{
    let start_bit = crate::bitboard::onebit_index_to_bit(m.from_square);
    crate::moves::find_first_exec_live_of(&game.pieces, start_bit, game.active_colour).is_some()
}

impl Game {
    /// Whether every occupied square names a piece of the list and any en passant square is a
    /// board, as drawing and writing the game need.
    pub fn can_be_written(&self) -> (ok: bool)
        ensures
            ok == (squares_name_pieces(self@) && self.en_passant != Some(0u64)),
    {
        if let Some(0) = self.en_passant {
            return false;
        }
        let mut i: usize = 0;
        while i < self.squares.len()
            invariant
                0 <= i <= self.squares@.len(),
                forall|k: int| 0 <= k < i ==> (#[trigger] self.squares@[k] matches Square::Occupied(p) ==> p < self.pieces@.len()),
            decreases self.squares@.len() - i,
        {
            if let Square::Occupied(p) = self.squares[i] {
                if p >= self.pieces.len() {
                    return false;
                }
            }
            i += 1;
        }
        true
    }
}

impl Game {
    /// Whether the squares and the live pieces agree (see `Position::consistent`).
    pub fn is_consistent(&self) -> (ok: bool)
        ensures
            ok == self@.consistent(),
    {
        let ghost g = self@;
        if self.squares.len() != 64 {
            return false;
        }
        let mut i: usize = 0;
        while i < self.pieces.len()
            invariant
                0 <= i <= self.pieces@.len(),
                self.squares@.len() == 64,
                forall|k: int| 0 <= k < i ==> is_square_bit(#[trigger] self.pieces@[k].bit),
                forall|k: int|
                    0 <= k < i && !(#[trigger] self.pieces@[k]).taken ==> self.squares@[square_of(self.pieces@[k].bit)]
                        == Square::Occupied(k as usize),
            decreases self.pieces@.len() - i,
        {
            let piece = self.pieces[i];
            if !on_a_square(piece.bit) {
                return false;
            }
            proof {
                crate::bitboard::lemma_square_of_square_bit(piece.bit);
            }
            if !piece.taken {
                let square = crate::bitboard::bit_to_onebit_index(piece.bit);
                if self.squares[square] != Square::Occupied(i) {
                    return false;
                }
            }
            i += 1;
        }
        let mut s: usize = 0;
        while s < 64
            invariant
                0 <= s <= 64,
                self.squares@.len() == 64,
                forall|t: int|
                    0 <= t < s ==> (#[trigger] self.squares@[t] matches Square::Occupied(k) ==> k < self.pieces@.len()
                        && !self.pieces@[k as int].taken && self.pieces@[k as int].bit == square_bit(t)),
            decreases 64 - s,
        {
            if let Square::Occupied(k) = self.squares[s] {
                if k >= self.pieces.len() {
                    return false;
                }
                let p = self.pieces[k];
                if p.taken || p.bit != crate::bitboard::onebit_index_to_bit(s) {
                    return false;
                }
            }
            s += 1;
        }
        true
    }
}

} // verus!
