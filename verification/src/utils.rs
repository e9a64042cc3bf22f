use vstd::prelude::*;

pub use crate::bitboard::{bit_to_onebit_index, bitboard_to_indices, onebit_index_to_bit};

verus! {

use vstd::string::*;
use vstd::utf8::*;
use crate::bitboard::{mod67_entry, square_bit};
use std::collections::VecDeque;
use crate::game::{Colour, Game, Piece, PieceType, Position, Square, find_first, lemma_find_from_facts};
use crate::moves::{Move, live_on_of, find_first_exec_live_of};

/// Appends `c` to `s` (`String::push`): the string afterwards is the old one followed by `c`.
#[verifier::external_body]
pub(crate) fn push_char(s: &mut String, c: char)
    ensures
        final(s)@ == old(s)@.push(c),
{
    s.push(c);
}

/// The character of the decimal digit `d`.
pub open spec fn digit_char(d: int) -> char {
    (48 + d) as char
}

/// The decimal digits of `n`, most significant first.
pub open spec fn decimal_digits(n: nat) -> Seq<char>
    decreases n,
{
    if n < 10 {
        seq![digit_char(n as int)]
    } else {
        decimal_digits(n / 10).push(digit_char((n % 10) as int))
    }
}

fn digit_to_char(d: usize) -> (c: char)
    requires
        d < 10,
    ensures
        c == digit_char(d as int),
{
    match d {
        0 => '0',
        1 => '1',
        2 => '2',
        3 => '3',
        4 => '4',
        5 => '5',
        6 => '6',
        7 => '7',
        8 => '8',
        _ => '9',
    }
}

/// Writes `n` in decimal.
pub fn decimal(n: usize) -> (text: String)
    ensures
        text@ == decimal_digits(n as nat),
    decreases n,
{
    if n < 10 {
        let mut text = String::new();
        push_char(&mut text, digit_to_char(n));
        proof {
            assert(text@ =~= seq![digit_char(n as int)]);
        }
        text
    } else {
        let mut text = decimal(n / 10);
        push_char(&mut text, digit_to_char(n % 10));
        text
    }
}

/// The letter of file `f` (0 for 'a').
pub open spec fn file_char(f: int) -> char {
    (97 + f) as char
}

/// The coordinates of square `i`: its file letter and its rank number.
pub open spec fn coords_of(i: nat) -> Seq<char> {
    seq![file_char((i % 8) as int)] + decimal_digits(i / 8 + 1)
}

pub fn onebit_index_to_coords(onebit_index: usize) -> (coords: String)
    ensures
        coords@ == coords_of(onebit_index as nat),
{
    let column = onebit_index % 8;
    let row = onebit_index / 8 + 1;
    let file = match column {
        0 => 'a',
        1 => 'b',
        2 => 'c',
        3 => 'd',
        4 => 'e',
        5 => 'f',
        6 => 'g',
        _ => 'h',
    };
    let mut coords = String::new();
    push_char(&mut coords, file);
    let rank = decimal(row);
    coords.append(rank.as_str());
    proof {
        assert(coords@ =~= coords_of(onebit_index as nat));
    }
    coords
}

/// The result of reading coordinates from their UTF-8 bytes: two bytes, a file letter 'a' to
/// 'h' and a rank digit '1' to '8', name the square `8 * rank + file`; anything else is an
/// error whose message names what is wrong.
pub open spec fn coords_index(coords: Seq<char>) -> Result<usize, Seq<char>> {
    let b = encode_utf8(coords);
    if b.len() != 2 {
        Err("Invalid length: "@ + decimal_digits((b.len() as usize) as nat) + ", string: '"@ + coords + "'"@)
    } else if b[0] < 97 || b[0] >= 105 {
        Err("Invalid column character: "@ + seq![b[0] as char] + ", string: '"@ + coords + "'"@)
    } else if b[1] < 49 || b[1] > 56 {
        Err("Invalid row character: "@ + decimal_digits(b[1] as nat) + ", string: '"@ + coords + "'"@)
    } else {
        Ok(((b[1] - 49) * 8 + (b[0] - 97)) as usize)
    }
}

/// Whether an exec result and a spec result agree, messages compared by their characters.
pub open spec fn same_result<T>(r: Result<T, String>, s: Result<T, Seq<char>>) -> bool {
    match (r, s) {
        (Ok(a), Ok(b)) => a == b,
        (Err(m), Err(e)) => m@ == e,
        _ => false,
    }
}

fn message(parts_before: &str, middle: &str, coords: &str) -> (text: String)
    ensures
        text@ == parts_before@ + middle@ + ", string: '"@ + coords@ + "'"@,
{
    let mut text = String::from_str(parts_before);
    text.append(middle);
    text.append(", string: '");
    text.append(coords);
    text.append("'");
    text
}

pub fn coords_to_onebit_index(coords: &str) -> (index: Result<usize, String>)
    ensures
        same_result(index, coords_index(coords@)),
{
    if coords.len() != 2 {
        let len_text = decimal(coords.len());
        return Err(message("Invalid length: ", len_text.as_str(), coords));
    }
    let bytes = coords.as_bytes();
    let byte0 = bytes[0];
    if byte0 < 97 || byte0 >= 97 + 8 {
        let mut column_text = String::new();
        push_char(&mut column_text, byte0 as char);
        return Err(message("Invalid column character: ", column_text.as_str(), coords));
    }
    let column = (byte0 - 97) as u32;
    let byte1 = bytes[1];
    if byte1 < 49 || byte1 > 56 {
        let row_text = decimal(byte1 as usize);
        return Err(message("Invalid row character: ", row_text.as_str(), coords));
    }
    let row = (byte1 - 49) as u32;
    let onebit_index = row * 8 + column;
    Ok(onebit_index as usize)
}

/// The board of the square named by `coords`, or an error naming the coordinates.
pub fn coords_to_bit(coords: &str) -> (bit: Result<u64, String>)
    ensures
        same_result(
            bit,
            match coords_index(coords@) {
                Ok(i) => Ok(square_bit(i as int)),
                Err(_) => Err("Invalid coords: "@ + coords@),
            },
        ),
{
    match coords_to_onebit_index(coords) {
        Ok(onebit_index) => {
            assert(onebit_index < 64);
            Ok(onebit_index_to_bit(onebit_index))
        },
        Err(_) => {
            let mut text = String::from_str("Invalid coords: ");
            text.append(coords);
            Err(text)
        },
    }
}

/// The coordinates of the square of a single-square board (for other nonzero boards, of the
/// square its table entry names), or an error for the empty board.
pub fn bit_to_coords(bit: u64) -> (coords: Result<String, String>)
    ensures
        bit == 0 ==> (coords matches Err(m) && m@ == "No piece present!"@),
        bit != 0 ==> (coords matches Ok(text) && text@ == coords_of(mod67_entry(bit % 67) as nat)),
{
    if bit == 0 {
        Err(String::from_str("No piece present!"))
    } else {
        let onebit_index = bit_to_onebit_index(bit);
        let text = onebit_index_to_coords(onebit_index);
        Ok(text)
    }
}

/// Reading the coordinates of a square of the board gives the square back.
pub proof fn lemma_coords_round_trip(coords: &str, i: usize)
    requires
        i < 64,
        coords@ == coords_of(i as nat),
    ensures
        coords_index(coords@) == Ok::<usize, Seq<char>>(i),
{
    let r = i / 8 + 1;
    assert(decimal_digits(r as nat) == seq![digit_char(r as int)]);
    assert(coords@ =~= seq![file_char((i % 8) as int), digit_char(r as int)]);
    assert(is_ascii(coords));
    broadcast use is_ascii_spec_bytes;
    let b = coords.spec_bytes();
    assert(b.len() == 2);
    assert(b[0] == 97 + i % 8);
    assert(b[1] == 48 + r);
}

/// The index of the first `sep` in `s` from index `k` on.
pub open spec fn first_index_of(s: Seq<char>, sep: char, k: int) -> Option<int>
    decreases s.len() - k,
{
    if k < 0 || k >= s.len() {
        None
    } else if s[k] == sep {
        Some(k)
    } else {
        first_index_of(s, sep, k + 1)
    }
}

/// The text before the first `sep` and the text after it; the whole text and nothing when
/// `sep` does not occur.
pub open spec fn split_at_first(s: Seq<char>, sep: char) -> (Seq<char>, Seq<char>) {
    match first_index_of(s, sep, 0) {
        Some(i) => (s.subrange(0, i), s.subrange(i + 1, s.len() as int)),
        None => (s, Seq::empty()),
    }
}

/// Every character up to and including the first `sep` is ASCII.
pub open spec fn ascii_through_separator(s: Seq<char>, sep: char) -> bool {
    match first_index_of(s, sep, 0) {
        Some(i) => forall|j: int| 0 <= j <= i ==> (#[trigger] s[j] as u32) < 128,
        None => true,
    }
}

/// Splits `s` at the first `sep`: the text before it and the text after it, or the whole text
/// and an empty one when `sep` does not occur.
pub fn split_on<'a>(s: &'a str, sep: char) -> (parts: (&'a str, &'a str))
    requires
        ascii_through_separator(s@, sep),
    ensures
        (parts.0@, parts.1@) == split_at_first(s@, sep),
{
    let (before, after, _) = split_chars(s, sep);
    (before, after)
}

/// Splits `s` at the first `sep`, character by character, and tells whether `sep` occurs.
pub(crate) fn split_chars<'a>(s: &'a str, sep: char) -> (parts: (&'a str, &'a str, bool))
    ensures
        (parts.0@, parts.1@) == split_at_first(s@, sep),
        parts.2 == (first_index_of(s@, sep, 0) is Some),
{
    let n = s.unicode_len();
    let mut i: usize = 0;
    while i < n
        invariant
            0 <= i <= n,
            n == s@.len(),
            first_index_of(s@, sep, 0) == first_index_of(s@, sep, i as int),
        decreases n - i,
    {
        if s.get_char(i) == sep {
            return (s.substring_char(0, i), s.substring_char(i + 1, n), true);
        }
        i += 1;
    }
    proof {
        reveal_strlit("");
    }
    (s, "", false)
}

/// Whether `s` can be split at `sep`: every character up to and including the first `sep`
/// is ASCII.
pub fn splits_cleanly(s: &str, sep: char) -> (clean: bool)
    ensures
        clean == ascii_through_separator(s@, sep),
{
    let n = s.unicode_len();
    let mut i: usize = 0;
    while i < n
        invariant
            0 <= i <= n,
            n == s@.len(),
            first_index_of(s@, sep, 0) == first_index_of(s@, sep, i as int),
        decreases n - i,
    {
        if s.get_char(i) == sep {
            let mut j: usize = 0;
            while j <= i
                invariant
                    0 <= j <= i + 1,
                    i < n,
                    n == s@.len(),
                    first_index_of(s@, sep, 0) == Some(i as int),
                    forall|k: int| 0 <= k < j ==> (#[trigger] s@[k] as u32) < 128,
                decreases i + 1 - j,
            {
                if (s.get_char(j) as u32) >= 128 {
                    return false;
                }
                j += 1;
            }
            return true;
        }
        i += 1;
    }
    true
}

/// The piece type a lowercase FEN letter names.
pub open spec fn piece_type_of_letter(c: char) -> Option<PieceType> {
    if c == 'r' {
        Some(PieceType::Rook)
    } else if c == 'b' {
        Some(PieceType::Bishop)
    } else if c == 'n' {
        Some(PieceType::Knight)
    } else if c == 'q' {
        Some(PieceType::Queen)
    } else if c == 'k' {
        Some(PieceType::King)
    } else if c == 'p' {
        Some(PieceType::Pawn)
    } else {
        None
    }
}

/// ASCII uppercase letters.
pub open spec fn is_upper_ascii(c: char) -> bool {
    'A' <= c <= 'Z'
}

/// The character with ASCII uppercase letters lowered.
pub open spec fn lower_ascii(c: char) -> char {
    if is_upper_ascii(c) {
        ((c as u32) + 32) as char
    } else {
        c
    }
}

/// The state of reading a FEN row: the pieces found, the squares (each new one in front),
/// the next piece index and the next square index.
pub type RowState = (Seq<Piece>, Seq<Square>, int, int);

/// One character of a FEN row read: a piece letter (uppercase for White) places a piece on
/// the next square, a digit leaves that many squares empty. Any other character, a piece
/// beyond the last square, or an index past the machine's range, is an error.
pub open spec fn fen_row_step(st: RowState, c: char) -> Option<RowState> {
    let (pieces, squares, piece_index, onebit_index) = st;
    match piece_type_of_letter(lower_ascii(c)) {
        Some(t) => if onebit_index >= 64 || piece_index >= usize::MAX {
            None
        } else {
            let piece = Piece {
                colour: if is_upper_ascii(c) { Colour::White } else { Colour::Black },
                bit: square_bit(onebit_index),
                piece_type: t,
                taken: false,
            };
            Some((pieces.push(piece), seq![Square::Occupied(piece_index as usize)] + squares, piece_index + 1, onebit_index + 1))
        },
        None => if '0' <= c <= '9' && onebit_index + (c as int - 48) <= usize::MAX {
            let n = c as int - 48;
            Some((pieces, Seq::new(n as nat, |k: int| Square::Empty) + squares, piece_index, onebit_index + n))
        } else {
            None
        },
    }
}

/// The state after reading a whole FEN row from state `st`.
pub open spec fn fen_row_from(row: Seq<char>, st: RowState) -> Option<RowState>
    decreases row.len(),
{
    if row.len() == 0 {
        Some(st)
    } else {
        match fen_row_from(row.drop_last(), st) {
            Some(mid) => fen_row_step(mid, row.last()),
            None => None,
        }
    }
}

/// The pieces and the squares (last square first) of a FEN row read from piece index
/// `piece_index` and square `onebit_index` on.
pub open spec fn fen_row(row: Seq<char>, piece_index: nat, onebit_index: nat) -> Option<(Seq<Piece>, Seq<Square>)> {
    match fen_row_from(row, (Seq::empty(), Seq::empty(), piece_index as int, onebit_index as int)) {
        Some(st) => Some((st.0, st.1)),
        None => None,
    }
}

fn lowercase_piece_type(c: char) -> (t: Option<PieceType>)
    ensures
        t == piece_type_of_letter(lower_ascii(c)),
{
    let lower = if 'A' <= c && c <= 'Z' { (((c as u32) + 32) as u8) as char } else { c };
    assert(lower == lower_ascii(c));
    if lower == 'r' {
        Some(PieceType::Rook)
    } else if lower == 'b' {
        Some(PieceType::Bishop)
    } else if lower == 'n' {
        Some(PieceType::Knight)
    } else if lower == 'q' {
        Some(PieceType::Queen)
    } else if lower == 'k' {
        Some(PieceType::King)
    } else if lower == 'p' {
        Some(PieceType::Pawn)
    } else {
        None
    }
}

/// Reads a FEN row, or `None` where it holds a character that is neither a piece letter nor
/// a digit, or places a piece beyond the last square.
pub fn read_fen_row(row: &str, piece_index: usize, onebit_index: usize) -> (parsed: Option<(Vec<Piece>, VecDeque<Square>)>)
    ensures
        match (parsed, fen_row(row@, piece_index as nat, onebit_index as nat)) {
            (Some(p), Some(q)) => p.0@ == q.0 && p.1@ == q.1,
            (None, None) => true,
            _ => false,
        },
{
    let ghost init: RowState = (Seq::empty(), Seq::empty(), piece_index as int, onebit_index as int);
    let mut pieces: Vec<Piece> = Vec::new();
    let mut squares: VecDeque<Square> = VecDeque::new();
    let mut next_piece = piece_index;
    let mut next_square = onebit_index;
    let n = row.unicode_len();
    let mut i: usize = 0;
    while i < n
        invariant
            0 <= i <= n,
            n == row@.len(),
            init == (Seq::<Piece>::empty(), Seq::<Square>::empty(), piece_index as int, onebit_index as int),
            fen_row_from(row@.take(i as int), init) == Some((pieces@, squares@, next_piece as int, next_square as int)),
        decreases n - i,
    {
        let ch = row.get_char(i);
        proof {
            assert(row@.take(i + 1).drop_last() =~= row@.take(i as int));
            assert(row@.take(i + 1).last() == ch);
        }
        match lowercase_piece_type(ch) {
            Some(piece_type) => {
                if next_square >= 64 || next_piece == usize::MAX {
                    proof {
                        lemma_fen_row_none_after(row@, init, (i + 1) as int);
                    }
                    return None;
                }
                let colour = if 'A' <= ch && ch <= 'Z' { Colour::White } else { Colour::Black };
                let piece = Piece {
                    colour: colour,
                    bit: onebit_index_to_bit(next_square),
                    piece_type: piece_type,
                    taken: false,
                };
                pieces.push(piece);
                squares.push_front(Square::Occupied(next_piece));
                next_square += 1;
                next_piece += 1;
            },
            None => {
                if '0' <= ch && ch <= '9' && next_square <= usize::MAX - (ch as u32 - 48) as usize {
                    let number = (ch as u32 - 48) as usize;
                    let ghost before = squares@;
                    let mut k: usize = 0;
                    while k < number
                        invariant
                            0 <= k <= number,
                            number <= 9,
                            squares@ == Seq::new(k as nat, |j: int| Square::Empty) + before,
                        decreases number - k,
                    {
                        squares.push_front(Square::Empty);
                        k += 1;
                        proof {
                            assert(squares@ =~= Seq::new(k as nat, |j: int| Square::Empty) + before);
                        }
                    }
                    next_square += number;
                } else {
                    proof {
                        lemma_fen_row_none_after(row@, init, (i + 1) as int);
                    }
                    return None;
                }
            },
        }
        i += 1;
    }
    proof {
        assert(row@.take(n as int) =~= row@);
    }
    Some((pieces, squares))
}

proof fn lemma_fen_row_none_after(row: Seq<char>, st: RowState, k: int)
    requires
        0 <= k <= row.len(),
        fen_row_from(row.take(k), st) is None,
    ensures
        fen_row_from(row, st) is None,
    decreases row.len() - k,
{
    if k < row.len() {
        assert(row.take(k + 1).drop_last() =~= row.take(k));
        lemma_fen_row_none_after(row, st, k + 1);
    } else {
        assert(row.take(k) =~= row);
    }
}

/// Reads one row of a FEN position (a rank, from file a to file h) whose first square is
/// `onebit_index` and whose first piece gets index `piece_index`: the pieces found, and the
/// squares with the last one first.
#[allow(non_snake_case)]
pub fn parse_FEN_row(row: &str, piece_index: usize, onebit_index: usize) -> (parsed: (Vec<Piece>, VecDeque<Square>))
    requires
        fen_row(row@, piece_index as nat, onebit_index as nat) is Some,
    ensures
        fen_row(row@, piece_index as nat, onebit_index as nat) == Some((parsed.0@, parsed.1@)),
{
    match read_fen_row(row, piece_index, onebit_index) {
        Some(parsed) => parsed,
        None => (Vec::new(), VecDeque::new()),
    }
}

/// The value of a string of decimal digits.
pub open spec fn digits_value(ds: Seq<char>) -> nat
    decreases ds.len(),
{
    if ds.len() == 0 {
        0
    } else {
        digits_value(ds.drop_last()) * 10 + (ds.last() as nat - 48) as nat
    }
}

/// Decimal digits only.
pub open spec fn all_digits(ds: Seq<char>) -> bool {
    forall|k: int| 0 <= k < ds.len() ==> '0' <= #[trigger] ds[k] <= '9'
}

/// An unsigned number as Rust's `from_str` reads it: an optional `+` before at least one
/// decimal digit, nothing else, and a value no greater than `limit`.
pub open spec fn unsigned_value(s: Seq<char>, limit: nat) -> Option<nat> {
    let ds = if s.len() > 1 && s[0] == '+' { s.subrange(1, s.len() as int) } else { s };
    if ds.len() > 0 && all_digits(ds) && digits_value(ds) <= limit {
        Some(digits_value(ds))
    } else {
        None
    }
}

proof fn lemma_digits_value_grows(ds: Seq<char>, i: int)
    requires
        0 <= i <= ds.len(),
        all_digits(ds),
    ensures
        digits_value(ds.take(i)) <= digits_value(ds),
    decreases ds.len() - i,
{
    if i < ds.len() {
        let t = ds.take(i + 1);
        assert(t.drop_last() =~= ds.take(i));
        assert('0' <= ds[i] <= '9');
        lemma_digits_value_grows(ds, i + 1);
    } else {
        assert(ds.take(i) =~= ds);
    }
}

/// Reads an unsigned number no greater than `limit`, as Rust's `from_str` does.
pub fn parse_unsigned(s: &str, limit: usize) -> (value: Option<usize>)
    ensures
        match (value, unsigned_value(s@, limit as nat)) {
            (Some(a), Some(b)) => a == b,
            (None, None) => true,
            _ => false,
        },
{
    let n = s.unicode_len();
    let start: usize = if n > 1 && s.get_char(0) == '+' { 1 } else { 0 };
    let ghost ds = if s@.len() > 1 && s@[0] == '+' { s@.subrange(1, s@.len() as int) } else { s@ };
    assert(ds =~= s@.subrange(start as int, n as int));
    if start == n {
        return None;
    }
    let mut value: usize = 0;
    let mut i: usize = start;
    while i < n
        invariant
            start <= i <= n,
            n == s@.len(),
            start < n,
            ds == s@.subrange(start as int, n as int),
            ds == (if s@.len() > 1 && s@[0] == '+' { s@.subrange(1, s@.len() as int) } else { s@ }),
            all_digits(ds.take(i - start)),
            value == digits_value(ds.take(i - start)),
            value <= limit,
        decreases n - i,
    {
        let c = s.get_char(i);
        let ghost k = (i - start) as int;
        proof {
            assert(ds.take(k + 1).drop_last() =~= ds.take(k));
            assert(ds[k] == c);
        }
        if c < '0' || c > '9' {
            assert(!('0' <= ds[k] <= '9'));
            assert(!all_digits(ds));
            return None;
        }
        let d = (c as u32 - 48) as usize;
        if d > limit || value > (limit - d) / 10 {
            proof {
                assert(all_digits(ds.take(k + 1)));
                assert(digits_value(ds.take(k + 1)) > limit) by (nonlinear_arith)
                    requires
                        digits_value(ds.take(k + 1)) == value * 10 + d,
                        d > limit || value > (limit - d) / 10,
                        0 <= d <= 9,
                        0 <= value,
                ;
                if all_digits(ds) {
                    lemma_digits_value_grows(ds, k + 1);
                }
            }
            return None;
        }
        proof {
            assert(value * 10 + d <= limit) by (nonlinear_arith)
                requires
                    value <= (limit - d) / 10,
                    d <= limit,
            ;
        }
        value = value * 10 + d;
        i += 1;
    }
    proof {
        assert(ds.take(n - start) =~= ds);
    }
    Some(value)
}

/// The letter of a piece type in move notation: none for a pawn.
pub open spec fn notation_letter(t: PieceType) -> Seq<char> {
    match t {
        PieceType::Bishop => seq!['b'],
        PieceType::Knight => seq!['n'],
        PieceType::Rook => seq!['r'],
        PieceType::King => seq!['k'],
        PieceType::Queen => seq!['q'],
        PieceType::Pawn => Seq::empty(),
    }
}

/// The piece of the side to move that a move moves: the first live one on its start square.
pub open spec fn moving_piece(g: Position, m: Move) -> Option<Piece> {
    match find_first(g.pieces, live_on_of(square_bit(m.from_square as int), g.active_colour)) {
        Some(i) => Some(g.pieces[i]),
        None => None,
    }
}

/// A move written with its start square: the piece letter, the start and the target
/// coordinates; none when no piece of the side to move stands on the start square.
pub open spec fn unambiguous_notation(g: Position, m: Move) -> Option<Seq<char>> {
    match moving_piece(g, m) {
        Some(p) => Some(notation_letter(p.piece_type) + coords_of(m.from_square as nat) + coords_of(m.to_square as nat)),
        None => None,
    }
}

/// A move written without its start square: the piece letter and the target coordinates;
/// none when no piece of the side to move stands on the start square.
pub open spec fn ambiguous_notation(g: Position, m: Move) -> Option<Seq<char>> {
    match moving_piece(g, m) {
        Some(p) => Some(notation_letter(p.piece_type) + coords_of(m.to_square as nat)),
        None => None,
    }
}

fn notation_letter_exec(t: PieceType) -> (letter: String)
    ensures
        letter@ == notation_letter(t),
{
    let mut letter = String::new();
    match t {
        PieceType::Bishop => push_char(&mut letter, 'b'),
        PieceType::Knight => push_char(&mut letter, 'n'),
        PieceType::Rook => push_char(&mut letter, 'r'),
        PieceType::King => push_char(&mut letter, 'k'),
        PieceType::Queen => push_char(&mut letter, 'q'),
        PieceType::Pawn => {},
    }
    proof {
        assert(letter@ =~= notation_letter(t));
    }
    letter
}

fn find_moving_piece(game: &Game, possible_move: Move) -> (piece: Option<Piece>)
    requires
        possible_move.from_square < 64,
    ensures
        piece == moving_piece(game@, possible_move),
{
    let from_bit = onebit_index_to_bit(possible_move.from_square);
    match find_first_exec_live_of(&game.pieces, from_bit, game.active_colour) {
        Some(index) => {
            proof {
                lemma_find_from_facts(game.pieces@, live_on_of(from_bit, game.active_colour), 0);
            }
            Some(game.pieces[index])
        },
        None => None,
    }
}

pub fn move_to_unambiguous_algebraic_notation(game: &Game, possible_move: Move) -> (notation: Option<String>)
    requires
        possible_move.from_square < 64,
    ensures
        match (notation, unambiguous_notation(game@, possible_move)) {
            (Some(a), Some(b)) => a@ == b,
            (None, None) => true,
            _ => false,
        },
{
    match find_moving_piece(game, possible_move) {
        Some(piece) => {
            let mut algebraic_move = notation_letter_exec(piece.piece_type);
            let from_coords = onebit_index_to_coords(possible_move.from_square);
            let to_coords = onebit_index_to_coords(possible_move.to_square);
            algebraic_move.append(from_coords.as_str());
            algebraic_move.append(to_coords.as_str());
            Some(algebraic_move)
        },
        None => None,
    }
}

pub fn move_to_ambiguous_algebraic_notation(game: &Game, possible_move: Move) -> (notation: Option<String>)
    requires
        possible_move.from_square < 64,
    ensures
        match (notation, ambiguous_notation(game@, possible_move)) {
            (Some(a), Some(b)) => a@ == b,
            (None, None) => true,
            _ => false,
        },
{
    match find_moving_piece(game, possible_move) {
        Some(piece) => {
            let mut algebraic_move = notation_letter_exec(piece.piece_type);
            let to_coords = onebit_index_to_coords(possible_move.to_square);
            algebraic_move.append(to_coords.as_str());
            Some(algebraic_move)
        },
        None => None,
    }
}

/// The text with ASCII uppercase letters lowered.
pub fn ascii_lowercase(text: &str) -> (lowered: String)
    ensures
        lowered@ == text@.map_values(|c: char| lower_ascii(c)),
{
    let n = text.unicode_len();
    let mut lowered = String::new();
    let mut i: usize = 0;
    while i < n
        invariant
            0 <= i <= n,
            n == text@.len(),
            lowered@ == text@.take(i as int).map_values(|c: char| lower_ascii(c)),
        decreases n - i,
    {
        let c = text.get_char(i);
        let lower = if 'A' <= c && c <= 'Z' { (((c as u32) + 32) as u8) as char } else { c };
        push_char(&mut lowered, lower);
        i += 1;
        proof {
            assert(lowered@ =~= text@.take(i as int).map_values(|c: char| lower_ascii(c)));
        }
    }
    proof {
        assert(text@.take(i as int) =~= text@);
    }
    lowered
}

/// Whether a written move matches a notation of the move.
pub open spec fn notation_matches(notation: Option<Seq<char>>, written: Seq<char>) -> bool {
    notation == Some(written)
}

/// The moves that a written move names, in order: each move once for its notation without
/// the start square and once more for its notation with it, the text compared with ASCII
/// letters lowered.
pub open spec fn moves_named(g: Position, moves: Seq<Move>, written: Seq<char>) -> Seq<Move>
    decreases moves.len(),
{
    if moves.len() == 0 {
        Seq::empty()
    } else {
        let m = moves.last();
        let lowered = written.map_values(|c: char| lower_ascii(c));
        let rest = moves_named(g, moves.drop_last(), written);
        let with_short = if notation_matches(ambiguous_notation(g, m), lowered) { rest.push(m) } else { rest };
        if notation_matches(unambiguous_notation(g, m), lowered) { with_short.push(m) } else { with_short }
    }
}

fn notation_is(notation: &Option<String>, written: &String) -> (same: bool)
    ensures
        same == match *notation {
            Some(n) => n@ == written@,
            None => false,
        },
{
    match notation {
        Some(text) => *text == *written,
        None => false,
    }
}

/// The moves of `possible_moves` that `move_input` names (see `moves_named`).
pub fn algebraic_matches(game: &Game, possible_moves: &Vec<Move>, move_input: &str) -> (possible_matches: Vec<Move>)
    requires
        forall|k: int| 0 <= k < possible_moves@.len() ==> (#[trigger] possible_moves@[k]).from_square < 64,
    ensures
        possible_matches@ == moves_named(game@, possible_moves@, move_input@),
{
    let lowered = ascii_lowercase(move_input);
    let mut possible_matches: Vec<Move> = Vec::new();
    let mut i: usize = 0;
    while i < possible_moves.len()
        invariant
            0 <= i <= possible_moves@.len(),
            forall|k: int| 0 <= k < possible_moves@.len() ==> (#[trigger] possible_moves@[k]).from_square < 64,
            lowered@ == move_input@.map_values(|c: char| lower_ascii(c)),
            possible_matches@ == moves_named(game@, possible_moves@.take(i as int), move_input@),
        decreases possible_moves@.len() - i,
    {
        let possible_move = possible_moves[i];
        proof {
            assert(possible_moves@.take(i + 1).drop_last() =~= possible_moves@.take(i as int));
            assert(possible_moves@.take(i + 1).last() == possible_move);
            assert(possible_moves@[i as int].from_square < 64);
        }
        let short = move_to_ambiguous_algebraic_notation(game, possible_move);
        if notation_is(&short, &lowered) {
            possible_matches.push(possible_move);
        }
        let long = move_to_unambiguous_algebraic_notation(game, possible_move);
        if notation_is(&long, &lowered) {
            possible_matches.push(possible_move);
        }
        i += 1;
    }
    proof {
        assert(possible_moves@.take(i as int) =~= possible_moves@);
    }
    possible_matches
}

/// What a written move comes to among its matches.
#[derive(Debug, PartialEq, Eq, Structural, Clone, Copy)]
pub enum MoveChoice {
    /// Exactly one move matches.
    Unique(Move),
    /// Several moves of one piece match: the same pawn promoting to different pieces.
    NeedsPromotion,
    /// Moves of different pieces match.
    Ambiguous,
    /// No move matches.
    NoMatch,
}

/// The choice that a list of matches gives.
pub open spec fn choice_of(matches: Seq<Move>) -> MoveChoice {
    if matches.len() == 1 {
        MoveChoice::Unique(matches[0])
    } else if matches.len() == 0 {
        MoveChoice::NoMatch
    } else if forall|k: int| 0 <= k < matches.len() ==> (#[trigger] matches[k]).from_square == matches[0].from_square {
        MoveChoice::NeedsPromotion
    } else {
        MoveChoice::Ambiguous
    }
}

/// Decides what the matches of a written move come to.
pub fn choose_match(possible_matches: &Vec<Move>) -> (choice: MoveChoice)
    ensures
        choice == choice_of(possible_matches@),
{
    if possible_matches.len() == 1 {
        return MoveChoice::Unique(possible_matches[0]);
    }
    if possible_matches.len() == 0 {
        return MoveChoice::NoMatch;
    }
    let first = possible_matches[0].from_square;
    let mut i: usize = 0;
    while i < possible_matches.len()
        invariant
            0 <= i <= possible_matches@.len(),
            possible_matches@.len() > 1,
            first == possible_matches@[0].from_square,
            forall|k: int| 0 <= k < i ==> (#[trigger] possible_matches@[k]).from_square == first,
        decreases possible_matches@.len() - i,
    {
        if possible_matches[i].from_square != first {
            return MoveChoice::Ambiguous;
        }
        i += 1;
    }
    MoveChoice::NeedsPromotion
}

/// The first match that promotes to `promotion`.
pub open spec fn promotion_match_from(matches: Seq<Move>, promotion: Option<PieceType>, k: int) -> Option<Move>
    decreases matches.len() - k,
{
    if k < 0 || k >= matches.len() {
        None
    } else if matches[k].promotion == promotion {
        Some(matches[k])
    } else {
        promotion_match_from(matches, promotion, k + 1)
    }
}

/// Picks the first of the matches that promotes to `promotion`.
pub fn find_promotion_match(possible_matches: &Vec<Move>, promotion: Option<PieceType>) -> (found: Option<Move>)
    ensures
        found == promotion_match_from(possible_matches@, promotion, 0),
{
    let mut i: usize = 0;
    while i < possible_matches.len()
        invariant
            0 <= i <= possible_matches@.len(),
            promotion_match_from(possible_matches@, promotion, 0) == promotion_match_from(possible_matches@, promotion, i as int),
        decreases possible_matches@.len() - i,
    {
        if possible_matches[i].promotion == promotion {
            return Some(possible_matches[i]);
        }
        i += 1;
    }
    None
}

/// A promotion letter names the piece with that initial: the piece it names is the piece a
/// FEN record names by the same letter, is written back with that letter (black pieces are
/// written in lower case), and is a queen, rook, bishop or knight; each of those four is named
/// by its own letter in either case.
pub proof fn lemma_promotion_letter_names_piece(c: char)
    ensures
        promotion_of_letter(c) matches Some(t) ==> {
            &&& piece_type_of_letter(lower_ascii(c)) == Some(t)
            &&& crate::game::piece_letter(Piece { bit: 1, colour: Colour::Black, piece_type: t, taken: false }) == lower_ascii(c)
            &&& t != PieceType::King && t != PieceType::Pawn
        },
        forall|t: PieceType|
            t != PieceType::King && t != PieceType::Pawn ==> {
                &&& promotion_of_letter(#[trigger] crate::game::piece_letter(Piece { bit: 1, colour: Colour::Black, piece_type: t, taken: false })) == Some(t)
                &&& promotion_of_letter(crate::game::piece_letter(Piece { bit: 1, colour: Colour::White, piece_type: t, taken: false })) == Some(t)
            },
{
    assert(lower_ascii('Q') == 'q');
    assert(lower_ascii('R') == 'r');
    assert(lower_ascii('B') == 'b');
    assert(lower_ascii('N') == 'n');
}

/// The promotion piece a typed letter names (first character, either case): q, r, n or b.
pub open spec fn promotion_of_letter(c: char) -> Option<PieceType> {
    let l = lower_ascii(c);
    if l == 'q' {
        Some(PieceType::Queen)
    } else if l == 'r' {
        Some(PieceType::Rook)
    } else if l == 'n' {
        Some(PieceType::Knight)
    } else if l == 'b' {
        Some(PieceType::Bishop)
    } else {
        None
    }
}

/// The promotion piece that a typed answer names by its first character, if any.
pub fn promotion_choice(answer: &str) -> (piece_type: Option<PieceType>)
    ensures
        piece_type == if answer@.len() == 0 { None } else { promotion_of_letter(answer@[0]) },
{
    if answer.unicode_len() == 0 {
        return None;
    }
    let c = answer.get_char(0);
    let l = if 'A' <= c && c <= 'Z' { (((c as u32) + 32) as u8) as char } else { c };
    if l == 'q' {
        Some(PieceType::Queen)
    } else if l == 'r' {
        Some(PieceType::Rook)
    } else if l == 'n' {
        Some(PieceType::Knight)
    } else if l == 'b' {
        Some(PieceType::Bishop)
    } else {
        None
    }
}

/// The piece index a square holds, if any.
pub fn get_piece_index(square: &Square) -> (index: Option<usize>)
    ensures
        index == match *square {
            Square::Occupied(i) => Some(i),
            Square::Empty => None::<usize>,
        },
{
    match square {
        Square::Occupied(piece_index) => Some(*piece_index),
        Square::Empty => None,
    }
}

} // verus!
