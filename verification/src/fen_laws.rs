use vstd::prelude::*;

verus! {

use crate::bitboard::{square_bit, square_of, is_square_bit, lemma_mod67_table_inverts_square_bit};
use crate::game::{Piece, Square, CastlingRights, fen_field, fen_rows, fen_board, fen_parse, castling_bits_of, castling_flag, castling_text, wk, wq, bk, bq};
use crate::utils::{RowState, fen_row, fen_row_from, fen_row_step, piece_type_of_letter, lower_ascii};

/// The number of squares a FEN row covers: one for each piece letter and the value of each
/// digit.
pub open spec fn row_width(row: Seq<char>) -> int
    decreases row.len(),
{
    if row.len() == 0 {
        0
    } else {
        let c = row.last();
        row_width(row.drop_last()) + if piece_type_of_letter(lower_ascii(c)) is Some {
            1
        } else if '0' <= c <= '9' {
            c as int - 48
        } else {
            0
        }
    }
}

/// Whether the placement field of a FEN record has eight rows of eight squares each.
pub open spec fn placement_covers_board(fen: Seq<char>) -> bool {
    match fen_field(fen) {
        Some((placement, _)) => {
            let rows = fen_rows(placement, 8);
            rows.len() == 8 && forall|k: int| 0 <= k < 8 ==> row_width(#[trigger] rows[k]) == 8
        },
        None => false,
    }
}

/// The state of a row read so far, from piece index `pi0` and square `ob0` on: the squares
/// (in board order once reversed) name the pieces found, each standing on its square.
spec fn row_ok(st: RowState, pi0: int, ob0: int) -> bool {
    let (ps, sq, pi, ob) = st;
    let r = sq.reverse();
    &&& pi == pi0 + ps.len()
    &&& pi <= usize::MAX
    &&& ob == ob0 + sq.len()
    &&& forall|j: int|
        0 <= j < r.len() ==> (#[trigger] r[j] matches Square::Occupied(i) ==> pi0 <= i < pi && ps[i - pi0].bit
            == square_bit(ob0 + j))
    &&& forall|t: int|
        0 <= t < ps.len() ==> {
            &&& !(#[trigger] ps[t]).taken
            &&& is_square_bit(ps[t].bit)
            &&& ob0 <= square_of(ps[t].bit) < ob0 + r.len()
            &&& r[square_of(ps[t].bit) - ob0] == Square::Occupied((pi0 + t) as usize)
        }
}

proof fn lemma_reverse_prepend(a: Seq<Square>, s: Seq<Square>)
    ensures
        (a + s).reverse() == s.reverse() + a.reverse(),
        (a + s).reverse().len() == a.len() + s.len(),
{
    let l = a + s;
    if l.len() > 0 {
        assert((a + s).reverse() =~= s.reverse() + a.reverse());
    } else {
        assert(s.reverse() + a.reverse() =~= Seq::<Square>::empty());
    }
}

proof fn lemma_row_step(st: RowState, c: char, pi0: int, ob0: int)
    requires
        row_ok(st, pi0, ob0),
        0 <= pi0,
        0 <= ob0,
        fen_row_step(st, c) is Some,
    ensures
        row_ok(fen_row_step(st, c)->0, pi0, ob0),
        (fen_row_step(st, c)->0).1.len() == st.1.len() + if piece_type_of_letter(lower_ascii(c)) is Some {
            1
        } else if '0' <= c <= '9' {
            c as int - 48
        } else {
            0
        },
{
    let (ps, sq, pi, ob) = st;
    let r = sq.reverse();
    assert(r.len() == sq.len());
    let st2 = fen_row_step(st, c)->0;
    match piece_type_of_letter(lower_ascii(c)) {
        Some(t) => {
            let piece = st2.0[ps.len() as int];
            lemma_reverse_prepend(seq![Square::Occupied(pi as usize)], sq);
            let r2 = st2.1.reverse();
            assert(seq![Square::Occupied(pi as usize)].reverse() =~= seq![Square::Occupied(pi as usize)]);
            assert(r2 == r.push(Square::Occupied(pi as usize)));
            lemma_mod67_table_inverts_square_bit(ob);
            assert(is_square_bit(square_bit(ob)));
            assert forall|j: int| 0 <= j < r2.len() implies (#[trigger] r2[j] matches Square::Occupied(i) ==> pi0 <= i < st2.2
                && st2.0[i - pi0].bit == square_bit(ob0 + j)) by {
                if j < r.len() {
                    assert(r2[j] == r[j]);
                } else {
                    assert(r2[j] == Square::Occupied(pi as usize));
                    assert(st2.0[pi - pi0] == piece);
                }
            }
            assert forall|u: int| 0 <= u < st2.0.len() implies {
                &&& !(#[trigger] st2.0[u]).taken
                &&& is_square_bit(st2.0[u].bit)
                &&& ob0 <= square_of(st2.0[u].bit) < ob0 + r2.len()
                &&& r2[square_of(st2.0[u].bit) - ob0] == Square::Occupied((pi0 + u) as usize)
            } by {
                if u < ps.len() {
                    assert(st2.0[u] == ps[u]);
                    assert(r2[square_of(ps[u].bit) - ob0] == r[square_of(ps[u].bit) - ob0]);
                }
            }
        },
        None => {
            let n = c as int - 48;
            let empties = Seq::new(n as nat, |k: int| Square::Empty);
            lemma_reverse_prepend(empties, sq);
            let r2 = st2.1.reverse();
            assert(r2 == r + empties.reverse());
            assert forall|j: int| 0 <= j < r2.len() implies (#[trigger] r2[j] matches Square::Occupied(i) ==> pi0 <= i < st2.2
                && st2.0[i - pi0].bit == square_bit(ob0 + j)) by {
                if j < r.len() {
                    assert(r2[j] == r[j]);
                } else {
                    assert(r2[j] == empties.reverse()[j - r.len()]);
                }
            }
            assert forall|u: int| 0 <= u < st2.0.len() implies {
                &&& !(#[trigger] st2.0[u]).taken
                &&& is_square_bit(st2.0[u].bit)
                &&& ob0 <= square_of(st2.0[u].bit) < ob0 + r2.len()
                &&& r2[square_of(st2.0[u].bit) - ob0] == Square::Occupied((pi0 + u) as usize)
            } by {
                assert(r2[square_of(ps[u].bit) - ob0] == r[square_of(ps[u].bit) - ob0]);
            }
        },
    }
}

proof fn lemma_row_from(row: Seq<char>, pi0: int, ob0: int)
    requires
        0 <= pi0 <= usize::MAX,
        0 <= ob0,
        fen_row_from(row, (Seq::empty(), Seq::empty(), pi0, ob0)) is Some,
    ensures
        row_ok(fen_row_from(row, (Seq::empty(), Seq::empty(), pi0, ob0))->0, pi0, ob0),
        (fen_row_from(row, (Seq::empty(), Seq::empty(), pi0, ob0))->0).1.len() == row_width(row),
    decreases row.len(),
{
    let st0: RowState = (Seq::empty(), Seq::empty(), pi0, ob0);
    if row.len() == 0 {
        assert(st0.1.reverse() =~= Seq::<Square>::empty());
    } else {
        lemma_row_from(row.drop_last(), pi0, ob0);
        let mid = fen_row_from(row.drop_last(), st0)->0;
        lemma_row_step(mid, row.last(), pi0, ob0);
    }
}

/// The board read from rows `0..k`: `8 * k` squares from square `64 - 8 * k` on, naming the
/// pieces read, each live and standing on its square.
spec fn board_ok(ps: Seq<Piece>, sq: Seq<Square>, k: int) -> bool {
    let base = 64 - 8 * k;
    &&& sq.len() == 8 * k
    &&& ps.len() <= usize::MAX
    &&& forall|j: int|
        0 <= j < sq.len() ==> (#[trigger] sq[j] matches Square::Occupied(i) ==> i < ps.len() && !ps[i as int].taken
            && ps[i as int].bit == square_bit(base + j))
    &&& forall|i: int|
        0 <= i < ps.len() ==> {
            &&& !(#[trigger] ps[i]).taken
            &&& is_square_bit(ps[i].bit)
            &&& base <= square_of(ps[i].bit) < 64
            &&& sq[square_of(ps[i].bit) - base] == Square::Occupied(i as usize)
        }
}

proof fn lemma_board_from(rows: Seq<Seq<char>>, k: int, ps: Seq<Piece>, sq: Seq<Square>)
    requires
        0 <= k <= 8,
        rows.len() == 8,
        forall|j: int| 0 <= j < 8 ==> row_width(#[trigger] rows[j]) == 8,
        board_ok(ps, sq, k),
        fen_board(rows, k, ps, sq) is Some,
    ensures
        board_ok((fen_board(rows, k, ps, sq)->0).0, (fen_board(rows, k, ps, sq)->0).1, 8),
    decreases 8 - k,
{
    if k < 8 {
        let pi0 = ps.len() as int;
        let ob0 = 56 - 8 * k;
        let row = fen_row(rows[k], ps.len(), ob0 as nat)->0;
        let st = fen_row_from(rows[k], (Seq::empty(), Seq::empty(), pi0, ob0))->0;
        lemma_row_from(rows[k], pi0, ob0);
        assert(row_width(rows[k]) == 8);
        let r = st.1.reverse();
        let ps2 = ps + row.0;
        let sq2 = row.1.reverse() + sq;
        assert forall|j: int| 0 <= j < sq2.len() implies (#[trigger] sq2[j] matches Square::Occupied(i) ==> i < ps2.len()
            && !ps2[i as int].taken && ps2[i as int].bit == square_bit(64 - 8 * (k + 1) + j)) by {
            if j < 8 {
                assert(sq2[j] == r[j]);
                if let Square::Occupied(i) = r[j] {
                    assert(ps2[i as int] == st.0[i - pi0]);
                }
            } else {
                assert(sq2[j] == sq[j - 8]);
                if let Square::Occupied(i) = sq[j - 8] {
                    assert(ps2[i as int] == ps[i as int]);
                }
            }
        }
        assert forall|i: int| 0 <= i < ps2.len() implies {
            &&& !(#[trigger] ps2[i]).taken
            &&& is_square_bit(ps2[i].bit)
            &&& 64 - 8 * (k + 1) <= square_of(ps2[i].bit) < 64
            &&& sq2[square_of(ps2[i].bit) - (64 - 8 * (k + 1))] == Square::Occupied(i as usize)
        } by {
            if i < ps.len() {
                assert(ps2[i] == ps[i]);
                assert(sq2[square_of(ps[i].bit) - (64 - 8 * (k + 1))] == sq[square_of(ps[i].bit) - (64 - 8 * k)]);
            } else {
                let t = i - pi0;
                assert(ps2[i] == st.0[t]);
                assert(sq2[square_of(st.0[t].bit) - ob0] == r[square_of(st.0[t].bit) - ob0]);
            }
        }
        lemma_board_from(rows, k + 1, ps2, sq2);
    }
}

/// A FEN record whose placement field has eight rows of eight squares is read as a consistent
/// board: 64 squares, each occupied square naming a piece of the list standing on it, every
/// piece live and named by its square, and neither a check nor a last move recorded.
pub proof fn lemma_parsed_position_consistent(fen: Seq<char>)
    requires
        fen_parse(fen) is Some,
        placement_covers_board(fen),
    ensures
        fen_parse(fen)->0.consistent(),
        forall|i: int| 0 <= i < fen_parse(fen)->0.pieces.len() ==> !(#[trigger] fen_parse(fen)->0.pieces[i]).taken,
        fen_parse(fen)->0.colour_in_check is None,
        fen_parse(fen)->0.last_move is None,
{
    let placement = (fen_field(fen)->0).0;
    let rows = fen_rows(placement, 8);
    assert(board_ok(Seq::empty(), Seq::empty(), 0));
    lemma_board_from(rows, 0, Seq::empty(), Seq::empty());
    let p = fen_parse(fen)->0;
    let (ps, sq) = fen_board(rows, 0, Seq::empty(), Seq::empty())->0;
    assert(p.pieces == ps && p.squares == sq);
}


proof fn lemma_flag_bits(b: u8, f: u8, m: u8)
    requires
        m == 1 || m == 2 || m == 4 || m == 8,
    ensures
        ((b | f) & m == m) <==> (b & m == m || f & m == m),
        b < 16 && f < 16 ==> (b | f) < 16,
{
    assert(((b | f) & m == m) <==> (b & m == m || f & m == m)) by (bit_vector)
        requires
            m == 1 || m == 2 || m == 4 || m == 8,
    ;
    assert(b < 16 && f < 16 ==> (b | f) < 16) by (bit_vector);
}

proof fn lemma_flag_literals()
    ensures
        0u8 & 1u8 == 0u8 && 0u8 & 2u8 == 0u8 && 0u8 & 4u8 == 0u8 && 0u8 & 8u8 == 0u8,
        1u8 & 1u8 == 1u8 && 2u8 & 2u8 == 2u8 && 4u8 & 4u8 == 4u8 && 8u8 & 8u8 == 8u8,
        1u8 & 2u8 == 0u8 && 1u8 & 4u8 == 0u8 && 1u8 & 8u8 == 0u8,
        2u8 & 1u8 == 0u8 && 2u8 & 4u8 == 0u8 && 2u8 & 8u8 == 0u8,
        4u8 & 1u8 == 0u8 && 4u8 & 2u8 == 0u8 && 4u8 & 8u8 == 0u8,
        8u8 & 1u8 == 0u8 && 8u8 & 2u8 == 0u8 && 8u8 & 4u8 == 0u8,
        0u8 | 0u8 == 0u8 && 0u8 | 1u8 == 1u8 && 0u8 | 2u8 == 2u8 && 0u8 | 4u8 == 4u8 && 0u8 | 8u8 == 8u8,
{
    assert(0u8 & 1u8 == 0u8 && 0u8 & 2u8 == 0u8 && 0u8 & 4u8 == 0u8 && 0u8 & 8u8 == 0u8
        && 1u8 & 1u8 == 1u8 && 2u8 & 2u8 == 2u8 && 4u8 & 4u8 == 4u8 && 8u8 & 8u8 == 8u8
        && 1u8 & 2u8 == 0u8 && 1u8 & 4u8 == 0u8 && 1u8 & 8u8 == 0u8
        && 2u8 & 1u8 == 0u8 && 2u8 & 4u8 == 0u8 && 2u8 & 8u8 == 0u8
        && 4u8 & 1u8 == 0u8 && 4u8 & 2u8 == 0u8 && 4u8 & 8u8 == 0u8
        && 8u8 & 1u8 == 0u8 && 8u8 & 2u8 == 0u8 && 8u8 & 4u8 == 0u8
        && 0u8 | 0u8 == 0u8 && 0u8 | 1u8 == 1u8 && 0u8 | 2u8 == 2u8 && 0u8 | 4u8 == 4u8 && 0u8 | 8u8 == 8u8) by (bit_vector);
}

/// The rights a castling field grants: each right exactly when its letter (K, Q, k or q)
/// appears in the field, and no other flag.
pub proof fn lemma_castling_field_letters(field: Seq<char>)
    requires
        castling_bits_of(field) is Some,
    ensures
        ({
            let r = CastlingRights { bits: castling_bits_of(field)->0 };
            &&& r.has(wk()) <==> field.contains('K')
            &&& r.has(wq()) <==> field.contains('Q')
            &&& r.has(bk()) <==> field.contains('k')
            &&& r.has(bq()) <==> field.contains('q')
            &&& r.bits < 16
        }),
    decreases field.len(),
{
    lemma_flag_literals();
    if field.len() == 0 {
    } else {
        let prev = field.drop_last();
        let c = field.last();
        lemma_castling_field_letters(prev);
        let b = castling_bits_of(prev)->0;
        let f = castling_flag(c)->0;
        assert(f == 0 || f == 1 || f == 2 || f == 4 || f == 8);
        lemma_flag_bits(b, f, 1);
        lemma_flag_bits(b, f, 2);
        lemma_flag_bits(b, f, 4);
        lemma_flag_bits(b, f, 8);
        assert forall|x: char| field.contains(x) <==> (prev.contains(x) || c == x) by {
            if field.contains(x) {
                let i = choose|i: int| 0 <= i < field.len() && field[i] == x;
                if i < prev.len() {
                    assert(prev[i] == x);
                }
            }
            if prev.contains(x) {
                let i = choose|i: int| 0 <= i < prev.len() && prev[i] == x;
                assert(field[i] == x);
            }
            if c == x {
                assert(field[field.len() - 1] == x);
            }
        }
    }
}

proof fn lemma_castling_bits_concat(a: Seq<char>, b: Seq<char>)
    requires
        castling_bits_of(a) is Some,
        castling_bits_of(b) is Some,
    ensures
        castling_bits_of(a + b) == Some((castling_bits_of(a)->0) | (castling_bits_of(b)->0)),
    decreases b.len(),
{
    if b.len() == 0 {
        assert(a + b =~= a);
        let x = castling_bits_of(a)->0;
        assert(x | 0u8 == x) by (bit_vector);
    } else {
        lemma_castling_bits_concat(a, b.drop_last());
        assert((a + b).drop_last() =~= a + b.drop_last());
        assert((a + b).last() == b.last());
        let x = castling_bits_of(a)->0;
        let y = castling_bits_of(b.drop_last())->0;
        let f = castling_flag(b.last())->0;
        assert((x | y) | f == x | (y | f)) by (bit_vector);
    }
}

/// Writing the castling rights and reading them back gives the same rights.
pub proof fn lemma_castling_text_read_back(r: CastlingRights)
    requires
        r.bits < 16,
    ensures
        castling_bits_of(castling_text(r)) == Some(r.bits),
{
    let x = r.bits;
    lemma_flag_literals();
    if x == 0 {
        assert(castling_text(r).drop_last() =~= Seq::<char>::empty());
    } else {
        let k1: Seq<char> = if r.has(wk()) { seq!['K'] } else { Seq::empty() };
        let q1: Seq<char> = if r.has(wq()) { seq!['Q'] } else { Seq::empty() };
        let k2: Seq<char> = if r.has(bk()) { seq!['k'] } else { Seq::empty() };
        let q2: Seq<char> = if r.has(bq()) { seq!['q'] } else { Seq::empty() };
        assert(castling_text(r) == k1 + q1 + k2 + q2);
        assert(seq!['K'].drop_last() =~= Seq::<char>::empty());
        assert(seq!['Q'].drop_last() =~= Seq::<char>::empty());
        assert(seq!['k'].drop_last() =~= Seq::<char>::empty());
        assert(seq!['q'].drop_last() =~= Seq::<char>::empty());
        let bk1: u8 = if r.has(wk()) { 1 } else { 0 };
        let bq1: u8 = if r.has(wq()) { 2 } else { 0 };
        let bk2: u8 = if r.has(bk()) { 4 } else { 0 };
        let bq2: u8 = if r.has(bq()) { 8 } else { 0 };
        assert(castling_bits_of(k1) == Some(bk1));
        assert(castling_bits_of(q1) == Some(bq1));
        assert(castling_bits_of(k2) == Some(bk2));
        assert(castling_bits_of(q2) == Some(bq2));
        lemma_castling_bits_concat(k1, q1);
        lemma_castling_bits_concat(k1 + q1, k2);
        lemma_castling_bits_concat(k1 + q1 + k2, q2);
        assert(x < 16 ==> ((if x & 1 == 1 { 1u8 } else { 0u8 }) | (if x & 2 == 2 { 2u8 } else { 0u8 })) | (if x & 4 == 4 {
            4u8
        } else {
            0u8
        }) | (if x & 8 == 8 { 8u8 } else { 0u8 }) == x) by (bit_vector);
    }
}

} // verus!
