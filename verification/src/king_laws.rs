use vstd::prelude::*;

verus! {

use crate::bitboard::{has_bit, square_bit, square_of, is_square_bit, set_bits_from, bit_indices, lemma_has_bit_or, lemma_has_bit_and, lemma_square_bit_has_bit, lemma_square_of_square_bit};
use crate::game::{Colour, Piece, PieceType, Position, Square, opponent, selected_bits, live, pieces_on_squares, king_bit_of, king_of, find_first, lemma_find_from_facts, castling_kings_in_range};
use crate::moves::{
    Move,
    attacks_of,
    piece_attacks,
    slider_attacks_incl,
    slider_ray,
    sliding_including_own,
    none_below,
    none_above,
    lemma_sliding_including_own_bits,
    squares_attacked_by,
    make_move_defined,
    moving_index,
    move_distance,
    position_after_move,
};
use crate::moves_king::{legal_king_moves, king_mask, lemma_king_mask_squares};
use crate::moves::{moves_to_targets, moves_of_pieces, piece_moves, castles_of_pieces, legal_moves, pseudolegal_moves, pseudolegal_moves_without_castling, lemma_kept_moves_from, king_square_of};
use crate::moves_king::{castle_moves, castle_move};
use crate::moves_pawn::lemma_pawn_moves_shape;
use crate::move_laws::{lemma_non_king_move_legal_iff_safe, lemma_kept_moves_contains, undoable, moved_type, piece_after, target_victim, lemma_move_effects, castle_home, rook_index, rook_target, is_castling, castling_rook_in_place, castling_rook_absent, rook_home};

/// The squares of a board listed from `k` on are set in it.
proof fn lemma_set_bits_member(x: u64, k: int)
    ensures
        forall|j: int| 0 <= j < set_bits_from(x, k).len() ==> has_bit(x, #[trigger] set_bits_from(x, k)[j] as int),
    decreases 64 - k,
{
    if 0 <= k < 64 {
        lemma_set_bits_member(x, k + 1);
        let rest = set_bits_from(x, k + 1);
        if has_bit(x, k) {
            assert forall|j: int| 0 <= j < set_bits_from(x, k).len() implies has_bit(x, #[trigger] set_bits_from(x, k)[j] as int) by {
                if j > 0 {
                    assert(set_bits_from(x, k)[j] == rest[j - 1]);
                }
            }
        }
    }
}

/// Whether two occupancy boards agree on every square but `t`.
spec fn agree_off(a: u64, b: u64, t: int) -> bool {
    forall|k: int| 0 <= k < 64 && k != t ==> (#[trigger] has_bit(a, k) <==> has_bit(b, k))
}

/// Whether a ray reaches square `t` depends only on the squares other than `t`.
proof fn lemma_ray_bit_agrees(mask: u64, a: u64, b: u64, d: int, t: int)
    requires
        0 <= t < 64,
        agree_off(a, b, t),
    ensures
        has_bit(sliding_including_own(mask, a, d), t) == has_bit(sliding_including_own(mask, b, d), t),
{
    lemma_sliding_including_own_bits(mask, a, d, t);
    lemma_sliding_including_own_bits(mask, b, d, t);
    assert forall|k: int| 0 <= k < 64 && k != t implies has_bit(mask & a, k) == has_bit(mask & b, k) by {
        lemma_has_bit_and(mask, a, k);
        lemma_has_bit_and(mask, b, k);
    }
    assert(none_below(mask & a, t) == none_below(mask & b, t)) by {
        assert forall|k: int| 0 <= k < t implies has_bit(mask & a, k) == has_bit(mask & b, k) by {
            lemma_has_bit_and(mask, a, k);
            lemma_has_bit_and(mask, b, k);
        }
    }
    assert(none_above(mask & a, t) == none_above(mask & b, t)) by {
        assert forall|k: int| t < k < 64 implies has_bit(mask & a, k) == has_bit(mask & b, k) by {
            lemma_has_bit_and(mask, a, k);
            lemma_has_bit_and(mask, b, k);
        }
    }
}

proof fn lemma_slider_bit_agrees(rook: bool, sq: int, a: u64, b: u64, n: int, t: int)
    requires
        0 <= t < 64,
        agree_off(a, b, t),
    ensures
        has_bit(slider_attacks_incl(rook, sq, a, n), t) == has_bit(slider_attacks_incl(rook, sq, b, n), t),
    decreases n,
{
    if n > 0 {
        lemma_slider_bit_agrees(rook, sq, a, b, n - 1, t);
        lemma_ray_bit_agrees(slider_ray(rook, n - 1, sq), a, b, n - 1, t);
        lemma_has_bit_or(slider_attacks_incl(rook, sq, a, n - 1), sliding_including_own(slider_ray(rook, n - 1, sq), a, n - 1), t);
        lemma_has_bit_or(slider_attacks_incl(rook, sq, b, n - 1), sliding_including_own(slider_ray(rook, n - 1, sq), b, n - 1), t);
    }
}

/// Whether a piece attacks square `t` depends only on the occupancy of the other squares.
proof fn lemma_piece_bit_agrees(p: Piece, colour: Colour, a: u64, b: u64, t: int)
    requires
        0 <= t < 64,
        agree_off(a, b, t),
    ensures
        has_bit(piece_attacks(p, colour, a), t) == has_bit(piece_attacks(p, colour, b), t),
{
    let from = crate::bitboard::square_of(p.bit);
    lemma_slider_bit_agrees(false, from, a, b, 4, t);
    lemma_slider_bit_agrees(true, from, a, b, 4, t);
    lemma_has_bit_or(slider_attacks_incl(false, from, a, 4), slider_attacks_incl(true, from, a, 4), t);
    lemma_has_bit_or(slider_attacks_incl(false, from, b, 4), slider_attacks_incl(true, from, b, 4), t);
}

/// Attacks on `t` by a list whose pieces of `colour` are those of another list, some of them
/// taken, and with occupancies agreeing off `t`, are among the attacks of the other list.
proof fn lemma_attacks_bit_within(ps1: Seq<Piece>, ps0: Seq<Piece>, colour: Colour, a: u64, b: u64, t: int)
    requires
        0 <= t < 64,
        agree_off(a, b, t),
        ps1.len() == ps0.len(),
        forall|j: int| 0 <= j < ps1.len() && (#[trigger] ps1[j]).colour == colour && !ps1[j].taken ==> ps0[j] == ps1[j],
    ensures
        has_bit(attacks_of(ps1, colour, a), t) ==> has_bit(attacks_of(ps0, colour, b), t),
    decreases ps1.len(),
{
    if ps1.len() > 0 {
        let n = ps1.len() - 1;
        lemma_attacks_bit_within(ps1.drop_last(), ps0.drop_last(), colour, a, b, t);
        assert(ps1.last() == ps1[n]);
        assert(ps0.last() == ps0[n]);
        let p1 = ps1.last();
        let p0 = ps0.last();
        if p1.colour == colour && !p1.taken {
            lemma_piece_bit_agrees(p1, colour, a, b, t);
            lemma_has_bit_or(attacks_of(ps1.drop_last(), colour, a), piece_attacks(p1, colour, a), t);
            lemma_has_bit_or(attacks_of(ps0.drop_last(), colour, b), piece_attacks(p0, colour, b), t);
        } else if p0.colour == colour && !p0.taken {
            lemma_has_bit_or(attacks_of(ps0.drop_last(), colour, b), piece_attacks(p0, colour, b), t);
        }
    }
}


/// The live board of a list whose pieces are those of another list, but for piece `idx`
/// moved from `from` to `to` and some pieces on `to` taken, agrees off `to` with the other
/// list's live board with `from` cleared.
proof fn lemma_occupancy_after_step(ps1: Seq<Piece>, ps0: Seq<Piece>, idx: int, from: int, to: int)
    requires
        0 <= from < 64,
        0 <= to < 64,
        from != to,
        ps1.len() == ps0.len(),
        pieces_on_squares(ps0),
        forall|j: int| 0 <= j < ps1.len() ==> {
            &&& j == idx ==> (#[trigger] ps1[j]).bit == square_bit(to) && !ps1[j].taken && ps0[j].bit == square_bit(from)
                && !ps0[j].taken
            &&& j != idx ==> ps1[j].bit == ps0[j].bit && (ps1[j].taken == ps0[j].taken || ps0[j].bit == square_bit(to))
            &&& (j != idx && !ps0[j].taken) ==> ps0[j].bit != square_bit(from)
        },
    ensures
        forall|k: int| 0 <= k < 64 && k != to ==> (#[trigger] has_bit(selected_bits(ps1, live()), k) <==> (has_bit(
            selected_bits(ps0, live()),
            k,
        ) && k != from)),
    decreases ps1.len(),
{
    if ps1.len() > 0 {
        let n = ps1.len() - 1;
        let p1 = ps1.last();
        let p0 = ps0.last();
        assert(p1 == ps1[n] && p0 == ps0[n]);
        lemma_occupancy_after_step(ps1.drop_last(), ps0.drop_last(), idx, from, to);
        let s1 = selected_bits(ps1.drop_last(), live());
        let s0 = selected_bits(ps0.drop_last(), live());
        assert(is_square_bit(p0.bit));
        lemma_square_of_square_bit(p0.bit);
        let sq0 = square_of(p0.bit);
        assert forall|k: int| 0 <= k < 64 && k != to implies (#[trigger] has_bit(selected_bits(ps1, live()), k) <==> (has_bit(
            selected_bits(ps0, live()),
            k,
        ) && k != from)) by {
            lemma_has_bit_or(s1, p1.bit, k);
            lemma_has_bit_or(s0, p0.bit, k);
            lemma_square_bit_has_bit(to, k);
            lemma_square_bit_has_bit(from, k);
            lemma_square_bit_has_bit(sq0, k);
            if n != idx && p0.bit == square_bit(to) {
                lemma_square_bit_has_bit(sq0, to);
                crate::bitboard::lemma_square_bit_injective(sq0, to);
            }
            if n != idx && !p0.taken {
                if sq0 == from {
                    assert(p0.bit == square_bit(from));
                }
            }
        }
    } else {
        assert forall|k: int| 0 <= k < 64 && k != to implies (#[trigger] has_bit(selected_bits(ps1, live()), k) <==> (has_bit(
            selected_bits(ps0, live()),
            k,
        ) && k != from)) by {
            let b = k as u64;
            assert((0u64 >> b) & 1u64 == 0u64) by (bit_vector);
        }
    }
}

proof fn lemma_not_bit(x: u64, t: int)
    requires
        0 <= t < 64,
    ensures
        has_bit(!x, t) <==> !has_bit(x, t),
{
    let b = t as u64;
    assert(((!x >> b) & 1u64 == 1u64) <==> !((x >> b) & 1u64 == 1u64)) by (bit_vector)
        requires
            b < 64,
    ;
}

/// A king step that king move generation produces, made in a consistent position where it
/// can be made and taken back, puts the king on a square that no piece of the other side
/// attacks afterwards.
pub proof fn lemma_king_step_leaves_king_unattacked(g: Position, m: Move)
    requires
        g.consistent(),
        make_move_defined(g, m),
        undoable(g, m),
        legal_king_moves(m.from_square as int, g).contains(m),
        king_bit_of(g.pieces, g.active_colour) == square_bit(m.from_square as int),
        moved_type(g, m) == PieceType::King,
        move_distance(m) != 2,
    ensures
        position_after_move(g, m).pieces[moving_index(g, m)->0].bit == square_bit(m.to_square as int),
        !has_bit(
            attacks_of(
                position_after_move(g, m).pieces,
                opponent(g.active_colour),
                position_after_move(g, m).occupied_bits(),
            ),
            m.to_square as int,
        ),
{
    let c = g.active_colour;
    let opp = opponent(c);
    let from = m.from_square as int;
    let to = m.to_square as int;
    let idx = moving_index(g, m)->0;
    let gp = position_after_move(g, m);
    lemma_move_effects(g, m);
    crate::game::lemma_find_from_facts(g.pieces, crate::moves::live_on_of(square_bit(from), c), 0);
    assert(!crate::move_laws::is_castling(g, m));
    assert(crate::move_laws::en_passant_victim(g, m) is None);
    // The target square is not attacked before the move, with the king lifted.
    let mask = ((king_mask(from) & !g.friendly_bits()) & !squares_attacked_by(g, opp));
    let targets = bit_indices(mask);
    let j = choose|j: int| 0 <= j < legal_king_moves(from, g).len() && legal_king_moves(from, g)[j] == m;
    assert(legal_king_moves(from, g) == moves_to_targets(from as usize, targets, false));
    assert(m.to_square == targets[j]);
    lemma_set_bits_member(mask, 0);
    assert(has_bit(mask, to));
    lemma_has_bit_and(king_mask(from) & !g.friendly_bits(), !squares_attacked_by(g, opp), to);
    lemma_not_bit(squares_attacked_by(g, opp), to);
    assert(!has_bit(squares_attacked_by(g, opp), to));
    // The boards before and after agree off the target square.
    assert(from != to);
    assert forall|i: int| 0 <= i < gp.pieces.len() implies {
        &&& i == idx ==> (#[trigger] gp.pieces[i]).bit == square_bit(to) && !gp.pieces[i].taken && g.pieces[i].bit == square_bit(from)
            && !g.pieces[i].taken
        &&& i != idx ==> gp.pieces[i].bit == g.pieces[i].bit && (gp.pieces[i].taken == g.pieces[i].taken || g.pieces[i].bit == square_bit(to))
        &&& (i != idx && !g.pieces[i].taken) ==> g.pieces[i].bit != square_bit(from)
    } by {
        assert(gp.pieces[i] == piece_after(g, m, i));
        if i != idx && !g.pieces[i].taken && g.pieces[i].bit == square_bit(from) {
            assert(g.squares[square_of(g.pieces[i].bit)] == Square::Occupied(i as usize));
            crate::bitboard::lemma_mod67_table_inverts_square_bit(from);
            assert(g.squares[from] == Square::Occupied(idx as usize));
        }
        if target_victim(g, m) == Some(i) {
            assert(g.squares[to] == Square::Occupied(i as usize));
            crate::bitboard::lemma_mod67_table_inverts_square_bit(to);
        }
    }
    lemma_occupancy_after_step(gp.pieces, g.pieces, idx, from, to);
    let occ1 = gp.occupied_bits();
    let occ0 = g.occupied_bits() & !square_bit(from);
    assert forall|k: int| 0 <= k < 64 && k != to implies (#[trigger] has_bit(occ1, k) <==> has_bit(occ0, k)) by {
        lemma_has_bit_and(g.occupied_bits(), !square_bit(from), k);
        lemma_not_bit(square_bit(from), k);
        lemma_square_bit_has_bit(from, k);
        assert(has_bit(selected_bits(gp.pieces, live()), k) <==> (has_bit(selected_bits(g.pieces, live()), k) && k != from));
    }
    assert forall|i: int| 0 <= i < gp.pieces.len() && (#[trigger] gp.pieces[i]).colour == opp && !gp.pieces[i].taken implies g.pieces[i] == gp.pieces[i] by {
        assert(gp.pieces[i] == piece_after(g, m, i));
    }
    lemma_attacks_bit_within(gp.pieces, g.pieces, opp, occ1, occ0, to);
}


/// Every castling move of a list of pieces moves its king two squares.
proof fn lemma_castles_distance(g: Position, ps: Seq<Piece>)
    requires
        pieces_on_squares(ps),
        castling_kings_in_range(ps, g.castling_rights, g.active_colour),
    ensures
        forall|k: int| 0 <= k < castles_of_pieces(g, ps).len() ==> move_distance(#[trigger] castles_of_pieces(g, ps)[k]) == 2,
    decreases ps.len(),
{
    if ps.len() > 0 {
        let n = ps.len() - 1;
        let prev = ps.drop_last();
        assert forall|i: int| 0 <= i < prev.len() implies is_square_bit(#[trigger] prev[i].bit) by {
            assert(prev[i] == ps[i]);
        }
        assert forall|i: int|
            0 <= i < prev.len() && (#[trigger] prev[i]).piece_type == PieceType::King && prev[i].colour == g.active_colour
                implies (g.castling_rights.has(crate::game::kingside_right(g.active_colour)) ==> square_of(prev[i].bit) <= 61)
                && (g.castling_rights.has(crate::game::queenside_right(g.active_colour)) ==> square_of(prev[i].bit) >= 2) by {
            assert(prev[i] == ps[i]);
        }
        lemma_castles_distance(g, prev);
        let p = ps.last();
        assert(p == ps[n]);
        if p.colour == g.active_colour && p.piece_type == PieceType::King {
            let sq = square_of(p.bit);
            lemma_square_of_square_bit(p.bit);
            let a = castles_of_pieces(g, prev);
            let cm = castle_moves(sq, g);
            let c = g.active_colour;
            assert(ps[n].piece_type == PieceType::King && ps[n].colour == c);
            assert(g.castling_rights.has(crate::game::queenside_right(c)) ==> sq >= 2);
            assert(crate::moves_king::queenside_castle_allowed(g) ==> g.castling_rights.has(crate::game::queenside_right(c)));
            let ks: Seq<Move> = if crate::moves_king::kingside_castle_allowed(g) { seq![castle_move(sq, sq + 2)] } else { Seq::empty() };
            let qs: Seq<Move> = if crate::moves_king::queenside_castle_allowed(g) { seq![castle_move(sq, sq - 2)] } else { Seq::empty() };
            assert(cm == ks + qs);
            assert(castles_of_pieces(g, ps) == a + cm);
            assert forall|i: int| 0 <= i < cm.len() implies move_distance(#[trigger] cm[i]) == 2 by {
                if i < ks.len() {
                    assert(cm[i] == ks[i]);
                } else {
                    assert(cm[i] == qs[i - ks.len()]);
                }
            }
            assert forall|k: int| 0 <= k < castles_of_pieces(g, ps).len() implies move_distance(#[trigger] castles_of_pieces(g, ps)[k]) == 2 by {
                if k < a.len() {
                    assert(castles_of_pieces(g, ps)[k] == a[k]);
                } else {
                    assert(castles_of_pieces(g, ps)[k] == cm[k - a.len()]);
                }
            }
        } else {
            assert(castles_of_pieces(g, ps) == castles_of_pieces(g, prev));
        }
    }
}

/// A move the pieces of a list produce comes from a live piece of the side to move in it.
proof fn lemma_moves_of_pieces_source(g: Position, ps: Seq<Piece>, m: Move)
    requires
        moves_of_pieces(g, ps).contains(m),
    ensures
        exists|j: int| 0 <= j < ps.len() && (#[trigger] ps[j]).colour == g.active_colour && !ps[j].taken && piece_moves(g, ps[j]).contains(m),
    decreases ps.len(),
{
    if ps.len() > 0 {
        let n = ps.len() - 1;
        let prev = ps.drop_last();
        let p = ps.last();
        assert(p == ps[n]);
        let a = moves_of_pieces(g, prev);
        let k = choose|k: int| 0 <= k < moves_of_pieces(g, ps).len() && moves_of_pieces(g, ps)[k] == m;
        if p.colour == g.active_colour && !p.taken && k >= a.len() {
            assert(piece_moves(g, p)[k - a.len()] == m);
            assert(piece_moves(g, ps[n]).contains(m));
        } else {
            assert(a[k] == m);
            assert(a.contains(m));
            lemma_moves_of_pieces_source(g, prev, m);
            let j = choose|j: int| 0 <= j < prev.len() && (#[trigger] prev[j]).colour == g.active_colour && !prev[j].taken && piece_moves(g, prev[j]).contains(m);
            assert(prev[j] == ps[j]);
        }
    }
}

/// A move of a piece starts on the piece's square.
proof fn lemma_piece_moves_start(g: Position, p: Piece, m: Move)
    requires
        is_square_bit(p.bit),
        piece_moves(g, p).contains(m),
    ensures
        m.from_square == square_of(p.bit),
{
    lemma_square_of_square_bit(p.bit);
    let from = square_of(p.bit);
    let k = choose|k: int| 0 <= k < piece_moves(g, p).len() && piece_moves(g, p)[k] == m;
    if p.piece_type == PieceType::Pawn {
        lemma_pawn_moves_shape(from, g);
    }
}

/// Every legal step of the king of the side to move (castling aside), made in a consistent
/// position where it can be made and taken back, puts the king on a square that no piece of
/// the other side attacks afterwards.
proof fn lemma_legal_king_step_leaves_king_unattacked(g: Position, m: Move)
    requires
        g.wf(),
        g.consistent(),
        make_move_defined(g, m),
        undoable(g, m),
        legal_moves(g).contains(m),
        m.from_square == king_square_of(g),
        !g.pieces[find_first(g.pieces, king_of(g.active_colour))->0].taken,
        move_distance(m) != 2,
    ensures
        position_after_move(g, m).pieces[moving_index(g, m)->0].bit == square_bit(m.to_square as int),
        !has_bit(
            attacks_of(
                position_after_move(g, m).pieces,
                opponent(g.active_colour),
                position_after_move(g, m).occupied_bits(),
            ),
            m.to_square as int,
        ),
{
    let c = g.active_colour;
    let from = m.from_square as int;
    lemma_kept_moves_from(g, pseudolegal_moves(g));
    let q = choose|q: int| 0 <= q < legal_moves(g).len() && legal_moves(g)[q] == m;
    assert(pseudolegal_moves(g).contains(m));
    let a = pseudolegal_moves_without_castling(g);
    let b = castles_of_pieces(g, g.pieces);
    let k = choose|k: int| 0 <= k < pseudolegal_moves(g).len() && pseudolegal_moves(g)[k] == m;
    lemma_castles_distance(g, g.pieces);
    if k >= a.len() {
        assert(b[k - a.len()] == m);
        assert(false);
    }
    assert(a[k] == m);
    assert(moves_of_pieces(g, g.pieces).contains(m));
    lemma_moves_of_pieces_source(g, g.pieces, m);
    let j = choose|j: int| 0 <= j < g.pieces.len() && (#[trigger] g.pieces[j]).colour == c && !g.pieces[j].taken && piece_moves(g, g.pieces[j]).contains(m);
    lemma_piece_moves_start(g, g.pieces[j], m);
    // The piece that makes the move is the king.
    lemma_find_from_facts(g.pieces, king_of(c), 0);
    let kk = find_first(g.pieces, king_of(c))->0;
    lemma_square_of_square_bit(g.pieces[kk].bit);
    lemma_square_of_square_bit(g.pieces[j].bit);
    assert(g.pieces[kk].bit == square_bit(from));
    assert(g.pieces[j].bit == square_bit(from));
    assert(g.squares[square_of(g.pieces[j].bit)] == Square::Occupied(j as usize));
    assert(g.squares[square_of(g.pieces[kk].bit)] == Square::Occupied(kk as usize));
    assert(j == kk);
    assert(legal_king_moves(from, g).contains(m));
    // It is also the piece that `make_move` moves.
    let pred = crate::moves::live_on_of(square_bit(from), c);
    lemma_find_from_facts(g.pieces, pred, 0);
    let idx = moving_index(g, m)->0;
    assert(g.squares[square_of(g.pieces[idx].bit)] == Square::Occupied(idx as usize));
    assert(idx == kk);
    let kq = choose|kq: int| 0 <= kq < legal_king_moves(from, g).len() && legal_king_moves(from, g)[kq] == m;
    assert(m.promotion is None);
    assert(moved_type(g, m) == PieceType::King);
    lemma_king_step_leaves_king_unattacked(g, m);
}


/// Where the squares of a ray lie: on the start rank or file for a straight ray, strictly
/// beyond the start in the ray's direction, and as many ranks as files away on a diagonal.
proof fn lemma_ray_bits_geometry(rank: int, file: int, dr: int, df: int, fuel: nat, j: int)
    requires
        -1 <= dr <= 1,
        -1 <= df <= 1,
        dr != 0 || df != 0,
        has_bit(crate::bitboard::ray_bits(rank, file, dr, df, fuel), j),
    ensures
        0 <= j < 64,
        dr == 0 ==> j / 8 == rank,
        dr == 1 ==> j / 8 > rank,
        dr == -1 ==> j / 8 < rank,
        df == 0 ==> j % 8 == file,
        df == 1 ==> j % 8 > file,
        df == -1 ==> j % 8 < file,
        (dr != 0 && df != 0) ==> (if dr == 1 { j / 8 - rank } else { rank - j / 8 }) == (if df == 1 {
            j % 8 - file
        } else {
            file - j % 8
        }),
    decreases fuel,
{
    if fuel == 0 {
        let b = j as u64;
        assert((0u64 >> b) & 1u64 == 0u64) by (bit_vector);
    } else {
        let r = rank + dr;
        let f = file + df;
        if crate::bitboard::on_board(r, f) {
            let rest = crate::bitboard::ray_bits(r, f, dr, df, (fuel - 1) as nat);
            lemma_has_bit_or(square_bit(r * 8 + f), rest, j);
            if has_bit(rest, j) {
                lemma_ray_bits_geometry(r, f, dr, df, (fuel - 1) as nat, j);
            } else {
                lemma_square_bit_has_bit(r * 8 + f, j);
                assert(j == r * 8 + f);
                assert(j / 8 == r && j % 8 == f);
            }
        } else {
            let b = j as u64;
            assert((0u64 >> b) & 1u64 == 0u64) by (bit_vector);
        }
    }
}

/// The home square of a castling rook never lies on a ray of a slider between the slider and
/// the square the king lands on: for the king side the home square lies past the landing
/// square on the rank, on the queen side before it, and no ray runs along the edge beyond it.
proof fn lemma_home_off_rays(rook: bool, d: int, sq: int, t: int, home: int)
    requires
        0 <= d < 4,
        0 <= sq < 64,
        (t == 6 && home == 7) || (t == 2 && home == 0) || (t == 62 && home == 63) || (t == 58 && home == 56),
        has_bit(slider_ray(rook, d, sq), t),
        has_bit(slider_ray(rook, d, sq), home),
    ensures
        if d == 0 || d == 1 { home > t } else { home < t },
{
    let (dr, df) = crate::moves::direction_step(rook, d);
    lemma_ray_bits_geometry(sq / 8, sq % 8, dr, df, 7, t);
    lemma_ray_bits_geometry(sq / 8, sq % 8, dr, df, 7, home);
}

/// Where the occupancy `b` holds a blocker on the near side of `t` that `a` lacks, a ray
/// reaching `t` through `a` reaches it through `b` as well when no such square exists.
proof fn lemma_ray_bit_within(mask: u64, a: u64, b: u64, d: int, t: int)
    requires
        0 <= t < 64,
        forall|k: int|
            0 <= k < 64 && k != t && has_bit(mask, k) && (if d == 0 || d == 1 { k < t } else { k > t }) ==> (#[trigger] has_bit(b, k) ==> has_bit(a, k)),
    ensures
        has_bit(sliding_including_own(mask, a, d), t) ==> has_bit(sliding_including_own(mask, b, d), t),
{
    lemma_sliding_including_own_bits(mask, a, d, t);
    lemma_sliding_including_own_bits(mask, b, d, t);
    if has_bit(sliding_including_own(mask, a, d), t) {
        if d == 0 || d == 1 {
            assert forall|k: int| 0 <= k < t implies !has_bit(mask & b, k) by {
                lemma_has_bit_and(mask, a, k);
                lemma_has_bit_and(mask, b, k);
            }
        } else {
            assert forall|k: int| t < k < 64 implies !has_bit(mask & b, k) by {
                lemma_has_bit_and(mask, a, k);
                lemma_has_bit_and(mask, b, k);
            }
        }
    }
}

/// A slider attacking the landing square `t` of a castling king after the castle, where the
/// board before differs only by a blocker on the rook's home square, attacked it before.
proof fn lemma_slider_bit_within(rook: bool, sq: int, a: u64, b: u64, n: int, t: int, home: int)
    requires
        0 <= sq < 64,
        n <= 4,
        (t == 6 && home == 7) || (t == 2 && home == 0) || (t == 62 && home == 63) || (t == 58 && home == 56),
        forall|k: int| 0 <= k < 64 && k != t && #[trigger] has_bit(b, k) && !has_bit(a, k) ==> k == home,
    ensures
        has_bit(slider_attacks_incl(rook, sq, a, n), t) ==> has_bit(slider_attacks_incl(rook, sq, b, n), t),
    decreases n,
{
    if n > 0 {
        let d = n - 1;
        let mask = slider_ray(rook, d, sq);
        lemma_slider_bit_within(rook, sq, a, b, n - 1, t, home);
        lemma_sliding_including_own_bits(mask, a, d, t);
        if has_bit(sliding_including_own(mask, a, d), t) {
            assert forall|k: int|
                0 <= k < 64 && k != t && has_bit(mask, k) && (if d == 0 || d == 1 { k < t } else { k > t }) && #[trigger] has_bit(b, k) implies has_bit(a, k) by {
                if !has_bit(a, k) {
                    lemma_home_off_rays(rook, d, sq, t, home);
                }
            }
            lemma_ray_bit_within(mask, a, b, d, t);
        }
        lemma_has_bit_or(slider_attacks_incl(rook, sq, a, n - 1), sliding_including_own(mask, a, d), t);
        lemma_has_bit_or(slider_attacks_incl(rook, sq, b, n - 1), sliding_including_own(mask, b, d), t);
    }
}


/// A piece attacking the landing square `t` of a castling king after the castle, where the
/// board before differs only by a blocker on the rook's home square, attacked it before.
proof fn lemma_piece_bit_within(p: Piece, colour: Colour, a: u64, b: u64, t: int, home: int)
    requires
        is_square_bit(p.bit),
        (t == 6 && home == 7) || (t == 2 && home == 0) || (t == 62 && home == 63) || (t == 58 && home == 56),
        forall|k: int| 0 <= k < 64 && k != t && #[trigger] has_bit(b, k) && !has_bit(a, k) ==> k == home,
    ensures
        has_bit(piece_attacks(p, colour, a), t) ==> has_bit(piece_attacks(p, colour, b), t),
{
    lemma_square_of_square_bit(p.bit);
    let from = square_of(p.bit);
    lemma_slider_bit_within(false, from, a, b, 4, t, home);
    lemma_slider_bit_within(true, from, a, b, 4, t, home);
    lemma_has_bit_or(slider_attacks_incl(false, from, a, 4), slider_attacks_incl(true, from, a, 4), t);
    lemma_has_bit_or(slider_attacks_incl(false, from, b, 4), slider_attacks_incl(true, from, b, 4), t);
}

proof fn lemma_attacks_bit_within_castle(ps1: Seq<Piece>, ps0: Seq<Piece>, colour: Colour, a: u64, b: u64, t: int, home: int)
    requires
        (t == 6 && home == 7) || (t == 2 && home == 0) || (t == 62 && home == 63) || (t == 58 && home == 56),
        forall|k: int| 0 <= k < 64 && k != t && #[trigger] has_bit(b, k) && !has_bit(a, k) ==> k == home,
        ps1.len() == ps0.len(),
        pieces_on_squares(ps0),
        forall|j: int| 0 <= j < ps1.len() && (#[trigger] ps1[j]).colour == colour && !ps1[j].taken ==> ps0[j] == ps1[j],
    ensures
        has_bit(attacks_of(ps1, colour, a), t) ==> has_bit(attacks_of(ps0, colour, b), t),
    decreases ps1.len(),
{
    if ps1.len() > 0 {
        let n = ps1.len() - 1;
        assert forall|i: int| 0 <= i < ps0.drop_last().len() implies is_square_bit(#[trigger] ps0.drop_last()[i].bit) by {
            assert(ps0.drop_last()[i] == ps0[i]);
        }
        lemma_attacks_bit_within_castle(ps1.drop_last(), ps0.drop_last(), colour, a, b, t, home);
        assert(ps1.last() == ps1[n]);
        assert(ps0.last() == ps0[n]);
        let p1 = ps1.last();
        let p0 = ps0.last();
        if p1.colour == colour && !p1.taken {
            lemma_piece_bit_within(p1, colour, a, b, t, home);
            lemma_has_bit_or(attacks_of(ps1.drop_last(), colour, a), piece_attacks(p1, colour, a), t);
            lemma_has_bit_or(attacks_of(ps0.drop_last(), colour, b), piece_attacks(p0, colour, b), t);
        } else if p0.colour == colour && !p0.taken {
            lemma_has_bit_or(attacks_of(ps0.drop_last(), colour, b), piece_attacks(p0, colour, b), t);
        }
    }
}

/// The live board after a castle holds every square of the board before but the king's start
/// square, the landing square and the rook's home square.
proof fn lemma_occupancy_after_castle(ps1: Seq<Piece>, ps0: Seq<Piece>, idx: int, from: int, to: int, home: int)
    requires
        0 <= from < 64,
        0 <= home < 64,
        ps1.len() == ps0.len(),
        pieces_on_squares(ps0),
        forall|j: int| 0 <= j < ps1.len() ==> {
            &&& j == idx ==> (#[trigger] ps0[j]).bit == square_bit(from)
            &&& (j != idx && !ps0[j].taken) ==> ((!ps1[j].taken && ps1[j].bit == ps0[j].bit) || ps0[j].bit == square_bit(home))
        },
    ensures
        forall|k: int| 0 <= k < 64 && k != from && k != home && #[trigger] has_bit(selected_bits(ps0, live()), k) ==> has_bit(
            selected_bits(ps1, live()),
            k,
        ),
    decreases ps1.len(),
{
    if ps1.len() > 0 {
        let n = ps1.len() - 1;
        let p1 = ps1.last();
        let p0 = ps0.last();
        assert(p1 == ps1[n] && p0 == ps0[n]);
        assert forall|i: int| 0 <= i < ps0.drop_last().len() implies is_square_bit(#[trigger] ps0.drop_last()[i].bit) by {
            assert(ps0.drop_last()[i] == ps0[i]);
        }
        assert forall|j: int| 0 <= j < ps1.drop_last().len() implies {
            &&& j == idx ==> (#[trigger] ps0.drop_last()[j]).bit == square_bit(from)
            &&& (j != idx && !ps0.drop_last()[j].taken) ==> ((!ps1.drop_last()[j].taken && ps1.drop_last()[j].bit == ps0.drop_last()[j].bit)
                || ps0.drop_last()[j].bit == square_bit(home))
        } by {
            assert(ps0.drop_last()[j] == ps0[j]);
            assert(ps1.drop_last()[j] == ps1[j]);
        }
        lemma_occupancy_after_castle(ps1.drop_last(), ps0.drop_last(), idx, from, to, home);
        let s1 = selected_bits(ps1.drop_last(), live());
        let s0 = selected_bits(ps0.drop_last(), live());
        assert(is_square_bit(p0.bit));
        lemma_square_of_square_bit(p0.bit);
        let sq0 = square_of(p0.bit);
        assert forall|k: int| 0 <= k < 64 && k != from && k != home && #[trigger] has_bit(selected_bits(ps0, live()), k) implies has_bit(
            selected_bits(ps1, live()),
            k,
        ) by {
            lemma_has_bit_or(s1, p1.bit, k);
            lemma_has_bit_or(s0, p0.bit, k);
            lemma_square_bit_has_bit(sq0, k);
            lemma_square_bit_has_bit(from, k);
            lemma_square_bit_has_bit(home, k);
            if !p0.taken && has_bit(p0.bit, k) {
                assert(sq0 == k);
                if n == idx {
                    assert(p0.bit == square_bit(from));
                    crate::bitboard::lemma_square_bit_injective(k, from);
                } else if p0.bit == square_bit(home) {
                    crate::bitboard::lemma_square_bit_injective(k, home);
                }
            }
        }
    } else {
        assert forall|k: int| 0 <= k < 64 && k != from && k != home && #[trigger] has_bit(selected_bits(ps0, live()), k) implies has_bit(
            selected_bits(ps1, live()),
            k,
        ) by {
            let b = k as u64;
            assert((0u64 >> b) & 1u64 == 0u64) by (bit_vector);
        }
    }
}

proof fn lemma_has_bit_mask(x: u64, t: int)
    requires
        0 <= t < 64,
    ensures
        has_bit(x, t) <==> x & square_bit(t) != 0,
{
    let b = t as u64;
    assert(((x >> b) & 1u64 == 1u64) <==> (x & (1u64 << b) != 0u64)) by (bit_vector)
        requires
            b < 64,
    ;
}

/// A castle that generation produces, made in a consistent position where it can be made and
/// taken back, with no piece of the other side on the rook's home square, puts the king on a
/// square that no piece of the other side attacks afterwards.
pub proof fn lemma_castle_leaves_king_unattacked(g: Position, m: Move)
    requires
        g.wf(),
        g.consistent(),
        make_move_defined(g, m),
        undoable(g, m),
        castle_moves(m.from_square as int, g).contains(m),
        king_bit_of(g.pieces, g.active_colour) == square_bit(m.from_square as int),
        moved_type(g, m) == PieceType::King,
        g.squares[castle_home(g, m)] matches Square::Occupied(ri) ==> g.pieces[ri as int].colour == g.active_colour,
    ensures
        position_after_move(g, m).pieces[moving_index(g, m)->0].bit == square_bit(m.to_square as int),
        !has_bit(
            attacks_of(
                position_after_move(g, m).pieces,
                opponent(g.active_colour),
                position_after_move(g, m).occupied_bits(),
            ),
            m.to_square as int,
        ),
{
    let c = g.active_colour;
    let opp = opponent(c);
    let from = m.from_square as int;
    let to = m.to_square as int;
    let idx = moving_index(g, m)->0;
    let gp = position_after_move(g, m);
    lemma_move_effects(g, m);
    crate::game::lemma_find_from_facts(g.pieces, crate::moves::live_on_of(square_bit(from), c), 0);
    // The castle is one of the two the king may make, from its home square.
    let ks: Seq<Move> = if crate::moves_king::kingside_castle_allowed(g) { seq![castle_move(from, from + 2)] } else { Seq::empty() };
    let qs: Seq<Move> = if crate::moves_king::queenside_castle_allowed(g) { seq![castle_move(from, from - 2)] } else { Seq::empty() };
    assert(castle_moves(from, g) == ks + qs);
    let q = choose|q: int| 0 <= q < castle_moves(from, g).len() && castle_moves(from, g)[q] == m;
    // A king with the queen-side right stands at least two files from the edge.
    crate::game::lemma_find_from_facts(g.pieces, king_of(c), 0);
    let kk = find_first(g.pieces, king_of(c))->0;
    assert(g.pieces[kk].bit == square_bit(from));
    crate::bitboard::lemma_mod67_table_inverts_square_bit(from);
    assert(square_of(g.pieces[kk].bit) == from);
    assert(castling_kings_in_range(g.pieces, g.castling_rights, c));
    assert(g.castling_rights.has(crate::game::queenside_right(c)) ==> from >= 2);
    assert(crate::moves_king::queenside_castle_allowed(g) ==> g.castling_rights.has(crate::game::queenside_right(c)));
    if q < ks.len() {
        assert(m == ks[q]);
    } else {
        assert(m == qs[q - ks.len()]);
    }
    assert(move_distance(m) == 2);
    assert(castling_rook_in_place(g, m) || castling_rook_absent(g, m));
    let home = castle_home(g, m);
    assert(to == 6 || to == 2 || to == 62 || to == 58);
    assert((to == 6 && home == 7) || (to == 2 && home == 0) || (to == 62 && home == 63) || (to == 58 && home == 56));
    // The landing square is not attacked before the castle, with the king lifted.
    let a0 = squares_attacked_by(g, opp);
    assert(a0 & square_bit(to) == 0);
    lemma_has_bit_mask(a0, to);
    assert(g.squares[to] == Square::Empty);
    assert(target_victim(g, m) is None);
    assert(crate::move_laws::en_passant_victim(g, m) is None);
    // The pieces after the castle.
    assert forall|j: int| 0 <= j < gp.pieces.len() implies {
        &&& j == idx ==> (#[trigger] g.pieces[j]).bit == square_bit(from)
        &&& (j != idx && !g.pieces[j].taken) ==> ((!gp.pieces[j].taken && gp.pieces[j].bit == g.pieces[j].bit) || g.pieces[j].bit == square_bit(home))
    } by {
        assert(gp.pieces[j] == piece_after(g, m, j));
        if is_castling(g, m) && j == rook_index(g, m) {
            assert(g.squares[home] == Square::Occupied(j as usize));
        }
    }
    assert forall|j: int| 0 <= j < gp.pieces.len() && (#[trigger] gp.pieces[j]).colour == opp && !gp.pieces[j].taken implies g.pieces[j] == gp.pieces[j] by {
        assert(gp.pieces[j] == piece_after(g, m, j));
        if is_castling(g, m) && j == rook_index(g, m) {
            assert(g.squares[home] == Square::Occupied(j as usize));
        }
    }
    lemma_occupancy_after_castle(gp.pieces, g.pieces, idx, from, to, home);
    let occ1 = gp.occupied_bits();
    let occ0 = g.occupied_bits() & !square_bit(from);
    assert forall|k: int| 0 <= k < 64 && k != to && #[trigger] has_bit(occ0, k) && !has_bit(occ1, k) implies k == home by {
        lemma_has_bit_and(g.occupied_bits(), !square_bit(from), k);
        lemma_not_bit(square_bit(from), k);
        lemma_square_bit_has_bit(from, k);
        if k != home {
            assert(has_bit(selected_bits(g.pieces, live()), k));
        }
    }
    lemma_attacks_bit_within_castle(gp.pieces, g.pieces, opp, occ1, occ0, to, home);
}


/// A castling move of a list of pieces comes from a king of the side to move in it.
proof fn lemma_castles_source(g: Position, ps: Seq<Piece>, m: Move)
    requires
        castles_of_pieces(g, ps).contains(m),
    ensures
        exists|j: int| 0 <= j < ps.len() && (#[trigger] ps[j]).colour == g.active_colour && ps[j].piece_type == PieceType::King
            && castle_moves(square_of(ps[j].bit), g).contains(m),
    decreases ps.len(),
{
    if ps.len() > 0 {
        let n = ps.len() - 1;
        let prev = ps.drop_last();
        let p = ps.last();
        assert(p == ps[n]);
        let a = castles_of_pieces(g, prev);
        let k = choose|k: int| 0 <= k < castles_of_pieces(g, ps).len() && castles_of_pieces(g, ps)[k] == m;
        if p.colour == g.active_colour && p.piece_type == PieceType::King && k >= a.len() {
            assert(castle_moves(square_of(p.bit), g)[k - a.len()] == m);
            assert(castle_moves(square_of(ps[n].bit), g).contains(m));
        } else {
            assert(a[k] == m);
            assert(a.contains(m));
            lemma_castles_source(g, prev, m);
            let j = choose|j: int| 0 <= j < prev.len() && (#[trigger] prev[j]).colour == g.active_colour && prev[j].piece_type
                == PieceType::King && castle_moves(square_of(prev[j].bit), g).contains(m);
            assert(prev[j] == ps[j]);
        }
    }
}

/// Every legal move of the king of the side to move, castling included, made in a consistent
/// position where it can be made and taken back, puts the king on a square that no piece of
/// the other side attacks afterwards; for a castle, no piece of the other side may stand on
/// the rook's home square.
pub proof fn lemma_legal_king_move_leaves_king_unattacked(g: Position, m: Move)
    requires
        g.wf(),
        g.consistent(),
        make_move_defined(g, m),
        undoable(g, m),
        legal_moves(g).contains(m),
        m.from_square == king_square_of(g),
        !g.pieces[find_first(g.pieces, king_of(g.active_colour))->0].taken,
        move_distance(m) == 2 ==> (g.squares[castle_home(g, m)] matches Square::Occupied(ri) ==> g.pieces[ri as int].colour
            == g.active_colour),
    ensures
        position_after_move(g, m).pieces[moving_index(g, m)->0].bit == square_bit(m.to_square as int),
        !has_bit(
            attacks_of(
                position_after_move(g, m).pieces,
                opponent(g.active_colour),
                position_after_move(g, m).occupied_bits(),
            ),
            m.to_square as int,
        ),
{
    if move_distance(m) != 2 {
        lemma_legal_king_step_leaves_king_unattacked(g, m);
    } else {
        let c = g.active_colour;
        let from = m.from_square as int;
        lemma_kept_moves_from(g, pseudolegal_moves(g));
        let q = choose|q: int| 0 <= q < legal_moves(g).len() && legal_moves(g)[q] == m;
        assert(pseudolegal_moves(g).contains(m));
        let a = pseudolegal_moves_without_castling(g);
        let b = castles_of_pieces(g, g.pieces);
        let k = choose|k: int| 0 <= k < pseudolegal_moves(g).len() && pseudolegal_moves(g)[k] == m;
        lemma_find_from_facts(g.pieces, king_of(c), 0);
        let kk = find_first(g.pieces, king_of(c))->0;
        lemma_square_of_square_bit(g.pieces[kk].bit);
        assert(g.pieces[kk].bit == square_bit(from));
        if k < a.len() {
            // A king step never covers two squares.
            assert(a[k] == m);
            assert(moves_of_pieces(g, g.pieces).contains(m));
            lemma_moves_of_pieces_source(g, g.pieces, m);
            let j = choose|j: int| 0 <= j < g.pieces.len() && (#[trigger] g.pieces[j]).colour == c && !g.pieces[j].taken && piece_moves(g, g.pieces[j]).contains(m);
            lemma_piece_moves_start(g, g.pieces[j], m);
            lemma_square_of_square_bit(g.pieces[j].bit);
            assert(g.pieces[j].bit == square_bit(from));
            assert(g.squares[square_of(g.pieces[j].bit)] == Square::Occupied(j as usize));
            assert(g.squares[square_of(g.pieces[kk].bit)] == Square::Occupied(kk as usize));
            assert(j == kk);
            assert(legal_king_moves(from, g).contains(m));
            let mask = ((king_mask(from) & !g.friendly_bits()) & !squares_attacked_by(g, opponent(c)));
            let targets = bit_indices(mask);
            let i = choose|i: int| 0 <= i < legal_king_moves(from, g).len() && legal_king_moves(from, g)[i] == m;
            assert(legal_king_moves(from, g) == moves_to_targets(from as usize, targets, false));
            assert(m.to_square == targets[i]);
            lemma_set_bits_member(mask, 0);
            lemma_has_bit_and(king_mask(from) & !g.friendly_bits(), !squares_attacked_by(g, opponent(c)), m.to_square as int);
            lemma_has_bit_and(king_mask(from), !g.friendly_bits(), m.to_square as int);
            lemma_king_mask_squares(from, m.to_square as int);
            assert(false);
        } else {
            assert(b[k - a.len()] == m);
            assert(b.contains(m));
            lemma_castles_source(g, g.pieces, m);
            let j = choose|j: int| 0 <= j < g.pieces.len() && (#[trigger] g.pieces[j]).colour == c && g.pieces[j].piece_type == PieceType::King
                && castle_moves(square_of(g.pieces[j].bit), g).contains(m);
            let sq = square_of(g.pieces[j].bit);
            lemma_square_of_square_bit(g.pieces[j].bit);
            let ks: Seq<Move> = if crate::moves_king::kingside_castle_allowed(g) { seq![castle_move(sq, sq + 2)] } else { Seq::empty() };
            let qs: Seq<Move> = if crate::moves_king::queenside_castle_allowed(g) { seq![castle_move(sq, sq - 2)] } else { Seq::empty() };
            assert(castle_moves(sq, g) == ks + qs);
            let r = choose|r: int| 0 <= r < castle_moves(sq, g).len() && castle_moves(sq, g)[r] == m;
            if r < ks.len() {
                assert(m == ks[r]);
            } else {
                assert(m == qs[r - ks.len()]);
            }
            assert(sq == from);
            // The king makes the move.
            let pred = crate::moves::live_on_of(square_bit(from), c);
            lemma_find_from_facts(g.pieces, pred, 0);
            let idx = moving_index(g, m)->0;
            assert(g.squares[square_of(g.pieces[idx].bit)] == Square::Occupied(idx as usize));
            assert(g.squares[square_of(g.pieces[kk].bit)] == Square::Occupied(kk as usize));
            assert(idx == kk);
            assert(m.promotion is None);
            assert(moved_type(g, m) == PieceType::King);
            lemma_castle_leaves_king_unattacked(g, m);
        }
    }
}


/// The legality filter is exact: a move the pieces generate (castling included), made in a
/// consistent position where it can be made and taken back, is among the legal moves exactly
/// when no piece of the other side attacks the mover's king once it is made. The side to move
/// has a single king (a king move starts on the king's square), and a castle finds no piece of
/// the other side on the rook's home square.
pub proof fn lemma_legal_exactly_when_king_safe(g: Position, m: Move)
    requires
        g.wf(),
        g.consistent(),
        make_move_defined(g, m),
        undoable(g, m),
        pseudolegal_moves(g).contains(m),
        !g.pieces[find_first(g.pieces, king_of(g.active_colour))->0].taken,
        moved_type(g, m) == PieceType::King ==> m.from_square == king_square_of(g),
        (m.from_square == king_square_of(g) && move_distance(m) == 2) ==> (g.squares[castle_home(g, m)] matches Square::Occupied(
            ri,
        ) ==> g.pieces[ri as int].colour == g.active_colour),
    ensures
        legal_moves(g).contains(m) <==> ({
            let after = position_after_move(g, m);
            let king = king_bit_of(after.pieces, g.active_colour);
            attacks_of(after.pieces, opponent(g.active_colour), after.occupied_bits() & !king) & king == 0
        }),
{
    let c = g.active_colour;
    let opp = opponent(c);
    let gp = position_after_move(g, m);
    let from = m.from_square as int;
    if m.from_square != king_square_of(g) {
        lemma_non_king_move_legal_iff_safe(g, m);
    } else {
        // The filter keeps every move from the king's square.
        lemma_kept_moves_contains(g, pseudolegal_moves(g), m);
        assert(legal_moves(g).contains(m));
        lemma_legal_king_move_leaves_king_unattacked(g, m);
        let to = m.to_square as int;
        // The king after the move is the one that moved.
        lemma_find_from_facts(g.pieces, king_of(c), 0);
        let kk = find_first(g.pieces, king_of(c))->0;
        lemma_square_of_square_bit(g.pieces[kk].bit);
        let pred = crate::moves::live_on_of(square_bit(from), c);
        lemma_find_from_facts(g.pieces, pred, 0);
        let idx = moving_index(g, m)->0;
        assert(g.squares[square_of(g.pieces[idx].bit)] == Square::Occupied(idx as usize));
        assert(g.squares[square_of(g.pieces[kk].bit)] == Square::Occupied(kk as usize));
        assert(idx == kk);
        lemma_move_effects(g, m);
        assert forall|j: int| 0 <= j < gp.pieces.len() implies king_of(c)(#[trigger] gp.pieces[j]) == king_of(c)(g.pieces[j]) by {
            assert(gp.pieces[j] == piece_after(g, m, j));
        }
        crate::move_laws::lemma_find_from_same(gp.pieces, g.pieces, king_of(c), king_of(c), 0);
        assert(king_bit_of(gp.pieces, c) == square_bit(to));
        // Lifting the king off its own square does not change the attacks on it.
        let occ = gp.occupied_bits();
        assert forall|k: int| 0 <= k < 64 && k != to implies (#[trigger] has_bit(occ & !square_bit(to), k) <==> has_bit(occ, k)) by {
            lemma_has_bit_and(occ, !square_bit(to), k);
            lemma_not_bit(square_bit(to), k);
            lemma_square_bit_has_bit(to, k);
        }
        lemma_attacks_bit_within(gp.pieces, gp.pieces, opp, occ & !square_bit(to), occ, to);
        lemma_has_bit_mask(attacks_of(gp.pieces, opp, occ & !square_bit(to)), to);
    }
}

} // verus!
