use vstd::prelude::*;

verus! {

use crate::bitboard::{square_bit, square_of, is_square_bit, lemma_mod67_table_inverts_square_bit, lemma_square_bit_injective, lemma_square_of_square_bit};
use crate::game::{Colour, CastlingRights, Game, Piece, PieceType, Position, Square, wk, wq, bk, bq, kingside_right, queenside_right, find_first, find_from, lemma_find_from_facts, opponent, pieces_on_squares, king_bit_of, king_of, live, selected_bits};
use crate::moves::{
    Move,
    MoveToUnmake,
    any_on,
    board_from,
    capture_stage,
    castling_stage,
    en_passant_stage,
    finish_from,
    live_on_of,
    live_on_not_of,
    make_move_defined,
    move_distance,
    move_stages,
    moving_index,
    on_board_exactly,
    position_after_move,
    position_after_unmake,
    promotion_stage,
    record_from,
    relocation_stage,
    rook_rights_stage,
    undo_record,
    unmake_index,
    unmake_move_defined,
    attacks_of,
    board_after_shift,
    en_passant_capture_square,
    keeps_move,
    king_safe_after,
    king_square_of,
    legal_moves,
    lemma_kept_moves_kept,
    kept_moves,
    pseudolegal_moves,
    piece_shifted,
    shifting_type,
    squares_attacked_by,
    without_right,
    rights_after_rook_square,
};

/// The home square of the rook a castling move of colour `c` towards `kingside` uses.
pub open spec fn rook_home(c: Colour, kingside: bool) -> int {
    if kingside {
        if c == Colour::White { 7 } else { 63 }
    } else {
        if c == Colour::White { 0 } else { 56 }
    }
}

/// For a two-square king move: the rook stands on its home square, three files from the king
/// side or four files from the queen side, is the first piece of the list on that square, and
/// the square the rook lands on is empty.
pub open spec fn castling_rook_in_place(g: Position, m: Move) -> bool {
    let kingside = m.to_square > m.from_square;
    let home = rook_home(g.active_colour, kingside);
    let rook_from: int = if kingside { m.from_square + 3 } else { m.from_square - 4 };
    let rook_to: int = if kingside { m.from_square + 1 } else { m.from_square - 1 };
    &&& rook_from == home
    &&& g.squares[rook_to] == Square::Empty
    &&& g.squares[rook_from] matches Square::Occupied(ri) && find_first(g.pieces, any_on(square_bit(home))) == Some(ri as int)
}

/// For a two-square king move whose side holds no rook to move: the home square is three
/// files from the king side or four files from the queen side, it is empty, and no piece of
/// the list (taken ones included) stands on it.
pub open spec fn castling_rook_absent(g: Position, m: Move) -> bool {
    let kingside = m.to_square > m.from_square;
    let home = rook_home(g.active_colour, kingside);
    let rook_from: int = if kingside { m.from_square + 3 } else { m.from_square - 4 };
    &&& rook_from == home
    &&& g.squares[home] == Square::Empty
    &&& find_first(g.pieces, any_on(square_bit(home))) is None
}

/// The piece type the moving piece has once the move's promotion is applied.
pub open spec fn moved_type(g: Position, m: Move) -> PieceType {
    match m.promotion {
        Some(t) => t,
        None => g.pieces[moving_index(g, m)->0].piece_type,
    }
}

/// The moves that taking back restores exactly: the piece moves to another square, only pawns
/// promote, a castling king finds its rook in place or no piece at all on the rook's home
/// square, and an en passant capture lands on an empty square.
pub open spec fn undoable(g: Position, m: Move) -> bool {
    &&& m.from_square != m.to_square
    &&& m.promotion is Some ==> g.pieces[moving_index(g, m)->0].piece_type == PieceType::Pawn
    &&& (moved_type(g, m) == PieceType::King && move_distance(m) == 2) ==> (castling_rook_in_place(g, m)
        || castling_rook_absent(g, m))
    &&& (g.en_passant == Some(square_bit(m.to_square as int)) && moved_type(g, m) == PieceType::Pawn)
        ==> g.squares[m.to_square as int] == Square::Empty
}

/// In a consistent position the first live piece on a square is the one the square names.
pub proof fn lemma_live_on_square(g: Position, s: int)
    requires
        g.consistent(),
        0 <= s < 64,
    ensures
        find_first(g.pieces, on_board_exactly(square_bit(s))) == match g.squares[s] {
            Square::Occupied(i) => Some(i as int),
            Square::Empty => None::<int>,
        },
{
    let pred = on_board_exactly(square_bit(s));
    lemma_find_from_facts(g.pieces, pred, 0);
    lemma_mod67_table_inverts_square_bit(s);
    match find_first(g.pieces, pred) {
        Some(k) => {
            assert(!g.pieces[k].taken);
            assert(g.squares[square_of(g.pieces[k].bit)] == Square::Occupied(k as usize));
        },
        None => {
            match g.squares[s] {
                Square::Occupied(i) => {
                    assert(pred(g.pieces[i as int]));
                },
                Square::Empty => {},
            }
        },
    }
}

/// Searches agree on lists that the predicates judge alike.
pub proof fn lemma_find_from_same(ps1: Seq<Piece>, ps2: Seq<Piece>, p1: spec_fn(Piece) -> bool, p2: spec_fn(Piece) -> bool, k: int)
    requires
        0 <= k,
        ps1.len() == ps2.len(),
        forall|j: int| 0 <= j < ps1.len() ==> p1(#[trigger] ps1[j]) == p2(ps2[j]),
    ensures
        find_from(ps1, p1, k) == find_from(ps2, p2, k),
    decreases ps1.len() - k,
{
    if k < ps1.len() {
        lemma_find_from_same(ps1, ps2, p1, p2, k + 1);
    }
}

/// The piece on the start square of a move in a consistent position is the moving piece.
proof fn lemma_moving_index(g: Position, m: Move)
    requires
        g.consistent(),
        make_move_defined(g, m),
    ensures
        0 <= moving_index(g, m)->0 < g.pieces.len(),
        g.squares[m.from_square as int] == Square::Occupied((moving_index(g, m)->0) as usize),
        !g.pieces[moving_index(g, m)->0].taken,
        g.pieces[moving_index(g, m)->0].bit == square_bit(m.from_square as int),
        g.pieces[moving_index(g, m)->0].colour == g.active_colour,
{
    let from = m.from_square as int;
    let pred = live_on_of(square_bit(from), g.active_colour);
    lemma_find_from_facts(g.pieces, pred, 0);
    let idx = moving_index(g, m)->0;
    lemma_mod67_table_inverts_square_bit(from);
    assert(g.squares[square_of(g.pieces[idx].bit)] == Square::Occupied(idx as usize));
}

/// What the castling stage does to a consistent position: a castling rook in place moves next
/// to the king; otherwise pieces and squares stay.
proof fn lemma_castling_stage_facts(g: Position, m: Move, idx: int)
    requires
        g.consistent(),
        make_move_defined(g, m),
        undoable(g, m),
        idx == moving_index(g, m)->0,
    ensures
        ({
            let g1 = promotion_stage(g, m, idx);
            let (g2, rook) = castling_stage(g1, m, idx);
            let kingside = m.to_square > m.from_square;
            let home = rook_home(g.active_colour, kingside);
            let rook_to: int = if kingside { m.from_square + 1 } else { m.from_square - 1 };
            if is_castling(g, m) {
                &&& g.squares[home] matches Square::Occupied(ri) && rook == Some((ri, home as usize, rook_to as usize))
                    && g2.pieces == g1.pieces.update(ri as int, Piece { bit: square_bit(rook_to), ..g1.pieces[ri as int] })
                    && g2.squares == g.squares.update(rook_to, Square::Occupied(ri)).update(home, Square::Empty)
                    && ri != idx
                &&& g.squares[rook_to] == Square::Empty
                &&& 0 <= home < 64 && 0 <= rook_to < 64
            } else {
                &&& rook is None
                &&& g2.pieces == g1.pieces
                &&& g2.squares == g.squares
            }
        }),
{
    lemma_moving_index(g, m);
    let g1 = promotion_stage(g, m, idx);
    assert(g1.pieces[idx].piece_type == moved_type(g, m));
    if moved_type(g, m) == PieceType::King && move_distance(m) == 2 && !castling_rook_in_place(g, m) {
        let kingside = m.to_square > m.from_square;
        let home = rook_home(g.active_colour, kingside);
        lemma_find_from_same(g1.pieces, g.pieces, any_on(square_bit(home)), any_on(square_bit(home)), 0);
    }
    if is_castling(g, m) {
        let kingside = m.to_square > m.from_square;
        let home = rook_home(g.active_colour, kingside);
        let ri = g.squares[home]->Occupied_0;
        lemma_find_from_same(g1.pieces, g.pieces, any_on(square_bit(home)), any_on(square_bit(home)), 0);
        assert(ri as int != idx) by {
            if ri as int == idx {
                assert(g.pieces[ri as int].bit == square_bit(home));
                lemma_square_bit_injective(home, m.from_square as int);
            }
        }
    }
}

/// The square behind the target of an en passant capture by colour `c`.
pub open spec fn en_passant_victim_square(c: Colour, to: int) -> int {
    if c == Colour::White {
        to - 8
    } else {
        to + 8
    }
}

/// Whether a move captures en passant: a pawn landing on the en passant square.
pub open spec fn captures_en_passant(g: Position, m: Move) -> bool {
    g.en_passant == Some(square_bit(m.to_square as int)) && moved_type(g, m) == PieceType::Pawn
}

proof fn lemma_square_bits_differ(a: int, b: int)
    requires
        0 <= a < 64,
        0 <= b < 64,
        a != b,
    ensures
        square_bit(a) != square_bit(b),
{
    if square_bit(a) == square_bit(b) {
        lemma_square_bit_injective(a, b);
    }
}

/// What the en passant and capture stages do to a consistent position.
proof fn lemma_capture_stages_facts(g: Position, m: Move, idx: int)
    requires
        g.consistent(),
        make_move_defined(g, m),
        undoable(g, m),
        idx == moving_index(g, m)->0,
    ensures
        ({
            let g1 = promotion_stage(g, m, idx);
            let (g2, rook) = castling_stage(g1, m, idx);
            let g3 = rook_rights_stage(g2, m, idx);
            let (g4, ep) = en_passant_stage(g3, m, idx);
            let (g5, cap) = capture_stage(g4, m);
            let cps = en_passant_victim_square(g.active_colour, m.to_square as int);
            &&& (if captures_en_passant(g, m) {
                &&& g.squares[m.to_square as int] == Square::Empty
                &&& 0 <= cps < 64
                &&& match g.squares[cps] {
                    Square::Occupied(ci) => ep == Some((ci, cps as usize)) && g4.pieces == g3.pieces.update(ci as int, Piece { taken: true, ..g3.pieces[ci as int] })
                        && g4.squares == g3.squares.update(cps, Square::Empty) && ci != idx && cps != m.from_square,
                    Square::Empty => ep is None && g4 == g3,
                }
            } else {
                ep is None && g4 == g3
            })
            &&& match g.squares[m.to_square as int] {
                Square::Occupied(ti) => cap == Some((ti, m.to_square)) && g5.pieces == g4.pieces.update(ti as int, Piece { taken: true, ..g4.pieces[ti as int] })
                    && ti != idx && (rook matches Some(r) ==> ti != r.0),
                Square::Empty => cap is None && g5.pieces == g4.pieces,
            }
            &&& g5.squares == g4.squares
        }),
{
    lemma_moving_index(g, m);
    lemma_castling_stage_facts(g, m, idx);
    let from = m.from_square as int;
    let to = m.to_square as int;
    let g1 = promotion_stage(g, m, idx);
    let (g2, rook) = castling_stage(g1, m, idx);
    let g3 = rook_rights_stage(g2, m, idx);
    let (g4, ep) = en_passant_stage(g3, m, idx);
    let (g5, cap) = capture_stage(g4, m);
    let cps = en_passant_victim_square(g.active_colour, to);
    assert(g3.pieces == g2.pieces && g3.squares == g2.squares && g3.en_passant == g.en_passant);
    assert(g1.pieces[idx].piece_type == moved_type(g, m));
    let castling = is_castling(g, m);
    if castling {
        let ri = g.squares[rook_home(g.active_colour, m.to_square > m.from_square)]->Occupied_0;
        assert(g3.pieces[idx].piece_type == PieceType::King);
    } else {
        assert(g3.pieces[idx].piece_type == moved_type(g, m));
    }
    if captures_en_passant(g, m) {
        assert(!castling);
        assert(0 <= cps < 64);
        lemma_find_from_same(g3.pieces, g.pieces, on_board_exactly(square_bit(cps)), on_board_exactly(square_bit(cps)), 0);
        lemma_live_on_square(g, cps);
        match g.squares[cps] {
            Square::Occupied(ci) => {
                if ci as int == idx {
                    assert(g4.squares[from] == Square::Empty) by {
                        assert(g.pieces[idx].bit == square_bit(cps));
                        lemma_square_bit_injective(cps, from);
                    }
                    assert(false);
                }
                if cps == from {
                    assert(g.squares[from] == Square::Occupied(idx as usize));
                }
            },
            Square::Empty => {},
        }
    }
    // The ordinary capture finds the piece the target square names.
    let pred = on_board_exactly(square_bit(to));
    assert forall|j: int| 0 <= j < g4.pieces.len() implies pred(#[trigger] g4.pieces[j]) == pred(g.pieces[j]) by {
        if castling {
            let kingside = m.to_square > m.from_square;
            let home = rook_home(g.active_colour, kingside);
            let rook_to: int = if kingside { from + 1 } else { from - 1 };
            let ri = g.squares[home]->Occupied_0;
            if j == ri as int {
                lemma_square_bits_differ(home, to);
                lemma_square_bits_differ(rook_to, to);
            }
        }
        if captures_en_passant(g, m) {
            if let Square::Occupied(ci) = g.squares[cps] {
                if j == ci as int {
                    lemma_square_bits_differ(cps, to);
                }
            }
        }
    }
    lemma_find_from_same(g4.pieces, g.pieces, pred, pred, 0);
    lemma_live_on_square(g, to);
    lemma_mod67_table_inverts_square_bit(to);
    match g.squares[to] {
        Square::Occupied(ti) => {
            if ti as int == idx {
                lemma_square_bit_injective(to, from);
            }
            if castling {
                let kingside = m.to_square > m.from_square;
                let home = rook_home(g.active_colour, kingside);
                let ri = g.squares[home]->Occupied_0;
                if ti == ri {
                    lemma_square_bit_injective(to, home);
                }
            }
        },
        Square::Empty => {},
    }
}

/// Whether a move is a two-square king move (after its promotion) that moves a rook in place.
pub open spec fn is_castling(g: Position, m: Move) -> bool {
    moved_type(g, m) == PieceType::King && move_distance(m) == 2 && castling_rook_in_place(g, m)
}

/// The square a castling rook lands on.
pub open spec fn rook_target(m: Move) -> int {
    if m.to_square > m.from_square {
        m.from_square + 1
    } else {
        m.from_square - 1
    }
}

/// The home square of the castling rook of a move.
pub open spec fn castle_home(g: Position, m: Move) -> int {
    rook_home(g.active_colour, m.to_square > m.from_square)
}

/// The index of the castling rook (the piece its home square names).
pub open spec fn rook_index(g: Position, m: Move) -> int {
    g.squares[castle_home(g, m)]->Occupied_0 as int
}

/// The index of the piece taken en passant, if the move takes one.
pub open spec fn en_passant_victim(g: Position, m: Move) -> Option<int> {
    if captures_en_passant(g, m) {
        match g.squares[en_passant_victim_square(g.active_colour, m.to_square as int)] {
            Square::Occupied(ci) => Some(ci as int),
            Square::Empty => None,
        }
    } else {
        None
    }
}

/// The index of the piece taken on the target square, if any.
pub open spec fn target_victim(g: Position, m: Move) -> Option<int> {
    match g.squares[m.to_square as int] {
        Square::Occupied(ti) => Some(ti as int),
        Square::Empty => None,
    }
}

/// Piece `j` after a move, described directly from the position before it.
pub open spec fn piece_after(g: Position, m: Move, j: int) -> Piece {
    let idx = moving_index(g, m)->0;
    if j == idx {
        Piece { bit: square_bit(m.to_square as int), piece_type: moved_type(g, m), ..g.pieces[idx] }
    } else if is_castling(g, m) && j == rook_index(g, m) {
        Piece { bit: square_bit(rook_target(m)), ..g.pieces[j] }
    } else if en_passant_victim(g, m) == Some(j) || target_victim(g, m) == Some(j) {
        Piece { taken: true, ..g.pieces[j] }
    } else {
        g.pieces[j]
    }
}

/// Square `s` after a move, described directly from the position before it.
pub open spec fn square_after(g: Position, m: Move, s: int) -> Square {
    let idx = moving_index(g, m)->0;
    if s == m.from_square {
        Square::Empty
    } else if s == m.to_square {
        Square::Occupied(idx as usize)
    } else if is_castling(g, m) && s == rook_target(m) {
        Square::Occupied(rook_index(g, m) as usize)
    } else if is_castling(g, m) && s == castle_home(g, m) {
        Square::Empty
    } else if en_passant_victim(g, m) is Some && s == en_passant_victim_square(g.active_colour, m.to_square as int) {
        Square::Empty
    } else {
        g.squares[s]
    }
}

proof fn lemma_pieces_after(g: Position, m: Move)
    requires
        g.consistent(),
        make_move_defined(g, m),
        undoable(g, m),
    ensures
        position_after_move(g, m).pieces.len() == g.pieces.len(),
        forall|j: int| 0 <= j < g.pieces.len() ==> #[trigger] position_after_move(g, m).pieces[j] == piece_after(g, m, j),
{
    let idx = moving_index(g, m)->0;
    lemma_moving_index(g, m);
    lemma_castling_stage_facts(g, m, idx);
    lemma_capture_stages_facts(g, m, idx);
    let g1 = promotion_stage(g, m, idx);
    let (g2, rook) = castling_stage(g1, m, idx);
    let g3 = rook_rights_stage(g2, m, idx);
    let (g4, ep) = en_passant_stage(g3, m, idx);
    let (g5, cap) = capture_stage(g4, m);
    let gp = position_after_move(g, m);
    assert(gp.pieces == g5.pieces.update(idx, Piece { bit: square_bit(m.to_square as int), ..g5.pieces[idx] }));
    assert forall|j: int| 0 <= j < g.pieces.len() implies #[trigger] gp.pieces[j] == piece_after(g, m, j) by {
        if is_castling(g, m) {
            assert(en_passant_victim(g, m) is None);
        }
    }
}

proof fn lemma_squares_after(g: Position, m: Move)
    requires
        g.consistent(),
        make_move_defined(g, m),
        undoable(g, m),
    ensures
        position_after_move(g, m).squares.len() == 64,
        forall|s: int| 0 <= s < 64 ==> #[trigger] position_after_move(g, m).squares[s] == square_after(g, m, s),
{
    let idx = moving_index(g, m)->0;
    lemma_moving_index(g, m);
    lemma_castling_stage_facts(g, m, idx);
    lemma_capture_stages_facts(g, m, idx);
    let from = m.from_square as int;
    let g1 = promotion_stage(g, m, idx);
    let (g2, rook) = castling_stage(g1, m, idx);
    let g3 = rook_rights_stage(g2, m, idx);
    let (g4, ep) = en_passant_stage(g3, m, idx);
    let (g5, cap) = capture_stage(g4, m);
    let gp = position_after_move(g, m);
    assert(g5.squares[from] == Square::Occupied(idx as usize)) by {
        if is_castling(g, m) {
            assert(rook_target(m) != from && castle_home(g, m) != from);
        }
    }
    assert(gp.squares == g5.squares.update(m.to_square as int, Square::Occupied(idx as usize)).update(from, Square::Empty));
}

proof fn lemma_record_after(g: Position, m: Move)
    requires
        g.consistent(),
        make_move_defined(g, m),
        undoable(g, m),
    ensures
        ({
            let u = undo_record(g, m);
            &&& u.from_square == m.from_square
            &&& u.to_square == m.to_square
            &&& u.promotion == m.promotion
            &&& u.previous_castling_rights == g.castling_rights
            &&& u.previous_en_passant == g.en_passant
            &&& u.previous_colour_in_check == g.colour_in_check
            &&& u.previous_last_move == g.last_move
            &&& match target_victim(g, m) {
                Some(ti) => u.captured_piece_index == Some(ti as usize) && u.captured_piece_square == Some(m.to_square),
                None => match en_passant_victim(g, m) {
                    Some(ci) => u.captured_piece_index == Some(ci as usize) && u.captured_piece_square == Some(en_passant_victim_square(g.active_colour, m.to_square as int) as usize),
                    None => u.captured_piece_index is None && u.captured_piece_square is None,
                },
            }
            &&& if is_castling(g, m) {
                u.previous_castled_rook_piece_index == Some(rook_index(g, m) as usize)
                    && u.previous_castled_rook_piece_from_square == Some(castle_home(g, m) as usize)
                    && u.previous_castled_rook_piece_to_square == Some(rook_target(m) as usize)
            } else {
                u.previous_castled_rook_piece_index is None
                    && u.previous_castled_rook_piece_from_square is None
                    && u.previous_castled_rook_piece_to_square is None
            }
        }),
{
    let idx = moving_index(g, m)->0;
    lemma_moving_index(g, m);
    lemma_castling_stage_facts(g, m, idx);
    lemma_capture_stages_facts(g, m, idx);
}

/// Taking back a move restores the position it was made in: for a consistent position and a
/// move that can be made, where the piece moves to another square, only a pawn promotes, a
/// castling king finds its rook in place or no piece at all on the rook's home square, and an
/// en passant capture lands on an empty square,
/// `unmake_move` after `make_move` gives back the starting position.
pub proof fn lemma_unmake_undoes_make(g: Position, m: Move)
    requires
        g.consistent(),
        make_move_defined(g, m),
        undoable(g, m),
    ensures
        unmake_move_defined(position_after_move(g, m), undo_record(g, m)),
        position_after_unmake(position_after_move(g, m), undo_record(g, m)) == g,
{
    let idx = moving_index(g, m)->0;
    lemma_moving_index(g, m);
    lemma_pieces_after(g, m);
    lemma_squares_after(g, m);
    lemma_record_after(g, m);
    lemma_castling_stage_facts(g, m, idx);
    lemma_capture_stages_facts(g, m, idx);
    let c = g.active_colour;
    let to = m.to_square as int;
    let gp = position_after_move(g, m);
    let u = undo_record(g, m);
    assert(gp.active_colour == opponent(c));
    // The moved piece is the one a take-back finds.
    let pred = live_on_not_of(square_bit(to), opponent(c));
    assert(pred(gp.pieces[idx]));
    assert forall|j: int| 0 <= j < gp.pieces.len() && pred(#[trigger] gp.pieces[j]) implies j == idx by {
        assert(!gp.pieces[j].taken && gp.pieces[j].bit == square_bit(to));
        if j != idx {
            assert(gp.pieces[j] == piece_after(g, m, j));
            if is_castling(g, m) && j == rook_index(g, m) {
                lemma_square_bits_differ(rook_target(m), to);
                assert(false);
            } else if en_passant_victim(g, m) == Some(j) || target_victim(g, m) == Some(j) {
                assert(false);
            } else {
                assert(gp.pieces[j] == g.pieces[j]);
                lemma_mod67_table_inverts_square_bit(to);
                assert(square_of(g.pieces[j].bit) == to);
                assert(g.squares[to] == Square::Occupied(j as usize));
                assert(target_victim(g, m) == Some(j));
                assert(false);
            }
        }
    }
    lemma_find_from_facts(gp.pieces, pred, 0);
    assert(unmake_index(gp, u) == Some(idx));
    lemma_unmake_result(g, m);
}

proof fn lemma_unmake_result(g: Position, m: Move)
    requires
        g.consistent(),
        make_move_defined(g, m),
        undoable(g, m),
        unmake_index(position_after_move(g, m), undo_record(g, m)) == Some(moving_index(g, m)->0),
        position_after_move(g, m).pieces.len() == g.pieces.len(),
        forall|j: int| 0 <= j < g.pieces.len() ==> #[trigger] position_after_move(g, m).pieces[j] == piece_after(g, m, j),
        position_after_move(g, m).squares.len() == 64,
        forall|s: int| 0 <= s < 64 ==> #[trigger] position_after_move(g, m).squares[s] == square_after(g, m, s),
    ensures
        unmake_move_defined(position_after_move(g, m), undo_record(g, m)),
        position_after_unmake(position_after_move(g, m), undo_record(g, m)) == g,
{
    let idx = moving_index(g, m)->0;
    lemma_moving_index(g, m);
    lemma_record_after(g, m);
    lemma_castling_stage_facts(g, m, idx);
    lemma_capture_stages_facts(g, m, idx);
    let gp = position_after_move(g, m);
    let u = undo_record(g, m);
    let r = position_after_unmake(gp, u);
    lemma_unmake_pieces(g, m);
    lemma_unmake_squares(g, m);
    assert(r.pieces == unmade_pieces(gp, u, idx));
    assert(r.squares == unmade_squares(gp, u, idx));
    assert(r.fullmove_number == g.fullmove_number);
    assert(r =~= g);
}

/// The piece list a take-back produces once it has found the moved piece `pi`.
pub open spec fn unmade_pieces(gp: Position, u: MoveToUnmake, pi: int) -> Seq<Piece> {
    let p1 = match u.promotion {
        Some(_) => gp.pieces.update(pi, Piece { piece_type: PieceType::Pawn, ..gp.pieces[pi] }),
        None => gp.pieces,
    };
    let p2 = p1.update(pi, Piece { bit: square_bit(u.from_square as int), ..p1[pi] });
    let p3 = match (u.captured_piece_index, u.captured_piece_square) {
        (Some(ci), Some(cs)) => p2.update(ci as int, Piece { taken: false, ..p2[ci as int] }),
        _ => p2,
    };
    match (
        u.previous_castled_rook_piece_index,
        u.previous_castled_rook_piece_from_square,
        u.previous_castled_rook_piece_to_square,
    ) {
        (Some(ri), Some(rf), Some(rt)) => p3.update(ri as int, Piece { bit: square_bit(rf as int), ..p3[ri as int] }),
        _ => p3,
    }
}

/// The squares a take-back produces once it has found the moved piece `pi`.
pub open spec fn unmade_squares(gp: Position, u: MoveToUnmake, pi: int) -> Seq<Square> {
    let s1 = gp.squares.update(u.from_square as int, Square::Occupied(pi as usize)).update(u.to_square as int, Square::Empty);
    let s2 = match (u.captured_piece_index, u.captured_piece_square) {
        (Some(ci), Some(cs)) => s1.update(cs as int, Square::Occupied(ci)),
        _ => s1,
    };
    match (
        u.previous_castled_rook_piece_index,
        u.previous_castled_rook_piece_from_square,
        u.previous_castled_rook_piece_to_square,
    ) {
        (Some(ri), Some(rf), Some(rt)) => s2.update(rf as int, Square::Occupied(ri)).update(rt as int, Square::Empty),
        _ => s2,
    }
}

proof fn lemma_unmake_pieces(g: Position, m: Move)
    requires
        g.consistent(),
        make_move_defined(g, m),
        undoable(g, m),
        position_after_move(g, m).pieces.len() == g.pieces.len(),
        forall|j: int| 0 <= j < g.pieces.len() ==> #[trigger] position_after_move(g, m).pieces[j] == piece_after(g, m, j),
    ensures
        unmade_pieces(position_after_move(g, m), undo_record(g, m), moving_index(g, m)->0) =~= g.pieces,
{
    let idx = moving_index(g, m)->0;
    lemma_moving_index(g, m);
    lemma_record_after(g, m);
    lemma_castling_stage_facts(g, m, idx);
    lemma_capture_stages_facts(g, m, idx);
    let gp = position_after_move(g, m);
    let u = undo_record(g, m);
    let up = unmade_pieces(gp, u, idx);
    assert forall|j: int| 0 <= j < g.pieces.len() implies #[trigger] up[j] == g.pieces[j] by {
        assert(gp.pieces[j] == piece_after(g, m, j));
        if is_castling(g, m) && j == rook_index(g, m) {
            assert(g.pieces[j].bit == square_bit(castle_home(g, m)));
        }
    }
}

proof fn lemma_unmake_squares(g: Position, m: Move)
    requires
        g.consistent(),
        make_move_defined(g, m),
        undoable(g, m),
        position_after_move(g, m).squares.len() == 64,
        forall|s: int| 0 <= s < 64 ==> #[trigger] position_after_move(g, m).squares[s] == square_after(g, m, s),
    ensures
        unmade_squares(position_after_move(g, m), undo_record(g, m), moving_index(g, m)->0) =~= g.squares,
{
    let idx = moving_index(g, m)->0;
    lemma_moving_index(g, m);
    lemma_record_after(g, m);
    lemma_castling_stage_facts(g, m, idx);
    lemma_capture_stages_facts(g, m, idx);
    let gp = position_after_move(g, m);
    let u = undo_record(g, m);
    let us = unmade_squares(gp, u, idx);
    assert forall|s: int| 0 <= s < 64 implies #[trigger] us[s] == g.squares[s] by {
        assert(gp.squares[s] == square_after(g, m, s));
    }
}

/// What a move does, described piece by piece and square by square from the position before
/// it: the moving piece stands on the target square (promoted where the move promotes) and its
/// start square is empty, a piece on the target square or taken en passant is marked taken and
/// the victim's square cleared, a castling rook moves next to the king, and the other side is
/// to move, the full move number advancing after Black's move.
pub proof fn lemma_move_effects(g: Position, m: Move)
    requires
        g.consistent(),
        make_move_defined(g, m),
        undoable(g, m),
    ensures
        position_after_move(g, m).pieces.len() == g.pieces.len(),
        forall|j: int| 0 <= j < g.pieces.len() ==> #[trigger] position_after_move(g, m).pieces[j] == piece_after(g, m, j),
        position_after_move(g, m).squares.len() == 64,
        forall|s: int| 0 <= s < 64 ==> #[trigger] position_after_move(g, m).squares[s] == square_after(g, m, s),
        position_after_move(g, m).active_colour == opponent(g.active_colour),
        position_after_move(g, m).fullmove_number == if g.active_colour == Colour::Black {
            g.fullmove_number + 1
        } else {
            g.fullmove_number as int
        },
        position_after_move(g, m).en_passant == if moved_type(g, m) == PieceType::Pawn && move_distance(m) == 16 {
            Some(square_bit((m.from_square + m.to_square) / 2))
        } else {
            None::<u64>
        },
{
    let idx = moving_index(g, m)->0;
    lemma_moving_index(g, m);
    lemma_pieces_after(g, m);
    lemma_squares_after(g, m);
    lemma_castling_stage_facts(g, m, idx);
    lemma_capture_stages_facts(g, m, idx);
    let g5 = move_stages(promotion_stage(g, m, idx), m, idx).0;
    let gp = position_after_move(g, m);
    assert(gp.pieces == g5.pieces.update(idx, Piece { bit: square_bit(m.to_square as int), ..g5.pieces[idx] }));
    assert(gp.pieces.len() == g5.pieces.len());
    assert(gp.pieces[idx] == piece_after(g, m, idx));
    assert(gp.pieces[idx].piece_type == g5.pieces[idx].piece_type);
}

/// Whether the rights `a` hold no flag that `b` lacks.
pub open spec fn rights_within(a: CastlingRights, b: CastlingRights) -> bool {
    a.bits & !b.bits == 0
}

proof fn lemma_without_right_within(r: CastlingRights, f: CastlingRights)
    ensures
        rights_within(without_right(r, f), r),
        rights_within(r, r),
{
    let x = r.bits;
    let y = f.bits;
    assert((x & !y) & !x == 0) by (bit_vector);
    assert(x & !x == 0) by (bit_vector);
}

proof fn lemma_rights_within_trans(a: CastlingRights, b: CastlingRights, c: CastlingRights)
    requires
        rights_within(a, b),
        rights_within(b, c),
    ensures
        rights_within(a, c),
{
    let (x, y, z) = (a.bits, b.bits, c.bits);
    assert(x & !y == 0 && y & !z == 0 ==> x & !z == 0) by (bit_vector);
}

proof fn lemma_rook_square_within(r: CastlingRights, sq: int)
    ensures
        rights_within(rights_after_rook_square(r, sq), r),
{
    lemma_without_right_within(r, wq());
    lemma_without_right_within(r, wk());
    lemma_without_right_within(r, bq());
    lemma_without_right_within(r, bk());
}

/// Castling rights never grow: a move only drops rights (both of the mover's for a king move,
/// the right of a rook's home square when the rook leaves it or is taken there).
pub proof fn lemma_rights_never_grow(g: Position, m: Move)
    ensures
        rights_within(position_after_move(g, m).castling_rights, g.castling_rights),
{
    let idx = moving_index(g, m)->0;
    let g1 = promotion_stage(g, m, idx);
    let (g2, _) = castling_stage(g1, m, idx);
    let g3 = rook_rights_stage(g2, m, idx);
    let (g4, _) = en_passant_stage(g3, m, idx);
    let (g5, _) = capture_stage(g4, m);
    let c = g1.active_colour;
    lemma_without_right_within(g1.castling_rights, kingside_right(c));
    lemma_without_right_within(without_right(g1.castling_rights, kingside_right(c)), queenside_right(c));
    lemma_rights_within_trans(
        without_right(without_right(g1.castling_rights, kingside_right(c)), queenside_right(c)),
        without_right(g1.castling_rights, kingside_right(c)),
        g1.castling_rights,
    );
    assert(rights_within(g2.castling_rights, g.castling_rights));
    lemma_rook_square_within(g2.castling_rights, m.from_square as int);
    lemma_without_right_within(g2.castling_rights, g2.castling_rights);
    assert(rights_within(g3.castling_rights, g2.castling_rights));
    lemma_rights_within_trans(g3.castling_rights, g2.castling_rights, g.castling_rights);
    assert(g4.castling_rights == g3.castling_rights);
    if let Some(ti) = find_first(g4.pieces, on_board_exactly(square_bit(m.to_square as int))) {
        lemma_rook_square_within(g4.castling_rights, square_of(g4.pieces[ti].bit));
    }
    lemma_without_right_within(g4.castling_rights, g4.castling_rights);
    lemma_rights_within_trans(g5.castling_rights, g4.castling_rights, g.castling_rights);
}

/// What any move that can be made does to the turn: the other side is to move, the full move
/// number advances after Black's move, and the en passant square is the one a double pawn push
/// passes over and none after any other move.
pub proof fn lemma_move_turn_effects(g: Position, m: Move)
    requires
        make_move_defined(g, m),
    ensures
        position_after_move(g, m).active_colour == opponent(g.active_colour),
        position_after_move(g, m).fullmove_number == if g.active_colour == Colour::Black {
            g.fullmove_number + 1
        } else {
            g.fullmove_number as int
        },
        position_after_move(g, m).en_passant == if moved_type(g, m) == PieceType::Pawn && move_distance(m) == 16 {
            Some(square_bit((m.from_square + m.to_square) / 2))
        } else {
            None::<u64>
        },
{
    let idx = moving_index(g, m)->0;
    let g1 = promotion_stage(g, m, idx);
    let (g2, rook) = castling_stage(g1, m, idx);
    let g3 = rook_rights_stage(g2, m, idx);
    let (g4, ep) = en_passant_stage(g3, m, idx);
    let (g5, cap) = capture_stage(g4, m);
    lemma_find_from_facts(g.pieces, live_on_of(square_bit(m.from_square as int), g.active_colour), 0);
    assert(0 <= idx < g.pieces.len());
    assert(g1.pieces[idx].piece_type == moved_type(g, m));
    let home = rook_home(g.active_colour, m.to_square > m.from_square);
    lemma_find_from_facts(g1.pieces, any_on(square_bit(home)), 0);
    let cps = en_passant_victim_square(g.active_colour, m.to_square as int);
    lemma_find_from_facts(g3.pieces, on_board_exactly(square_bit(cps)), 0);
    lemma_find_from_facts(g4.pieces, on_board_exactly(square_bit(m.to_square as int)), 0);
    assert(g2.pieces.len() == g.pieces.len());
    assert(g2.pieces[idx].piece_type == moved_type(g, m));
    assert(g4.pieces.len() == g.pieces.len());
    assert(g4.pieces[idx].piece_type == moved_type(g, m));
    assert(g5.pieces[idx].piece_type == moved_type(g, m));
}

/// The castling rights after move `m`, read from the position before it: a king move drops
/// both rights of the side to move, a rook leaving a corner drops that corner's right, and
/// taking a rook on a corner drops that corner's right.
pub open spec fn rights_after(g: Position, m: Move) -> CastlingRights {
    let c = g.active_colour;
    let r0 = g.castling_rights;
    let r1 = if moved_type(g, m) == PieceType::King {
        without_right(without_right(r0, kingside_right(c)), queenside_right(c))
    } else {
        r0
    };
    let r2 = if moved_type(g, m) == PieceType::Rook {
        rights_after_rook_square(r1, m.from_square as int)
    } else {
        r1
    };
    match g.squares[m.to_square as int] {
        Square::Occupied(ti) => if g.pieces[ti as int].piece_type == PieceType::Rook {
            rights_after_rook_square(r2, m.to_square as int)
        } else {
            r2
        },
        Square::Empty => r2,
    }
}

/// The castling rights a move leaves are exactly those of `rights_after`, for a move that can
/// be made and taken back in a consistent position.
pub proof fn lemma_rights_after_move(g: Position, m: Move)
    requires
        g.consistent(),
        make_move_defined(g, m),
        undoable(g, m),
    ensures
        position_after_move(g, m).castling_rights == rights_after(g, m),
{
    let idx = moving_index(g, m)->0;
    lemma_moving_index(g, m);
    lemma_castling_stage_facts(g, m, idx);
    lemma_capture_stages_facts(g, m, idx);
    let g1 = promotion_stage(g, m, idx);
    let (g2, rook) = castling_stage(g1, m, idx);
    let g3 = rook_rights_stage(g2, m, idx);
    let (g4, ep) = en_passant_stage(g3, m, idx);
    let (g5, cap) = capture_stage(g4, m);
    assert(g1.pieces[idx].piece_type == moved_type(g, m));
    assert(g2.pieces[idx].piece_type == moved_type(g, m));
    assert(g4.castling_rights == g3.castling_rights);
    let to = m.to_square as int;
    match g.squares[to] {
        Square::Occupied(ti) => {
            assert(g1.pieces[ti as int] == g.pieces[ti as int]);
            assert(g2.pieces[ti as int].piece_type == g.pieces[ti as int].piece_type);
            assert(g4.pieces[ti as int].piece_type == g.pieces[ti as int].piece_type);
            lemma_find_from_facts(g4.pieces, on_board_exactly(square_bit(to)), 0);
        },
        Square::Empty => {},
    }
    assert(position_after_move(g, m).castling_rights == g5.castling_rights);
}

/// Moves keep the squares and the pieces in agreement: a move that can be made and taken back
/// (see `undoable`) leaves a consistent position consistent.
#[verifier::rlimit(60)]
pub proof fn lemma_move_keeps_consistency(g: Position, m: Move)
    requires
        g.consistent(),
        make_move_defined(g, m),
        undoable(g, m),
    ensures
        position_after_move(g, m).consistent(),
{
    let idx = moving_index(g, m)->0;
    lemma_move_effects(g, m);
    lemma_moving_index(g, m);
    lemma_castling_stage_facts(g, m, idx);
    lemma_capture_stages_facts(g, m, idx);
    let gp = position_after_move(g, m);
    let from = m.from_square as int;
    let to = m.to_square as int;
    let castling = is_castling(g, m);
    let home = castle_home(g, m);
    let rt = rook_target(m);
    let ri = rook_index(g, m);
    let cps = en_passant_victim_square(g.active_colour, to);
    if castling {
        assert(castling_rook_in_place(g, m));
        assert(rt != from && rt != to && home != from && home != to);
        assert(!g.pieces[ri].taken && g.pieces[ri].bit == square_bit(home));
    }
    if en_passant_victim(g, m) is Some {
        assert(cps != to);
    }
    assert(pieces_on_squares(gp.pieces)) by {
        assert forall|j: int| 0 <= j < gp.pieces.len() implies is_square_bit(#[trigger] gp.pieces[j].bit) by {
            assert(gp.pieces[j] == piece_after(g, m, j));
            assert(is_square_bit(g.pieces[j].bit));
            if j == idx {
                assert(is_square_bit(square_bit(to)));
            } else if castling && j == ri {
                assert(is_square_bit(square_bit(rt)));
            }
        }
    }
    assert forall|sq: int| 0 <= sq < 64 implies (#[trigger] gp.squares[sq] matches Square::Occupied(i) ==> i
        < gp.pieces.len() && !gp.pieces[i as int].taken && gp.pieces[i as int].bit == square_bit(sq)) by {
        assert(gp.squares[sq] == square_after(g, m, sq));
        if sq != from && sq != to && !(castling && (sq == rt || sq == home)) && !(en_passant_victim(g, m) is Some && sq == cps) {
            if let Square::Occupied(i) = g.squares[sq] {
                let i = i as int;
                assert(!g.pieces[i].taken && g.pieces[i].bit == square_bit(sq));
                if i == idx {
                    lemma_square_bit_injective(sq, from);
                }
                if castling && i == ri {
                    lemma_square_bit_injective(sq, home);
                }
                if en_passant_victim(g, m) == Some(i) {
                    assert(g.pieces[i].bit == square_bit(cps));
                    lemma_square_bit_injective(sq, cps);
                }
                if target_victim(g, m) == Some(i) {
                    lemma_square_bit_injective(sq, to);
                }
                assert(gp.pieces[i] == piece_after(g, m, i));
            }
        } else if sq == to && sq != from {
            assert(gp.pieces[idx] == piece_after(g, m, idx));
        } else if castling && sq == rt {
            assert(gp.pieces[ri] == piece_after(g, m, ri));
        }
    }
    assert forall|j: int| 0 <= j < gp.pieces.len() && !(#[trigger] gp.pieces[j]).taken implies gp.squares[square_of(
        gp.pieces[j].bit,
    )] == Square::Occupied(j as usize) by {
        assert(gp.pieces[j] == piece_after(g, m, j));
        if j == idx {
            lemma_mod67_table_inverts_square_bit(to);
            assert(gp.squares[to] == square_after(g, m, to));
        } else if castling && j == ri {
            lemma_mod67_table_inverts_square_bit(rt);
            assert(gp.squares[rt] == square_after(g, m, rt));
        } else {
            assert(gp.pieces[j] == g.pieces[j]);
            let sj = square_of(g.pieces[j].bit);
            assert(is_square_bit(g.pieces[j].bit));
            lemma_square_of_square_bit(g.pieces[j].bit);
            assert(g.squares[sj] == Square::Occupied(j as usize));
            assert(gp.squares[sj] == square_after(g, m, sj));
            if castling && sj == home {
                assert(j == ri);
            }
        }
    }
}

/// Two piece lists that agree on every piece's square and taken flag have the same board of
/// live pieces.
proof fn lemma_same_live_board(ps1: Seq<Piece>, ps2: Seq<Piece>)
    requires
        ps1.len() == ps2.len(),
        forall|j: int| 0 <= j < ps1.len() ==> (#[trigger] ps1[j]).bit == ps2[j].bit && ps1[j].taken == ps2[j].taken,
    ensures
        selected_bits(ps1, live()) == selected_bits(ps2, live()),
    decreases ps1.len(),
{
    if ps1.len() > 0 {
        lemma_same_live_board(ps1.drop_last(), ps2.drop_last());
        assert(ps1.last() == ps1[ps1.len() - 1]);
    }
}

/// Two piece lists that agree on every piece's colour and taken flag, and fully on the live
/// pieces of `colour`, give the same attacks of `colour`.
proof fn lemma_same_attacks(ps1: Seq<Piece>, ps2: Seq<Piece>, colour: Colour, occupied: u64)
    requires
        ps1.len() == ps2.len(),
        forall|j: int| 0 <= j < ps1.len() ==> (#[trigger] ps1[j]).colour == ps2[j].colour && ps1[j].taken == ps2[j].taken
            && (ps1[j].colour == colour && !ps1[j].taken ==> ps1[j] == ps2[j]),
    ensures
        attacks_of(ps1, colour, occupied) == attacks_of(ps2, colour, occupied),
    decreases ps1.len(),
{
    if ps1.len() > 0 {
        lemma_same_attacks(ps1.drop_last(), ps2.drop_last(), colour, occupied);
        assert(ps1.last() == ps1[ps1.len() - 1]);
    }
}

/// In a consistent position a live piece standing on square `s` is the piece the square names.
proof fn lemma_live_piece_named(g: Position, j: int, s: int)
    requires
        g.consistent(),
        0 <= j < g.pieces.len(),
        0 <= s < 64,
        !g.pieces[j].taken,
        g.pieces[j].bit == square_bit(s),
    ensures
        g.squares[s] == Square::Occupied(j as usize),
{
    lemma_mod67_table_inverts_square_bit(s);
}

/// For a move of a piece other than the king, made in a consistent position where it can be
/// made and taken back, the board the legality filter looks at (see `board_after_shift`)
/// shows the same attacks on the king as the position after the move, and the king stays.
proof fn lemma_shift_matches_move(g: Position, m: Move)
    requires
        g.consistent(),
        make_move_defined(g, m),
        undoable(g, m),
        m.from_square != king_square_of(g),
        moved_type(g, m) != PieceType::King,
    ensures
        king_bit_of(position_after_move(g, m).pieces, g.active_colour) == king_bit_of(g.pieces, g.active_colour),
        king_safe_after(g, m) <==> attacks_of(
            position_after_move(g, m).pieces,
            opponent(g.active_colour),
            position_after_move(g, m).occupied_bits() & !king_bit_of(g.pieces, g.active_colour),
        ) & king_bit_of(g.pieces, g.active_colour) == 0,
{
    let c = g.active_colour;
    let opp = opponent(c);
    let idx = moving_index(g, m)->0;
    lemma_move_effects(g, m);
    lemma_moving_index(g, m);
    let gp = position_after_move(g, m);
    let bs = board_after_shift(g, m);
    let k = king_bit_of(g.pieces, c);
    assert(!is_castling(g, m));
    assert(g.pieces[idx].piece_type != PieceType::King);
    assert(shifting_type(g, m) == Some(moved_type(g, m)));
    let from = m.from_square as int;
    let to = m.to_square as int;
    // The shifted board and the board after the move agree piece by piece.
    assert forall|j: int| 0 <= j < g.pieces.len() implies {
        let a = #[trigger] gp.pieces[j];
        let b = bs.pieces[j];
        &&& a.bit == b.bit
        &&& a.taken == b.taken
        &&& a.colour == b.colour
        &&& a.piece_type == b.piece_type || j == idx
        &&& (a.colour == opp ==> a == b)
    } by {
        assert(gp.pieces[j] == piece_after(g, m, j));
        assert(bs.pieces[j] == piece_shifted(g.pieces[j], g, m));
        let p = g.pieces[j];
        if j != idx {
            if !p.taken && p.bit == square_bit(from) && p.colour == c {
                lemma_live_piece_named(g, j, from);
            }
            if !p.taken && p.bit == square_bit(to) {
                lemma_live_piece_named(g, j, to);
                assert(target_victim(g, m) == Some(j));
            }
            if let Some(cs) = en_passant_capture_square(g, m) {
                if 0 <= cs < 64 && !p.taken && p.bit == square_bit(cs) {
                    lemma_live_piece_named(g, j, cs);
                    assert(en_passant_victim(g, m) == Some(j));
                }
            }
            if en_passant_victim(g, m) == Some(j) {
                let cs = en_passant_victim_square(c, to);
                assert(captures_en_passant(g, m));
                assert(en_passant_capture_square(g, m) == Some(cs));
                assert(g.squares[cs] == Square::Occupied(j as usize));
                lemma_moving_index(g, m);
                assert(g.consistent());
            }
            if target_victim(g, m) == Some(j) {
                assert(g.squares[to] == Square::Occupied(j as usize));
            }
        }
    }
    // The king is found at the same index in both lists, with the same bit.
    assert forall|j: int| 0 <= j < gp.pieces.len() implies king_of(c)(#[trigger] gp.pieces[j]) == king_of(c)(g.pieces[j]) by {
        assert(gp.pieces[j] == piece_after(g, m, j));
    }
    assert forall|j: int| 0 <= j < bs.pieces.len() implies king_of(c)(#[trigger] bs.pieces[j]) == king_of(c)(g.pieces[j]) by {
        assert(bs.pieces[j] == piece_shifted(g.pieces[j], g, m));
    }
    lemma_find_from_same(gp.pieces, g.pieces, king_of(c), king_of(c), 0);
    lemma_find_from_same(bs.pieces, g.pieces, king_of(c), king_of(c), 0);
    lemma_find_from_facts(g.pieces, king_of(c), 0);
    if let Some(kk) = find_first(g.pieces, king_of(c)) {
        assert(kk != idx);
        assert(gp.pieces[kk] == piece_after(g, m, kk));
        assert(bs.pieces[kk] == piece_shifted(g.pieces[kk], g, m));
        assert(gp.pieces[kk].bit == g.pieces[kk].bit);
        assert(bs.pieces[kk].bit == g.pieces[kk].bit);
    }
    assert(king_bit_of(gp.pieces, c) == k);
    assert(king_bit_of(bs.pieces, c) == k);
    lemma_same_live_board(gp.pieces, bs.pieces);
    lemma_same_attacks(gp.pieces, bs.pieces, opp, gp.occupied_bits() & !k);
    assert(bs.occupied_bits() == gp.occupied_bits());
    assert(squares_attacked_by(bs, opp) == attacks_of(bs.pieces, opp, bs.occupied_bits() & !k));
}

/// Moves that the legality filter keeps leave the king unattacked: for a move of a piece
/// other than the king, made in a consistent position where it can be made and taken back,
/// no piece of the other side attacks the mover's king afterwards, and the king stays where
/// it stood.
pub proof fn lemma_kept_move_leaves_king_unattacked(g: Position, m: Move)
    requires
        g.consistent(),
        make_move_defined(g, m),
        undoable(g, m),
        legal_moves(g).contains(m),
        m.from_square != king_square_of(g),
        moved_type(g, m) != PieceType::King,
    ensures
        king_bit_of(position_after_move(g, m).pieces, g.active_colour) == king_bit_of(g.pieces, g.active_colour),
        attacks_of(
            position_after_move(g, m).pieces,
            opponent(g.active_colour),
            position_after_move(g, m).occupied_bits() & !king_bit_of(g.pieces, g.active_colour),
        ) & king_bit_of(g.pieces, g.active_colour) == 0,
{
    lemma_kept_moves_kept(g, pseudolegal_moves(g));
    let i = choose|i: int| 0 <= i < legal_moves(g).len() && legal_moves(g)[i] == m;
    assert(keeps_move(g, m));
    lemma_shift_matches_move(g, m);
}

/// A list filtered by the legality filter holds a move exactly when the list does and the
/// filter accepts it.
pub(crate) proof fn lemma_kept_moves_contains(g: Position, ms: Seq<Move>, m: Move)
    ensures
        kept_moves(g, ms).contains(m) <==> ms.contains(m) && keeps_move(g, m),
    decreases ms.len(),
{
    if ms.len() > 0 {
        let prev = ms.drop_last();
        lemma_kept_moves_contains(g, prev, m);
        let kp = kept_moves(g, prev);
        if ms.contains(m) && keeps_move(g, m) {
            let j = choose|j: int| 0 <= j < ms.len() && ms[j] == m;
            if j < prev.len() {
                assert(prev[j] == m);
                assert(prev.contains(m));
                let q = choose|q: int| 0 <= q < kp.len() && kp[q] == m;
                if keeps_move(g, ms.last()) {
                    assert(kept_moves(g, ms)[q] == m);
                } else {
                    assert(kept_moves(g, ms)[q] == m);
                }
            } else {
                assert(ms.last() == m);
                assert(kept_moves(g, ms)[kp.len() as int] == m);
            }
        }
        if kept_moves(g, ms).contains(m) {
            let q = choose|q: int| 0 <= q < kept_moves(g, ms).len() && kept_moves(g, ms)[q] == m;
            if keeps_move(g, ms.last()) && q == kp.len() {
                assert(m == ms.last());
                assert(ms[ms.len() - 1] == m);
            } else {
                assert(kp[q] == m);
                assert(kp.contains(m));
                let j = choose|j: int| 0 <= j < prev.len() && prev[j] == m;
                assert(ms[j] == m);
            }
        }
    }
}

/// The legality filter is exact for moves of pieces other than the king: a move the pieces
/// generate, made in a consistent position where it can be made and taken back, is among
/// the legal moves exactly when no piece of the other side attacks the mover's king after it.
pub proof fn lemma_non_king_move_legal_iff_safe(g: Position, m: Move)
    requires
        g.consistent(),
        make_move_defined(g, m),
        undoable(g, m),
        pseudolegal_moves(g).contains(m),
        m.from_square != king_square_of(g),
        moved_type(g, m) != PieceType::King,
    ensures
        king_bit_of(position_after_move(g, m).pieces, g.active_colour) == king_bit_of(g.pieces, g.active_colour),
        legal_moves(g).contains(m) <==> attacks_of(
            position_after_move(g, m).pieces,
            opponent(g.active_colour),
            position_after_move(g, m).occupied_bits() & !king_bit_of(g.pieces, g.active_colour),
        ) & king_bit_of(g.pieces, g.active_colour) == 0,
{
    lemma_kept_moves_contains(g, pseudolegal_moves(g), m);
    lemma_shift_matches_move(g, m);
}

fn first_on(pieces: &Vec<Piece>, bit: u64) -> (index: Option<usize>)
    ensures
        index matches Some(i) ==> find_first(pieces@, any_on(bit)) == Some(i as int),
        index is None ==> find_first(pieces@, any_on(bit)) is None,
{
    let mut i: usize = 0;
    while i < pieces.len()
        invariant
            0 <= i <= pieces@.len(),
            find_first(pieces@, any_on(bit)) == find_from(pieces@, any_on(bit), i as int),
        decreases pieces@.len() - i,
    {
        if pieces[i].bit == bit {
            return Some(i);
        }
        i += 1;
    }
    None
}

/// Whether taking a move back restores the position exactly (see `undoable`), for a move
/// whose start square holds a live piece of the side to move.
pub fn move_can_be_undone(game: &Game, m: Move) -> (ok: bool)
    requires
        m.from_square < 64,
        m.to_square < 64,
        game.squares@.len() == 64,
        moving_index(game@, m) is Some,
    ensures
        ok == undoable(game@, m),
{
    let ghost g = game@;
    if m.from_square == m.to_square {
        return false;
    }
    let from_bit = crate::bitboard::onebit_index_to_bit(m.from_square);
    let idx = match crate::moves::find_first_exec_live_of(&game.pieces, from_bit, game.active_colour) {
        Some(i) => i,
        None => {
            return false;
        },
    };
    proof {
        lemma_find_from_facts(g.pieces, live_on_of(from_bit, g.active_colour), 0);
    }
    let original_type = game.pieces[idx].piece_type;
    let moved = match m.promotion {
        Some(t) => {
            if original_type != PieceType::Pawn {
                return false;
            }
            t
        },
        None => original_type,
    };
    assert(moved == moved_type(g, m));
    let distance = if m.to_square >= m.from_square { m.to_square - m.from_square } else { m.from_square - m.to_square };
    if moved == PieceType::King && distance == 2 {
        let kingside = m.to_square > m.from_square;
        let home: usize = match (game.active_colour, kingside) {
            (Colour::White, true) => 7,
            (Colour::Black, true) => 63,
            (Colour::White, false) => 0,
            (Colour::Black, false) => 56,
        };
        assert(home == rook_home(g.active_colour, kingside));
        let rook_from_is_home = if kingside { m.from_square + 3 == home } else { m.from_square >= 4 && m.from_square - 4 == home };
        if !rook_from_is_home {
            return false;
        }
        let rook_to = if kingside { m.from_square + 1 } else { m.from_square - 1 };
        let first = first_on(&game.pieces, crate::bitboard::onebit_index_to_bit(home));
        let in_place = match (game.squares[home], first) {
            (Square::Occupied(ri), Some(f)) => game.squares[rook_to] == Square::Empty && f == ri,
            _ => false,
        };
        let absent = game.squares[home] == Square::Empty && first.is_none();
        if !(in_place || absent) {
            return false;
        }
    }
    let lands_on_en_passant = match game.en_passant {
        Some(b) => b == crate::bitboard::onebit_index_to_bit(m.to_square),
        None => false,
    };
    if lands_on_en_passant && moved == PieceType::Pawn {
        return game.squares[m.to_square] == Square::Empty;
    }
    true
}

} // verus!
