use vstd::prelude::*;

verus! {

/// The positional bonus of a pawn on table square `sq` (the board seen from Black's
/// side; White's squares are mirrored before lookup).
pub open spec fn pawn_square_bonus(sq: usize) -> i32 {
    match sq {
        0 => 0i32,
        1 => 0i32,
        2 => 0i32,
        3 => 0i32,
        4 => 0i32,
        5 => 0i32,
        6 => 0i32,
        7 => 0i32,
        8 => 50i32,
        9 => 50i32,
        10 => 50i32,
        11 => 50i32,
        12 => 50i32,
        13 => 50i32,
        14 => 50i32,
        15 => 50i32,
        16 => 10i32,
        17 => 10i32,
        18 => 20i32,
        19 => 30i32,
        20 => 30i32,
        21 => 20i32,
        22 => 10i32,
        23 => 10i32,
        24 => 5i32,
        25 => 5i32,
        26 => 10i32,
        27 => 25i32,
        28 => 25i32,
        29 => 10i32,
        30 => 5i32,
        31 => 5i32,
        32 => 0i32,
        33 => 0i32,
        34 => 0i32,
        35 => 20i32,
        36 => 20i32,
        37 => 0i32,
        38 => 0i32,
        39 => 0i32,
        40 => 5i32,
        41 => -5i32,
        42 => -10i32,
        43 => 0i32,
        44 => 0i32,
        45 => -10i32,
        46 => -5i32,
        47 => 5i32,
        48 => 5i32,
        49 => 10i32,
        50 => 10i32,
        51 => -20i32,
        52 => -20i32,
        53 => 10i32,
        54 => 10i32,
        55 => 5i32,
        56 => 0i32,
        57 => 0i32,
        58 => 0i32,
        59 => 0i32,
        60 => 0i32,
        61 => 0i32,
        62 => 0i32,
        63 => 0i32,
        _ => 0i32,
    }
}

/// The positional bonus of a pawn on table square `sq`.
pub fn pawn_square_bonus_exec(sq: usize) -> (bonus: i32)
    requires
        sq < 64,
    ensures
        bonus == pawn_square_bonus(sq),
{
    match sq {
        0 => 0i32,
        1 => 0i32,
        2 => 0i32,
        3 => 0i32,
        4 => 0i32,
        5 => 0i32,
        6 => 0i32,
        7 => 0i32,
        8 => 50i32,
        9 => 50i32,
        10 => 50i32,
        11 => 50i32,
        12 => 50i32,
        13 => 50i32,
        14 => 50i32,
        15 => 50i32,
        16 => 10i32,
        17 => 10i32,
        18 => 20i32,
        19 => 30i32,
        20 => 30i32,
        21 => 20i32,
        22 => 10i32,
        23 => 10i32,
        24 => 5i32,
        25 => 5i32,
        26 => 10i32,
        27 => 25i32,
        28 => 25i32,
        29 => 10i32,
        30 => 5i32,
        31 => 5i32,
        32 => 0i32,
        33 => 0i32,
        34 => 0i32,
        35 => 20i32,
        36 => 20i32,
        37 => 0i32,
        38 => 0i32,
        39 => 0i32,
        40 => 5i32,
        41 => -5i32,
        42 => -10i32,
        43 => 0i32,
        44 => 0i32,
        45 => -10i32,
        46 => -5i32,
        47 => 5i32,
        48 => 5i32,
        49 => 10i32,
        50 => 10i32,
        51 => -20i32,
        52 => -20i32,
        53 => 10i32,
        54 => 10i32,
        55 => 5i32,
        56 => 0i32,
        57 => 0i32,
        58 => 0i32,
        59 => 0i32,
        60 => 0i32,
        61 => 0i32,
        62 => 0i32,
        63 => 0i32,
        _ => 0i32,
    }
}

/// The positional bonus of a knight on table square `sq` (the board seen from Black's
/// side; White's squares are mirrored before lookup).
pub open spec fn knight_square_bonus(sq: usize) -> i32 {
    match sq {
        0 => -50i32,
        1 => -40i32,
        2 => -30i32,
        3 => -30i32,
        4 => -30i32,
        5 => -30i32,
        6 => -40i32,
        7 => -50i32,
        8 => -40i32,
        9 => -20i32,
        10 => 0i32,
        11 => 0i32,
        12 => 0i32,
        13 => 0i32,
        14 => -20i32,
        15 => -40i32,
        16 => -30i32,
        17 => 0i32,
        18 => 10i32,
        19 => 15i32,
        20 => 15i32,
        21 => 10i32,
        22 => 0i32,
        23 => -30i32,
        24 => -30i32,
        25 => 5i32,
        26 => 15i32,
        27 => 20i32,
        28 => 20i32,
        29 => 15i32,
        30 => 5i32,
        31 => -30i32,
        32 => -30i32,
        33 => 0i32,
        34 => 15i32,
        35 => 20i32,
        36 => 20i32,
        37 => 15i32,
        38 => 0i32,
        39 => -30i32,
        40 => -30i32,
        41 => 5i32,
        42 => 10i32,
        43 => 15i32,
        44 => 15i32,
        45 => 10i32,
        46 => 5i32,
        47 => -30i32,
        48 => -40i32,
        49 => -20i32,
        50 => 0i32,
        51 => 5i32,
        52 => 5i32,
        53 => 0i32,
        54 => -20i32,
        55 => -40i32,
        56 => -50i32,
        57 => -40i32,
        58 => -30i32,
        59 => -30i32,
        60 => -30i32,
        61 => -30i32,
        62 => -40i32,
        63 => -50i32,
        _ => 0i32,
    }
}

/// The positional bonus of a knight on table square `sq`.
pub fn knight_square_bonus_exec(sq: usize) -> (bonus: i32)
    requires
        sq < 64,
    ensures
        bonus == knight_square_bonus(sq),
{
    match sq {
        0 => -50i32,
        1 => -40i32,
        2 => -30i32,
        3 => -30i32,
        4 => -30i32,
        5 => -30i32,
        6 => -40i32,
        7 => -50i32,
        8 => -40i32,
        9 => -20i32,
        10 => 0i32,
        11 => 0i32,
        12 => 0i32,
        13 => 0i32,
        14 => -20i32,
        15 => -40i32,
        16 => -30i32,
        17 => 0i32,
        18 => 10i32,
        19 => 15i32,
        20 => 15i32,
        21 => 10i32,
        22 => 0i32,
        23 => -30i32,
        24 => -30i32,
        25 => 5i32,
        26 => 15i32,
        27 => 20i32,
        28 => 20i32,
        29 => 15i32,
        30 => 5i32,
        31 => -30i32,
        32 => -30i32,
        33 => 0i32,
        34 => 15i32,
        35 => 20i32,
        36 => 20i32,
        37 => 15i32,
        38 => 0i32,
        39 => -30i32,
        40 => -30i32,
        41 => 5i32,
        42 => 10i32,
        43 => 15i32,
        44 => 15i32,
        45 => 10i32,
        46 => 5i32,
        47 => -30i32,
        48 => -40i32,
        49 => -20i32,
        50 => 0i32,
        51 => 5i32,
        52 => 5i32,
        53 => 0i32,
        54 => -20i32,
        55 => -40i32,
        56 => -50i32,
        57 => -40i32,
        58 => -30i32,
        59 => -30i32,
        60 => -30i32,
        61 => -30i32,
        62 => -40i32,
        63 => -50i32,
        _ => 0i32,
    }
}

/// The positional bonus of a bishop on table square `sq` (the board seen from Black's
/// side; White's squares are mirrored before lookup).
pub open spec fn bishop_square_bonus(sq: usize) -> i32 {
    match sq {
        0 => -20i32,
        1 => -10i32,
        2 => -10i32,
        3 => -10i32,
        4 => -10i32,
        5 => -10i32,
        6 => -10i32,
        7 => -20i32,
        8 => -10i32,
        9 => 0i32,
        10 => 0i32,
        11 => 0i32,
        12 => 0i32,
        13 => 0i32,
        14 => 0i32,
        15 => -10i32,
        16 => -10i32,
        17 => 0i32,
        18 => 5i32,
        19 => 10i32,
        20 => 10i32,
        21 => 5i32,
        22 => 0i32,
        23 => -10i32,
        24 => -10i32,
        25 => 5i32,
        26 => 5i32,
        27 => 10i32,
        28 => 10i32,
        29 => 5i32,
        30 => 5i32,
        31 => -10i32,
        32 => -10i32,
        33 => 0i32,
        34 => 10i32,
        35 => 10i32,
        36 => 10i32,
        37 => 10i32,
        38 => 0i32,
        39 => -10i32,
        40 => -10i32,
        41 => 10i32,
        42 => 10i32,
        43 => 10i32,
        44 => 10i32,
        45 => 10i32,
        46 => 10i32,
        47 => -10i32,
        48 => -10i32,
        49 => 5i32,
        50 => 0i32,
        51 => 0i32,
        52 => 0i32,
        53 => 0i32,
        54 => 5i32,
        55 => -10i32,
        56 => -20i32,
        57 => -10i32,
        58 => -10i32,
        59 => -10i32,
        60 => -10i32,
        61 => -10i32,
        62 => -10i32,
        63 => -20i32,
        _ => 0i32,
    }
}

/// The positional bonus of a bishop on table square `sq`.
pub fn bishop_square_bonus_exec(sq: usize) -> (bonus: i32)
    requires
        sq < 64,
    ensures
        bonus == bishop_square_bonus(sq),
{
    match sq {
        0 => -20i32,
        1 => -10i32,
        2 => -10i32,
        3 => -10i32,
        4 => -10i32,
        5 => -10i32,
        6 => -10i32,
        7 => -20i32,
        8 => -10i32,
        9 => 0i32,
        10 => 0i32,
        11 => 0i32,
        12 => 0i32,
        13 => 0i32,
        14 => 0i32,
        15 => -10i32,
        16 => -10i32,
        17 => 0i32,
        18 => 5i32,
        19 => 10i32,
        20 => 10i32,
        21 => 5i32,
        22 => 0i32,
        23 => -10i32,
        24 => -10i32,
        25 => 5i32,
        26 => 5i32,
        27 => 10i32,
        28 => 10i32,
        29 => 5i32,
        30 => 5i32,
        31 => -10i32,
        32 => -10i32,
        33 => 0i32,
        34 => 10i32,
        35 => 10i32,
        36 => 10i32,
        37 => 10i32,
        38 => 0i32,
        39 => -10i32,
        40 => -10i32,
        41 => 10i32,
        42 => 10i32,
        43 => 10i32,
        44 => 10i32,
        45 => 10i32,
        46 => 10i32,
        47 => -10i32,
        48 => -10i32,
        49 => 5i32,
        50 => 0i32,
        51 => 0i32,
        52 => 0i32,
        53 => 0i32,
        54 => 5i32,
        55 => -10i32,
        56 => -20i32,
        57 => -10i32,
        58 => -10i32,
        59 => -10i32,
        60 => -10i32,
        61 => -10i32,
        62 => -10i32,
        63 => -20i32,
        _ => 0i32,
    }
}

/// The positional bonus of a rook on table square `sq` (the board seen from Black's
/// side; White's squares are mirrored before lookup).
pub open spec fn rook_square_bonus(sq: usize) -> i32 {
    match sq {
        0 => 0i32,
        1 => 0i32,
        2 => 0i32,
        3 => 0i32,
        4 => 0i32,
        5 => 0i32,
        6 => 0i32,
        7 => 0i32,
        8 => 5i32,
        9 => 10i32,
        10 => 10i32,
        11 => 10i32,
        12 => 10i32,
        13 => 10i32,
        14 => 10i32,
        15 => 5i32,
        16 => -5i32,
        17 => 0i32,
        18 => 0i32,
        19 => 0i32,
        20 => 0i32,
        21 => 0i32,
        22 => 0i32,
        23 => -5i32,
        24 => -5i32,
        25 => 0i32,
        26 => 0i32,
        27 => 0i32,
        28 => 0i32,
        29 => 0i32,
        30 => 0i32,
        31 => -5i32,
        32 => -5i32,
        33 => 0i32,
        34 => 0i32,
        35 => 0i32,
        36 => 0i32,
        37 => 0i32,
        38 => 0i32,
        39 => -5i32,
        40 => -5i32,
        41 => 0i32,
        42 => 0i32,
        43 => 0i32,
        44 => 0i32,
        45 => 0i32,
        46 => 0i32,
        47 => -5i32,
        48 => -5i32,
        49 => 0i32,
        50 => 0i32,
        51 => 0i32,
        52 => 0i32,
        53 => 0i32,
        54 => 0i32,
        55 => -5i32,
        56 => 0i32,
        57 => 0i32,
        58 => 0i32,
        59 => 5i32,
        60 => 5i32,
        61 => 0i32,
        62 => 0i32,
        63 => 0i32,
        _ => 0i32,
    }
}

/// The positional bonus of a rook on table square `sq`.
pub fn rook_square_bonus_exec(sq: usize) -> (bonus: i32)
    requires
        sq < 64,
    ensures
        bonus == rook_square_bonus(sq),
{
    match sq {
        0 => 0i32,
        1 => 0i32,
        2 => 0i32,
        3 => 0i32,
        4 => 0i32,
        5 => 0i32,
        6 => 0i32,
        7 => 0i32,
        8 => 5i32,
        9 => 10i32,
        10 => 10i32,
        11 => 10i32,
        12 => 10i32,
        13 => 10i32,
        14 => 10i32,
        15 => 5i32,
        16 => -5i32,
        17 => 0i32,
        18 => 0i32,
        19 => 0i32,
        20 => 0i32,
        21 => 0i32,
        22 => 0i32,
        23 => -5i32,
        24 => -5i32,
        25 => 0i32,
        26 => 0i32,
        27 => 0i32,
        28 => 0i32,
        29 => 0i32,
        30 => 0i32,
        31 => -5i32,
        32 => -5i32,
        33 => 0i32,
        34 => 0i32,
        35 => 0i32,
        36 => 0i32,
        37 => 0i32,
        38 => 0i32,
        39 => -5i32,
        40 => -5i32,
        41 => 0i32,
        42 => 0i32,
        43 => 0i32,
        44 => 0i32,
        45 => 0i32,
        46 => 0i32,
        47 => -5i32,
        48 => -5i32,
        49 => 0i32,
        50 => 0i32,
        51 => 0i32,
        52 => 0i32,
        53 => 0i32,
        54 => 0i32,
        55 => -5i32,
        56 => 0i32,
        57 => 0i32,
        58 => 0i32,
        59 => 5i32,
        60 => 5i32,
        61 => 0i32,
        62 => 0i32,
        63 => 0i32,
        _ => 0i32,
    }
}

/// The positional bonus of a queen on table square `sq` (the board seen from Black's
/// side; White's squares are mirrored before lookup).
pub open spec fn queen_square_bonus(sq: usize) -> i32 {
    match sq {
        0 => -20i32,
        1 => -10i32,
        2 => -10i32,
        3 => -5i32,
        4 => -5i32,
        5 => -10i32,
        6 => -10i32,
        7 => -20i32,
        8 => -10i32,
        9 => 0i32,
        10 => 0i32,
        11 => 0i32,
        12 => 0i32,
        13 => 0i32,
        14 => 0i32,
        15 => -10i32,
        16 => -10i32,
        17 => 0i32,
        18 => 5i32,
        19 => 5i32,
        20 => 5i32,
        21 => 5i32,
        22 => 0i32,
        23 => -10i32,
        24 => -5i32,
        25 => 0i32,
        26 => 5i32,
        27 => 5i32,
        28 => 5i32,
        29 => 5i32,
        30 => 0i32,
        31 => -5i32,
        32 => 0i32,
        33 => 0i32,
        34 => 5i32,
        35 => 5i32,
        36 => 5i32,
        37 => 5i32,
        38 => 0i32,
        39 => -5i32,
        40 => -10i32,
        41 => 5i32,
        42 => 5i32,
        43 => 5i32,
        44 => 5i32,
        45 => 5i32,
        46 => 0i32,
        47 => -10i32,
        48 => -10i32,
        49 => 0i32,
        50 => 5i32,
        51 => 0i32,
        52 => 0i32,
        53 => 0i32,
        54 => 0i32,
        55 => -10i32,
        56 => -20i32,
        57 => -10i32,
        58 => -10i32,
        59 => -5i32,
        60 => -5i32,
        61 => -10i32,
        62 => -10i32,
        63 => -20i32,
        _ => 0i32,
    }
}

/// The positional bonus of a queen on table square `sq`.
pub fn queen_square_bonus_exec(sq: usize) -> (bonus: i32)
    requires
        sq < 64,
    ensures
        bonus == queen_square_bonus(sq),
{
    match sq {
        0 => -20i32,
        1 => -10i32,
        2 => -10i32,
        3 => -5i32,
        4 => -5i32,
        5 => -10i32,
        6 => -10i32,
        7 => -20i32,
        8 => -10i32,
        9 => 0i32,
        10 => 0i32,
        11 => 0i32,
        12 => 0i32,
        13 => 0i32,
        14 => 0i32,
        15 => -10i32,
        16 => -10i32,
        17 => 0i32,
        18 => 5i32,
        19 => 5i32,
        20 => 5i32,
        21 => 5i32,
        22 => 0i32,
        23 => -10i32,
        24 => -5i32,
        25 => 0i32,
        26 => 5i32,
        27 => 5i32,
        28 => 5i32,
        29 => 5i32,
        30 => 0i32,
        31 => -5i32,
        32 => 0i32,
        33 => 0i32,
        34 => 5i32,
        35 => 5i32,
        36 => 5i32,
        37 => 5i32,
        38 => 0i32,
        39 => -5i32,
        40 => -10i32,
        41 => 5i32,
        42 => 5i32,
        43 => 5i32,
        44 => 5i32,
        45 => 5i32,
        46 => 0i32,
        47 => -10i32,
        48 => -10i32,
        49 => 0i32,
        50 => 5i32,
        51 => 0i32,
        52 => 0i32,
        53 => 0i32,
        54 => 0i32,
        55 => -10i32,
        56 => -20i32,
        57 => -10i32,
        58 => -10i32,
        59 => -5i32,
        60 => -5i32,
        61 => -10i32,
        62 => -10i32,
        63 => -20i32,
        _ => 0i32,
    }
}

/// The positional bonus of a king in the middle game on table square `sq` (the board seen from Black's
/// side; White's squares are mirrored before lookup).
pub open spec fn king_middlegame_bonus(sq: usize) -> i32 {
    match sq {
        0 => -30i32,
        1 => -40i32,
        2 => -40i32,
        3 => -50i32,
        4 => -50i32,
        5 => -40i32,
        6 => -40i32,
        7 => -30i32,
        8 => -30i32,
        9 => -40i32,
        10 => -40i32,
        11 => -50i32,
        12 => -50i32,
        13 => -40i32,
        14 => -40i32,
        15 => -30i32,
        16 => -30i32,
        17 => -40i32,
        18 => -40i32,
        19 => -50i32,
        20 => -50i32,
        21 => -40i32,
        22 => -40i32,
        23 => -30i32,
        24 => -30i32,
        25 => -40i32,
        26 => -40i32,
        27 => -50i32,
        28 => -50i32,
        29 => -40i32,
        30 => -40i32,
        31 => -30i32,
        32 => -20i32,
        33 => -30i32,
        34 => -30i32,
        35 => -40i32,
        36 => -40i32,
        37 => -30i32,
        38 => -30i32,
        39 => -20i32,
        40 => -10i32,
        41 => -20i32,
        42 => -20i32,
        43 => -20i32,
        44 => -20i32,
        45 => -20i32,
        46 => -20i32,
        47 => -10i32,
        48 => 20i32,
        49 => 20i32,
        50 => 0i32,
        51 => 0i32,
        52 => 0i32,
        53 => 0i32,
        54 => 20i32,
        55 => 20i32,
        56 => 20i32,
        57 => 30i32,
        58 => 10i32,
        59 => 0i32,
        60 => 0i32,
        61 => 10i32,
        62 => 30i32,
        63 => 20i32,
        _ => 0i32,
    }
}

/// The positional bonus of a king in the middle game on table square `sq`.
pub fn king_middlegame_bonus_exec(sq: usize) -> (bonus: i32)
    requires
        sq < 64,
    ensures
        bonus == king_middlegame_bonus(sq),
{
    match sq {
        0 => -30i32,
        1 => -40i32,
        2 => -40i32,
        3 => -50i32,
        4 => -50i32,
        5 => -40i32,
        6 => -40i32,
        7 => -30i32,
        8 => -30i32,
        9 => -40i32,
        10 => -40i32,
        11 => -50i32,
        12 => -50i32,
        13 => -40i32,
        14 => -40i32,
        15 => -30i32,
        16 => -30i32,
        17 => -40i32,
        18 => -40i32,
        19 => -50i32,
        20 => -50i32,
        21 => -40i32,
        22 => -40i32,
        23 => -30i32,
        24 => -30i32,
        25 => -40i32,
        26 => -40i32,
        27 => -50i32,
        28 => -50i32,
        29 => -40i32,
        30 => -40i32,
        31 => -30i32,
        32 => -20i32,
        33 => -30i32,
        34 => -30i32,
        35 => -40i32,
        36 => -40i32,
        37 => -30i32,
        38 => -30i32,
        39 => -20i32,
        40 => -10i32,
        41 => -20i32,
        42 => -20i32,
        43 => -20i32,
        44 => -20i32,
        45 => -20i32,
        46 => -20i32,
        47 => -10i32,
        48 => 20i32,
        49 => 20i32,
        50 => 0i32,
        51 => 0i32,
        52 => 0i32,
        53 => 0i32,
        54 => 20i32,
        55 => 20i32,
        56 => 20i32,
        57 => 30i32,
        58 => 10i32,
        59 => 0i32,
        60 => 0i32,
        61 => 10i32,
        62 => 30i32,
        63 => 20i32,
        _ => 0i32,
    }
}

/// The positional bonus of a king in the end game on table square `sq` (the board seen from Black's
/// side; White's squares are mirrored before lookup).
pub open spec fn king_endgame_bonus(sq: usize) -> i32 {
    match sq {
        0 => -50i32,
        1 => -40i32,
        2 => -30i32,
        3 => -20i32,
        4 => -20i32,
        5 => -30i32,
        6 => -40i32,
        7 => -50i32,
        8 => -30i32,
        9 => -20i32,
        10 => -10i32,
        11 => 0i32,
        12 => 0i32,
        13 => -10i32,
        14 => -20i32,
        15 => -30i32,
        16 => -30i32,
        17 => -10i32,
        18 => 20i32,
        19 => 30i32,
        20 => 30i32,
        21 => 20i32,
        22 => -10i32,
        23 => -30i32,
        24 => -30i32,
        25 => -10i32,
        26 => 30i32,
        27 => 40i32,
        28 => 40i32,
        29 => 30i32,
        30 => -10i32,
        31 => -30i32,
        32 => -30i32,
        33 => -10i32,
        34 => 30i32,
        35 => 40i32,
        36 => 40i32,
        37 => 30i32,
        38 => -10i32,
        39 => -30i32,
        40 => -30i32,
        41 => -10i32,
        42 => 20i32,
        43 => 30i32,
        44 => 30i32,
        45 => 20i32,
        46 => -10i32,
        47 => -30i32,
        48 => -30i32,
        49 => -30i32,
        50 => 0i32,
        51 => 0i32,
        52 => 0i32,
        53 => 0i32,
        54 => -30i32,
        55 => -30i32,
        56 => -50i32,
        57 => -30i32,
        58 => -30i32,
        59 => -30i32,
        60 => -30i32,
        61 => -30i32,
        62 => -30i32,
        63 => -50i32,
        _ => 0i32,
    }
}

/// The positional bonus of a king in the end game on table square `sq`.
pub fn king_endgame_bonus_exec(sq: usize) -> (bonus: i32)
    requires
        sq < 64,
    ensures
        bonus == king_endgame_bonus(sq),
{
    match sq {
        0 => -50i32,
        1 => -40i32,
        2 => -30i32,
        3 => -20i32,
        4 => -20i32,
        5 => -30i32,
        6 => -40i32,
        7 => -50i32,
        8 => -30i32,
        9 => -20i32,
        10 => -10i32,
        11 => 0i32,
        12 => 0i32,
        13 => -10i32,
        14 => -20i32,
        15 => -30i32,
        16 => -30i32,
        17 => -10i32,
        18 => 20i32,
        19 => 30i32,
        20 => 30i32,
        21 => 20i32,
        22 => -10i32,
        23 => -30i32,
        24 => -30i32,
        25 => -10i32,
        26 => 30i32,
        27 => 40i32,
        28 => 40i32,
        29 => 30i32,
        30 => -10i32,
        31 => -30i32,
        32 => -30i32,
        33 => -10i32,
        34 => 30i32,
        35 => 40i32,
        36 => 40i32,
        37 => 30i32,
        38 => -10i32,
        39 => -30i32,
        40 => -30i32,
        41 => -10i32,
        42 => 20i32,
        43 => 30i32,
        44 => 30i32,
        45 => 20i32,
        46 => -10i32,
        47 => -30i32,
        48 => -30i32,
        49 => -30i32,
        50 => 0i32,
        51 => 0i32,
        52 => 0i32,
        53 => 0i32,
        54 => -30i32,
        55 => -30i32,
        56 => -50i32,
        57 => -30i32,
        58 => -30i32,
        59 => -30i32,
        60 => -30i32,
        61 => -30i32,
        62 => -30i32,
        63 => -50i32,
        _ => 0i32,
    }
}

} // verus!
