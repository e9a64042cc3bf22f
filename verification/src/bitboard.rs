use vstd::prelude::*;

verus! {

use vstd::std_specs::bits::{u64_trailing_zeros, axiom_u64_trailing_zeros};

/// Whether bit `j` of the bitboard `x` is set (squares are numbered 0..64, a1 = 0, h8 = 63).
pub open spec fn has_bit(x: u64, j: int) -> bool {
    0 <= j < 64 && (x >> (j as u64)) & 1u64 == 1u64
}

/// The bitboard whose only set bit is square `i`.
pub open spec fn square_bit(i: int) -> u64 {
    1u64 << (i as u64)
}

/// A bitboard with exactly one bit set, at a square of the board.
pub open spec fn is_square_bit(x: u64) -> bool {
    exists|i: int| 0 <= i < 64 && x == square_bit(i)
}

/// The entry of the de Bruijn-style lookup table that maps `bit % 67` to a square index.
/// Remainders that no single-bit board produces map to 64.
pub open spec fn mod67_entry(r: u64) -> int {
    match r {
        0 => 64,
        1 => 0,
        2 => 1,
        3 => 39,
        4 => 2,
        5 => 15,
        6 => 40,
        7 => 23,
        8 => 3,
        9 => 12,
        10 => 16,
        11 => 59,
        12 => 41,
        13 => 19,
        14 => 24,
        15 => 54,
        16 => 4,
        17 => 64,
        18 => 13,
        19 => 10,
        20 => 17,
        21 => 62,
        22 => 60,
        23 => 28,
        24 => 42,
        25 => 30,
        26 => 20,
        27 => 51,
        28 => 25,
        29 => 44,
        30 => 55,
        31 => 47,
        32 => 5,
        33 => 32,
        34 => 64,
        35 => 38,
        36 => 14,
        37 => 22,
        38 => 11,
        39 => 58,
        40 => 18,
        41 => 53,
        42 => 63,
        43 => 9,
        44 => 61,
        45 => 27,
        46 => 29,
        47 => 50,
        48 => 43,
        49 => 46,
        50 => 31,
        51 => 37,
        52 => 21,
        53 => 57,
        54 => 52,
        55 => 8,
        56 => 26,
        57 => 49,
        58 => 45,
        59 => 36,
        60 => 56,
        61 => 7,
        62 => 48,
        63 => 35,
        64 => 6,
        65 => 34,
        66 => 33,
        _ => 64,
    }
}

pub proof fn lemma_square_bit_has_bit(i: int, j: int)
    requires
        0 <= i < 64,
        0 <= j < 64,
    ensures
        has_bit(square_bit(i), j) <==> i == j,
{
    let a = i as u64;
    let b = j as u64;
    assert(a < 64 && b < 64 ==> (((1u64 << a) >> b) & 1u64 == 1u64 <==> a == b)) by (bit_vector);
}

pub proof fn lemma_square_bit_nonzero(i: int)
    requires
        0 <= i < 64,
    ensures
        square_bit(i) != 0,
{
    let a = i as u64;
    assert(a < 64 ==> (1u64 << a) != 0u64) by (bit_vector);
}

pub proof fn lemma_square_bit_injective(i: int, j: int)
    requires
        0 <= i < 64,
        0 <= j < 64,
        square_bit(i) == square_bit(j),
    ensures
        i == j,
{
    lemma_square_bit_has_bit(i, i);
    lemma_square_bit_has_bit(j, i);
}

pub proof fn lemma_has_bit_or(x: u64, y: u64, j: int)
    ensures
        has_bit(x | y, j) <==> has_bit(x, j) || has_bit(y, j),
{
    if 0 <= j < 64 {
        let b = j as u64;
        assert(((x | y) >> b) & 1u64 == 1u64 <==> ((x >> b) & 1u64 == 1u64 || (y >> b) & 1u64
            == 1u64)) by (bit_vector);
    }
}

pub proof fn lemma_has_bit_and(x: u64, y: u64, j: int)
    ensures
        has_bit(x & y, j) <==> has_bit(x, j) && has_bit(y, j),
{
    if 0 <= j < 64 {
        let b = j as u64;
        assert(((x & y) >> b) & 1u64 == 1u64 <==> ((x >> b) & 1u64 == 1u64 && (y >> b) & 1u64
            == 1u64)) by (bit_vector);
    }
}

/// The square that the lookup table gives for a board (64 for boards it does not map).
pub open spec fn square_of(bit: u64) -> int {
    mod67_entry(bit % 67)
}

/// A single-square board is mapped back to its square.
pub proof fn lemma_square_of_square_bit(b: u64)
    requires
        is_square_bit(b),
    ensures
        0 <= square_of(b) < 64,
        b == square_bit(square_of(b)),
{
    let i = choose|i: int| 0 <= i < 64 && b == square_bit(i);
    lemma_mod67_table_inverts_square_bit(i);
}

/// The bitboard of a single square.
pub fn onebit_index_to_bit(onebit_index: usize) -> (bit: u64)
    requires
        onebit_index < 64,
    ensures
        bit == square_bit(onebit_index as int),
{
    1u64 << (onebit_index as u64)
}

fn mod67_lookup(r: u64) -> (index: usize)
    ensures
        index == mod67_entry(r),
{
    match r {
        0 => 64,
        1 => 0,
        2 => 1,
        3 => 39,
        4 => 2,
        5 => 15,
        6 => 40,
        7 => 23,
        8 => 3,
        9 => 12,
        10 => 16,
        11 => 59,
        12 => 41,
        13 => 19,
        14 => 24,
        15 => 54,
        16 => 4,
        17 => 64,
        18 => 13,
        19 => 10,
        20 => 17,
        21 => 62,
        22 => 60,
        23 => 28,
        24 => 42,
        25 => 30,
        26 => 20,
        27 => 51,
        28 => 25,
        29 => 44,
        30 => 55,
        31 => 47,
        32 => 5,
        33 => 32,
        34 => 64,
        35 => 38,
        36 => 14,
        37 => 22,
        38 => 11,
        39 => 58,
        40 => 18,
        41 => 53,
        42 => 63,
        43 => 9,
        44 => 61,
        45 => 27,
        46 => 29,
        47 => 50,
        48 => 43,
        49 => 46,
        50 => 31,
        51 => 37,
        52 => 21,
        53 => 57,
        54 => 52,
        55 => 8,
        56 => 26,
        57 => 49,
        58 => 45,
        59 => 36,
        60 => 56,
        61 => 7,
        62 => 48,
        63 => 35,
        64 => 6,
        65 => 34,
        66 => 33,
        _ => 64,
    }
}

/// The values of the single-square boards.
pub proof fn lemma_square_bit_values()
    ensures
        square_bit(0) == 1u64,
        square_bit(1) == 2u64,
        square_bit(2) == 4u64,
        square_bit(3) == 8u64,
        square_bit(4) == 16u64,
        square_bit(5) == 32u64,
        square_bit(6) == 64u64,
        square_bit(7) == 128u64,
        square_bit(8) == 256u64,
        square_bit(9) == 512u64,
        square_bit(10) == 1024u64,
        square_bit(11) == 2048u64,
        square_bit(12) == 4096u64,
        square_bit(13) == 8192u64,
        square_bit(14) == 16384u64,
        square_bit(15) == 32768u64,
        square_bit(16) == 65536u64,
        square_bit(17) == 131072u64,
        square_bit(18) == 262144u64,
        square_bit(19) == 524288u64,
        square_bit(20) == 1048576u64,
        square_bit(21) == 2097152u64,
        square_bit(22) == 4194304u64,
        square_bit(23) == 8388608u64,
        square_bit(24) == 16777216u64,
        square_bit(25) == 33554432u64,
        square_bit(26) == 67108864u64,
        square_bit(27) == 134217728u64,
        square_bit(28) == 268435456u64,
        square_bit(29) == 536870912u64,
        square_bit(30) == 1073741824u64,
        square_bit(31) == 2147483648u64,
        square_bit(32) == 4294967296u64,
        square_bit(33) == 8589934592u64,
        square_bit(34) == 17179869184u64,
        square_bit(35) == 34359738368u64,
        square_bit(36) == 68719476736u64,
        square_bit(37) == 137438953472u64,
        square_bit(38) == 274877906944u64,
        square_bit(39) == 549755813888u64,
        square_bit(40) == 1099511627776u64,
        square_bit(41) == 2199023255552u64,
        square_bit(42) == 4398046511104u64,
        square_bit(43) == 8796093022208u64,
        square_bit(44) == 17592186044416u64,
        square_bit(45) == 35184372088832u64,
        square_bit(46) == 70368744177664u64,
        square_bit(47) == 140737488355328u64,
        square_bit(48) == 281474976710656u64,
        square_bit(49) == 562949953421312u64,
        square_bit(50) == 1125899906842624u64,
        square_bit(51) == 2251799813685248u64,
        square_bit(52) == 4503599627370496u64,
        square_bit(53) == 9007199254740992u64,
        square_bit(54) == 18014398509481984u64,
        square_bit(55) == 36028797018963968u64,
        square_bit(56) == 72057594037927936u64,
        square_bit(57) == 144115188075855872u64,
        square_bit(58) == 288230376151711744u64,
        square_bit(59) == 576460752303423488u64,
        square_bit(60) == 1152921504606846976u64,
        square_bit(61) == 2305843009213693952u64,
        square_bit(62) == 4611686018427387904u64,
        square_bit(63) == 9223372036854775808u64,
{
    lemma_square_bit_doubles();
    assert(square_bit(0) == 1u64) by (bit_vector);
    assert(square_bit(1) == 2u64);
    assert(square_bit(2) == 4u64);
    assert(square_bit(3) == 8u64);
    assert(square_bit(4) == 16u64);
    assert(square_bit(5) == 32u64);
    assert(square_bit(6) == 64u64);
    assert(square_bit(7) == 128u64);
    assert(square_bit(8) == 256u64);
    assert(square_bit(9) == 512u64);
    assert(square_bit(10) == 1024u64);
    assert(square_bit(11) == 2048u64);
    assert(square_bit(12) == 4096u64);
    assert(square_bit(13) == 8192u64);
    assert(square_bit(14) == 16384u64);
    assert(square_bit(15) == 32768u64);
    assert(square_bit(16) == 65536u64);
    assert(square_bit(17) == 131072u64);
    assert(square_bit(18) == 262144u64);
    assert(square_bit(19) == 524288u64);
    assert(square_bit(20) == 1048576u64);
    assert(square_bit(21) == 2097152u64);
    assert(square_bit(22) == 4194304u64);
    assert(square_bit(23) == 8388608u64);
    assert(square_bit(24) == 16777216u64);
    assert(square_bit(25) == 33554432u64);
    assert(square_bit(26) == 67108864u64);
    assert(square_bit(27) == 134217728u64);
    assert(square_bit(28) == 268435456u64);
    assert(square_bit(29) == 536870912u64);
    assert(square_bit(30) == 1073741824u64);
    assert(square_bit(31) == 2147483648u64);
    assert(square_bit(32) == 4294967296u64);
    assert(square_bit(33) == 8589934592u64);
    assert(square_bit(34) == 17179869184u64);
    assert(square_bit(35) == 34359738368u64);
    assert(square_bit(36) == 68719476736u64);
    assert(square_bit(37) == 137438953472u64);
    assert(square_bit(38) == 274877906944u64);
    assert(square_bit(39) == 549755813888u64);
    assert(square_bit(40) == 1099511627776u64);
    assert(square_bit(41) == 2199023255552u64);
    assert(square_bit(42) == 4398046511104u64);
    assert(square_bit(43) == 8796093022208u64);
    assert(square_bit(44) == 17592186044416u64);
    assert(square_bit(45) == 35184372088832u64);
    assert(square_bit(46) == 70368744177664u64);
    assert(square_bit(47) == 140737488355328u64);
    assert(square_bit(48) == 281474976710656u64);
    assert(square_bit(49) == 562949953421312u64);
    assert(square_bit(50) == 1125899906842624u64);
    assert(square_bit(51) == 2251799813685248u64);
    assert(square_bit(52) == 4503599627370496u64);
    assert(square_bit(53) == 9007199254740992u64);
    assert(square_bit(54) == 18014398509481984u64);
    assert(square_bit(55) == 36028797018963968u64);
    assert(square_bit(56) == 72057594037927936u64);
    assert(square_bit(57) == 144115188075855872u64);
    assert(square_bit(58) == 288230376151711744u64);
    assert(square_bit(59) == 576460752303423488u64);
    assert(square_bit(60) == 1152921504606846976u64);
    assert(square_bit(61) == 2305843009213693952u64);
    assert(square_bit(62) == 4611686018427387904u64);
    assert(square_bit(63) == 9223372036854775808u64);
}

/// Every single-bit board is mapped back to its square by the mod-67 table.
pub proof fn lemma_mod67_table_inverts_square_bit(i: int)
    requires
        0 <= i < 64,
    ensures
        mod67_entry(square_bit(i) % 67) == i,
{
    lemma_square_bit_values();
    if i == 0 {
        assert(mod67_entry(1u64) == 0);
    } else if i == 1 {
        assert(mod67_entry(2u64) == 1);
    } else if i == 2 {
        assert(mod67_entry(4u64) == 2);
    } else if i == 3 {
        assert(mod67_entry(8u64) == 3);
    } else if i == 4 {
        assert(mod67_entry(16u64) == 4);
    } else if i == 5 {
        assert(mod67_entry(32u64) == 5);
    } else if i == 6 {
        assert(mod67_entry(64u64) == 6);
    } else if i == 7 {
        assert(mod67_entry(61u64) == 7);
    } else if i == 8 {
        assert(mod67_entry(55u64) == 8);
    } else if i == 9 {
        assert(mod67_entry(43u64) == 9);
    } else if i == 10 {
        assert(mod67_entry(19u64) == 10);
    } else if i == 11 {
        assert(mod67_entry(38u64) == 11);
    } else if i == 12 {
        assert(mod67_entry(9u64) == 12);
    } else if i == 13 {
        assert(mod67_entry(18u64) == 13);
    } else if i == 14 {
        assert(mod67_entry(36u64) == 14);
    } else if i == 15 {
        assert(mod67_entry(5u64) == 15);
    } else if i == 16 {
        assert(mod67_entry(10u64) == 16);
    } else if i == 17 {
        assert(mod67_entry(20u64) == 17);
    } else if i == 18 {
        assert(mod67_entry(40u64) == 18);
    } else if i == 19 {
        assert(mod67_entry(13u64) == 19);
    } else if i == 20 {
        assert(mod67_entry(26u64) == 20);
    } else if i == 21 {
        assert(mod67_entry(52u64) == 21);
    } else if i == 22 {
        assert(mod67_entry(37u64) == 22);
    } else if i == 23 {
        assert(mod67_entry(7u64) == 23);
    } else if i == 24 {
        assert(mod67_entry(14u64) == 24);
    } else if i == 25 {
        assert(mod67_entry(28u64) == 25);
    } else if i == 26 {
        assert(mod67_entry(56u64) == 26);
    } else if i == 27 {
        assert(mod67_entry(45u64) == 27);
    } else if i == 28 {
        assert(mod67_entry(23u64) == 28);
    } else if i == 29 {
        assert(mod67_entry(46u64) == 29);
    } else if i == 30 {
        assert(mod67_entry(25u64) == 30);
    } else if i == 31 {
        assert(mod67_entry(50u64) == 31);
    } else if i == 32 {
        assert(mod67_entry(33u64) == 32);
    } else if i == 33 {
        assert(mod67_entry(66u64) == 33);
    } else if i == 34 {
        assert(mod67_entry(65u64) == 34);
    } else if i == 35 {
        assert(mod67_entry(63u64) == 35);
    } else if i == 36 {
        assert(mod67_entry(59u64) == 36);
    } else if i == 37 {
        assert(mod67_entry(51u64) == 37);
    } else if i == 38 {
        assert(mod67_entry(35u64) == 38);
    } else if i == 39 {
        assert(mod67_entry(3u64) == 39);
    } else if i == 40 {
        assert(mod67_entry(6u64) == 40);
    } else if i == 41 {
        assert(mod67_entry(12u64) == 41);
    } else if i == 42 {
        assert(mod67_entry(24u64) == 42);
    } else if i == 43 {
        assert(mod67_entry(48u64) == 43);
    } else if i == 44 {
        assert(mod67_entry(29u64) == 44);
    } else if i == 45 {
        assert(mod67_entry(58u64) == 45);
    } else if i == 46 {
        assert(mod67_entry(49u64) == 46);
    } else if i == 47 {
        assert(mod67_entry(31u64) == 47);
    } else if i == 48 {
        assert(mod67_entry(62u64) == 48);
    } else if i == 49 {
        assert(mod67_entry(57u64) == 49);
    } else if i == 50 {
        assert(mod67_entry(47u64) == 50);
    } else if i == 51 {
        assert(mod67_entry(27u64) == 51);
    } else if i == 52 {
        assert(mod67_entry(54u64) == 52);
    } else if i == 53 {
        assert(mod67_entry(41u64) == 53);
    } else if i == 54 {
        assert(mod67_entry(15u64) == 54);
    } else if i == 55 {
        assert(mod67_entry(30u64) == 55);
    } else if i == 56 {
        assert(mod67_entry(60u64) == 56);
    } else if i == 57 {
        assert(mod67_entry(53u64) == 57);
    } else if i == 58 {
        assert(mod67_entry(39u64) == 58);
    } else if i == 59 {
        assert(mod67_entry(11u64) == 59);
    } else if i == 60 {
        assert(mod67_entry(22u64) == 60);
    } else if i == 61 {
        assert(mod67_entry(44u64) == 61);
    } else if i == 62 {
        assert(mod67_entry(21u64) == 62);
    } else if i == 63 {
        assert(mod67_entry(42u64) == 63);
    }
}

proof fn lemma_square_bit_doubles()
    ensures
        forall|k: int| 1 <= k < 64 ==> #[trigger] square_bit(k) == square_bit(k - 1) * 2,
{
    assert forall|k: int| 1 <= k < 64 implies #[trigger] square_bit(k) == square_bit(k - 1) * 2 by {
        let a = (k - 1) as u64;
        let b = k as u64;
        assert(a < 63 && b == a + 1 ==> (1u64 << b) == (1u64 << a) * 2) by (bit_vector);
    }
}

/// The square index of a single-bit board (64 when the board is empty).
pub fn bit_to_onebit_index(bit: u64) -> (onebit_index: usize)
    ensures
        onebit_index == mod67_entry(bit % 67),
        onebit_index <= 64,
        forall|i: int| 0 <= i < 64 && bit == square_bit(i) ==> onebit_index == i,
{
    proof {
        assert forall|i: int| 0 <= i < 64 && bit == square_bit(i) implies mod67_entry(bit % 67) == i by {
            lemma_mod67_table_inverts_square_bit(i);
        }
    }
    mod67_lookup(bit % 67)
}

/// The squares whose bits are set in `bb`, from square `k` upwards, in ascending order.
pub open spec fn set_bits_from(bb: u64, k: int) -> Seq<usize>
    decreases 64 - k,
{
    if k < 0 || k >= 64 {
        Seq::empty()
    } else if has_bit(bb, k) {
        seq![k as usize].add(set_bits_from(bb, k + 1))
    } else {
        set_bits_from(bb, k + 1)
    }
}

/// The squares whose bits are set in `bb`, in ascending order.
pub open spec fn bit_indices(bb: u64) -> Seq<usize> {
    set_bits_from(bb, 0)
}

/// Boards that agree on the squares from `k` upwards list the same squares from there.
pub proof fn lemma_set_bits_from_agree(x: u64, y: u64, k: int)
    requires
        0 <= k <= 64,
        forall|j: int| k <= j < 64 ==> (has_bit(x, j) <==> has_bit(y, j)),
    ensures
        set_bits_from(x, k) == set_bits_from(y, k),
    decreases 64 - k,
{
    if k < 64 {
        lemma_set_bits_from_agree(x, y, k + 1);
    }
}

/// Skipping squares whose bits are clear does not change the list.
pub proof fn lemma_set_bits_from_skip(x: u64, k: int, j: int)
    requires
        0 <= k <= j <= 64,
        forall|m: int| k <= m < j ==> !has_bit(x, m),
    ensures
        set_bits_from(x, k) == set_bits_from(x, j),
    decreases j - k,
{
    if k < j {
        lemma_set_bits_from_skip(x, k + 1, j);
    }
}

/// The board with its lowest set bit cleared.
pub open spec fn clear_lowest(x: u64) -> u64 {
    x & ((x - 1) as u64)
}

proof fn lemma_clear_lowest_bit_bv(x: u64, t: u64, j: u64)
    by (bit_vector)
    requires
        x != 0,
        t < 64,
        j < 64,
        (x >> t) & 1u64 == 1u64,
        x << (64 - t) as u64 == 0,
    ensures
        j <= t ==> ((clear_lowest(x)) >> j) & 1u64 == 0u64,
        j > t ==> ((clear_lowest(x)) >> j) & 1u64 == (x >> j) & 1u64,
{
}

proof fn lemma_clear_lowest_bit_decreases(x: u64)
    by (bit_vector)
    requires
        x != 0,
    ensures
        clear_lowest(x) < x,
{
}

/// The first listed square of a non-empty board is its lowest set bit, and clearing
/// that bit leaves the rest of the list.
pub proof fn lemma_bit_indices_lowest(x: u64)
    requires
        x != 0,
    ensures
        (u64_trailing_zeros(x) as int) < 64,
        has_bit(x, u64_trailing_zeros(x) as int),
        bit_indices(x) == seq![u64_trailing_zeros(x) as usize].add(bit_indices(clear_lowest(x))),
        clear_lowest(x) < x,
{
    axiom_u64_trailing_zeros(x);
    let t = u64_trailing_zeros(x) as u64;
    let y = clear_lowest(x);
    assert forall|m: int| 0 <= m < t implies !has_bit(x, m) by {
        assert((x >> (m as u64)) & 1u64 == 0u64);
    }
    lemma_set_bits_from_skip(x, 0, t as int);
    assert forall|m: int| 0 <= m < 64 implies (has_bit(y, m) <==> (m > t && has_bit(x, m))) by {
        lemma_clear_lowest_bit_bv(x, t, m as u64);
    }
    lemma_set_bits_from_skip(y, 0, t + 1);
    lemma_set_bits_from_agree(x, y, t + 1);
    lemma_clear_lowest_bit_decreases(x);
}

/// The squares of the set bits of a bitboard, in ascending order.
pub fn bitboard_to_indices(bitboard: u64) -> (indices: Vec<usize>)
    ensures
        indices@ == bit_indices(bitboard),
{
    let mut indices = Vec::new();
    let mut bits = bitboard;
    while bits != 0
        invariant
            indices@.add(bit_indices(bits)) == bit_indices(bitboard),
        decreases bits,
    {
        proof {
            lemma_bit_indices_lowest(bits);
        }
        let ghost before = indices@;
        let lsb = bits.trailing_zeros() as usize;
        indices.push(lsb);
        proof {
            let rest = bit_indices(clear_lowest(bits));
            assert(indices@.add(rest) =~= before.add(seq![lsb].add(rest)));
        }
        bits &= bits - 1;
    }
    proof {
        assert(bit_indices(0) =~= Seq::<usize>::empty()) by {
            assert forall|m: int| 0 <= m < 64 implies !has_bit(0u64, m) by {
                let b = m as u64;
                assert((0u64 >> b) & 1u64 == 0u64) by (bit_vector);
            }
            lemma_set_bits_from_skip(0, 0, 64);
        }
        assert(indices@.add(Seq::<usize>::empty()) =~= indices@);
    }
    indices
}

/// Whether the rank and file are both on the board.
pub open spec fn on_board(rank: int, file: int) -> bool {
    0 <= rank < 8 && 0 <= file < 8
}

/// The bit of the square `dr` ranks and `df` files away from `sq`, or 0 when that square is
/// off the board.
pub open spec fn step_bit(sq: int, dr: int, df: int) -> u64 {
    let rank = sq / 8 + dr;
    let file = sq % 8 + df;
    if on_board(rank, file) {
        square_bit(rank * 8 + file)
    } else {
        0
    }
}

/// The bit of the square `dr` ranks and `df` files away from `square`, or 0 when that square is
/// off the board.
pub fn step_bit_exec(square: usize, dr: i64, df: i64) -> (bit: u64)
    requires
        square < 64,
        -8 <= dr <= 8,
        -8 <= df <= 8,
    ensures
        bit == step_bit(square as int, dr as int, df as int),
{
    let rank = (square / 8) as i64 + dr;
    let file = (square % 8) as i64 + df;
    if rank >= 0 && rank < 8 && file >= 0 && file < 8 {
        1u64 << ((rank * 8 + file) as u64)
    } else {
        0
    }
}

/// Which squares a step lands on.
pub proof fn lemma_step_bit_has_bit(sq: int, dr: int, df: int, t: int)
    requires
        0 <= sq < 64,
        0 <= t < 64,
    ensures
        has_bit(step_bit(sq, dr, df), t) <==> (on_board(sq / 8 + dr, sq % 8 + df) && t / 8 == sq
            / 8 + dr && t % 8 == sq % 8 + df),
{
    let rank = sq / 8 + dr;
    let file = sq % 8 + df;
    if on_board(rank, file) {
        lemma_square_bit_has_bit(rank * 8 + file, t);
        assert(t == rank * 8 + file <==> (t / 8 == rank && t % 8 == file));
    } else {
        let b = t as u64;
        assert((0u64 >> b) & 1u64 == 0u64) by (bit_vector);
    }
}

/// The squares reached by sliding from (`rank`, `file`) in steps of (`dr`, `df`), at most
/// `fuel` steps, until the edge of the board.
pub open spec fn ray_bits(rank: int, file: int, dr: int, df: int, fuel: nat) -> u64
    decreases fuel,
{
    if fuel == 0 {
        0
    } else {
        let r = rank + dr;
        let f = file + df;
        if on_board(r, f) {
            square_bit(r * 8 + f) | ray_bits(r, f, dr, df, (fuel - 1) as nat)
        } else {
            0
        }
    }
}

/// The full ray from `sq` in the direction (`dr`, `df`), up to the edge of the board.
pub open spec fn ray_mask(sq: int, dr: int, df: int) -> u64 {
    ray_bits(sq / 8, sq % 8, dr, df, 7)
}

/// The squares reached by sliding from (`rank`, `file`) in steps of (`dr`, `df`).
pub fn ray_bits_exec(rank: i64, file: i64, dr: i64, df: i64, fuel: u64) -> (bits: u64)
    requires
        0 <= rank < 8,
        0 <= file < 8,
        -1 <= dr <= 1,
        -1 <= df <= 1,
    ensures
        bits == ray_bits(rank as int, file as int, dr as int, df as int, fuel as nat),
    decreases fuel,
{
    if fuel == 0 {
        return 0;
    }
    let r = rank + dr;
    let f = file + df;
    if r >= 0 && r < 8 && f >= 0 && f < 8 {
        (1u64 << ((r * 8 + f) as u64)) | ray_bits_exec(r, f, dr, df, fuel - 1)
    } else {
        0
    }
}

/// The listed squares from `k` are squares of the board at or above `k`.
pub proof fn lemma_set_bits_from_range(bb: u64, k: int)
    requires
        0 <= k,
    ensures
        forall|j: int| 0 <= j < set_bits_from(bb, k).len() ==> k <= #[trigger] set_bits_from(bb, k)[j] < 64,
    decreases 64 - k,
{
    if k < 64 {
        lemma_set_bits_from_range(bb, k + 1);
        let rest = set_bits_from(bb, k + 1);
        if has_bit(bb, k) {
            assert forall|j: int| 0 <= j < set_bits_from(bb, k).len() implies k <= #[trigger] set_bits_from(bb, k)[j] < 64 by {
                if j > 0 {
                    assert(set_bits_from(bb, k)[j] == rest[j - 1]);
                }
            }
        }
    }
}

} // verus!
