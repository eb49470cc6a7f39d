//! Detection of four connected pieces in one player's bit-set.
//!
//! A bitboard packs the 6x7 grid column-major, seven bits per column: bit
//! `7c + r` is row `r` of column `c`, and bit `7c + 6` is a guard bit that
//! is never occupied. The guard bits keep shift-based line detection from
//! wrapping between neighbouring columns, so no explicit boundary mask is
//! needed; `lemma_line_iff_four` proves that on such bitboards the
//! shift-and-reduce test finds exactly the geometric fours.

use vstd::prelude::*;

verus! {

/// True when bit `i` of `x` is set.
pub open spec fn bit64(x: u64, i: u64) -> bool {
    (x >> i) & 1 == 1
}

/// Bits `i`, `i+s`, `i+2s` and `i+3s` of `b` are all set: a run of four in
/// the direction whose bit step is `s` (1 vertical, 7 horizontal, 6 and 8
/// the two diagonals under the column-major packing).
pub open spec fn run_at(b: u64, i: u64, s: u64) -> bool {
    &&& i + 3 * s < 64
    &&& bit64(b, i)
    &&& bit64(b, (i + s) as u64)
    &&& bit64(b, (i + 2 * s) as u64)
    &&& bit64(b, (i + 3 * s) as u64)
}

/// Some run of four with bit step `s` lies in `b`.
pub open spec fn has_line_dir(b: u64, s: u64) -> bool {
    exists|i: u64| run_at(b, i, s)
}

/// Four consecutive set bits along one of the four direction steps.
pub open spec fn has_line(b: u64) -> bool {
    ||| has_line_dir(b, 1)
    ||| has_line_dir(b, 6)
    ||| has_line_dir(b, 7)
    ||| has_line_dir(b, 8)
}

/// The 42 playable cells: bits `7c + r` for columns `c` in 0..7 and rows
/// `r` in 0..6. The guard bits `7c + 6` and everything from bit 49 up are
/// outside the mask.
pub open spec fn grid_mask() -> u64 {
    0b0111111_0111111_0111111_0111111_0111111_0111111_0111111u64
}

/// `b` sets playable cells only: no guard bits, nothing above bit 48.
pub open spec fn within_grid(b: u64) -> bool {
    b & !grid_mask() == 0
}

/// Cell (column `c`, row `r`) lies on the board and is set in `b`.
pub open spec fn cell(b: u64, c: int, r: int) -> bool {
    0 <= c < 7 && 0 <= r < 6 && bit64(b, (7 * c + r) as u64)
}

/// Four set cells in a straight line whose per-step offset is `(dc, dr)`.
pub open spec fn four_from(b: u64, c: int, r: int, dc: int, dr: int) -> bool {
    &&& cell(b, c, r)
    &&& cell(b, c + dc, r + dr)
    &&& cell(b, c + 2 * dc, r + 2 * dr)
    &&& cell(b, c + 3 * dc, r + 3 * dr)
}

/// `b` holds four in a row somewhere on the board: vertically,
/// horizontally, or along either diagonal.
pub open spec fn has_four(b: u64) -> bool {
    exists|c: int, r: int|
        #![trigger four_from(b, c, r, 0, 1)]
        #![trigger four_from(b, c, r, 1, 0)]
        #![trigger four_from(b, c, r, 1, 1)]
        #![trigger four_from(b, c, r, 1, -1)]
        {
            ||| four_from(b, c, r, 0, 1)
            ||| four_from(b, c, r, 1, 0)
            ||| four_from(b, c, r, 1, 1)
            ||| four_from(b, c, r, 1, -1)
        }
}

/// A non-zero word has a set bit.
proof fn lemma_nonzero_bit(x: u64)
    requires
        x != 0,
    ensures
        exists|i: u64| i < 64 && #[trigger] bit64(x, i),
    decreases x,
{
    if x & 1 == 1 {
        assert(bit64(x, 0)) by (bit_vector)
            requires
                x & 1 == 1,
        ;
        assert(0u64 < 64 && bit64(x, 0));
    } else {
        assert(x >> 1 != 0 && x >> 1 < x) by (bit_vector)
            requires
                x != 0 && x & 1 != 1,
        ;
        lemma_nonzero_bit(x >> 1);
        let j = choose|j: u64| j < 64 && #[trigger] bit64(x >> 1, j);
        assert(j + 1 < 64 && bit64(x, (j + 1) as u64)) by (bit_vector)
            requires
                j < 64 && bit64(x >> 1, j),
        ;
    }
}

/// Every set bit of `x` is set in `m` only if `x` clears everything
/// outside `m`.
pub(crate) proof fn lemma_bits_subset_mask(x: u64, m: u64)
    requires
        forall|j: u64| j < 64 && #[trigger] bit64(x, j) ==> bit64(m, j),
    ensures
        x & !m == 0,
{
    if x & !m != 0 {
        lemma_nonzero_bit(x & !m);
        let j = choose|j: u64| j < 64 && #[trigger] bit64(x & !m, j);
        assert(bit64(x, j) && !bit64(m, j)) by (bit_vector)
            requires
                j < 64 && bit64(x & !m, j),
        ;
    }
}

/// A set bit of a grid-only bitboard names the cell of its column `j / 7`
/// and row `j % 7`.
proof fn lemma_bit_cell(b: u64, j: u64)
    requires
        within_grid(b),
        j < 64,
        bit64(b, j),
    ensures
        ({
            let c = j as int / 7;
            let r = j as int % 7;
            0 <= c < 7 && 0 <= r < 6 && j == 7 * c + r && cell(b, c, r)
        }),
{
    assert(j < 49 && j % 7 < 6) by (bit_vector)
        requires
            bit64(b, j),
            b & !grid_mask() == 0,
            j < 64,
    ;
    vstd::arithmetic::div_mod::lemma_fundamental_div_mod(j as int, 7);
    let c = j as int / 7;
    let r = j as int % 7;
    assert(j == 7 * c + r);
    assert(0 <= r < 6);
    assert(0 <= c < 7);
    assert((7 * c + r) as u64 == j);
}

/// The column and row offsets that one bit step `s` makes on the grid.
pub open spec fn dir_col(s: u64) -> int {
    if s == 1 {
        0
    } else {
        1
    }
}

/// See `dir_col`.
pub open spec fn dir_row(s: u64) -> int {
    if s == 1 {
        1
    } else if s == 6 {
        -1
    } else if s == 7 {
        0
    } else {
        1
    }
}

/// On a grid-only bitboard, the set bit `s` places above the cell
/// `(c, r)` is the neighbouring cell in the direction of step `s`.
proof fn lemma_adjacent(b: u64, j: u64, s: u64, c: int, r: int)
    requires
        within_grid(b),
        s == 1 || s == 6 || s == 7 || s == 8,
        j == 7 * c + r,
        0 <= c < 7,
        0 <= r < 6,
        j + s < 64,
        bit64(b, (j + s) as u64),
    ensures
        0 <= c + dir_col(s) < 7,
        0 <= r + dir_row(s) < 6,
        j + s == 7 * (c + dir_col(s)) + (r + dir_row(s)),
        cell(b, c + dir_col(s), r + dir_row(s)),
{
    let k = (j + s) as u64;
    lemma_bit_cell(b, k);
    let c1 = k as int / 7;
    let r1 = k as int % 7;
    assert(7 * c1 + r1 == 7 * c + r + s);
    assert(c1 == c + dir_col(s) && r1 == r + dir_row(s));
}

/// A run of four with step `s` on a grid-only bitboard lies on the board
/// as a geometric four in the matching direction.
proof fn lemma_dir_to_four(b: u64, s: u64)
    requires
        within_grid(b),
        s == 1 || s == 6 || s == 7 || s == 8,
        has_line_dir(b, s),
    ensures
        has_four(b),
{
    let i = choose|i: u64| #[trigger] run_at(b, i, s);
    lemma_bit_cell(b, i);
    let c = i as int / 7;
    let r = i as int % 7;
    let dc = dir_col(s);
    let dr = dir_row(s);
    lemma_adjacent(b, i, s, c, r);
    lemma_adjacent(b, (i + s) as u64, s, c + dc, r + dr);
    lemma_adjacent(b, (i + 2 * s) as u64, s, c + 2 * dc, r + 2 * dr);
    if s == 1 {
        assert(four_from(b, c, r, 0, 1));
    } else if s == 6 {
        assert(four_from(b, c, r, 1, -1));
    } else if s == 7 {
        assert(four_from(b, c, r, 1, 0));
    } else {
        assert(four_from(b, c, r, 1, 1));
    }
}

/// On a bitboard that keeps to the playable cells, the shift-run test and
/// the geometric reading agree: there is a run of four in some bit
/// direction exactly when four cells in a straight board line are set.
/// This is what rules out false connections across a column boundary: a
/// run can only leave a column through its guard bit, which such a
/// bitboard never sets.
pub proof fn lemma_line_iff_four(b: u64)
    requires
        within_grid(b),
    ensures
        has_line(b) <==> has_four(b),
{
    if has_four(b) {
        let (c, r) = choose|c: int, r: int|
            #![trigger four_from(b, c, r, 0, 1)]
            #![trigger four_from(b, c, r, 1, 0)]
            #![trigger four_from(b, c, r, 1, 1)]
            #![trigger four_from(b, c, r, 1, -1)]
            {
                ||| four_from(b, c, r, 0, 1)
                ||| four_from(b, c, r, 1, 0)
                ||| four_from(b, c, r, 1, 1)
                ||| four_from(b, c, r, 1, -1)
            };
        if four_from(b, c, r, 0, 1) {
            assert(run_at(b, (7 * c + r) as u64, 1));
        } else if four_from(b, c, r, 1, 0) {
            assert(run_at(b, (7 * c + r) as u64, 7));
        } else if four_from(b, c, r, 1, 1) {
            assert(run_at(b, (7 * c + r) as u64, 8));
        } else {
            assert(run_at(b, (7 * c + r) as u64, 6));
        }
        assert(has_line(b));
    }
    if has_line(b) {
        if has_line_dir(b, 1) {
            lemma_dir_to_four(b, 1);
        } else if has_line_dir(b, 6) {
            lemma_dir_to_four(b, 6);
        } else if has_line_dir(b, 7) {
            lemma_dir_to_four(b, 7);
        } else {
            lemma_dir_to_four(b, 8);
        }
    }
}

/// The two-stage shift-and-AND reduction with step `s` leaves a non-zero
/// word exactly when `b` has a run of four with step `s`.
proof fn lemma_reduce_dir(b: u64, s: u64, s2: u64)
    requires
        1 <= s <= 8,
        s2 == 2 * s,
    ensures
        ((b & (b >> s)) & ((b & (b >> s)) >> s2) != 0) <==> has_line_dir(b, s),
{
    let y = (b & (b >> s)) & ((b & (b >> s)) >> s2);
    if y != 0 {
        lemma_nonzero_bit(y);
        let i = choose|i: u64| i < 64 && #[trigger] bit64(y, i);
        assert(i + 3 * s < 64 && bit64(b, i) && bit64(b, (i + s) as u64) && bit64(
            b,
            (i + 2 * s) as u64,
        ) && bit64(b, (i + 3 * s) as u64)) by (bit_vector)
            requires
                i < 64,
                bit64((b & (b >> s)) & ((b & (b >> s)) >> s2), i),
                s2 == 2 * s,
                1 <= s <= 8,
        ;
        assert(run_at(b, i, s));
    } else {
        assert forall|i: u64| !#[trigger] run_at(b, i, s) by {
            assert(!(i + 3 * s < 64 && bit64(b, i) && bit64(b, (i + s) as u64) && bit64(
                b,
                (i + 2 * s) as u64,
            ) && bit64(b, (i + 3 * s) as u64))) by (bit_vector)
                requires
                    (b & (b >> s)) & ((b & (b >> s)) >> s2) == 0,
                    s2 == 2 * s,
                    1 <= s <= 8,
            ;
        }
    }
}

/// Whether `bitboard` holds four connected set bits in any of the four
/// directions. Shifting the board by a direction's step and ANDing with
/// itself collapses runs; doing it once more with twice the step leaves a
/// set bit exactly where a run of four began.
pub fn has_winner(bitboard: u64) -> (r: bool)
    ensures
        r == has_line(bitboard),
{
    let horizontal = bitboard & (bitboard >> 7);
    let vertical = bitboard & (bitboard >> 1);
    let diag_one = bitboard & (bitboard >> 6);
    let diag_two = bitboard & (bitboard >> 8);
    let reduced = (diag_one & (diag_one >> (2 * 6))) | (horizontal & (horizontal >> (2 * 7))) | (
    diag_two & (diag_two >> (2 * 8))) | (vertical & (vertical >> 2));
    proof {
        lemma_reduce_dir(bitboard, 1, 2);
        lemma_reduce_dir(bitboard, 6, 12);
        lemma_reduce_dir(bitboard, 7, 14);
        lemma_reduce_dir(bitboard, 8, 16);
        let d1 = diag_one & (diag_one >> 12);
        let h = horizontal & (horizontal >> 14);
        let d2 = diag_two & (diag_two >> 16);
        let v = vertical & (vertical >> 2);
        assert((d1 | h | d2 | v != 0) <==> (d1 != 0 || h != 0 || d2 != 0 || v != 0))
            by (bit_vector);
    }
    reduced != 0
}

} // verus!
