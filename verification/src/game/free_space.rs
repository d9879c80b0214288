//! Why there is always room for one more thing in the world.
//!
//! Whatever stands somewhere keeps others away from at most four columns and
//! four rows of cells. With five things in a room of sixteen columns and
//! eight rows, some row is kept by at most two of them, and in that row
//! those two keep at most eight columns.
use crate::axes::{Dim, DimMap};
use crate::game::room::corner_of;
use crate::game::{center_of, far_apart, Entities, Pos};
use crate::wrap_int::WrapInt;
use vstd::prelude::*;

verus! {

/// Column `c` is one of the four columns from column `s` on, going round.
#[verifier::opaque]
pub open spec fn in_cols(s: int, c: int) -> bool {
    (c - s + 16) % 16 < 4
}

/// Row `r` is one of the four rows from row `s` on, going round.
#[verifier::opaque]
pub open spec fn in_rows(s: int, r: int) -> bool {
    (r - s + 8) % 8 < 4
}

/// The first of the four columns that hold every cell whose middle is less
/// than two cells away, along `X`, from the coordinate reached by `x` steps.
pub open spec fn first_col(x: int) -> int {
    if x % 4096 < 2048 {
        (x / 4096 + 14) % 16
    } else {
        (x / 4096 + 15) % 16
    }
}

/// The first of the four rows that hold every cell whose middle is less
/// than two cells away, along `Y`, from the coordinate reached by `y` steps.
pub open spec fn first_row(y: int) -> int {
    if y % 8192 < 4096 {
        (y / 8192 + 6) % 8
    } else {
        (y / 8192 + 7) % 8
    }
}

/// One if the rows from row `s` on hold row `r`, else nought.
#[verifier::opaque]
pub open spec fn hit(s: int, r: int) -> int {
    if in_rows(s, r) {
        1
    } else {
        0
    }
}

/// One if the cell in column `c` and row `r` lies in the columns from `sx`
/// on and in the rows from `sy` on, else nought.
#[verifier::opaque]
pub open spec fn kept(sx: int, sy: int, c: int, r: int) -> int {
    if in_cols(sx, c) && in_rows(sy, r) {
        1
    } else {
        0
    }
}

/// The distance of two elements of the ring, counted in steps.
proof fn lemma_magnitude_in_steps(a: WrapInt, b: WrapInt, bound: int)
    requires
        0 < bound <= 32768,
    ensures
        a.minus(b).magnitude() < bound <==> ((a.steps() - b.steps()) % 65536 < bound || (a.steps()
            - b.steps()) % 65536 > 65536 - bound),
{
}

proof fn lemma_near_column(x: int, col: int)
    requires
        0 <= x < 65536,
        0 <= col < 16,
        (x - (col * 4096 + 2048)) % 65536 < 8192 || (x - (col * 4096 + 2048)) % 65536 > 57344,
    ensures
        in_cols(first_col(x), col),
{
    reveal(in_cols);
    let q = x / 4096;
    let r = x % 4096;
    assert(x == q * 4096 + r && 0 <= q < 16 && 0 <= r < 4096);
    let d = (x - (col * 4096 + 2048)) % 65536;
    let j = (col - q + 16) % 16;
    assert(0 <= j < 16);
    assert(d == ((q - col) * 4096 + r - 2048) % 65536);
}

proof fn lemma_near_row(y: int, row: int)
    requires
        0 <= y < 65536,
        0 <= row < 8,
        (y - (row * 8192 + 4096)) % 65536 < 16384 || (y - (row * 8192 + 4096)) % 65536 > 49152,
    ensures
        in_rows(first_row(y), row),
{
    reveal(in_rows);
    let q = y / 8192;
    let r = y % 8192;
    assert(y == q * 8192 + r && 0 <= q < 8 && 0 <= r < 8192);
    let d = (y - (row * 8192 + 4096)) % 65536;
    assert(d == ((q - row) * 8192 + r - 4096) % 65536);
}

/// Whatever stands at `p` is near the middle of cell `i` only if the cell
/// lies in the four columns and four rows that `p` keeps.
pub proof fn lemma_near_is_kept(p: Pos, i: int)
    requires
        0 <= i < 128,
        !far_apart(p, center_of(i)),
    ensures
        in_cols(first_col(p.at(Dim::X).steps() as int), i % 16),
        in_rows(first_row(p.at(Dim::Y).steps() as int), i / 16),
{
    let col = i % 16;
    let row = i / 16;
    let c = center_of(i);
    assert(c.at(Dim::X).steps() == col * 4096 + 2048);
    assert(c.at(Dim::Y).steps() == row * 8192 + 4096);
    lemma_magnitude_in_steps(p.at(Dim::X), c.at(Dim::X), 8192);
    lemma_magnitude_in_steps(p.at(Dim::Y), c.at(Dim::Y), 16384);
    lemma_near_column(p.at(Dim::X).steps() as int, col);
    lemma_near_row(p.at(Dim::Y).steps() as int, row);
}

/// How many of five runs of rows hold row `r`.
pub open spec fn row_load(s: Seq<int>, r: int) -> int {
    hit(s[0], r) + hit(s[1], r) + hit(s[2], r) + hit(s[3], r) + hit(s[4], r)
}

/// How many of five things keep the cell in column `c` and row `r`, where
/// thing `k` keeps the columns from `sx[k]` on and the rows from `sy[k]` on.
pub open spec fn cell_load(sx: Seq<int>, sy: Seq<int>, c: int, r: int) -> int {
    kept(sx[0], sy[0], c, r) + kept(sx[1], sy[1], c, r) + kept(sx[2], sy[2], c, r) + kept(
        sx[3],
        sy[3],
        c,
        r,
    ) + kept(sx[4], sy[4], c, r)
}

/// How many cells of row `r` a thing keeps that keeps the columns from `sx`
/// on and the rows from `sy` on.
pub open spec fn kept_in_row(sx: int, sy: int, r: int) -> int {
    kept(sx, sy, 0, r) + kept(sx, sy, 1, r) + kept(sx, sy, 2, r) + kept(sx, sy, 3, r) + kept(
        sx,
        sy,
        4,
        r,
    ) + kept(sx, sy, 5, r) + kept(sx, sy, 6, r) + kept(sx, sy, 7, r) + kept(sx, sy, 8, r) + kept(
        sx,
        sy,
        9,
        r,
    ) + kept(sx, sy, 10, r) + kept(sx, sy, 11, r) + kept(sx, sy, 12, r) + kept(sx, sy, 13, r)
        + kept(sx, sy, 14, r) + kept(sx, sy, 15, r)
}

/// A run of rows holds four rows.
proof fn lemma_four_rows(s: int)
    requires
        0 <= s < 8,
    ensures
        hit(s, 0) + hit(s, 1) + hit(s, 2) + hit(s, 3) + hit(s, 4) + hit(s, 5) + hit(s, 6) + hit(
            s,
            7,
        ) == 4,
{
    reveal(in_rows);
    reveal(hit);
}

/// Of a row that it keeps, a thing keeps four cells; of any other, none.
proof fn lemma_four_cols(sx: int, sy: int, r: int)
    requires
        0 <= sx < 16,
    ensures
        kept_in_row(sx, sy, r) == 4 * hit(sy, r),
{
    reveal(in_cols);
    reveal(hit);
    reveal(kept);
}

/// A cell is kept or it is not.
proof fn lemma_kept(sx: int, sy: int, c: int, r: int)
    ensures
        0 <= kept(sx, sy, c, r) <= 1,
        kept(sx, sy, c, r) == 0 <==> !(in_cols(sx, c) && in_rows(sy, r)),
{
    reveal(kept);
}

/// A row that at most two of five runs of rows hold.
proof fn lemma_light_row(s: Seq<int>) -> (r: int)
    requires
        s.len() == 5,
        forall|k: int| 0 <= k < 5 ==> 0 <= #[trigger] s[k] < 8,
    ensures
        0 <= r < 8,
        row_load(s, r) <= 2,
{
    lemma_four_rows(s[0]);
    lemma_four_rows(s[1]);
    lemma_four_rows(s[2]);
    lemma_four_rows(s[3]);
    lemma_four_rows(s[4]);
    assert(row_load(s, 0) + row_load(s, 1) + row_load(s, 2) + row_load(s, 3) + row_load(s, 4)
        + row_load(s, 5) + row_load(s, 6) + row_load(s, 7) == 20);
    if row_load(s, 0) <= 2 {
        0
    } else if row_load(s, 1) <= 2 {
        1
    } else if row_load(s, 2) <= 2 {
        2
    } else if row_load(s, 3) <= 2 {
        3
    } else if row_load(s, 4) <= 2 {
        4
    } else if row_load(s, 5) <= 2 {
        5
    } else if row_load(s, 6) <= 2 {
        6
    } else {
        7
    }
}

/// Of sixteen counts that add up to less than sixteen, one is nought.
proof fn lemma_one_is_nought(loads: Seq<int>) -> (c: int)
    requires
        loads.len() == 16,
        forall|k: int| 0 <= k < 16 ==> #[trigger] loads[k] >= 0,
        loads[0] + loads[1] + loads[2] + loads[3] + loads[4] + loads[5] + loads[6] + loads[7]
            + loads[8] + loads[9] + loads[10] + loads[11] + loads[12] + loads[13] + loads[14]
            + loads[15] < 16,
    ensures
        0 <= c < 16,
        loads[c] == 0,
{
    if loads[0] == 0 {
        0
    } else if loads[1] == 0 {
        1
    } else if loads[2] == 0 {
        2
    } else if loads[3] == 0 {
        3
    } else if loads[4] == 0 {
        4
    } else if loads[5] == 0 {
        5
    } else if loads[6] == 0 {
        6
    } else if loads[7] == 0 {
        7
    } else if loads[8] == 0 {
        8
    } else if loads[9] == 0 {
        9
    } else if loads[10] == 0 {
        10
    } else if loads[11] == 0 {
        11
    } else if loads[12] == 0 {
        12
    } else if loads[13] == 0 {
        13
    } else if loads[14] == 0 {
        14
    } else {
        15
    }
}

/// The loads of the cells of a row add up to what each thing keeps of the
/// row.
proof fn lemma_loads_of_a_row(sx: Seq<int>, sy: Seq<int>, r: int)
    requires
        sx.len() == 5,
        sy.len() == 5,
    ensures
        cell_load(sx, sy, 0, r) + cell_load(sx, sy, 1, r) + cell_load(sx, sy, 2, r) + cell_load(
            sx,
            sy,
            3,
            r,
        ) + cell_load(sx, sy, 4, r) + cell_load(sx, sy, 5, r) + cell_load(sx, sy, 6, r) + cell_load(
            sx,
            sy,
            7,
            r,
        ) + cell_load(sx, sy, 8, r) + cell_load(sx, sy, 9, r) + cell_load(sx, sy, 10, r) + cell_load(
            sx,
            sy,
            11,
            r,
        ) + cell_load(sx, sy, 12, r) + cell_load(sx, sy, 13, r) + cell_load(sx, sy, 14, r)
            + cell_load(sx, sy, 15, r) == kept_in_row(sx[0], sy[0], r) + kept_in_row(
            sx[1],
            sy[1],
            r,
        ) + kept_in_row(sx[2], sy[2], r) + kept_in_row(sx[3], sy[3], r) + kept_in_row(
            sx[4],
            sy[4],
            r,
        ),
{
}

/// A cell that none of five things keeps.
pub proof fn lemma_free_cell(sx: Seq<int>, sy: Seq<int>) -> (cell: (int, int))
    requires
        sx.len() == 5,
        sy.len() == 5,
        forall|k: int| 0 <= k < 5 ==> 0 <= #[trigger] sx[k] < 16,
        forall|k: int| 0 <= k < 5 ==> 0 <= #[trigger] sy[k] < 8,
    ensures
        0 <= cell.0 < 16,
        0 <= cell.1 < 8,
        forall|k: int|
            0 <= k < 5 ==> !(in_cols(#[trigger] sx[k], cell.0) && in_rows(sy[k], cell.1)),
{
    let r = lemma_light_row(sy);
    lemma_four_cols(sx[0], sy[0], r);
    lemma_four_cols(sx[1], sy[1], r);
    lemma_four_cols(sx[2], sy[2], r);
    lemma_four_cols(sx[3], sy[3], r);
    lemma_four_cols(sx[4], sy[4], r);
    lemma_loads_of_a_row(sx, sy, r);
    let loads = Seq::new(16, |c: int| cell_load(sx, sy, c, r));
    assert forall|c: int| 0 <= c < 16 implies #[trigger] loads[c] >= 0 by {
        lemma_kept(sx[0], sy[0], c, r);
        lemma_kept(sx[1], sy[1], c, r);
        lemma_kept(sx[2], sy[2], c, r);
        lemma_kept(sx[3], sy[3], c, r);
        lemma_kept(sx[4], sy[4], c, r);
    }
    let c = lemma_one_is_nought(loads);
    assert forall|k: int| 0 <= k < 5 implies !(in_cols(#[trigger] sx[k], c) && in_rows(sy[k], r)) by {
        lemma_kept(sx[0], sy[0], c, r);
        lemma_kept(sx[1], sy[1], c, r);
        lemma_kept(sx[2], sy[2], c, r);
        lemma_kept(sx[3], sy[3], c, r);
        lemma_kept(sx[4], sy[4], c, r);
    }
    (c, r)
}

/// However the players and the teleporters stand, there is a cell with
/// nothing in its middle or near it.
pub proof fn lemma_has_free_space(e: Entities)
    ensures
        e.has_free_space(),
{
    let ps = seq![
        e.teleporters[0],
        e.teleporters[1],
        e.players[0].pos,
        e.players[1].pos,
        e.players[2].pos,
    ];
    let sx = Seq::new(5, |k: int| first_col(ps[k].at(Dim::X).steps() as int));
    let sy = Seq::new(5, |k: int| first_row(ps[k].at(Dim::Y).steps() as int));
    let (c, r) = lemma_free_cell(sx, sy);
    let i = r * 16 + c;
    assert(i % 16 == c && i / 16 == r);
    assert forall|k: int| 0 <= k < 5 implies far_apart(#[trigger] ps[k], center_of(i)) by {
        if !far_apart(ps[k], center_of(i)) {
            lemma_near_is_kept(ps[k], i);
            assert(in_cols(sx[k], c) && in_rows(sy[k], r));
        }
    }
    assert(far_apart(ps[0], center_of(i)));
    assert(far_apart(ps[1], center_of(i)));
    assert(far_apart(ps[2], center_of(i)));
    assert(far_apart(ps[3], center_of(i)));
    assert(far_apart(ps[4], center_of(i)));
    assert(e.clear_of(center_of(i)));
}

} // verus!
