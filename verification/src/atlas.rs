//! Layout of the glyph atlas: glyphs are laid out row by row, `ATLAS_COLS`
//! per row, glyph `i` in column `i % ATLAS_COLS` of row `i / ATLAS_COLS`.

use vstd::prelude::*;

verus! {

/// Glyph cells per atlas row.
pub const ATLAS_COLS: usize = 13;

/// Rows needed to hold `count` glyphs, `ATLAS_COLS` per row (rounded up).
pub open spec fn rows_for(count: nat) -> nat {
    ((count + ATLAS_COLS - 1) / (ATLAS_COLS as int)) as nat
}

/// The `(column, row)` cell of glyph `index`.
pub open spec fn cell_of(index: nat) -> (nat, nat) {
    (index % ATLAS_COLS as nat, index / ATLAS_COLS as nat)
}

/// Rows of the atlas that holds `glyph_count` glyphs.
pub fn atlas_rows(glyph_count: usize) -> (rows: usize)
    ensures
        rows == rows_for(glyph_count as nat),
{
    let rows = glyph_count / ATLAS_COLS + if glyph_count % ATLAS_COLS == 0 { 0 } else { 1 };
    rows
}

/// The `(column, row)` cell in which glyph `index` is drawn.
pub fn glyph_cell(index: usize) -> (cell: (usize, usize))
    ensures
        cell.0 == cell_of(index as nat).0,
        cell.1 == cell_of(index as nat).1,
{
    (index % ATLAS_COLS, index / ATLAS_COLS)
}

/// The atlas has just enough rows: all `count` glyphs fit, and one row fewer
/// would not hold them.
pub proof fn lemma_rows_just_enough(count: nat)
    ensures
        rows_for(count) * ATLAS_COLS as nat >= count,
        rows_for(count) > 0 ==> (rows_for(count) - 1) * (ATLAS_COLS as int) < count,
{
}

/// Every glyph of an atlas of `count` glyphs lands inside the atlas, its cell
/// gives its index back (`row * ATLAS_COLS + column`), and two different
/// glyphs never share a cell.
pub proof fn lemma_cells_fit_and_distinct(count: nat, i: nat, j: nat)
    requires
        i < count,
        j < count,
    ensures
        cell_of(i).0 < ATLAS_COLS,
        cell_of(i).1 < rows_for(count),
        cell_of(i).1 * ATLAS_COLS as nat + cell_of(i).0 == i,
        i != j ==> cell_of(i) != cell_of(j),
{
}

} // verus!
