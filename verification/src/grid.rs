//! The sparse cell grid: a single linear buffer of cells plus logical and
//! buffer extents.
//!
//! The logical extents (`columns`, `rows`) are the highest occupied
//! coordinate plus one and are what callers see; the buffer extents may be
//! larger, so that row-wise growth is amortised.  A cell at logical
//! position `(c, r)` lives at linear index `r * buffer_columns + c`.

use vstd::arithmetic::div_mod::{lemma_fundamental_div_mod, lemma_fundamental_div_mod_converse};
use vstd::arithmetic::mul::lemma_mul_inequality;
use vstd::prelude::*;
use vstd::slice::slice_subrange;

use crate::cell::{spec_empty_cell, Cell, CellV};

verus! {

/// Mathematical view of a [`Spreadsheet`]: logical and buffer extents, and
/// a total map from positions to cells.  Positions outside the logical
/// rectangle map to empty placeholder cells.
#[verifier::ext_equal]
pub struct GridV {
    pub cols: int,
    pub rows: int,
    pub bcols: int,
    pub brows: int,
    pub at: Map<(int, int), CellV>,
}

pub open spec fn spec_max(a: int, b: int) -> int {
    if a >= b {
        a
    } else {
        b
    }
}

pub open spec fn spec_min(a: int, b: int) -> int {
    if a <= b {
        a
    } else {
        b
    }
}

pub open spec fn in_rect(p: (int, int), cols: int, rows: int) -> bool {
    0 <= p.0 < cols && 0 <= p.1 < rows
}

/// The view of a grid with no cells at all.
pub open spec fn empty_grid() -> GridV {
    GridV {
        cols: 0,
        rows: 0,
        bcols: 0,
        brows: 0,
        at: Map::new(|p: (int, int)| true, |p: (int, int)| spec_empty_cell(p.0, p.1)),
    }
}

/// The view of a freshly stamped grid of the given extents.
pub open spec fn stamped_grid(cols: int, rows: int) -> GridV {
    GridV {
        cols,
        rows,
        bcols: cols,
        brows: rows,
        at: Map::new(|p: (int, int)| true, |p: (int, int)| spec_empty_cell(p.0, p.1)),
    }
}

/// What one growth-aware insertion does to the view: logical extents grow
/// to cover the cell; the buffer either reallocates to an exact fit when
/// the column stride must change, grows its rows speculatively (doubling,
/// capped) when only rows overflow, or stays as it is; the cell lands at
/// its position and every other position keeps its previous content.
pub open spec fn spec_insert(g: GridV, c: CellV) -> GridV {
    let cols = spec_max(g.cols, c.column + 1);
    let rows = spec_max(g.rows, c.row + 1);
    let bcols = if g.bcols < c.column + 1 {
        spec_max(g.bcols, c.column + 1)
    } else {
        g.bcols
    };
    let brows = if g.bcols < c.column + 1 {
        spec_max(g.brows, c.row + 1)
    } else if g.brows < c.row + 1 {
        spec_max(spec_min(2 * g.brows, u32::MAX as int), c.row + 1)
    } else {
        g.brows
    };
    GridV {
        cols,
        rows,
        bcols,
        brows,
        at: Map::new(
            |p: (int, int)| true,
            |p: (int, int)|
                if p == (c.column, c.row) {
                    c
                } else if in_rect(p, g.cols, g.rows) {
                    g.at[p]
                } else {
                    spec_empty_cell(p.0, p.1)
                },
        ),
    }
}

/// Whether an insertion is within machine limits: the cell's 1-based
/// position must fit a `u32` and the buffer that [`spec_insert`] asks for
/// must fit a `usize` worth of cells.
pub open spec fn spec_can_insert(g: GridV, c: CellV) -> bool {
    let ng = spec_insert(g, c);
    &&& c.column + 1 <= u32::MAX
    &&& c.row + 1 <= u32::MAX
    &&& ng.bcols * ng.brows <= usize::MAX
}

/// A growable container of cells indexed by `(column, row)`.
#[derive(Debug)]
pub struct Spreadsheet {
    cells: Vec<Cell>,
    rows: u32,
    columns: u32,
    buffer_columns: u32,
    buffer_rows: u32,
}

impl View for Spreadsheet {
    type V = GridV;

    closed spec fn view(&self) -> GridV {
        GridV {
            cols: self.columns as int,
            rows: self.rows as int,
            bcols: self.buffer_columns as int,
            brows: self.buffer_rows as int,
            at: Map::new(
                |p: (int, int)| true,
                |p: (int, int)|
                    if in_rect(p, self.columns as int, self.rows as int) {
                        self.cells@[p.1 * self.buffer_columns + p.0]@
                    } else {
                        spec_empty_cell(p.0, p.1)
                    },
            ),
        }
    }
}

/// What must hold of the cell stored at buffer index `i`: it is stamped
/// with the position the index encodes, and outside the logical rectangle
/// it is still the untouched placeholder.
pub open spec fn slot_ok(c: CellV, i: int, bcols: int, cols: int, rows: int) -> bool {
    let col = i % bcols;
    let row = i / bcols;
    &&& c.column == col
    &&& c.row == row
    &&& !in_rect((col, row), cols, rows) ==> c == spec_empty_cell(col, row)
}

impl Spreadsheet {
    /// The internal invariant: the buffer holds exactly
    /// `buffer_columns * buffer_rows` cells (no residual slack), the
    /// logical extents never exceed the buffer extents, extents are zero
    /// exactly when there are no cells, and every buffer slot holds a cell
    /// stamped with the position its index encodes.
    pub closed spec fn wf(self) -> bool {
        let bc = self.buffer_columns as int;
        let br = self.buffer_rows as int;
        &&& self.cells@.len() == bc * br
        &&& self.columns <= self.buffer_columns
        &&& self.rows <= self.buffer_rows
        &&& (self.cells@.len() == 0 <==> (self.columns == 0 || self.rows == 0))
        &&& (self.cells@.len() == 0 <==> (self.buffer_columns == 0 || self.buffer_rows == 0))
        &&& forall|i: int|
            0 <= i < self.cells@.len() ==> slot_ok(
                (#[trigger] self.cells@[i])@,
                i,
                bc,
                self.columns as int,
                self.rows as int,
            )
    }

    /// The buffer extents: `(buffer_columns, buffer_rows)`.  The buffer
    /// always holds exactly `buffer_columns * buffer_rows` cells — that is
    /// the [`Spreadsheet::wf`] invariant every operation preserves — and it
    /// covers the logical extents.
    pub fn buffer_size(&self) -> (result: (u32, u32))
        ensures
            result.0 == self@.bcols,
            result.1 == self@.brows,
    {
        (self.buffer_columns, self.buffer_rows)
    }

    /// The number of allocated cell slots.  After any sequence of
    /// operations it equals `buffer_columns * buffer_rows` exactly: the
    /// buffer is re-indexed whole at each growth step, with no residual
    /// partial row.
    pub fn buffer_len(&self) -> (result: usize)
        requires
            self.wf(),
        ensures
            result == self@.bcols * self@.brows,
    {
        self.cells.len()
    }

    /// The logical extents never exceed the buffer extents.
    pub proof fn lemma_extent_bounds(self)
        requires
            self.wf(),
        ensures
            self@.cols <= self@.bcols,
            self@.rows <= self@.brows,
    {
    }

    /// Creates a grid with zero capacity and zero logical size.
    pub fn new() -> (result: Spreadsheet)
        ensures
            result.wf(),
            result@ == empty_grid(),
    {
        let s = Spreadsheet {
            cells: Vec::new(),
            buffer_columns: 0,
            buffer_rows: 0,
            rows: 0,
            columns: 0,
        };
        proof {
            assert(s@.at =~= empty_grid().at);
            assert(s@ =~= empty_grid());
        }
        s
    }

    /// Eagerly allocates `columns * rows` placeholder cells, each stamped
    /// with its own position.
    pub fn with_size(columns: u32, rows: u32) -> (result: Spreadsheet)
        requires
            columns as int * rows as int <= usize::MAX,
        ensures
            result.wf(),
            result@ == stamped_grid(columns as int, rows as int),
    {
        let cells = stamped_cells(columns, rows);
        let s = Spreadsheet { cells, rows, columns, buffer_columns: columns, buffer_rows: rows };
        proof {
            if columns as int * rows as int == 0 {
                assert(columns == 0 || rows == 0) by (nonlinear_arith)
                    requires
                        columns as int * rows as int == 0,
                ;
            } else {
                assert(columns > 0 && rows > 0) by (nonlinear_arith)
                    requires
                        columns as int * rows as int != 0,
                        columns >= 0,
                        rows >= 0,
                ;
            }
            assert forall|p: (int, int)| true implies s@.at[p] == stamped_grid(
                columns as int,
                rows as int,
            ).at[p] by {
                if in_rect(p, columns as int, rows as int) {
                    lemma_pos_to_index(columns as int, rows as int, p.0, p.1);
                }
            }
            assert(s@.at =~= stamped_grid(columns as int, rows as int).at);
            assert(s@ =~= stamped_grid(columns as int, rows as int));
        }
        s
    }

    /// Discards any existing buffer and reallocates to exactly fit the
    /// given inclusive bounds, re-stamping every placeholder.  The first
    /// argument (the top-left corner of a declared range) is accepted for
    /// call-shape compatibility; the origin is always taken as the minimum.
    pub fn resize(&mut self, top_left: (u32, u32), bottom_right: (u32, u32))
        requires
            bottom_right.0 < u32::MAX,
            bottom_right.1 < u32::MAX,
            (bottom_right.0 + 1) * (bottom_right.1 + 1) <= usize::MAX,
        ensures
            final(self).wf(),
            final(self)@ == stamped_grid(bottom_right.0 + 1, bottom_right.1 + 1),
    {
        let _ = top_left;
        let fresh = Self::with_size(bottom_right.0 + 1, bottom_right.1 + 1);
        *self = fresh;
    }

    /// The logical extents: `(columns, rows)`.
    pub fn size(&self) -> (result: (u32, u32))
        ensures
            result.0 == self@.cols,
            result.1 == self@.rows,
    {
        (self.columns, self.rows)
    }

    /// Point lookup by coordinate pair; absent exactly outside the logical
    /// extents.
    pub fn column(&self, column: u32, row: u32) -> (result: Option<&Cell>)
        requires
            self.wf(),
        ensures
            result is Some <==> (column < self@.cols && row < self@.rows),
            result matches Some(c) ==> c@ == self@.at[(column as int, row as int)],
    {
        if column < self.columns && row < self.rows {
            let n = self.cells.len();
            proof {
                lemma_pos_to_index(
                    self.buffer_columns as int,
                    self.buffer_rows as int,
                    column as int,
                    row as int,
                );
                assert((row as int) * (self.buffer_columns as int) + (column as int) < (n as int));
            }
            let idx: usize = (row as usize) * (self.buffer_columns as usize) + (column as usize);
            Some(&self.cells[idx])
        } else {
            None
        }
    }

    /// The contiguous run of `columns` cells of one logical row, or absent
    /// when the grid has no cells at all or the row is out of range.
    pub fn row(&self, row: u32) -> (result: Option<&[Cell]>)
        requires
            self.wf(),
        ensures
            result is Some <==> (self@.cols > 0 && row < self@.rows),
            result matches Some(s) ==> {
                &&& s@.len() == self@.cols
                &&& forall|i: int|
                    0 <= i < s@.len() ==> (#[trigger] s@[i])@ == self@.at[(i, row as int)]
            },
    {
        if self.cells.is_empty() {
            return None;
        }
        if row >= self.rows {
            return None;
        }
        let n = self.cells.len();
        proof {
            lemma_pos_to_index(self.buffer_columns as int, self.buffer_rows as int, 0, row as int);
            if self.columns > 0 {
                lemma_pos_to_index(
                    self.buffer_columns as int,
                    self.buffer_rows as int,
                    self.columns as int - 1,
                    row as int,
                );
            }
            assert((row as int) * (self.buffer_columns as int) + (self.columns as int) <= (n as int));
        }
        let start: usize = (row as usize) * (self.buffer_columns as usize);
        let s = slice_subrange(self.cells.as_slice(), start, start + self.columns as usize);
        proof {
            assert forall|i: int|
                0 <= i < s@.len() implies (#[trigger] s@[i])@ == self@.at[(i, row as int)] by {
                lemma_pos_to_index(
                    self.buffer_columns as int,
                    self.buffer_rows as int,
                    i,
                    row as int,
                );
                assert(s@[i] == self.cells@[row as int * self.buffer_columns as int + i]);
            }
        }
        Some(s)
    }
}

impl Spreadsheet {
    /// All cells of the logical rectangle, in row-major order.  Cells
    /// never written to still carry their empty placeholder state.
    pub fn cells(&self) -> (result: Vec<&Cell>)
        requires
            self.wf(),
        ensures
            result@.len() == self@.cols * self@.rows,
            forall|k: int|
                0 <= k < result@.len() ==> (#[trigger] result@[k])@ == self@.at[
                    (k % self@.cols, k / self@.cols)
                ],
    {
        let (cols, rows) = self.size();
        let mut out: Vec<&Cell> = Vec::new();
        let buf_len = self.cells.len();
        proof {
            assert(buf_len as int == self@.bcols * self@.brows);
            lemma_mul_inequality(cols as int, self@.bcols, self@.brows);
            vstd::arithmetic::mul::lemma_mul_is_commutative(cols as int, self@.brows);
            vstd::arithmetic::mul::lemma_mul_is_commutative(self@.bcols, self@.brows);
            lemma_mul_inequality(rows as int, self@.brows, cols as int);
            vstd::arithmetic::mul::lemma_mul_is_commutative(rows as int, cols as int);
            vstd::arithmetic::mul::lemma_mul_is_commutative(self@.brows, cols as int);
            assert(cols as int * rows as int <= usize::MAX);
        }
        let mut row: u32 = 0;
        while row < rows
            invariant
                self.wf(),
                cols == self@.cols,
                rows == self@.rows,
                0 <= row <= rows,
                cols as int * rows as int <= usize::MAX,
                out@.len() == cols as int * row as int,
                forall|k: int|
                    0 <= k < out@.len() ==> (#[trigger] out@[k])@ == self@.at[
                        (k % cols as int, k / cols as int)
                    ],
            decreases rows - row,
        {
            let mut column: u32 = 0;
            proof {
                lemma_mul_inequality(row as int + 1, rows as int, cols as int);
                vstd::arithmetic::mul::lemma_mul_is_commutative(row as int + 1, cols as int);
                vstd::arithmetic::mul::lemma_mul_is_commutative(rows as int, cols as int);
                vstd::arithmetic::mul::lemma_mul_is_distributive_add(cols as int, row as int, 1);
            }
            while column < cols
                invariant
                    self.wf(),
                    cols == self@.cols,
                    rows == self@.rows,
                    row < rows,
                    0 <= column <= cols,
                    cols as int * row as int + cols as int <= cols as int * rows as int,
                    cols as int * rows as int <= usize::MAX,
                    out@.len() == cols as int * row as int + column as int,
                    forall|k: int|
                        0 <= k < out@.len() ==> (#[trigger] out@[k])@ == self@.at[
                            (k % cols as int, k / cols as int)
                        ],
                decreases cols - column,
            {
                match self.column(column, row) {
                    Some(cell) => {
                        proof {
                            lemma_pos_to_index(cols as int, rows as int, column as int, row as int);
                            vstd::arithmetic::mul::lemma_mul_is_commutative(row as int, cols as int);
                        }
                        out.push(cell);
                    },
                    None => {
                        proof {
                            assert(false);
                        }
                    },
                }
                column = column + 1;
            }
            row = row + 1;
            proof {
                vstd::arithmetic::mul::lemma_mul_is_distributive_add(cols as int, row as int - 1, 1);
            }
        }
        proof {
            vstd::arithmetic::mul::lemma_mul_is_commutative(cols as int, rows as int);
        }
        out
    }
}

/// Appends fully stamped placeholder rows `from_row..to_row` of stride
/// `columns` to a buffer that currently ends exactly at `from_row`.
fn append_stamped_rows(cells: &mut Vec<Cell>, columns: u32, from_row: u32, to_row: u32)
    requires
        from_row <= to_row,
        columns as int * to_row as int <= usize::MAX,
        old(cells)@.len() == columns as int * from_row as int,
    ensures
        final(cells)@.len() == columns as int * to_row as int,
        forall|j: int| 0 <= j < old(cells)@.len() ==> final(cells)@[j] == old(cells)@[j],
        forall|j: int|
            old(cells)@.len() <= j < final(cells)@.len() ==> (#[trigger] final(cells)@[j])@
                == spec_empty_cell(j % columns as int, j / columns as int),
{
    let mut row: u32 = from_row;
    while row < to_row
        invariant
            from_row <= row <= to_row,
            columns as int * to_row as int <= usize::MAX,
            cells@.len() == columns as int * row as int,
            forall|j: int| 0 <= j < old(cells)@.len() ==> cells@[j] == old(cells)@[j],
            old(cells)@.len() == columns as int * from_row as int,
            forall|j: int|
                old(cells)@.len() <= j < cells@.len() ==> (#[trigger] cells@[j])@
                    == spec_empty_cell(j % columns as int, j / columns as int),
        decreases to_row - row,
    {
        let mut column: u32 = 0;
        proof {
            lemma_mul_inequality(row as int + 1, to_row as int, columns as int);
            vstd::arithmetic::mul::lemma_mul_is_commutative(row as int + 1, columns as int);
            vstd::arithmetic::mul::lemma_mul_is_commutative(to_row as int, columns as int);
            vstd::arithmetic::mul::lemma_mul_is_distributive_add(columns as int, row as int, 1);
            lemma_mul_inequality(from_row as int, row as int, columns as int);
            vstd::arithmetic::mul::lemma_mul_is_commutative(from_row as int, columns as int);
            vstd::arithmetic::mul::lemma_mul_is_commutative(row as int, columns as int);
        }
        while column < columns
            invariant
                row < to_row,
                column <= columns,
                columns as int * row as int + columns as int <= columns as int * to_row as int,
                columns as int * to_row as int <= usize::MAX,
                cells@.len() == columns as int * row as int + column as int,
                old(cells)@.len() <= columns as int * row as int,
                forall|j: int| 0 <= j < old(cells)@.len() ==> cells@[j] == old(cells)@[j],
                forall|j: int|
                    old(cells)@.len() <= j < cells@.len() ==> (#[trigger] cells@[j])@
                        == spec_empty_cell(j % columns as int, j / columns as int),
            decreases columns - column,
        {
            let cell = Cell::new(column, row);
            proof {
                lemma_pos_to_index(columns as int, to_row as int, column as int, row as int);
                vstd::arithmetic::mul::lemma_mul_is_commutative(row as int, columns as int);
            }
            cells.push(cell);
            column = column + 1;
        }
        row = row + 1;
        proof {
            vstd::arithmetic::mul::lemma_mul_is_distributive_add(columns as int, row as int - 1, 1);
        }
    }
}

/// Builds the row-major vector of placeholder cells for a fresh rectangle.
fn stamped_cells(columns: u32, rows: u32) -> (result: Vec<Cell>)
    requires
        columns as int * rows as int <= usize::MAX,
    ensures
        result@.len() == columns as int * rows as int,
        forall|i: int|
            0 <= i < result@.len() ==> (#[trigger] result@[i])@ == spec_empty_cell(
                i % columns as int,
                i / columns as int,
            ),
{
    let mut cells: Vec<Cell> = Vec::new();
    append_stamped_rows(&mut cells, columns, 0, rows);
    cells
}


/// Contents of slot `j` of the reallocation target while the first `i` old
/// buffer slots (stride `bcols`) have been copied over (stride `nbcols`).
spec fn realloc_slot(cells_old: Seq<Cell>, bcols: int, nbcols: int, i: int, j: int) -> CellV {
    let col = j % nbcols;
    let row = j / nbcols;
    if 0 <= col < bcols && row * bcols + col < i {
        cells_old[row * bcols + col]@
    } else {
        spec_empty_cell(col, row)
    }
}

/// What slot `j` must hold once the insertion of `c` into a grid that
/// looked like `g` has finished, at the new stride `nbcols`.
spec fn inserted_slot(g: GridV, c: CellV, nbcols: int, j: int) -> CellV {
    let col = j % nbcols;
    let row = j / nbcols;
    if col == c.column && row == c.row {
        c
    } else if in_rect((col, row), g.cols, g.rows) {
        g.at[(col, row)]
    } else {
        spec_empty_cell(col, row)
    }
}

impl Spreadsheet {
    /// Every cell the view shows within the logical rectangle is stamped
    /// with its own position.
    proof fn lemma_view_stamped(self)
        requires
            self.wf(),
        ensures
            forall|p: (int, int)|
                in_rect(p, self@.cols, self@.rows) ==> {
                    &&& (#[trigger] self@.at[p]).column == p.0
                    &&& self@.at[p].row == p.1
                },
    {
        assert forall|p: (int, int)| in_rect(p, self@.cols, self@.rows) implies {
            &&& (#[trigger] self@.at[p]).column == p.0
            &&& self@.at[p].row == p.1
        } by {
            lemma_pos_to_index(self@.bcols, self@.brows, p.0, p.1);
        }
    }

    /// Ties the branch-specific buffer characterizations back to `wf` and
    /// the view-level `spec_insert` contract.
    proof fn lemma_insert_finish(self, g: GridV, c: CellV)
        requires
            0 <= c.column < u32::MAX,
            0 <= c.row < u32::MAX,
            0 <= g.cols <= g.bcols,
            0 <= g.rows <= g.brows,
            forall|p: (int, int)|
                in_rect(p, g.cols, g.rows) ==> {
                    &&& (#[trigger] g.at[p]).column == p.0
                    &&& g.at[p].row == p.1
                },
            self@.cols == spec_insert(g, c).cols,
            self@.rows == spec_insert(g, c).rows,
            self@.bcols == spec_insert(g, c).bcols,
            self@.brows == spec_insert(g, c).brows,
            self.cells@.len() == self@.bcols * self@.brows,
            forall|j: int|
                0 <= j < self.cells@.len() ==> (#[trigger] self.cells@[j])@ == inserted_slot(
                    g,
                    c,
                    self@.bcols,
                    j,
                ),
        ensures
            self.wf(),
            self@ == spec_insert(g, c),
    {
        let target = spec_insert(g, c);
        let nbc = target.bcols;
        let nbr = target.brows;
        assert(nbc >= c.column + 1 && nbr >= c.row + 1);
        assert(target.cols <= nbc && target.rows <= nbr);
        assert(nbc >= 1 && nbr >= 1 && target.cols >= 1 && target.rows >= 1);
        assert(nbc * nbr >= 1) by (nonlinear_arith)
            requires
                nbc >= 1,
                nbr >= 1,
        ;
        // The well-formedness invariant.
        assert forall|i: int| 0 <= i < self.cells@.len() implies slot_ok(
            (#[trigger] self.cells@[i])@,
            i,
            nbc,
            self@.cols,
            self@.rows,
        ) by {
            lemma_index_to_pos(nbc, nbr, i);
            let col = i % nbc;
            let row = i / nbc;
            if col == c.column && row == c.row {
            } else if in_rect((col, row), g.cols, g.rows) {
                assert(g.at[(col, row)].column == col && g.at[(col, row)].row == row);
                assert(in_rect((col, row), target.cols, target.rows));
            }
        }
        assert(self.wf());
        // The view equals the specified insertion, position by position.
        assert forall|p: (int, int)| true implies self@.at[p] == target.at[p] by {
            if in_rect(p, target.cols, target.rows) {
                lemma_pos_to_index(nbc, nbr, p.0, p.1);
                let j = p.1 * nbc + p.0;
                assert(self@.at[p] == self.cells@[j]@);
                assert(self.cells@[j]@ == inserted_slot(g, c, nbc, j));
            } else {
                assert(!(p == (c.column, c.row)));
                assert(!in_rect(p, g.cols, g.rows));
            }
        }
        assert(self@.at =~= target.at);
        assert(self@ =~= target);
    }

    /// The general-purpose, capacity-unaware insertion path; see
    /// [`spec_insert`] for what it does.  The incoming cell's position and
    /// the buffer the growth step asks for must be within machine limits
    /// ([`spec_can_insert`]); [`Spreadsheet::try_insert`] checks that at
    /// run time instead.
    pub fn insert(&mut self, cell: Cell)
        requires
            old(self).wf(),
            spec_can_insert(old(self)@, cell@),
        ensures
            final(self).wf(),
            final(self)@ == spec_insert(old(self)@, cell@),
    {
        let col = cell.column();
        let row = cell.row();
        let new_cols: u32 = if self.columns < col + 1 {
            col + 1
        } else {
            self.columns
        };
        let new_rows: u32 = if self.rows < row + 1 {
            row + 1
        } else {
            self.rows
        };
        let bc = self.buffer_columns;
        let br = self.buffer_rows;
        let ghost g = old(self)@;
        let ghost target = spec_insert(old(self)@, cell@);
        proof {
            old(self).lemma_view_stamped();
        }
        if bc < col + 1 {
            // The row stride changes: reallocate to an exact fit and copy
            // every existing cell into its recomputed slot.
            let nbc: u32 = col + 1;
            let nbr: u32 = if br < row + 1 {
                row + 1
            } else {
                br
            };
            proof {
                assert(target.bcols == nbc as int && target.brows == nbr as int);
            }
            let ghost cells0 = self.cells@;
            let mut ncells = stamped_cells(nbc, nbr);
            let old_len = self.cells.len();
            proof {
                assert forall|j: int| 0 <= j < ncells@.len() implies (#[trigger] ncells@[j])@
                    == realloc_slot(cells0, bc as int, nbc as int, 0, j) by {
                    lemma_index_to_pos(nbc as int, nbr as int, j);
                    let pcol = j % nbc as int;
                    let prow = j / nbc as int;
                    assert(prow * bc as int >= 0) by (nonlinear_arith)
                        requires
                            prow >= 0,
                            bc >= 0,
                    ;
                }
            }
            let mut i: usize = 0;
            while i < old_len
                invariant
                    *self == *old(self),
                    old(self).wf(),
                    old_len == self.cells@.len(),
                    cells0 == self.cells@,
                    0 <= i <= old_len,
                    bc == self.buffer_columns,
                    br == self.buffer_rows,
                    bc < nbc,
                    br <= nbr,
                    ncells@.len() == nbc as int * nbr as int,
                    forall|j: int|
                        0 <= j < ncells@.len() ==> (#[trigger] ncells@[j])@ == realloc_slot(
                            cells0,
                            bc as int,
                            nbc as int,
                            i as int,
                            j,
                        ),
                decreases old_len - i,
            {
                let c = clone_cell(&self.cells[i]);
                proof {
                    assert(slot_ok(
                        self.cells@[i as int]@,
                        i as int,
                        bc as int,
                        self.columns as int,
                        self.rows as int,
                    ));
                    lemma_index_to_pos(bc as int, br as int, i as int);
                }
                let ccol = c.column();
                let crow = c.row();
                let m = ncells.len();
                proof {
                    lemma_pos_to_index(nbc as int, nbr as int, ccol as int, crow as int);
                    assert((crow as int) * (nbc as int) + (ccol as int) < (m as int));
                }
                let j0: usize = (crow as usize) * (nbc as usize) + (ccol as usize);
                let ghost ncells_pre = ncells@;
                ncells[j0] = c;
                proof {
                    assert forall|j: int| 0 <= j < ncells@.len() implies (#[trigger] ncells@[j])@
                        == realloc_slot(cells0, bc as int, nbc as int, i + 1, j) by {
                        let pcol = j % nbc as int;
                        let prow = j / nbc as int;
                        lemma_index_to_pos(nbc as int, nbr as int, j);
                        if j == j0 as int {
                            assert(pcol == ccol as int && prow == crow as int);
                            assert((prow * bc as int + pcol) == i as int);
                        } else {
                            assert(ncells@[j] == ncells_pre[j]);
                            if 0 <= pcol < bc && prow * bc as int + pcol == i as int {
                                lemma_fundamental_div_mod_converse(
                                    i as int,
                                    bc as int,
                                    prow,
                                    pcol,
                                );
                                assert(pcol == ccol as int && prow == crow as int);
                                lemma_pos_to_index(nbc as int, nbr as int, pcol, prow);
                                assert(j == j0 as int);
                            }
                        }
                    }
                }
                i = i + 1;
            }
            let m2 = ncells.len();
            proof {
                lemma_pos_to_index(nbc as int, nbr as int, col as int, row as int);
                assert((row as int) * (nbc as int) + (col as int) < (m2 as int));
            }
            let j2: usize = (row as usize) * (nbc as usize) + (col as usize);
            ncells[j2] = cell;
            self.cells = ncells;
            self.buffer_columns = nbc;
            self.buffer_rows = nbr;
            self.columns = new_cols;
            self.rows = new_rows;
            proof {
                assert forall|j: int| 0 <= j < self.cells@.len() implies (#[trigger] self.cells@[j])@
                    == inserted_slot(g, cell@, nbc as int, j) by {
                    let pcol = j % nbc as int;
                    let prow = j / nbc as int;
                    lemma_index_to_pos(nbc as int, nbr as int, j);
                    if j == j2 as int {
                        assert(pcol == col as int && prow == row as int);
                    } else {
                        assert(self.cells@[j]@ == realloc_slot(cells0, bc as int, nbc as int, old_len as int, j));
                        if 0 <= pcol < bc && prow * bc as int + pcol < old_len as int {
                            let oi = prow * bc as int + pcol;
                            lemma_row_bound(bc as int, br as int, pcol, prow, old_len as int);
                            lemma_pos_to_index(bc as int, br as int, pcol, prow);
                            assert(slot_ok(
                                cells0[oi]@,
                                oi,
                                bc as int,
                                g.cols,
                                g.rows,
                            ));
                            if in_rect((pcol, prow), g.cols, g.rows) {
                                assert(g.at[(pcol, prow)] == cells0[oi]@);
                            } else {
                                assert(cells0[oi]@ == spec_empty_cell(pcol, prow));
                            }
                        } else {
                            if in_rect((pcol, prow), g.cols, g.rows) {
                                lemma_pos_to_index(bc as int, br as int, pcol, prow);
                            }
                        }
                    }
                }
                self.lemma_insert_finish(g, cell@);
            }
        } else if br < row + 1 {
            // Only rows overflow: grow speculatively by doubling (capped),
            // appending fully stamped placeholder rows in place.
            let doubled: u64 = 2 * (br as u64);
            let capped: u32 = if doubled > u32::MAX as u64 {
                u32::MAX
            } else {
                doubled as u32
            };
            let nbr: u32 = if capped < row + 1 {
                row + 1
            } else {
                capped
            };
            proof {
                assert(target.bcols == bc as int && target.brows == nbr as int);
                assert(bc as int * nbr as int <= usize::MAX);
            }
            let ghost cells0 = self.cells@;
            append_stamped_rows(&mut self.cells, bc, br, nbr);
            proof {
                lemma_pos_to_index(bc as int, nbr as int, col as int, row as int);
            }
            let n = self.cells.len();
            proof {
                assert((row as int) * (bc as int) + (col as int) < (n as int));
            }
            let j2: usize = (row as usize) * (bc as usize) + (col as usize);
            self.cells[j2] = cell;
            self.buffer_rows = nbr;
            self.columns = new_cols;
            self.rows = new_rows;
            proof {
                assert forall|j: int| 0 <= j < self.cells@.len() implies (#[trigger] self.cells@[j])@
                    == inserted_slot(g, cell@, bc as int, j) by {
                    let pcol = j % bc as int;
                    let prow = j / bc as int;
                    lemma_index_to_pos(bc as int, nbr as int, j);
                    if j == j2 as int {
                        assert(pcol == col as int && prow == row as int);
                    } else if j < cells0.len() {
                        assert(self.cells@[j] == cells0[j]);
                        lemma_index_to_pos(bc as int, br as int, j);
                        assert(slot_ok(cells0[j]@, j, bc as int, g.cols, g.rows));
                        if in_rect((pcol, prow), g.cols, g.rows) {
                            lemma_pos_to_index(bc as int, br as int, pcol, prow);
                            assert(g.at[(pcol, prow)] == cells0[j]@);
                        }
                    } else {
                        assert(self.cells@[j]@ == spec_empty_cell(pcol, prow));
                        if in_rect((pcol, prow), g.cols, g.rows) {
                            lemma_pos_to_index(bc as int, br as int, pcol, prow);
                            assert(j < cells0.len());
                        }
                    }
                }
                self.lemma_insert_finish(g, cell@);
            }
        } else {
            // The cell fits in the current buffer: direct write.
            proof {
                assert(target.bcols == bc as int && target.brows == br as int);
                lemma_pos_to_index(bc as int, br as int, col as int, row as int);
            }
            let n = self.cells.len();
            proof {
                assert((row as int) * (bc as int) + (col as int) < (n as int));
            }
            let j2: usize = (row as usize) * (bc as usize) + (col as usize);
            let ghost cells0 = self.cells@;
            self.cells[j2] = cell;
            self.columns = new_cols;
            self.rows = new_rows;
            proof {
                assert forall|j: int| 0 <= j < self.cells@.len() implies (#[trigger] self.cells@[j])@
                    == inserted_slot(g, cell@, bc as int, j) by {
                    let pcol = j % bc as int;
                    let prow = j / bc as int;
                    lemma_index_to_pos(bc as int, br as int, j);
                    if j == j2 as int {
                        assert(pcol == col as int && prow == row as int);
                    } else {
                        assert(self.cells@[j] == cells0[j]);
                        assert(slot_ok(cells0[j]@, j, bc as int, g.cols, g.rows));
                        if in_rect((pcol, prow), g.cols, g.rows) {
                            lemma_pos_to_index(bc as int, br as int, pcol, prow);
                            assert(g.at[(pcol, prow)] == cells0[j]@);
                        } else if pcol == col as int && prow == row as int {
                            lemma_pos_to_index(bc as int, br as int, pcol, prow);
                            assert(j == j2 as int);
                        }
                    }
                }
                self.lemma_insert_finish(g, cell@);
            }
        }
    }

    /// Checked insertion: inserts when [`spec_can_insert`] holds of the
    /// cell and reports whether it did; an oversized cell leaves the grid
    /// untouched.
    pub fn try_insert(&mut self, cell: Cell) -> (ok: bool)
        requires
            old(self).wf(),
        ensures
            final(self).wf(),
            ok == spec_can_insert(old(self)@, cell@),
            ok ==> final(self)@ == spec_insert(old(self)@, cell@),
            !ok ==> *final(self) == *old(self),
    {
        let col = cell.column();
        let row = cell.row();
        if col == u32::MAX || row == u32::MAX {
            return false;
        }
        let bc = self.buffer_columns;
        let br = self.buffer_rows;
        let nbc: u32 = if bc < col + 1 {
            col + 1
        } else {
            bc
        };
        let nbr: u32 = if bc < col + 1 {
            if br < row + 1 {
                row + 1
            } else {
                br
            }
        } else if br < row + 1 {
            let doubled: u64 = 2 * (br as u64);
            let capped: u32 = if doubled > u32::MAX as u64 {
                u32::MAX
            } else {
                doubled as u32
            };
            if capped < row + 1 {
                row + 1
            } else {
                capped
            }
        } else {
            br
        };
        proof {
            assert(nbc as int == spec_insert(self@, cell@).bcols);
            assert(nbr as int == spec_insert(self@, cell@).brows);
        }
        proof {
            assert((nbc as int) * (nbr as int) < 18446744073709551616) by (nonlinear_arith)
                requires
                    0 <= nbc as int <= 4294967295,
                    0 <= nbr as int <= 4294967295,
            ;
        }
        if (nbc as u64) * (nbr as u64) > usize::MAX as u64 {
            return false;
        }
        self.insert(cell);
        true
    }

    /// Direct write for a buffer already sized to fit: the cell must lie
    /// within the logical extents, which stay as they are.
    pub fn insert_exact(&mut self, cell: Cell)
        requires
            old(self).wf(),
            cell@.column < old(self)@.cols,
            cell@.row < old(self)@.rows,
        ensures
            final(self).wf(),
            final(self)@.cols == old(self)@.cols,
            final(self)@.rows == old(self)@.rows,
            final(self)@.bcols == old(self)@.bcols,
            final(self)@.brows == old(self)@.brows,
            final(self)@.at == old(self)@.at.insert((cell@.column, cell@.row), cell@),
    {
        let col = cell.column();
        let row = cell.row();
        proof {
            lemma_pos_to_index(
                self.buffer_columns as int,
                self.buffer_rows as int,
                col as int,
                row as int,
            );
        }
        let n = self.cells.len();
        proof {
            assert((row as int) * (self.buffer_columns as int) + (col as int) < (n as int));
        }
        let j: usize = (row as usize) * (self.buffer_columns as usize) + (col as usize);
        let ghost cells0 = self.cells@;
        self.cells[j] = cell;
        proof {
            let bc = self.buffer_columns as int;
            let br = self.buffer_rows as int;
            assert forall|i: int| 0 <= i < self.cells@.len() implies slot_ok(
                (#[trigger] self.cells@[i])@,
                i,
                bc,
                self.columns as int,
                self.rows as int,
            ) by {
                if i != j as int {
                    assert(self.cells@[i] == cells0[i]);
                    assert(slot_ok(cells0[i]@, i, bc, self.columns as int, self.rows as int));
                }
            }
            assert forall|p: (int, int)| true implies self@.at[p] == old(self)@.at.insert(
                (cell@.column, cell@.row),
                cell@,
            )[p] by {
                if p == (cell@.column, cell@.row) {
                } else if in_rect(p, self.columns as int, self.rows as int) {
                    lemma_pos_to_index(bc, br, p.0, p.1);
                    assert(p.1 * bc + p.0 != j as int);
                    assert(self.cells@[p.1 * bc + p.0] == cells0[p.1 * bc + p.0]);
                }
            }
            assert(self@.at =~= old(self)@.at.insert((cell@.column, cell@.row), cell@));
        }
    }
}

/// Within a buffer of `bcols * brows` cells, a decoded position's row is
/// below `brows`.
proof fn lemma_row_bound(bcols: int, brows: int, col: int, row: int, len: int)
    requires
        bcols > 0,
        0 <= col < bcols,
        row >= 0,
        row * bcols + col < len,
        len == bcols * brows,
    ensures
        row < brows,
{
    if row >= brows {
        lemma_mul_inequality(brows, row, bcols);
        vstd::arithmetic::mul::lemma_mul_is_commutative(brows, bcols);
    }
}

/// Clones one cell, preserving it exactly.
fn clone_cell(cell: &Cell) -> (result: Cell)
    ensures
        result == *cell,
{
    cell.clone()
}


/// Position to linear index: within the buffer rectangle, the index
/// `row * bcols + col` is in range and decodes back to `(col, row)`.
pub proof fn lemma_pos_to_index(bcols: int, brows: int, col: int, row: int)
    requires
        0 <= col < bcols,
        0 <= row < brows,
    ensures
        0 <= row * bcols + col < bcols * brows,
        (row * bcols + col) % bcols == col,
        (row * bcols + col) / bcols == row,
{
    lemma_mul_inequality(row + 1, brows, bcols);
    vstd::arithmetic::mul::lemma_mul_is_distributive_add_other_way(bcols, row, 1);
    vstd::arithmetic::mul::lemma_mul_is_commutative(row + 1, bcols);
    vstd::arithmetic::mul::lemma_mul_is_commutative(brows, bcols);
    assert(row * bcols >= 0) by (nonlinear_arith)
        requires
            row >= 0,
            bcols >= 0,
    ;
    lemma_fundamental_div_mod_converse(row * bcols + col, bcols, row, col);
}

/// Linear index to position: any in-range buffer index decodes to a
/// position within the buffer rectangle.
pub proof fn lemma_index_to_pos(bcols: int, brows: int, i: int)
    requires
        bcols > 0,
        brows >= 0,
        0 <= i < bcols * brows,
    ensures
        0 <= i % bcols < bcols,
        0 <= i / bcols < brows,
        (i / bcols) * bcols + (i % bcols) == i,
{
    lemma_fundamental_div_mod(i, bcols);
    vstd::arithmetic::mul::lemma_mul_is_commutative(bcols, i / bcols);
    if i / bcols >= brows {
        lemma_mul_inequality(brows, i / bcols, bcols);
        vstd::arithmetic::mul::lemma_mul_is_commutative(brows, bcols);
    }
    if i / bcols < 0 {
        lemma_mul_inequality(i / bcols, -1, bcols);
    }
}


/// Inserting a single cell into an empty grid makes the logical size
/// exactly one past the cell's position — never more, never less.
pub proof fn lemma_single_insert_size(c: CellV)
    requires
        0 <= c.column,
        0 <= c.row,
    ensures
        spec_insert(empty_grid(), c).cols == c.column + 1,
        spec_insert(empty_grid(), c).rows == c.row + 1,
{
}

/// The view after inserting a sequence of cells, in order, into a grid.
pub open spec fn grid_after(g: GridV, s: Seq<CellV>) -> GridV
    decreases s.len(),
{
    if s.len() == 0 {
        g
    } else {
        spec_insert(grid_after(g, s.drop_last()), s.last())
    }
}

/// Every cell of the sequence has a non-negative position.
pub open spec fn positions_valid(s: Seq<CellV>) -> bool {
    forall|k: int| 0 <= k < s.len() ==> 0 <= (#[trigger] s[k]).column && 0 <= s[k].row
}

/// No two cells of the sequence share a position.
pub open spec fn positions_distinct(s: Seq<CellV>) -> bool {
    forall|k1: int, k2: int|
        0 <= k1 < k2 < s.len() ==> ((#[trigger] s[k1]).column != (#[trigger] s[k2]).column
            || s[k1].row != s[k2].row)
}

/// Characterizes the grid built by inserting a position-distinct sequence
/// of cells into an empty grid: the logical extents are exactly one past
/// the largest occupied coordinates, every inserted cell is found at its
/// position, and every other position holds an empty placeholder.
pub proof fn lemma_grid_after_props(s: Seq<CellV>)
    requires
        positions_valid(s),
        positions_distinct(s),
    ensures
        ({
            let g = grid_after(empty_grid(), s);
            &&& g.cols >= 0 && g.rows >= 0
            &&& forall|k: int|
                0 <= k < s.len() ==> (#[trigger] s[k]).column + 1 <= g.cols && s[k].row + 1
                    <= g.rows
            &&& g.cols == 0 || exists|k: int| 0 <= k < s.len() && (#[trigger] s[k]).column + 1 == g.cols
            &&& g.rows == 0 || exists|k: int| 0 <= k < s.len() && (#[trigger] s[k]).row + 1 == g.rows
            &&& forall|k: int|
                0 <= k < s.len() ==> g.at[((#[trigger] s[k]).column, s[k].row)] == s[k]
            &&& forall|p: (int, int)|
                (forall|k: int|
                    0 <= k < s.len() ==> ((#[trigger] s[k]).column, s[k].row) != p) ==> #[trigger] g.at[p]
                    == spec_empty_cell(p.0, p.1)
        }),
    decreases s.len(),
{
    if s.len() == 0 {
    } else {
        let s0 = s.drop_last();
        let x = s.last();
        let last = s.len() - 1;
        assert(positions_valid(s0));
        assert(positions_distinct(s0));
        lemma_grid_after_props(s0);
        let g0 = grid_after(empty_grid(), s0);
        let g = grid_after(empty_grid(), s);
        assert(g == spec_insert(g0, x));
        assert(x.column >= 0 && x.row >= 0);
        assert forall|k: int|
            0 <= k < s.len() implies (#[trigger] s[k]).column + 1 <= g.cols && s[k].row + 1
            <= g.rows by {
            if k < last {
                assert(s0[k] == s[k]);
            }
        }
        assert(g.cols == 0 || exists|k: int| 0 <= k < s.len() && (#[trigger] s[k]).column + 1 == g.cols)
            by {
            if g.cols == x.column + 1 {
                assert(0 <= last < s.len() && s[last].column + 1 == g.cols);
            } else {
                assert(g.cols == g0.cols && g0.cols != 0);
                let k = choose|k: int| 0 <= k < s0.len() && (#[trigger] s0[k]).column + 1 == g0.cols;
                assert(s[k] == s0[k]);
                assert(0 <= k < s.len() && s[k].column + 1 == g.cols);
            }
        }
        assert(g.rows == 0 || exists|k: int| 0 <= k < s.len() && (#[trigger] s[k]).row + 1 == g.rows)
            by {
            if g.rows == x.row + 1 {
                assert(0 <= last < s.len() && s[last].row + 1 == g.rows);
            } else {
                assert(g.rows == g0.rows && g0.rows != 0);
                let k = choose|k: int| 0 <= k < s0.len() && (#[trigger] s0[k]).row + 1 == g0.rows;
                assert(s[k] == s0[k]);
                assert(0 <= k < s.len() && s[k].row + 1 == g.rows);
            }
        }
        assert forall|k: int|
            0 <= k < s.len() implies g.at[((#[trigger] s[k]).column, s[k].row)] == s[k] by {
            if k == last {
                assert(g.at[(x.column, x.row)] == x);
            } else {
                assert(s0[k] == s[k]);
                assert((s[k].column, s[k].row) != (x.column, x.row));
                assert(in_rect((s[k].column, s[k].row), g0.cols, g0.rows));
                assert(g0.at[(s[k].column, s[k].row)] == s[k]);
            }
        }
        assert forall|p: (int, int)|
            (forall|k: int|
                0 <= k < s.len() ==> ((#[trigger] s[k]).column, s[k].row) != p) implies #[trigger] g.at[p]
            == spec_empty_cell(p.0, p.1) by {
            assert((s[last].column, s[last].row) != p);
            assert forall|k: int| 0 <= k < s0.len() implies ((#[trigger] s0[k]).column, s0[k].row)
                != p by {
                assert(s0[k] == s[k]);
            }
            assert(g0.at[p] == spec_empty_cell(p.0, p.1));
        }
    }
}

/// Extracts an index from a containment fact.
proof fn index_of_contained(s: Seq<CellV>, x: CellV) -> (i: int)
    requires
        s.contains(x),
    ensures
        0 <= i < s.len() && s[i] == x,
{
    choose|i: int| 0 <= i < s.len() && s[i] == x
}

/// Two sequences with the same multiset contain the same cells.
proof fn lemma_same_multiset_contains(s1: Seq<CellV>, s2: Seq<CellV>)
    requires
        s1.to_multiset() == s2.to_multiset(),
    ensures
        forall|c: CellV| #[trigger] s1.contains(c) <==> #[trigger] s2.contains(c),
{
    broadcast use vstd::seq_lib::group_to_multiset_ensures;

    assert forall|c: CellV| #[trigger] s1.contains(c) <==> #[trigger] s2.contains(c) by {
        assert(s1.contains(c) <==> s1.to_multiset().count(c) > 0);
        assert(s2.contains(c) <==> s2.to_multiset().count(c) > 0);
    }
}

/// Inserting the same set of position-distinct cells in any order yields a
/// grid with the same logical extents and the same cell at every position:
/// reading `row` or `column` afterwards cannot tell the orders apart.
pub proof fn lemma_insert_order_irrelevant(s1: Seq<CellV>, s2: Seq<CellV>)
    requires
        positions_valid(s1),
        positions_distinct(s1),
        s1.to_multiset() == s2.to_multiset(),
    ensures
        grid_after(empty_grid(), s1).cols == grid_after(empty_grid(), s2).cols,
        grid_after(empty_grid(), s1).rows == grid_after(empty_grid(), s2).rows,
        grid_after(empty_grid(), s1).at == grid_after(empty_grid(), s2).at,
{
    lemma_same_multiset_contains(s1, s2);
    assert(positions_valid(s2)) by {
        assert forall|k: int| 0 <= k < s2.len() implies 0 <= (#[trigger] s2[k]).column && 0
            <= s2[k].row by {
            assert(s2.contains(s2[k]));
            assert(s1.contains(s2[k]));
            let i = index_of_contained(s1, s2[k]);
        }
    }
    assert(s1.no_duplicates()) by {
        assert forall|i: int, j: int|
            0 <= i < s1.len() && 0 <= j < s1.len() && i != j implies s1[i] != s1[j] by {
            if i < j {
                assert(s1[i].column != s1[j].column || s1[i].row != s1[j].row);
            } else {
                assert(s1[j].column != s1[i].column || s1[j].row != s1[i].row);
            }
        }
    }
    assert(positions_distinct(s2)) by {
        s1.lemma_multiset_has_no_duplicates();
        s2.lemma_multiset_has_no_duplicates_conv();
        assert forall|k1: int, k2: int|
            0 <= k1 < k2 < s2.len() implies ((#[trigger] s2[k1]).column != (#[trigger] s2[k2]).column
            || s2[k1].row != s2[k2].row) by {
            let a = s2[k1];
            let b = s2[k2];
            assert(a != b);
            if a.column == b.column && a.row == b.row {
                assert(s2.contains(a) && s2.contains(b));
                assert(s1.contains(a) && s1.contains(b));
                let i1 = index_of_contained(s1, a);
                let i2 = index_of_contained(s1, b);
                assert(i1 != i2);
                if i1 < i2 {
                    assert(s1[i1].column != s1[i2].column || s1[i1].row != s1[i2].row);
                } else {
                    assert(s1[i2].column != s1[i1].column || s1[i2].row != s1[i1].row);
                }
                assert(false);
            }
        }
    }
    lemma_grid_after_props(s1);
    lemma_grid_after_props(s2);
    let g1 = grid_after(empty_grid(), s1);
    let g2 = grid_after(empty_grid(), s2);
    assert(g1.cols == g2.cols) by {
        if g1.cols > g2.cols {
            let k = choose|k: int| 0 <= k < s1.len() && (#[trigger] s1[k]).column + 1 == g1.cols;
            assert(s1.contains(s1[k]));
            assert(s2.contains(s1[k]));
            let j = index_of_contained(s2, s1[k]);
            assert(s2[j].column + 1 <= g2.cols);
            assert(false);
        }
        if g2.cols > g1.cols {
            let k = choose|k: int| 0 <= k < s2.len() && (#[trigger] s2[k]).column + 1 == g2.cols;
            assert(s2.contains(s2[k]));
            assert(s1.contains(s2[k]));
            let j = index_of_contained(s1, s2[k]);
            assert(s1[j].column + 1 <= g1.cols);
            assert(false);
        }
    }
    assert(g1.rows == g2.rows) by {
        if g1.rows > g2.rows {
            let k = choose|k: int| 0 <= k < s1.len() && (#[trigger] s1[k]).row + 1 == g1.rows;
            assert(s1.contains(s1[k]));
            assert(s2.contains(s1[k]));
            let j = index_of_contained(s2, s1[k]);
            assert(s2[j].row + 1 <= g2.rows);
            assert(false);
        }
        if g2.rows > g1.rows {
            let k = choose|k: int| 0 <= k < s2.len() && (#[trigger] s2[k]).row + 1 == g2.rows;
            assert(s2.contains(s2[k]));
            assert(s1.contains(s2[k]));
            let j = index_of_contained(s1, s2[k]);
            assert(s1[j].row + 1 <= g1.rows);
            assert(false);
        }
    }
    assert forall|p: (int, int)| true implies #[trigger] g1.at[p] == g2.at[p] by {
        if exists|k: int| 0 <= k < s1.len() && ((#[trigger] s1[k]).column, s1[k].row) == p {
            let k = choose|k: int| 0 <= k < s1.len() && ((#[trigger] s1[k]).column, s1[k].row) == p;
            let c = s1[k];
            assert(g1.at[p] == c);
            assert(s1.contains(c));
            assert(s2.contains(c));
            let j = index_of_contained(s2, c);
            assert(g2.at[(s2[j].column, s2[j].row)] == s2[j]);
            assert(g2.at[p] == c);
        } else {
            assert forall|k: int| 0 <= k < s1.len() implies ((#[trigger] s1[k]).column, s1[k].row)
                != p by {
                if (s1[k].column, s1[k].row) == p {
                    assert(exists|k2: int|
                        0 <= k2 < s1.len() && ((#[trigger] s1[k2]).column, s1[k2].row) == p);
                    assert(false);
                }
            }
            assert(g1.at[p] == spec_empty_cell(p.0, p.1));
            assert forall|k: int| 0 <= k < s2.len() implies ((#[trigger] s2[k]).column, s2[k].row)
                != p by {
                if (s2[k].column, s2[k].row) == p {
                    assert(s2.contains(s2[k]));
                    assert(s1.contains(s2[k]));
                    let j = index_of_contained(s1, s2[k]);
                    assert(((s1[j].column, s1[j].row)) == p);
                    assert(exists|k2: int|
                        0 <= k2 < s1.len() && ((#[trigger] s1[k2]).column, s1[k2].row) == p);
                    assert(false);
                }
            }
            assert(g2.at[p] == spec_empty_cell(p.0, p.1));
        }
    }
    assert(g1.at =~= g2.at);
}


/// A cursor over the logical rows of a grid, front to back.
pub struct Rows<'a> {
    spreadsheet: &'a Spreadsheet,
    row: u32,
}

/// One logical row: its run of cells and its index.
pub struct Row<'a> {
    cells: &'a [Cell],
    columns: u32,
    row: u32,
}

/// A cursor down one column of a grid, top to bottom.
pub struct Column<'a> {
    spreadsheet: &'a Spreadsheet,
    column: u32,
    row: u32,
}

impl<'a> Rows<'a> {
    /// The grid being walked is well formed.
    pub closed spec fn wf(self) -> bool {
        self.spreadsheet.wf()
    }

    /// The grid being walked.
    pub closed spec fn grid(self) -> GridV {
        self.spreadsheet@
    }

    /// The next row to be handed out.
    pub closed spec fn at_row(self) -> int {
        self.row as int
    }

    /// Starts a walk at the first row.
    pub fn over(spreadsheet: &'a Spreadsheet) -> (result: Rows<'a>)
        requires
            spreadsheet.wf(),
        ensures
            result.wf(),
            result.grid() == spreadsheet@,
            result.at_row() == 0,
    {
        Rows { spreadsheet, row: 0 }
    }

    /// Hands out the next row and advances, absent once the logical rows
    /// are exhausted.
    pub fn next(&mut self) -> (result: Option<Row<'a>>)
        requires
            old(self).wf(),
        ensures
            final(self).wf(),
            final(self).grid() == old(self).grid(),
            result is Some <==> (old(self).grid().cols > 0 && old(self).at_row() < old(
                self,
            ).grid().rows),
            result matches Some(r) ==> {
                &&& final(self).at_row() == old(self).at_row() + 1
                &&& r.index() == old(self).at_row()
                &&& r.cell_count() == old(self).grid().cols
                &&& forall|i: int|
                    0 <= i < r.cell_count() ==> r.cell_view(i) == old(self).grid().at[
                        (i, old(self).at_row())
                    ]
            },
            result is None ==> *final(self) == *old(self),
    {
        match self.spreadsheet.row(self.row) {
            Some(cells) => {
                let row = Row { cells, columns: self.spreadsheet.size().0, row: self.row };
                self.row = self.row + 1;
                Some(row)
            },
            None => None,
        }
    }
}

impl<'a> Row<'a> {
    /// The row's index.
    pub closed spec fn index(self) -> int {
        self.row as int
    }

    /// How many cells the row holds.
    pub closed spec fn cell_count(self) -> int {
        self.cells@.len() as int
    }

    /// The cell at one column of this row.
    pub closed spec fn cell_view(self, i: int) -> CellV {
        self.cells@[i]@
    }

    /// The cell at the given column, absent past the row's end.
    pub fn column(&self, column: usize) -> (result: Option<&Cell>)
        ensures
            result is Some <==> column < self.cell_count(),
            result matches Some(c) ==> c@ == self.cell_view(column as int),
    {
        if column < self.cells.len() {
            Some(vstd::slice::slice_index_get(self.cells, column))
        } else {
            None
        }
    }

    /// The row's run of cells.
    pub fn cells(&self) -> (result: &'a [Cell])
        ensures
            result@.len() == self.cell_count(),
            forall|i: int| 0 <= i < result@.len() ==> (#[trigger] result@[i])@ == self.cell_view(i),
    {
        self.cells
    }
}

impl<'a> Column<'a> {
    /// The grid being walked is well formed.
    pub closed spec fn wf(self) -> bool {
        self.spreadsheet.wf()
    }

    /// The grid being walked.
    pub closed spec fn grid(self) -> GridV {
        self.spreadsheet@
    }

    /// The column being walked.
    pub closed spec fn at_column(self) -> int {
        self.column as int
    }

    /// The next row to be handed out.
    pub closed spec fn at_row(self) -> int {
        self.row as int
    }

    /// Starts a walk down one column at the given row.
    pub fn over(spreadsheet: &'a Spreadsheet, column: u32, row: u32) -> (result: Column<'a>)
        requires
            spreadsheet.wf(),
        ensures
            result.wf(),
            result.grid() == spreadsheet@,
            result.at_column() == column,
            result.at_row() == row,
    {
        Column { spreadsheet, column, row }
    }

    /// Hands out the cell at the current row and advances, absent once
    /// the walk leaves the logical extents.
    pub fn next(&mut self) -> (result: Option<&'a Cell>)
        requires
            old(self).wf(),
        ensures
            final(self).wf(),
            final(self).grid() == old(self).grid(),
            final(self).at_column() == old(self).at_column(),
            result is Some <==> (old(self).at_column() < old(self).grid().cols && old(
                self,
            ).at_row() < old(self).grid().rows),
            result matches Some(c) ==> {
                &&& c@ == old(self).grid().at[(old(self).at_column(), old(self).at_row())]
                &&& final(self).at_row() == old(self).at_row() + 1
            },
            result is None ==> *final(self) == *old(self),
    {
        match self.spreadsheet.column(self.column, self.row) {
            Some(cell) => {
                self.row = self.row + 1;
                Some(cell)
            },
            None => None,
        }
    }
}

} // verus!
