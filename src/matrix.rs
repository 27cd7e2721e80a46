//! Geometry of the switch matrix and the snapshot that one scan produces: a
//! fixed array with one cell per switch, `true` when the switch is closed,
//! laid out row by row.
use vstd::prelude::*;

verus! {

/// Number of row lines driven by the scanner.
pub const NUM_ROWS: usize = 6;

/// Number of column lines sensed by the scanner.
pub const NUM_COLS: usize = 14;

/// Number of switches in the matrix; a snapshot holds one cell per switch.
pub const NUM_KEYS: usize = 84;

/// Whether `(row, col)` names a switch of the matrix.
pub open spec fn valid_coord(row: int, col: int) -> bool {
    0 <= row < NUM_ROWS && 0 <= col < NUM_COLS
}

/// Whether `s` has the shape of a snapshot: one cell per switch.
pub open spec fn is_snapshot(s: Seq<bool>) -> bool {
    s.len() == NUM_KEYS
}

/// Row-major position of `(row, col)` in a snapshot.
pub open spec fn cell_of(row: int, col: int) -> int {
    row * NUM_COLS + col
}

/// Row of the switch stored at `cell`.
pub open spec fn row_of(cell: int) -> int {
    cell / (NUM_COLS as int)
}

/// Column of the switch stored at `cell`.
pub open spec fn col_of(cell: int) -> int {
    cell % (NUM_COLS as int)
}

/// Row and column of a cell lie in the matrix and lead back to the cell.
pub proof fn lemma_cell_coords(cell: int)
    requires
        0 <= cell < NUM_KEYS,
    ensures
        valid_coord(row_of(cell), col_of(cell)),
        cell_of(row_of(cell), col_of(cell)) == cell,
{
}

/// The cell of a valid coordinate lies in the snapshot and leads back to it.
pub proof fn lemma_coord_cell(row: int, col: int)
    requires
        valid_coord(row, col),
    ensures
        0 <= cell_of(row, col) < NUM_KEYS,
        row_of(cell_of(row, col)) == row,
        col_of(cell_of(row, col)) == col,
{
    assert(0 <= row * 14 + col < 84) by (nonlinear_arith)
        requires
            0 <= row < 6,
            0 <= col < 14,
    ;
    assert((row * 14 + col) / 14 == row && (row * 14 + col) % 14 == col) by (nonlinear_arith)
        requires
            0 <= row < 6,
            0 <= col < 14,
    ;
}

/// Index of the switch at `(row, col)` in a snapshot.
pub fn cell_index(row: usize, col: usize) -> (r: usize)
    requires
        valid_coord(row as int, col as int),
    ensures
        r as int == cell_of(row as int, col as int),
        r < NUM_KEYS,
{
    proof {
        lemma_coord_cell(row as int, col as int);
    }
    row * NUM_COLS + col
}

/// A snapshot in which no switch is closed.
pub fn empty_snapshot() -> (r: [bool; NUM_KEYS])
    ensures
        forall|i: int| 0 <= i < NUM_KEYS ==> !r@[i],
{
    [false; NUM_KEYS]
}

/// Marks the switch at `(row, col)` as closed or open in `snapshot`.
pub fn set_switch(snapshot: &mut [bool; NUM_KEYS], row: usize, col: usize, closed: bool)
    requires
        valid_coord(row as int, col as int),
    ensures
        final(snapshot)@ == old(snapshot)@.update(cell_of(row as int, col as int), closed),
{
    let i = cell_index(row, col);
    snapshot[i] = closed;
}

/// Stores the column levels sampled while `row` was driven low.
///
/// Columns are pulled up, so a closed switch pulls its column low: a cell is
/// closed exactly when its column read low.
pub fn record_row(snapshot: &mut [bool; NUM_KEYS], row: usize, col_levels: &[bool; NUM_COLS])
    requires
        row < NUM_ROWS,
    ensures
        forall|c: int|
            0 <= c < NUM_COLS ==> final(snapshot)@[cell_of(row as int, c)] == !col_levels@[c],
        forall|i: int|
            0 <= i < NUM_KEYS && row_of(i) != row ==> final(snapshot)@[i] == old(snapshot)@[i],
{
    let mut c: usize = 0;
    while c < NUM_COLS
        invariant
            c <= NUM_COLS,
            row < NUM_ROWS,
            forall|k: int| 0 <= k < c ==> snapshot@[cell_of(row as int, k)] == !col_levels@[k],
            forall|i: int|
                0 <= i < NUM_KEYS && !(row_of(i) == row && col_of(i) < c) ==> snapshot@[i]
                    == old(snapshot)@[i],
        decreases NUM_COLS - c,
    {
        let i = cell_index(row, c);
        proof {
            lemma_coord_cell(row as int, c as int);
            assert forall|k: int| 0 <= k < NUM_KEYS && cell_of(row as int, k) == i && 0 <= k < NUM_COLS implies k == c by {
                lemma_coord_cell(row as int, k);
            }
        }
        let ghost prev = snapshot@;
        snapshot[i] = !col_levels[c];
        proof {
            assert(snapshot@ =~= prev.update(i as int, !col_levels@[c as int]));
            assert forall|j: int|
                0 <= j < NUM_KEYS && !(row_of(j) == row && col_of(j) < c + 1) implies snapshot@[j]
                == old(snapshot)@[j] by {
                assert(j != i);
            }
            assert forall|k: int| 0 <= k < c + 1 implies snapshot@[cell_of(row as int, k)] == !col_levels@[k] by {
                lemma_coord_cell(row as int, k);
            }
        }
        c = c + 1;
    }
}

} // verus!
