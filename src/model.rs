//! The mathematical model of a grid: a row-major sequence of cells with a
//! width and a height, on a torus.
use vstd::prelude::*;

verus! {

/// Position of cell `(row, column)` in the row-major sequence.
pub open spec fn cell_index(width: int, row: int, column: int) -> int {
    row * width + column
}

/// The `k`-th step (k in 0..3) tried along a dimension of size `n`:
/// `n - 1` (one back, modulo `n`), `0`, then `1`.
pub open spec fn wrap_step(k: int, n: int) -> int {
    if k == 0 {
        n - 1
    } else if k == 1 {
        0
    } else {
        1
    }
}

/// Contribution of the neighbour reached by the row step `i` and the column
/// step `j`: 1 when it is Alive, 0 when it is Dead or the steps are both 0.
pub open spec fn neighbor_term(
    cells: Seq<bool>,
    width: int,
    height: int,
    row: int,
    column: int,
    i: int,
    j: int,
) -> int {
    let dr = wrap_step(i, height);
    let dc = wrap_step(j, width);
    if dr == 0 && dc == 0 {
        0
    } else if cells[cell_index(width, (row + dr) % height, (column + dc) % width)] {
        1
    } else {
        0
    }
}

/// Sum of the first `k` of the nine neighbour terms, taken row step by row
/// step, column step by column step.
pub open spec fn neighbor_prefix(
    cells: Seq<bool>,
    width: int,
    height: int,
    row: int,
    column: int,
    k: nat,
) -> int
    decreases k,
{
    if k == 0 {
        0
    } else {
        let m = (k - 1) as nat;
        neighbor_prefix(cells, width, height, row, column, m) + neighbor_term(
            cells,
            width,
            height,
            row,
            column,
            (m / 3) as int,
            (m % 3) as int,
        )
    }
}

/// Number of Alive cells among the eight toroidal neighbours of `(row, column)`.
pub open spec fn neighbor_count(
    cells: Seq<bool>,
    width: int,
    height: int,
    row: int,
    column: int,
) -> int {
    neighbor_prefix(cells, width, height, row, column, 9)
}

/// The state of a cell in the next generation, from its state and its number
/// of live neighbours.
pub open spec fn next_state(alive: bool, live_neighbors: int) -> bool {
    if alive {
        live_neighbors == 2 || live_neighbors == 3
    } else {
        live_neighbors == 3
    }
}

/// The whole next generation of a `width` by `height` grid.
pub open spec fn next_generation(cells: Seq<bool>, width: int, height: int) -> Seq<bool> {
    Seq::new(
        (width * height) as nat,
        |i: int| next_state(cells[i], neighbor_count(cells, width, height, i / width, i % width)),
    )
}

/// A grid of `n` Dead cells.
pub open spec fn all_dead(n: nat) -> Seq<bool> {
    Seq::new(n, |i: int| false)
}

/// The cells after flipping the one at position `i`, if there is one.
pub open spec fn toggled(cells: Seq<bool>, i: int) -> Seq<bool> {
    if 0 <= i < cells.len() {
        cells.update(i, !cells[i])
    } else {
        cells
    }
}

/// The cells after making Alive each cell named in `coords`.
pub open spec fn with_alive(cells: Seq<bool>, width: int, coords: Seq<(u32, u32)>) -> Seq<bool> {
    Seq::new(
        cells.len(),
        |i: int|
            cells[i] || exists|k: int|
                0 <= k < coords.len() && cell_index(width, coords[k].0 as int, coords[k].1 as int)
                    == i,
    )
}

/// The glyph of a cell in the text rendering.
pub open spec fn glyph(alive: bool) -> char {
    if alive {
        '◼'
    } else {
        '◻'
    }
}

/// One rendered row: its glyphs, then a line break.
pub open spec fn row_text(cells: Seq<bool>, width: nat, row: int) -> Seq<char> {
    Seq::new(width, |c: int| glyph(cells[cell_index(width as int, row, c)])).push('\n')
}

/// The first `rows` rendered rows.
pub open spec fn grid_text(cells: Seq<bool>, width: nat, rows: nat) -> Seq<char>
    decreases rows,
{
    if rows == 0 {
        Seq::empty()
    } else {
        grid_text(cells, width, (rows - 1) as nat) + row_text(cells, width, rows - 1)
    }
}

} // verus!
