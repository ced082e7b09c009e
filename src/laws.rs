//! Properties of the grid model that hold across calls.
use crate::model::{
    all_dead, cell_index, glyph, grid_text, neighbor_count, neighbor_prefix,
    next_generation, toggled,
};
use vstd::arithmetic::div_mod::{lemma_fundamental_div_mod, lemma_fundamental_div_mod_converse};
use vstd::prelude::*;

verus! {

/// Clearing a grid twice leaves the same all-Dead grid as clearing it once,
/// and every cell of it is Dead.
pub proof fn lemma_reset_dead_idempotent(cells: Seq<bool>)
    ensures
        all_dead(all_dead(cells.len()).len()) == all_dead(cells.len()),
        forall|i: int| 0 <= i < cells.len() ==> !#[trigger] all_dead(cells.len())[i],
{
}

/// Toggling the same position twice gives back the original cells.
pub proof fn lemma_toggle_twice(cells: Seq<bool>, i: int)
    ensures
        toggled(toggled(cells, i), i) == cells,
{
    assert(toggled(toggled(cells, i), i) =~= cells);
}

/// The rendering of a `width` by `height` grid has `height` lines of
/// `width` glyphs each: the glyph of cell `(r, c)` stands at `r * (width + 1) + c`
/// and each line ends with a line break at `r * (width + 1) + width`.
pub proof fn lemma_render_layout(cells: Seq<bool>, width: nat, height: nat)
    requires
        cells.len() == width * height,
    ensures
        grid_text(cells, width, height).len() == height * (width + 1),
        forall|r: int, c: int|
            0 <= r < height && 0 <= c < width ==> #[trigger] grid_text(cells, width, height)[r * (
            width + 1) + c] == glyph(cells[cell_index(width as int, r, c)]),
        forall|r: int|
            0 <= r < height ==> #[trigger] grid_text(cells, width, height)[r * (width + 1)
                + width] == '\n',
{
    assert(height * width == width * height) by (nonlinear_arith);
    lemma_render_layout_prefix(cells, width, height);
}

/// The layout facts of `lemma_render_layout` for the first `rows` rows.
proof fn lemma_render_layout_prefix(cells: Seq<bool>, width: nat, rows: nat)
    requires
        rows * width <= cells.len(),
    ensures
        grid_text(cells, width, rows).len() == rows * (width + 1),
        forall|r: int, c: int|
            0 <= r < rows && 0 <= c < width ==> #[trigger] grid_text(cells, width, rows)[r * (width
                + 1) + c] == glyph(cells[cell_index(width as int, r, c)]),
        forall|r: int|
            0 <= r < rows ==> #[trigger] grid_text(cells, width, rows)[r * (width + 1) + width]
                == '\n',
    decreases rows,
{
    if rows > 0 {
        let h1 = (rows - 1) as nat;
        let prev = grid_text(cells, width, h1);
        let text = grid_text(cells, width, rows);
        assert(h1 * (width + 1) + (width + 1) == rows * (width + 1)) by (nonlinear_arith)
            requires
                h1 + 1 == rows,
        ;
        assert(h1 * width <= rows * width) by (nonlinear_arith)
            requires
                h1 + 1 == rows,
        ;
        lemma_render_layout_prefix(cells, width, h1);
        assert forall|r: int, c: int| 0 <= r < rows && 0 <= c < width implies #[trigger] text[r
            * (width + 1) + c] == glyph(cells[cell_index(width as int, r, c)]) by {
            if r < h1 {
                lemma_line_start_bound(width as int, h1 as int, r, c);
            } else {
                assert(r * (width + 1) + c == prev.len() + c);
            }
        }
        assert forall|r: int| 0 <= r < rows implies #[trigger] text[r * (width + 1) + width]
            == '\n' by {
            if r < h1 {
                lemma_line_start_bound(width as int, h1 as int, r, width as int);
            } else {
                assert(r * (width + 1) + width == prev.len() + width);
            }
        }
    }
}

/// A position on line `r` of the first `rows` lines lies before their end.
proof fn lemma_line_start_bound(width: int, rows: int, r: int, c: int)
    requires
        0 <= r < rows,
        0 <= c <= width,
    ensures
        0 <= r * (width + 1) + c < rows * (width + 1),
{
    assert(0 <= r * (width + 1) + c < rows * (width + 1)) by (nonlinear_arith)
        requires
            0 <= r < rows,
            0 <= c <= width,
    ;
}

/// A grid whose Alive cells are exactly the rectangle of rows
/// `top..=bottom` and columns `left..=right`.
pub open spec fn rect(
    width: int,
    height: int,
    top: int,
    bottom: int,
    left: int,
    right: int,
) -> Seq<bool> {
    Seq::new(
        (width * height) as nat,
        |i: int| top <= i / width <= bottom && left <= i % width <= right,
    )
}

/// A 2 by 2 block with its top-left cell at `(row, column)`.
pub open spec fn block_at(width: int, height: int, row: int, column: int) -> Seq<bool> {
    rect(width, height, row, row + 1, column, column + 1)
}

/// Three Alive cells in a row, centred at `(row, column)`.
pub open spec fn blinker_across(width: int, height: int, row: int, column: int) -> Seq<bool> {
    rect(width, height, row, row, column - 1, column + 1)
}

/// Three Alive cells in a column, centred at `(row, column)`.
pub open spec fn blinker_down(width: int, height: int, row: int, column: int) -> Seq<bool> {
    rect(width, height, row - 1, row + 1, column, column)
}

/// 1 when `(r, c)` lies in the rectangle, else 0.
pub open spec fn rect_hit(top: int, bottom: int, left: int, right: int, r: int, c: int) -> int {
    if top <= r <= bottom && left <= c <= right {
        1
    } else {
        0
    }
}

/// The row above `r` (column left of `r`) on a torus of size `n`.
pub open spec fn wrap_back(r: int, n: int) -> int {
    if r == 0 {
        n - 1
    } else {
        r - 1
    }
}

/// The row below `r` (column right of `r`) on a torus of size `n`.
pub open spec fn wrap_forward(r: int, n: int) -> int {
    if r + 1 == n {
        0
    } else {
        r + 1
    }
}

proof fn lemma_wrap_mod(r: int, n: int)
    requires
        0 <= r < n,
        n >= 2,
    ensures
        (r + (n - 1)) % n == wrap_back(r, n),
        (r + 0) % n == r,
        (r + 1) % n == wrap_forward(r, n),
{
    if r == 0 {
        lemma_fundamental_div_mod_converse(r + (n - 1), n, 0, n - 1);
    } else {
        lemma_fundamental_div_mod_converse(r + (n - 1), n, 1, r - 1);
    }
    lemma_fundamental_div_mod_converse(r, n, 0, r);
    if r + 1 == n {
        lemma_fundamental_div_mod_converse(r + 1, n, 1, 0);
    } else {
        lemma_fundamental_div_mod_converse(r + 1, n, 0, r + 1);
    }
}

/// The cell of `rect` at `(r, c)`, for `(r, c)` in the grid.
proof fn lemma_rect_at(
    width: int,
    height: int,
    top: int,
    bottom: int,
    left: int,
    right: int,
    r: int,
    c: int,
)
    requires
        0 <= r < height,
        0 <= c < width,
    ensures
        0 <= cell_index(width, r, c) < width * height,
        rect(width, height, top, bottom, left, right)[cell_index(width, r, c)] == (rect_hit(
            top,
            bottom,
            left,
            right,
            r,
            c,
        ) == 1),
{
    assert(r * width + c < width * height) by (nonlinear_arith)
        requires
            0 <= r < height,
            0 <= c < width,
    ;
    assert(0 <= r * width) by (nonlinear_arith)
        requires
            0 <= r,
            0 <= width,
    ;
    lemma_fundamental_div_mod_converse(r * width + c, width, r, c);
}

/// The live neighbours of `(r, c)` in a rectangle grid, one term per neighbour.
proof fn lemma_rect_count(
    width: int,
    height: int,
    top: int,
    bottom: int,
    left: int,
    right: int,
    r: int,
    c: int,
)
    requires
        width >= 2,
        height >= 2,
        0 <= r < height,
        0 <= c < width,
    ensures
        neighbor_count(rect(width, height, top, bottom, left, right), width, height, r, c)
            == rect_hit(top, bottom, left, right, wrap_back(r, height), wrap_back(c, width))
            + rect_hit(top, bottom, left, right, wrap_back(r, height), c) + rect_hit(
            top,
            bottom,
            left,
            right,
            wrap_back(r, height),
            wrap_forward(c, width),
        ) + rect_hit(top, bottom, left, right, r, wrap_back(c, width)) + rect_hit(
            top,
            bottom,
            left,
            right,
            r,
            wrap_forward(c, width),
        ) + rect_hit(top, bottom, left, right, wrap_forward(r, height), wrap_back(c, width))
            + rect_hit(top, bottom, left, right, wrap_forward(r, height), c) + rect_hit(
            top,
            bottom,
            left,
            right,
            wrap_forward(r, height),
            wrap_forward(c, width),
        ),
{
    reveal_with_fuel(neighbor_prefix, 10);
    lemma_wrap_mod(r, height);
    lemma_wrap_mod(c, width);
    let up = wrap_back(r, height);
    let down = wrap_forward(r, height);
    let lt = wrap_back(c, width);
    let rt = wrap_forward(c, width);
    lemma_rect_at(width, height, top, bottom, left, right, up, lt);
    lemma_rect_at(width, height, top, bottom, left, right, up, c);
    lemma_rect_at(width, height, top, bottom, left, right, up, rt);
    lemma_rect_at(width, height, top, bottom, left, right, r, lt);
    lemma_rect_at(width, height, top, bottom, left, right, r, rt);
    lemma_rect_at(width, height, top, bottom, left, right, down, lt);
    lemma_rect_at(width, height, top, bottom, left, right, down, c);
    lemma_rect_at(width, height, top, bottom, left, right, down, rt);
}

/// Cell `i` of a grid sits at row `i / width`, column `i % width`, inside it.
proof fn lemma_position(width: int, height: int, i: int)
    requires
        width > 0,
        0 <= i < width * height,
    ensures
        0 <= i / width < height,
        0 <= i % width < width,
        i == cell_index(width, i / width, i % width),
{
    lemma_fundamental_div_mod(i, width);
    let q = i / width;
    let m = i % width;
    assert(0 <= q < height) by (nonlinear_arith)
        requires
            i == width * q + m,
            0 <= m < width,
            0 <= i < width * height,
            width > 0,
    ;
    assert(i == q * width + m) by (nonlinear_arith)
        requires
            i == width * q + m,
    ;
}

/// A 2 by 2 block away from the grid's edges is a still life: one
/// generation leaves it as it is.
pub proof fn lemma_block_is_still(width: int, height: int, row: int, column: int)
    requires
        1 <= row,
        row + 2 < height,
        1 <= column,
        column + 2 < width,
    ensures
        next_generation(block_at(width, height, row, column), width, height) == block_at(
            width,
            height,
            row,
            column,
        ),
{
    let g = block_at(width, height, row, column);
    assert forall|i: int| 0 <= i < g.len() implies #[trigger] next_generation(g, width, height)[i]
        == g[i] by {
        lemma_position(width, height, i);
        lemma_rect_count(width, height, row, row + 1, column, column + 1, i / width, i % width);
    }
    assert(next_generation(g, width, height) =~= g);
}

/// A blinker away from the grid's edges turns from a row of three into a
/// column of three and back, so it repeats every two generations.
pub proof fn lemma_blinker_oscillates(width: int, height: int, row: int, column: int)
    requires
        2 <= row,
        row + 2 < height,
        2 <= column,
        column + 2 < width,
    ensures
        next_generation(blinker_across(width, height, row, column), width, height)
            == blinker_down(width, height, row, column),
        next_generation(blinker_down(width, height, row, column), width, height)
            == blinker_across(width, height, row, column),
        next_generation(
            next_generation(blinker_across(width, height, row, column), width, height),
            width,
            height,
        ) == blinker_across(width, height, row, column),
{
    let across = blinker_across(width, height, row, column);
    let down = blinker_down(width, height, row, column);
    assert forall|i: int| 0 <= i < across.len() implies #[trigger] next_generation(
        across,
        width,
        height,
    )[i] == down[i] by {
        lemma_position(width, height, i);
        lemma_rect_count(width, height, row, row, column - 1, column + 1, i / width, i % width);
    }
    assert(next_generation(across, width, height) =~= down);
    assert forall|i: int| 0 <= i < down.len() implies #[trigger] next_generation(
        down,
        width,
        height,
    )[i] == across[i] by {
        lemma_position(width, height, i);
        lemma_rect_count(width, height, row - 1, row + 1, column, column, i / width, i % width);
    }
    assert(next_generation(down, width, height) =~= across);
}

} // verus!
