//! The grid engine: a toroidal Game of Life grid over packed cells.
use crate::bits::{
    bits_clone, bits_get, bits_len, bits_of, bits_raw, bits_repeat, bits_set, bytes_for,
    max_bits, msb_bit, starts_at_byte, CellBits,
};
use crate::model::{
    all_dead, cell_index, glyph, grid_text, neighbor_count, neighbor_prefix,
    next_generation, next_state, row_text, toggled, with_alive, wrap_step,
};
use vstd::arithmetic::div_mod::lemma_fundamental_div_mod_converse;
use vstd::prelude::*;

verus! {

/// The state of one cell.
#[derive(Clone, Copy, Debug, PartialEq, Eq, Structural)]
pub enum Cell {
    Dead,
    Alive,
}

/// What a grid is: its dimensions and its cells in row-major order.
pub struct Grid {
    pub width: nat,
    pub height: nat,
    pub cells: Seq<bool>,
}

/// A `width` by `height` grid of cells on a torus, one bit per cell.
pub struct Universe {
    width: u32,
    height: u32,
    cells: CellBits,
}

impl View for Universe {
    type V = Grid;

    closed spec fn view(&self) -> Grid {
        Grid { width: self.width as nat, height: self.height as nat, cells: bits_of(self.cells) }
    }
}

/// `row * width + column` stays below `width * height` inside the grid.
proof fn lemma_index_in_grid(width: int, height: int, row: int, column: int)
    requires
        0 <= row < height,
        0 <= column < width,
    ensures
        0 <= cell_index(width, row, column) < width * height,
        cell_index(width, row, column) + 1 <= width * height,
{
    assert(row * width + column < width * height) by (nonlinear_arith)
        requires
            0 <= row < height,
            0 <= column < width,
    ;
    assert(0 <= row * width) by (nonlinear_arith)
        requires
            0 <= row,
            0 <= width,
    ;
}

/// Relies on `String::push`: appends one character.
#[verifier::external_body]
fn push_char(text: &mut String, c: char)
    ensures
        final(text)@ == old(text)@.push(c),
{
    text.push(c)
}

/// The step along a dimension of size `n` for the `k`-th neighbour offset.
fn wrap_offset(k: u32, n: u32) -> (r: u32)
    requires
        k < 3,
        n > 0,
    ensures
        r == wrap_step(k as int, n as int),
{
    if k == 0 {
        n - 1
    } else if k == 1 {
        0
    } else {
        1
    }
}

impl Universe {
    /// Whether the packed store is laid out from the start of its first byte.
    pub closed spec fn storage_aligned(&self) -> bool {
        starts_at_byte(self.cells)
    }

    /// The invariant of every universe: one cell per grid position, and a
    /// cell count that fits the `u32` arithmetic of the dimensions.
    pub open spec fn wf(&self) -> bool {
        &&& self@.cells.len() == self@.width * self@.height
        &&& self@.width * self@.height <= u32::MAX
        &&& self.storage_aligned()
    }

    /// Position of `(row, column)` in the row-major cell sequence. Plain
    /// arithmetic: no bounds are checked, and it cannot overflow.
    fn get_index(&self, row: u32, column: u32) -> (r: u64)
        ensures
            r == cell_index(self@.width as int, row as int, column as int),
    {
        assert(row as int * self.width as int <= u32::MAX as int * u32::MAX as int) by (nonlinear_arith);
        row as u64 * self.width as u64 + column as u64
    }

    /// Number of Alive cells among the eight neighbours of `(row, column)`,
    /// with rows and columns wrapping around the grid's edges.
    pub fn live_neighbor_count(&self, row: u32, column: u32) -> (r: u8)
        requires
            self.wf(),
            row < self@.height,
            column < self@.width,
        ensures
            r == neighbor_count(self@.cells, self@.width as int, self@.height as int, row as int, column as int),
    {
        let ghost cells = self@.cells;
        let ghost w = self@.width as int;
        let ghost h = self@.height as int;
        let mut count: u8 = 0;
        let mut i: u32 = 0;
        while i < 3
            invariant
                self.wf(),
                row < self@.height,
                column < self@.width,
                cells == self@.cells,
                w == self@.width,
                h == self@.height,
                i <= 3,
                count <= 3 * i,
                count == neighbor_prefix(cells, w, h, row as int, column as int, (3 * i) as nat),
            decreases 3 - i,
        {
            let delta_row = wrap_offset(i, self.height);
            let mut j: u32 = 0;
            while j < 3
                invariant
                    self.wf(),
                    row < self@.height,
                    column < self@.width,
                    cells == self@.cells,
                    w == self@.width,
                    h == self@.height,
                    i < 3,
                    j <= 3,
                    delta_row == wrap_step(i as int, h),
                    count <= 3 * i + j,
                    count == neighbor_prefix(cells, w, h, row as int, column as int, (3 * i + j) as nat),
                decreases 3 - j,
            {
                let delta_col = wrap_offset(j, self.width);
                let ghost k = (3 * i + j) as nat;
                assert(k / 3 == i && k % 3 == j);
                if !(delta_row == 0 && delta_col == 0) {
                    let neighbor_row = ((row as u64 + delta_row as u64) % self.height as u64) as u32;
                    let neighbor_col = ((column as u64 + delta_col as u64) % self.width as u64) as u32;
                    let idx = self.get_index(neighbor_row, neighbor_col);
                    proof {
                        lemma_index_in_grid(w, h, neighbor_row as int, neighbor_col as int);
                    }
                    if bits_get(&self.cells, idx as usize) {
                        count = count + 1;
                    }
                }
                j = j + 1;
            }
            i = i + 1;
        }
        count
    }

    /// Advances the grid one generation: every cell takes its next state from
    /// the current generation, and the new generation replaces it whole.
    /// On a grid with no cells (a dimension of 0) it changes nothing.
    pub fn tick(&mut self)
        requires
            old(self).wf(),
        ensures
            final(self).wf(),
            final(self)@.width == old(self)@.width,
            final(self)@.height == old(self)@.height,
            final(self)@.cells == next_generation(
                old(self)@.cells,
                old(self)@.width as int,
                old(self)@.height as int,
            ),
    {
        let ghost cells = self@.cells;
        let ghost w = self@.width as int;
        let ghost h = self@.height as int;
        let ghost target = next_generation(cells, w, h);
        let mut next = bits_clone(&self.cells);
        let mut row: u32 = 0;
        while row < self.height
            invariant
                self.wf(),
                cells == self@.cells,
                w == self@.width,
                h == self@.height,
                row <= h,
                target == next_generation(cells, w, h),
                bits_of(next).len() == cells.len(),
                starts_at_byte(next),
                forall|k: int| 0 <= k < row * w ==> bits_of(next)[k] == #[trigger] target[k],
            decreases h - row,
        {
            let mut col: u32 = 0;
            while col < self.width
                invariant
                    self.wf(),
                    cells == self@.cells,
                    w == self@.width,
                    h == self@.height,
                    row < h,
                    col <= w,
                    target == next_generation(cells, w, h),
                    bits_of(next).len() == cells.len(),
                    starts_at_byte(next),
                    forall|k: int|
                        0 <= k < cell_index(w, row as int, col as int) ==> bits_of(next)[k]
                            == #[trigger] target[k],
                decreases w - col,
            {
                let idx = self.get_index(row, col);
                proof {
                    lemma_index_in_grid(w, h, row as int, col as int);
                    lemma_fundamental_div_mod_converse(idx as int, w, row as int, col as int);
                }
                let cell = bits_get(&self.cells, idx as usize);
                let live_neighbors = self.live_neighbor_count(row, col);
                let next_cell = match (cell, live_neighbors) {
                    (true, x) if x < 2 => false,
                    (true, 2) | (true, 3) => true,
                    (true, x) if x > 3 => false,
                    (false, 3) => true,
                    _ => cell,
                };
                assert(next_cell == next_state(cell, live_neighbors as int));
                assert(target[idx as int] == next_state(cell, live_neighbors as int));
                bits_set(&mut next, idx as usize, next_cell);
                col = col + 1;
            }
            assert(cell_index(w, row as int, w) == (row + 1) * w) by (nonlinear_arith);
            row = row + 1;
        }
        proof {
            assert(row * w == w * h) by (nonlinear_arith)
                requires
                    row == h,
            ;
            assert(bits_of(next) =~= target);
        }
        self.cells = next;
    }

    /// A `width` by `height` universe whose cell at row-major position `i` is
    /// Alive exactly when `draws[i]` is true (one coin flip per cell, drawn by
    /// the caller).
    pub fn new(width: u32, height: u32, draws: &[bool]) -> (r: Universe)
        requires
            width * height <= u32::MAX,
            width * height <= max_bits(),
            draws@.len() == width * height,
        ensures
            r.wf(),
            r@.width == width,
            r@.height == height,
            r@.cells == draws@,
    {
        let size = (width * height) as usize;
        let mut universe = Universe { width, height, cells: bits_repeat(false, size) };
        universe.reset_random(draws);
        universe
    }

    /// A 64 by 64 universe seeded from `draws`, as `new` does.
    pub fn new_64x64(draws: &[bool]) -> (r: Universe)
        requires
            draws@.len() == 64 * 64,
        ensures
            r.wf(),
            r@.width == 64,
            r@.height == 64,
            r@.cells == draws@,
    {
        Universe::new(64, 64, draws)
    }

    pub fn width(&self) -> (r: u32)
        ensures
            r == self@.width,
    {
        self.width
    }

    pub fn height(&self) -> (r: u32)
        ensures
            r == self@.height,
    {
        self.height
    }

    /// Sets the height and replaces every cell by a Dead one at the new size.
    pub fn set_height(&mut self, height: u32)
        requires
            old(self)@.width * height <= u32::MAX,
            old(self)@.width * height <= max_bits(),
        ensures
            final(self).wf(),
            final(self)@.width == old(self)@.width,
            final(self)@.height == height,
            final(self)@.cells == all_dead(old(self)@.width * height as nat),
    {
        self.height = height;
        let size = (self.width * height) as usize;
        self.cells = bits_repeat(false, size);
    }

    /// Sets the width and replaces every cell by a Dead one at the new size.
    pub fn set_width(&mut self, width: u32)
        requires
            width * old(self)@.height <= u32::MAX,
            width * old(self)@.height <= max_bits(),
        ensures
            final(self).wf(),
            final(self)@.width == width,
            final(self)@.height == old(self)@.height,
            final(self)@.cells == all_dead(width as nat * old(self)@.height),
    {
        self.width = width;
        let size = (width * self.height) as usize;
        self.cells = bits_repeat(false, size);
        assert(self@.cells =~= all_dead(width as nat * self@.height));
    }

    /// The packed cells as read-only bytes: cell `i` is bit `7 - i % 8` of
    /// byte `i / 8`, the most significant bit first.
    pub fn cells(&self) -> (r: &[u8])
        requires
            self.wf(),
        ensures
            r@.len() == bytes_for(self@.cells.len()),
            forall|i: int| 0 <= i < self@.cells.len() ==> #[trigger] msb_bit(r@, i) == self@.cells[i],
    {
        bits_raw(&self.cells)
    }

    /// Overwrites every cell with the matching draw, in place.
    pub fn reset_random(&mut self, draws: &[bool])
        requires
            old(self).wf(),
            draws@.len() == old(self)@.cells.len(),
        ensures
            final(self).wf(),
            final(self)@.width == old(self)@.width,
            final(self)@.height == old(self)@.height,
            final(self)@.cells == draws@,
    {
        let ghost w = self@.width;
        let ghost h = self@.height;
        let size = bits_len(&self.cells);
        let mut i: usize = 0;
        while i < size
            invariant
                self.wf(),
                self@.width == w,
                self@.height == h,
                size == self@.cells.len(),
                draws@.len() == size,
                i <= size,
                forall|k: int| 0 <= k < i ==> #[trigger] self@.cells[k] == draws@[k],
            decreases size - i,
        {
            bits_set(&mut self.cells, i, draws[i]);
            i = i + 1;
        }
        assert(self@.cells =~= draws@);
    }

    /// Makes every cell Dead, in place.
    pub fn reset_dead(&mut self)
        requires
            old(self).wf(),
        ensures
            final(self).wf(),
            final(self)@.width == old(self)@.width,
            final(self)@.height == old(self)@.height,
            final(self)@.cells == all_dead(old(self)@.cells.len()),
    {
        let ghost w = self@.width;
        let ghost h = self@.height;
        let size = bits_len(&self.cells);
        let mut i: usize = 0;
        while i < size
            invariant
                self.wf(),
                self@.width == w,
                self@.height == h,
                size == self@.cells.len(),
                i <= size,
                forall|k: int| 0 <= k < i ==> !#[trigger] self@.cells[k],
            decreases size - i,
        {
            bits_set(&mut self.cells, i, false);
            i = i + 1;
        }
        assert(self@.cells =~= all_dead(size as nat));
    }

    /// Makes the cell at `(row, column)` Alive when it lies in the grid;
    /// outside the grid nothing changes.
    pub fn set_cell_alive(&mut self, row: u32, column: u32)
        requires
            old(self).wf(),
        ensures
            final(self).wf(),
            final(self)@.width == old(self)@.width,
            final(self)@.height == old(self)@.height,
            row < old(self)@.height && column < old(self)@.width ==> final(self)@.cells
                == old(self)@.cells.update(
                cell_index(old(self)@.width as int, row as int, column as int),
                true,
            ),
            !(row < old(self)@.height && column < old(self)@.width) ==> final(self)@.cells
                == old(self)@.cells,
    {
        let idx = self.get_index(row, column);
        if row < self.height && column < self.width {
            proof {
                lemma_index_in_grid(self@.width as int, self@.height as int, row as int, column as int);
            }
            bits_set(&mut self.cells, idx as usize, true);
        }
    }

    /// Number of bytes of storage behind the cells: `ceil(cells / 8)`.
    pub fn cells_size(&self) -> (r: usize)
        requires
            self.wf(),
        ensures
            r == bytes_for(self@.cells.len()),
    {
        bits_raw(&self.cells).len()
    }

    /// Flips the cell at position `row * width + column` when that position
    /// exists; otherwise nothing changes.
    pub fn toggle_cell(&mut self, row: u32, column: u32)
        requires
            old(self).wf(),
        ensures
            final(self).wf(),
            final(self)@.width == old(self)@.width,
            final(self)@.height == old(self)@.height,
            final(self)@.cells == toggled(
                old(self)@.cells,
                cell_index(old(self)@.width as int, row as int, column as int),
            ),
    {
        let idx = self.get_index(row, column);
        let len = bits_len(&self.cells);
        if idx < len as u64 {
            let current_state = bits_get(&self.cells, idx as usize);
            bits_set(&mut self.cells, idx as usize, !current_state);
        }
    }

    /// The cells in row-major order, `true` for Alive.
    pub fn get_cells(&self) -> (r: Vec<bool>)
        ensures
            r@ == self@.cells,
    {
        let size = bits_len(&self.cells);
        let mut out: Vec<bool> = Vec::new();
        let mut i: usize = 0;
        while i < size
            invariant
                size == self@.cells.len(),
                i <= size,
                out@ == self@.cells.take(i as int),
            decreases size - i,
        {
            out.push(bits_get(&self.cells, i));
            i = i + 1;
            assert(out@ =~= self@.cells.take(i as int));
        }
        assert(self@.cells.take(size as int) =~= self@.cells);
        out
    }

    /// Makes Alive each cell named by a `(row, column)` pair of `coords`.
    pub fn set_cells(&mut self, coords: &[(u32, u32)])
        requires
            old(self).wf(),
            forall|k: int|
                0 <= k < coords@.len() ==> (#[trigger] coords@[k]).0 < old(self)@.height
                    && coords@[k].1 < old(self)@.width,
        ensures
            final(self).wf(),
            final(self)@.width == old(self)@.width,
            final(self)@.height == old(self)@.height,
            final(self)@.cells == with_alive(old(self)@.cells, old(self)@.width as int, coords@),
    {
        let ghost start = self@.cells;
        let ghost w = self@.width as int;
        let ghost h = self@.height;
        let mut k: usize = 0;
        assert(with_alive(start, w, coords@.take(0)) =~= start);
        while k < coords.len()
            invariant
                self.wf(),
                self@.width == w,
                self@.height == h,
                start.len() == self@.cells.len(),
                k <= coords@.len(),
                forall|m: int|
                    0 <= m < coords@.len() ==> (#[trigger] coords@[m]).0 < h && coords@[m].1 < w,
                self@.cells == with_alive(start, w, coords@.take(k as int)),
            decreases coords@.len() - k,
        {
            let (row, col) = coords[k];
            let idx = self.get_index(row, col);
            proof {
                lemma_index_in_grid(w, h as int, row as int, col as int);
            }
            let ghost prev = self@.cells;
            bits_set(&mut self.cells, idx as usize, true);
            proof {
                let before = coords@.take(k as int);
                let after = coords@.take(k + 1);
                assert forall|i: int| 0 <= i < start.len() implies with_alive(start, w, after)[i]
                    == prev.update(idx as int, true)[i] by {
                    assert(after[k as int] == coords@[k as int]);
                    if exists|m: int|
                        0 <= m < after.len() && cell_index(w, after[m].0 as int, after[m].1 as int)
                            == i {
                        let m = choose|m: int|
                            0 <= m < after.len() && cell_index(
                                w,
                                after[m].0 as int,
                                after[m].1 as int,
                            ) == i;
                        if m < k {
                            assert(before[m] == after[m]);
                        }
                    }
                    if exists|m: int|
                        0 <= m < before.len() && cell_index(w, before[m].0 as int, before[m].1 as int)
                            == i {
                        let m = choose|m: int|
                            0 <= m < before.len() && cell_index(
                                w,
                                before[m].0 as int,
                                before[m].1 as int,
                            ) == i;
                        assert(before[m] == after[m]);
                    }
                }
                assert(with_alive(start, w, after) =~= prev.update(idx as int, true));
            }
            k = k + 1;
        }
        assert(coords@.take(coords@.len() as int) =~= coords@);
    }

    /// The grid as text: one line per row, top to bottom, each holding one
    /// glyph per cell (`◼` Alive, `◻` Dead) and ending in a line break.
    pub fn render(&self) -> (r: String)
        requires
            self.wf(),
        ensures
            r@ == grid_text(self@.cells, self@.width, self@.height),
    {
        let ghost cells = self@.cells;
        let ghost w = self@.width;
        let mut text = String::new();
        let mut row: u32 = 0;
        while row < self.height
            invariant
                self.wf(),
                cells == self@.cells,
                w == self@.width,
                row <= self@.height,
                text@ == grid_text(cells, w, row as nat),
            decreases self@.height - row,
        {
            let ghost line = Seq::new(w, |c: int| glyph(cells[cell_index(w as int, row as int, c)]));
            let mut col: u32 = 0;
            while col < self.width
                invariant
                    self.wf(),
                    cells == self@.cells,
                    w == self@.width,
                    row < self@.height,
                    col <= w,
                    line == Seq::new(w, |c: int| glyph(cells[cell_index(w as int, row as int, c)])),
                    text@ == grid_text(cells, w, row as nat) + line.take(col as int),
                decreases w - col,
            {
                let idx = self.get_index(row, col);
                proof {
                    lemma_index_in_grid(w as int, self@.height as int, row as int, col as int);
                }
                let symbol = if bits_get(&self.cells, idx as usize) {
                    '◼'
                } else {
                    '◻'
                };
                push_char(&mut text, symbol);
                col = col + 1;
                assert(line.take(col as int) =~= line.take(col - 1).push(symbol));
            }
            push_char(&mut text, '\n');
            assert(line.take(w as int) =~= line);
            assert(row_text(cells, w, row as int) =~= line.push('\n'));
            row = row + 1;
        }
        text
    }
}

} // verus!
