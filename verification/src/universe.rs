//! The executable engine: the cell state, and the double-buffered
//! `Universe` that advances a toroidal grid one generation at a time.

use crate::rules::{
    at, b2n, glyph, lemma_coords_of_index, lemma_index_bound, live_neighbors, next_state,
    render_grid, render_rows, step, wrap_dec, wrap_inc,
};
use vstd::prelude::*;
use vstd::string::StringExecFns;

verus! {

/// The state of one cell. A discrete enumeration rather than a boolean,
/// so that its numeric weight for neighbor summation is explicit.
#[derive(Clone, Copy, Debug, PartialEq, Eq, Structural)]
pub enum Cell {
    Dead,
    Alive,
}

impl Cell {
    /// Whether the cell is alive.
    pub open spec fn spec_alive(self) -> bool {
        self is Alive
    }

    /// The numeric weight of the cell: 1 when alive, 0 when dead.
    pub fn weight(self) -> (n: u8)
        ensures
            n as nat == b2n(self.spec_alive()),
    {
        match self {
            Cell::Dead => 0,
            Cell::Alive => 1,
        }
    }

    /// Flips the cell between `Alive` and `Dead`.
    pub fn toggle(&mut self)
        ensures
            final (self).spec_alive() == !old(self).spec_alive(),
    {
        *self = match *self {
            Cell::Alive => Cell::Dead,
            Cell::Dead => Cell::Alive,
        };
    }
}

/// The aliveness of each cell of a buffer, in the same order.
pub open spec fn cells_to_bools(s: Seq<Cell>) -> Seq<bool> {
    s.map_values(|c: Cell| c.spec_alive())
}

/// A dense `width * height` grid of cells in row-major order, stored
/// twice: the buffer selected by `active_cells` is the current
/// generation, the other one is the write target of the next `tick`.
pub struct Universe {
    width: u32,
    height: u32,
    active_cells: bool,
    cells_a: Vec<Cell>,
    cells_b: Vec<Cell>,
}

impl Universe {
    /// The fixed grid width.
    pub closed spec fn spec_width(&self) -> nat {
        self.width as nat
    }

    /// The fixed grid height.
    pub closed spec fn spec_height(&self) -> nat {
        self.height as nat
    }

    /// The number of cells of each buffer.
    pub open spec fn area(&self) -> nat {
        self.spec_height() * self.spec_width()
    }

    /// The current buffer, as cells.
    pub closed spec fn spec_cells(&self) -> Seq<Cell> {
        if self.active_cells {
            self.cells_b@
        } else {
            self.cells_a@
        }
    }

    /// The non-current buffer, as cells.
    pub closed spec fn back_cells(&self) -> Seq<Cell> {
        if self.active_cells {
            self.cells_a@
        } else {
            self.cells_b@
        }
    }

    /// The current generation, as the aliveness of each cell.
    pub open spec fn grid(&self) -> Seq<bool> {
        cells_to_bools(self.spec_cells())
    }

    /// The non-current buffer, as the aliveness of each cell.
    pub open spec fn back(&self) -> Seq<bool> {
        cells_to_bools(self.back_cells())
    }

    /// Well-formedness: positive dimensions, an area that fits in a
    /// `usize`, and two buffers of exactly that area.
    pub closed spec fn wf(&self) -> bool {
        &&& 0 < self.width
        &&& 0 < self.height
        &&& self.spec_height() * self.spec_width() <= usize::MAX as nat
        &&& self.cells_a@.len() == self.area()
        &&& self.cells_b@.len() == self.area()
    }

    /// Allocates an all-dead universe of the given dimensions.
    pub fn new(width: u32, height: u32) -> (u: Universe)
        requires
            0 < width,
            0 < height,
            (height as nat) * (width as nat) <= usize::MAX as nat,
        ensures
            u.wf(),
            u.spec_width() == width as nat,
            u.spec_height() == height as nat,
            u.grid().len() == u.area(),
            u.back().len() == u.area(),
            forall|k: int| 0 <= k < u.area() ==> !u.grid()[k],
            forall|k: int| 0 <= k < u.area() ==> !u.back()[k],
    {
        let n: usize = (height as usize) * (width as usize);
        let cells_a = dead_cells(n);
        let cells_b = dead_cells(n);
        Universe { width, height, active_cells: false, cells_a, cells_b }
    }

    /// The fixed width.
    pub fn width(&self) -> (w: u32)
        ensures
            w as nat == self.spec_width(),
    {
        self.width
    }

    /// The fixed height.
    pub fn height(&self) -> (h: u32)
        ensures
            h as nat == self.spec_height(),
    {
        self.height
    }

    /// The row-major index of `(row, column)`.
    fn get_index(&self, row: u32, column: u32) -> (idx: usize)
        requires
            self.wf(),
            (row as nat) < self.spec_height(),
            (column as nat) < self.spec_width(),
        ensures
            idx as nat == (row as nat) * self.spec_width() + (column as nat),
            idx < self.area(),
    {
        proof {
            lemma_index_bound(self.spec_width(), self.spec_height(), row as nat, column as nat);
        }
        (row as usize) * (self.width as usize) + (column as usize)
    }

    /// The cell of the current buffer at a row-major index.
    fn current_cell(&self, idx: usize) -> (c: Cell)
        requires
            self.wf(),
            idx < self.area(),
        ensures
            c == self.spec_cells()[idx as int],
            c.spec_alive() == self.grid()[idx as int],
    {
        if self.active_cells {
            self.cells_b[idx]
        } else {
            self.cells_a[idx]
        }
    }

    /// Overwrites one cell of the current buffer.
    fn set_current(&mut self, idx: usize, value: Cell)
        requires
            old(self).wf(),
            idx < old(self).area(),
        ensures
            final (self).wf(),
            final (self).spec_width() == old(self).spec_width(),
            final (self).spec_height() == old(self).spec_height(),
            final (self).spec_cells() == old(self).spec_cells().update(idx as int, value),
            final (self).back_cells() == old(self).back_cells(),
    {
        if self.active_cells {
            self.cells_b.set(idx, value);
        } else {
            self.cells_a.set(idx, value);
        }
    }

    /// Overwrites one cell of the non-current buffer.
    fn set_back(&mut self, idx: usize, value: Cell)
        requires
            old(self).wf(),
            idx < old(self).area(),
        ensures
            final (self).wf(),
            final (self).spec_width() == old(self).spec_width(),
            final (self).spec_height() == old(self).spec_height(),
            final (self).spec_cells() == old(self).spec_cells(),
            final (self).back_cells() == old(self).back_cells().update(idx as int, value),
    {
        if self.active_cells {
            self.cells_a.set(idx, value);
        } else {
            self.cells_b.set(idx, value);
        }
    }

    /// Flips the cell at `(row, column)` in the current buffer only; every
    /// other cell and the whole non-current buffer are unchanged. Out of
    /// range coordinates are a contract violation and are ruled out here.
    pub fn toggle_cell(&mut self, row: u32, column: u32)
        requires
            old(self).wf(),
            (row as nat) < old(self).spec_height(),
            (column as nat) < old(self).spec_width(),
        ensures
            final (self).wf(),
            final (self).spec_width() == old(self).spec_width(),
            final (self).spec_height() == old(self).spec_height(),
            final (self).grid() == old(self).grid().update(
                ((row as nat) * old(self).spec_width() + (column as nat)) as int,
                !old(self).grid()[((row as nat) * old(self).spec_width() + (column as nat)) as int],
            ),
            final (self).back() == old(self).back(),
    {
        let idx = self.get_index(row, column);
        let mut cell = self.current_cell(idx);
        cell.toggle();
        self.set_current(idx, cell);
        proof {
            assert(final (self).grid() =~= old(self).grid().update(
                idx as int,
                !old(self).grid()[idx as int],
            ));
        }
    }

    /// The number of alive cells among the 8 toroidal neighbors of
    /// `(row, column)` in the current buffer.
    fn live_neighbor_count(&self, row: u32, column: u32) -> (count: u8)
        requires
            self.wf(),
            (row as nat) < self.spec_height(),
            (column as nat) < self.spec_width(),
        ensures
            count as nat == live_neighbors(
                self.grid(),
                self.spec_width(),
                self.spec_height(),
                row as nat,
                column as nat,
            ),
    {
        let north = if row == 0 {
            self.height - 1
        } else {
            row - 1
        };
        let south = if row == self.height - 1 {
            0
        } else {
            row + 1
        };
        let west = if column == 0 {
            self.width - 1
        } else {
            column - 1
        };
        let east = if column == self.width - 1 {
            0
        } else {
            column + 1
        };

        proof {
            assert(north as nat == wrap_dec(row as nat, self.spec_height()));
            assert(south as nat == wrap_inc(row as nat, self.spec_height()));
            assert(west as nat == wrap_dec(column as nat, self.spec_width()));
            assert(east as nat == wrap_inc(column as nat, self.spec_width()));
        }
        let mut count: u8 = 0;
        count += self.alive_weight(north, west);
        count += self.alive_weight(north, column);
        count += self.alive_weight(north, east);
        count += self.alive_weight(row, west);
        count += self.alive_weight(row, east);
        count += self.alive_weight(south, west);
        count += self.alive_weight(south, column);
        count += self.alive_weight(south, east);
        count
    }

    /// The numeric weight of the current buffer's cell at `(row, column)`.
    fn alive_weight(&self, row: u32, column: u32) -> (n: u8)
        requires
            self.wf(),
            (row as nat) < self.spec_height(),
            (column as nat) < self.spec_width(),
        ensures
            n as nat == b2n(at(self.grid(), self.spec_width(), row as nat, column as nat)),
            n <= 1,
    {
        let idx = self.get_index(row, column);
        let cell = self.current_cell(idx);
        cell.weight()
    }

    /// Advances the whole grid by one generation: every cell of the next
    /// generation is computed from the unmodified current buffer, written
    /// into the non-current buffer, and the selector flips once at the
    /// end, so the new current buffer is exactly the freshly computed
    /// generation and the new non-current buffer is the old generation.
    #[verifier::loop_isolation(false)]
    pub fn tick(&mut self)
        requires
            old(self).wf(),
        ensures
            final (self).wf(),
            final (self).spec_width() == old(self).spec_width(),
            final (self).spec_height() == old(self).spec_height(),
            final (self).grid() == step(
                old(self).grid(),
                old(self).spec_width(),
                old(self).spec_height(),
            ),
            final (self).back() == old(self).grid(),
    {
        let ghost w: nat = self.spec_width();
        let ghost h: nat = self.spec_height();
        let ghost g0: Seq<bool> = self.grid();

        let mut row: u32 = 0;
        while row < self.height
            invariant
                (row as nat) <= h,
                self.wf(),
                self.spec_width() == w,
                self.spec_height() == h,
                self.spec_cells() == old(self).spec_cells(),
                forall|k: int|
                    0 <= k < (row as nat) * w ==> self.back_cells()[k].spec_alive() == step(
                        g0,
                        w,
                        h,
                    )[k],
            decreases h - row as nat,
        {
            let mut col: u32 = 0;
            while col < self.width
                invariant
                    (row as nat) < h,
                    (col as nat) <= w,
                    self.wf(),
                    self.spec_width() == w,
                    self.spec_height() == h,
                    self.spec_cells() == old(self).spec_cells(),
                    forall|k: int|
                        0 <= k < (row as nat) * w + (col as nat)
                            ==> self.back_cells()[k].spec_alive() == step(g0, w, h)[k],
                decreases w - col as nat,
            {
                let idx = self.get_index(row, col);
                let cell = self.current_cell(idx);
                let live = self.live_neighbor_count(row, col);
                let alive = cell == Cell::Alive;
                let next_cell = if alive {
                    if live == 2 || live == 3 {
                        Cell::Alive
                    } else {
                        Cell::Dead
                    }
                } else {
                    if live == 3 {
                        Cell::Alive
                    } else {
                        Cell::Dead
                    }
                };
                proof {
                    lemma_index_bound(w, h, row as nat, col as nat);
                    lemma_coords_of_index(w, h, row as nat, col as nat);
                    assert(g0.len() == h * w);
                    assert(step(g0, w, h)[idx as int] == next_state(
                        g0[idx as int],
                        live_neighbors(g0, w, h, row as nat, col as nat),
                    ));
                    assert(next_cell.spec_alive() == step(g0, w, h)[idx as int]);
                }
                self.set_back(idx, next_cell);
                col += 1;
            }
            proof {
                assert((row as nat + 1) * w == (row as nat) * w + w) by (nonlinear_arith);
            }
            row += 1;
        }
        self.active_cells = !self.active_cells;
        proof {
            assert(final (self).grid() =~= step(g0, w, h));
            assert(final (self).back() =~= g0);
        }
    }

    /// Renders the current generation: `height` lines, each of `width`
    /// glyphs (a filled square for an alive cell, a hollow one for a dead
    /// cell) followed by one newline, in row-major order.
    #[verifier::loop_isolation(false)]
    pub fn render(&self) -> (text: String)
        requires
            self.wf(),
        ensures
            text@ == render_grid(self.grid(), self.spec_width(), self.spec_height()),
    {
        let ghost w: nat = self.spec_width();
        let ghost h: nat = self.spec_height();
        let ghost g: Seq<bool> = self.grid();

        let mut text = String::new();
        let mut row: u32 = 0;
        while row < self.height
            invariant
                (row as nat) <= h,
                text@ == render_rows(g, w, row as nat),
            decreases h - row as nat,
        {
            let mut col: u32 = 0;
            while col < self.width
                invariant
                    (row as nat) < h,
                    (col as nat) <= w,
                    text@ == render_rows(g, w, row as nat) + Seq::new(
                        col as nat,
                        |j: int| glyph(at(g, w, row as nat, j as nat)),
                    ),
                decreases w - col as nat,
            {
                let idx = self.get_index(row, col);
                let cell = self.current_cell(idx);
                proof {
                    reveal_strlit("◼");
                    reveal_strlit("◻");
                }
                if cell.weight() == 1 {
                    text.append("◼");
                } else {
                    text.append("◻");
                }
                proof {
                    assert(text@ =~= render_rows(g, w, row as nat) + Seq::new(
                        (col + 1) as nat,
                        |j: int| glyph(at(g, w, row as nat, j as nat)),
                    ));
                }
                col += 1;
            }
            proof {
                reveal_strlit("\n");
            }
            text.append("\n");
            proof {
                assert(text@ =~= render_rows(g, w, (row + 1) as nat));
            }
            row += 1;
        }
        text
    }

    /// Read-only exposure of the current buffer's storage, for zero-copy
    /// display by a host; valid only until the next mutating call.
    pub fn cells(&self) -> (r: &[Cell])
        requires
            self.wf(),
        ensures
            r@ == self.spec_cells(),
            cells_to_bools(r@) == self.grid(),
    {
        if self.active_cells {
            self.cells_b.as_slice()
        } else {
            self.cells_a.as_slice()
        }
    }

    /// The current buffer as a typed read-only slice, for in-process
    /// consumers.
    pub fn get_cells(&self) -> (r: &[Cell])
        requires
            self.wf(),
        ensures
            r@ == self.spec_cells(),
            cells_to_bools(r@) == self.grid(),
    {
        self.cells()
    }

    /// Sets every listed `(row, column)` to `Alive` in the current buffer;
    /// duplicates and any order are accepted. No other cell changes and
    /// the non-current buffer is untouched.
    #[verifier::loop_isolation(false)]
    pub fn set_cells_alive(&mut self, cells: &Vec<(u32, u32)>)
        requires
            old(self).wf(),
            forall|j: int|
                0 <= j < cells@.len() ==> ((#[trigger] cells@[j]).0 as nat) < old(
                    self,
                ).spec_height() && (cells@[j].1 as nat) < old(self).spec_width(),
        ensures
            final (self).wf(),
            final (self).spec_width() == old(self).spec_width(),
            final (self).spec_height() == old(self).spec_height(),
            final (self).grid().len() == old(self).grid().len(),
            forall|k: int|
                0 <= k < final (self).grid().len() ==> final (self).grid()[k] == (old(
                    self,
                ).grid()[k] || listed_upto(cells@, old(self).spec_width(), cells@.len() as int, k)),
            final (self).back() == old(self).back(),
    {
        let ghost w: nat = self.spec_width();
        let mut i: usize = 0;
        while i < cells.len()
            invariant
                i <= cells@.len(),
                self.wf(),
                self.spec_width() == w,
                self.spec_height() == old(self).spec_height(),
                self.back_cells() == old(self).back_cells(),
                self.grid().len() == old(self).grid().len(),
                forall|k: int|
                    0 <= k < self.grid().len() ==> self.grid()[k] == (old(self).grid()[k]
                        || listed_upto(cells@, w, i as int, k)),
            decreases cells@.len() - i,
        {
            let (row, column) = cells[i];
            let idx = self.get_index(row, column);
            let ghost before: Seq<bool> = self.grid();
            self.set_current(idx, Cell::Alive);
            proof {
                assert(self.grid() =~= before.update(idx as int, true));
                assert forall|k: int| 0 <= k < self.grid().len() implies self.grid()[k] == (old(
                    self,
                ).grid()[k] || listed_upto(cells@, w, i as int + 1, k)) by {
                    if k == idx as int {
                        assert(listed_upto(cells@, w, i as int + 1, k));
                    } else {
                        if listed_upto(cells@, w, i as int + 1, k) {
                            let t = choose|t: int|
                                0 <= t < i as int + 1 && (#[trigger] cells@[t]).0 as nat * w + (
                                cells@[t].1 as nat) == k;
                            assert(t < i as int);
                            assert(listed_upto(cells@, w, i as int, k));
                        }
                    }
                }
            }
            i += 1;
        }
    }
}

/// Whether one of the first `n` listed coordinate pairs has row-major
/// index `k` on a grid of width `w`.
pub open spec fn listed_upto(ps: Seq<(u32, u32)>, w: nat, n: int, k: int) -> bool {
    exists|t: int| 0 <= t < n && (#[trigger] ps[t]).0 as nat * w + (ps[t].1 as nat) == k
}

/// A buffer of `n` dead cells.
fn dead_cells(n: usize) -> (v: Vec<Cell>)
    ensures
        v@.len() == n,
        forall|k: int| 0 <= k < n ==> v@[k] == Cell::Dead,
{
    let mut v: Vec<Cell> = Vec::with_capacity(n);
    let mut i: usize = 0;
    while i < n
        invariant
            i <= n,
            v@.len() == i,
            forall|k: int| 0 <= k < i ==> v@[k] == Cell::Dead,
        decreases n - i,
    {
        v.push(Cell::Dead);
        i += 1;
    }
    v
}

} // verus!
