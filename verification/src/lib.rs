//! Conway's Game of Life on a fixed-size toroidal grid.
//!
//! A `World` owns a flat, row-major buffer of cells together with its
//! dimensions. It offers construction (all-dead or a fixed default seed),
//! coordinate-to-position translation with explicit bounds checking,
//! toroidal neighbor counting, the generation step (`tick`), and a textual
//! rendering. Every operation carries a contract describing its exact
//! effect on the cell buffer.

use vstd::prelude::*;

verus! {

use vstd::string::StringExecFns;

/// The state of one cell of the grid.
#[derive(Copy, Clone, PartialEq, Eq, Structural, Debug)]
pub enum Cell {
    Dead,
    Alive,
}

impl Cell {
    /// The integer encoding of a cell: dead cells weigh 0, live cells 1,
    /// so a neighbor count is the sum of the neighbors' weights.
    pub open spec fn spec_weight(self) -> nat {
        match self {
            Cell::Dead => 0,
            Cell::Alive => 1,
        }
    }

    /// Executable counterpart of [`Cell::spec_weight`].
    pub fn weight(self) -> (w: u8)
        ensures
            w as nat == self.spec_weight(),
    {
        match self {
            Cell::Dead => 0,
            Cell::Alive => 1,
        }
    }
}

/// Error raised when a row or column lies outside the grid. It carries the
/// attempted coordinates and the grid's dimensions for diagnostics.
#[derive(Copy, Clone, PartialEq, Eq, Structural, Debug)]
pub struct OutOfBounds {
    pub row: u32,
    pub column: u32,
    pub height: u32,
    pub width: u32,
}

/// A toroidal Game of Life grid: `width * height` cells in row-major order.
pub struct World {
    pub width: u32,
    pub height: u32,
    pub cells: Vec<Cell>,
}

impl World {
    /// Holds when no cell of the grid is alive.
    pub open spec fn all_dead(self) -> bool {
        forall|i: int| 0 <= i < self.cells@.len() ==> self.cells@[i] == Cell::Dead
    }

    /// Well-formedness: positive dimensions, the buffer holds exactly one
    /// cell per coordinate, and the cell count fits the `u32` arithmetic
    /// used for indexing.
    pub open spec fn wf(self) -> bool {
        &&& 0 < self.width
        &&& 0 < self.height
        &&& self.width * self.height <= u32::MAX
        &&& self.cells@.len() == self.width * self.height
    }

    /// The cell stored at `(row, column)` (row-major).
    pub open spec fn cell_at(self, row: int, column: int) -> Cell {
        self.cells@[row * self.width + column]
    }

    /// The cell reached from `(row, column)` by the toroidal offset
    /// `(dr, dc)`: both coordinates wrap around the grid's edges.
    pub open spec fn wrapped_cell(self, row: int, column: int, dr: int, dc: int) -> Cell {
        self.cell_at((row + dr) % (self.height as int), (column + dc) % (self.width as int))
    }

    /// What one offset pair contributes to a neighbor count: nothing for
    /// the zero offset (a cell is not its own neighbor), otherwise the
    /// weight of the wrapped cell. The offsets are taken by value, so on a
    /// one-row or one-column grid a duplicated offset of zero is skipped
    /// each time it occurs.
    pub open spec fn neighbor_contrib(self, row: int, column: int, dr: int, dc: int) -> nat {
        if dr == 0 && dc == 0 {
            0
        } else {
            self.wrapped_cell(row, column, dr, dc).spec_weight()
        }
    }

    /// The number of live cells among the 8 toroidally-wrapped neighbors
    /// of `(row, column)`: row offsets range over `{height-1, 0, 1}` and
    /// column offsets over `{width-1, 0, 1}`, skipping the pair `(0, 0)`.
    /// On grids with a dimension of 1 or 2 the offset lists repeat wrapped
    /// positions, so one physical neighbor may count several times; that
    /// is the behavior of the toroidal formula and is kept as is.
    pub open spec fn spec_neighbors(self, row: int, column: int) -> nat {
        let dh = self.height - 1;
        let dw = self.width - 1;
        self.neighbor_contrib(row, column, dh, dw) + self.neighbor_contrib(row, column, dh, 0)
            + self.neighbor_contrib(row, column, dh, 1) + self.neighbor_contrib(row, column, 0, dw)
            + self.neighbor_contrib(row, column, 0, 0) + self.neighbor_contrib(row, column, 0, 1)
            + self.neighbor_contrib(row, column, 1, dw) + self.neighbor_contrib(row, column, 1, 0)
            + self.neighbor_contrib(row, column, 1, 1)
    }

    /// The weight of the cell reached by the toroidal offset `(dr, dc)`.
    fn wrapped_weight(&self, row: u32, column: u32, dr: u32, dc: u32) -> (w: u8)
        requires
            self.wf(),
        ensures
            w as nat == self.wrapped_cell(
                row as int,
                column as int,
                dr as int,
                dc as int,
            ).spec_weight(),
            w <= 1,
    {
        let nr: u32 = ((row as u64 + dr as u64) % self.height as u64) as u32;
        let nc: u32 = ((column as u64 + dc as u64) % self.width as u64) as u32;
        proof {
            vstd::arithmetic::div_mod::lemma_mod_bound(
                row as int + dr as int,
                self.height as int,
            );
            vstd::arithmetic::div_mod::lemma_mod_bound(
                column as int + dc as int,
                self.width as int,
            );
            lemma_flat_index_bound(self.width as int, self.height as int, nr as int, nc as int);
        }
        let i: usize = (nr * self.width + nc) as usize;
        self.cells[i].weight()
    }

    /// Counts the live cells among the 8 toroidally-wrapped neighbors of
    /// `(row, column)`. The wrapped lookups are always in bounds, so the
    /// count is returned for any coordinates; it never exceeds 8.
    pub fn count_neighbors(&self, row: u32, column: u32) -> (r: Result<u8, OutOfBounds>)
        requires
            self.wf(),
        ensures
            r is Ok,
            r->Ok_0 as nat == self.spec_neighbors(row as int, column as int),
            r->Ok_0 <= 8,
    {
        let dh: u32 = self.height - 1;
        let dw: u32 = self.width - 1;
        let mut living: u8 = 0;
        if !(dh == 0 && dw == 0) {
            living = living + self.wrapped_weight(row, column, dh, dw);
        }
        if dh != 0 {
            living = living + self.wrapped_weight(row, column, dh, 0);
        }
        living = living + self.wrapped_weight(row, column, dh, 1);
        if dw != 0 {
            living = living + self.wrapped_weight(row, column, 0, dw);
        }
        living = living + self.wrapped_weight(row, column, 0, 1);
        living = living + self.wrapped_weight(row, column, 1, dw);
        living = living + self.wrapped_weight(row, column, 1, 0);
        living = living + self.wrapped_weight(row, column, 1, 1);
        Ok(living)
    }

    /// One rendered row: a glyph per cell, terminated by a newline.
    pub open spec fn spec_render_row(self, row: int) -> Seq<char> {
        Seq::new(self.width as nat, |c: int| glyph(self.cell_at(row, c))) + seq!['\n']
    }

    /// The first `n` rendered rows, in iteration order.
    pub open spec fn spec_render_rows(self, n: int) -> Seq<char>
        decreases n,
    {
        if n <= 0 {
            Seq::empty()
        } else {
            self.spec_render_rows(n - 1) + self.spec_render_row(n - 1)
        }
    }

    /// The full rendering: one line per row, one glyph per cell.
    pub open spec fn spec_render(self) -> Seq<char> {
        self.spec_render_rows(self.height as int)
    }

    /// Renders the grid as text, row 0 first, each row newline-terminated;
    /// the form a host adapter displays.
    pub fn wasm_render(&self) -> (r: String)
        requires
            self.wf(),
        ensures
            r@ == self.spec_render(),
    {
        let mut out: String = String::new();
        let mut row: u32 = 0;
        while row < self.height
            invariant
                self.wf(),
                row <= self.height,
                out@ == self.spec_render_rows(row as int),
            decreases self.height - row,
        {
            let mut col: u32 = 0;
            while col < self.width
                invariant
                    self.wf(),
                    row < self.height,
                    col <= self.width,
                    out@ == self.spec_render_rows(row as int) + Seq::new(
                        col as nat,
                        |c: int| glyph(self.cell_at(row as int, c)),
                    ),
                decreases self.width - col,
            {
                proof {
                    lemma_flat_index_bound(
                        self.width as int,
                        self.height as int,
                        row as int,
                        col as int,
                    );
                }
                let i: usize = (row * self.width + col) as usize;
                let cell: Cell = self.cells[i];
                if cell == Cell::Dead {
                    out.append("\u{25fb}");
                } else {
                    out.append("\u{25fc}");
                }
                proof {
                    reveal_strlit("\u{25fb}");
                    reveal_strlit("\u{25fc}");
                    let drawn = Seq::new(
                        col as nat,
                        |c: int| glyph(self.cell_at(row as int, c)),
                    );
                    assert(Seq::new(col as nat + 1, |c: int| glyph(self.cell_at(row as int, c)))
                        =~= drawn.push(glyph(self.cell_at(row as int, col as int))));
                    assert(out@ =~= self.spec_render_rows(row as int) + Seq::new(
                        col as nat + 1,
                        |c: int| glyph(self.cell_at(row as int, c)),
                    ));
                }
                col = col + 1;
            }
            out.append("\n");
            proof {
                reveal_strlit("\n");
                assert(out@ =~= self.spec_render_rows(row as int + 1));
            }
            row = row + 1;
        }
        out
    }

    /// Advances the grid by one generation; the entry point a host adapter
    /// calls on each step. The step always succeeds (see [`World::tick`]),
    /// so there is no result to report.
    pub fn wasm_tick(&mut self)
        requires
            old(self).wf(),
        ensures
            final(self).wf(),
            final(self).width == old(self).width,
            final(self).height == old(self).height,
            final(self).cells@.len() == old(self).cells@.len(),
            forall|row: int, col: int|
                0 <= row < old(self).height && 0 <= col < old(self).width
                    ==> #[trigger] final(self).cell_at(row, col) == next_cell(
                    old(self).cell_at(row, col),
                    old(self).spec_neighbors(row, col),
                ),
    {
        self.tick().unwrap();
    }

    /// Decides well-formedness at run time, for callers outside the
    /// verified library that hold a grid whose invariant is not tracked.
    pub fn is_well_formed(&self) -> (b: bool)
        ensures
            b == self.wf(),
    {
        let wu: u64 = self.width as u64;
        let hu: u64 = self.height as u64;
        proof {
            assert(wu as int * hu as int <= u32::MAX as int * u32::MAX as int)
                by (nonlinear_arith)
                requires
                    wu <= u32::MAX,
                    hu <= u32::MAX,
            ;
        }
        let total: u64 = wu * hu;
        0 < self.width && 0 < self.height && total <= u32::MAX as u64 && self.cells.len() as u64
            == total
    }

    /// Translates coordinates into the flat storage position.
    ///
    /// Returns `Ok(row * width + column)` exactly when both coordinates are
    /// in range, and the out-of-bounds diagnostic otherwise.
    pub fn index(&self, row: u32, column: u32) -> (r: Result<usize, OutOfBounds>)
        requires
            self.wf(),
        ensures
            r is Ok <==> (row < self.height && column < self.width),
            r is Ok ==> r->Ok_0 == row * self.width + column,
            r is Err ==> r->Err_0 == (OutOfBounds {
                row,
                column,
                height: self.height,
                width: self.width,
            }),
    {
        if row < self.height && column < self.width {
            proof {
                lemma_flat_index_bound(
                    self.width as int,
                    self.height as int,
                    row as int,
                    column as int,
                );
            }
            Ok((row * self.width + column) as usize)
        } else {
            Err(OutOfBounds { row, column, height: self.height, width: self.width })
        }
    }

    pub fn get_width(&self) -> (w: u32)
        ensures
            w == self.width,
    {
        self.width
    }

    pub fn get_height(&self) -> (h: u32)
        ensures
            h == self.height,
    {
        self.height
    }

    /// Builds the default grid; the entry point a host adapter calls to
    /// start a simulation.
    pub fn wasm_create() -> (w: World)
        ensures
            w.wf(),
            w.width == 64,
            w.height == 64,
            w.cells@.len() == 64 * 64,
            forall|i: int| 0 <= i < w.cells@.len() ==> #[trigger] w.cells@[i] == default_cell(i),
    {
        World::default()
    }

    /// Reads the cell at `(row, column)`, or reports the out-of-bounds
    /// diagnostic under the same rule as [`World::index`].
    pub fn get_cell(&self, row: u32, column: u32) -> (r: Result<Cell, OutOfBounds>)
        requires
            self.wf(),
        ensures
            r is Ok <==> (row < self.height && column < self.width),
            r is Ok ==> r->Ok_0 == self.cell_at(row as int, column as int),
            r is Err ==> r->Err_0 == (OutOfBounds {
                row,
                column,
                height: self.height,
                width: self.width,
            }),
    {
        match self.index(row, column) {
            Ok(i) => {
                proof {
                    lemma_flat_index_bound(
                        self.width as int,
                        self.height as int,
                        row as int,
                        column as int,
                    );
                }
                Ok(self.cells[i])
            },
            Err(e) => Err(e),
        }
    }

    /// Advances the grid by one generation.
    ///
    /// The whole next generation is computed from the current buffer and
    /// swapped in at once, so no cell's new state depends on an
    /// already-updated cell. The dimensions never change. The scan only
    /// visits in-range coordinates, so the bounds checks it runs through
    /// never fail and the step always succeeds.
    pub fn tick(&mut self) -> (r: Result<(), OutOfBounds>)
        requires
            old(self).wf(),
        ensures
            r is Ok,
            final(self).wf(),
            final(self).width == old(self).width,
            final(self).height == old(self).height,
            final(self).cells@.len() == old(self).cells@.len(),
            forall|row: int, col: int|
                0 <= row < old(self).height && 0 <= col < old(self).width
                    ==> #[trigger] final(self).cell_at(row, col) == next_cell(
                    old(self).cell_at(row, col),
                    old(self).spec_neighbors(row, col),
                ),
    {
        let w: u32 = self.width;
        let h: u32 = self.height;
        let mut next: Vec<Cell> = Vec::new();
        let mut row: u32 = 0;
        while row < h
            invariant
                *self == *old(self),
                self.wf(),
                w == self.width,
                h == self.height,
                row <= h,
                next@.len() == row * w,
                forall|i: int|
                    0 <= i < next@.len() ==> next@[i] == next_cell(
                        self.cells@[i],
                        self.spec_neighbors(i / (w as int), i % (w as int)),
                    ),
            decreases h - row,
        {
            let mut col: u32 = 0;
            while col < w
                invariant
                    *self == *old(self),
                    self.wf(),
                    w == self.width,
                    h == self.height,
                    row < h,
                    col <= w,
                    next@.len() == row * w + col,
                    forall|i: int|
                        0 <= i < next@.len() ==> next@[i] == next_cell(
                            self.cells@[i],
                            self.spec_neighbors(i / (w as int), i % (w as int)),
                        ),
                decreases w - col,
            {
                let position: usize = match self.index(row, col) {
                    Ok(p) => p,
                    Err(e) => return Err(e),
                };
                let neighbors: u8 = match self.count_neighbors(row, col) {
                    Ok(n) => n,
                    Err(e) => return Err(e),
                };
                proof {
                    lemma_flat_index_bound(w as int, h as int, row as int, col as int);
                    vstd::arithmetic::div_mod::lemma_fundamental_div_mod_converse(
                        row as int * w as int + col as int,
                        w as int,
                        row as int,
                        col as int,
                    );
                }
                let cell: Cell = self.cells[position];
                let successor: Cell = match (cell, neighbors) {
                    (Cell::Alive, n) if n < 2 => Cell::Dead,
                    (Cell::Alive, n) if n >= 2 && n <= 3 => Cell::Alive,
                    (Cell::Dead, n) if n == 3 => Cell::Alive,
                    (Cell::Alive, n) if n > 3 => Cell::Dead,
                    (unchanged, _) => unchanged,
                };
                next.push(successor);
                col = col + 1;
            }
            proof {
                assert((row as int + 1) * (w as int) == row as int * w as int + w as int)
                    by (nonlinear_arith);
            }
            row = row + 1;
        }
        proof {
            assert(h as int * w as int == w as int * h as int) by (nonlinear_arith);
        }
        self.cells = next;
        proof {
            assert forall|r2: int, c2: int|
                0 <= r2 < old(self).height && 0 <= c2 < old(self).width implies self.cell_at(
                r2,
                c2,
            ) == next_cell(old(self).cell_at(r2, c2), old(self).spec_neighbors(r2, c2)) by {
                lemma_flat_index_bound(w as int, h as int, r2, c2);
                vstd::arithmetic::div_mod::lemma_fundamental_div_mod_converse(
                    r2 * w as int + c2,
                    w as int,
                    r2,
                    c2,
                );
            }
        }
        Ok(())
    }

    /// Builds a grid of the given dimensions with every cell dead.
    pub fn new(width: u32, height: u32) -> (w: World)
        requires
            0 < width,
            0 < height,
            width * height <= u32::MAX,
        ensures
            w.wf(),
            w.width == width,
            w.height == height,
            w.cells@.len() == width * height,
            forall|i: int| 0 <= i < w.cells@.len() ==> w.cells@[i] == Cell::Dead,
    {
        let total: u32 = width * height;
        let mut cells: Vec<Cell> = Vec::new();
        let mut i: u32 = 0;
        while i < total
            invariant
                i <= total,
                cells@.len() == i,
                forall|j: int| 0 <= j < i ==> cells@[j] == Cell::Dead,
            decreases total - i,
        {
            cells.push(Cell::Dead);
            i = i + 1;
        }
        World { width, height, cells }
    }
}

/// The glyph a cell renders as: a filled square for a live cell, an empty
/// one for a dead cell.
pub open spec fn glyph(cell: Cell) -> char {
    if cell == Cell::Alive {
        '\u{25fc}'
    } else {
        '\u{25fb}'
    }
}

/// The Game of Life rule (birth on exactly 3 neighbors, survival on 2 or
/// 3): the next state of a cell in state `cell` with `n` live neighbors.
pub open spec fn next_cell(cell: Cell, n: nat) -> Cell {
    if cell == Cell::Alive && n < 2 {
        Cell::Dead
    } else if cell == Cell::Alive && 2 <= n && n <= 3 {
        Cell::Alive
    } else if cell == Cell::Dead && n == 3 {
        Cell::Alive
    } else if cell == Cell::Alive && n > 3 {
        Cell::Dead
    } else {
        cell
    }
}

/// The default seed pattern: flat position `i` starts alive exactly when
/// `i` is divisible by 2 or by 7.
pub open spec fn default_cell(i: int) -> Cell {
    if i % 2 == 0 || i % 7 == 0 {
        Cell::Alive
    } else {
        Cell::Dead
    }
}

impl Default for World {
    /// Builds the default 64-by-64 grid seeded with [`default_cell`].
    fn default() -> (w: World)
        ensures
            w.wf(),
            w.width == 64,
            w.height == 64,
            w.cells@.len() == 64 * 64,
            forall|i: int| 0 <= i < w.cells@.len() ==> #[trigger] w.cells@[i] == default_cell(i),
    {
        let width: u32 = 64;
        let height: u32 = 64;
        let total: u32 = width * height;
        let mut cells: Vec<Cell> = Vec::new();
        let mut i: u32 = 0;
        while i < total
            invariant
                i <= total,
                cells@.len() == i,
                forall|j: int| 0 <= j < i ==> cells@[j] == default_cell(j),
            decreases total - i,
        {
            if i % 2 == 0 || i % 7 == 0 {
                cells.push(Cell::Alive);
            } else {
                cells.push(Cell::Dead);
            }
            i = i + 1;
        }
        World { width, height, cells }
    }
}

/// In a grid with no live cells, every toroidal offset contributes nothing
/// to a neighbor count.
proof fn lemma_dead_contrib_zero(g: World, row: int, column: int, dr: int, dc: int)
    requires
        g.wf(),
        g.all_dead(),
        0 <= row,
        0 <= column,
        0 <= dr,
        0 <= dc,
    ensures
        g.neighbor_contrib(row, column, dr, dc) == 0,
{
    if !(dr == 0 && dc == 0) {
        let h = g.height as int;
        let w = g.width as int;
        vstd::arithmetic::div_mod::lemma_mod_bound(row + dr, h);
        vstd::arithmetic::div_mod::lemma_mod_bound(column + dc, w);
        lemma_flat_index_bound(w, h, (row + dr) % h, (column + dc) % w);
    }
}

/// In a grid with no live cells, every neighbor count is zero.
proof fn lemma_dead_neighbors_zero(g: World, row: int, column: int)
    requires
        g.wf(),
        g.all_dead(),
        0 <= row,
        0 <= column,
    ensures
        g.spec_neighbors(row, column) == 0,
{
    let dh = g.height - 1;
    let dw = g.width - 1;
    lemma_dead_contrib_zero(g, row, column, dh, dw);
    lemma_dead_contrib_zero(g, row, column, dh, 0);
    lemma_dead_contrib_zero(g, row, column, dh, 1);
    lemma_dead_contrib_zero(g, row, column, 0, dw);
    lemma_dead_contrib_zero(g, row, column, 0, 0);
    lemma_dead_contrib_zero(g, row, column, 0, 1);
    lemma_dead_contrib_zero(g, row, column, 1, dw);
    lemma_dead_contrib_zero(g, row, column, 1, 0);
    lemma_dead_contrib_zero(g, row, column, 1, 1);
}

/// A grid with no live cells stays entirely dead under the generation
/// rule: if `next` relates to `prev` as the postcondition of
/// [`World::tick`] states and `prev` has no live cell, then neither has
/// `next`. Applied after each of a run of ticks, it shows an all-dead grid
/// stays dead for any number of generations.
pub proof fn lemma_dead_grid_stays_dead(prev: World, next: World)
    requires
        prev.wf(),
        prev.all_dead(),
        next.wf(),
        next.width == prev.width,
        next.height == prev.height,
        forall|row: int, col: int|
            0 <= row < prev.height && 0 <= col < prev.width ==> #[trigger] next.cell_at(row, col)
                == next_cell(prev.cell_at(row, col), prev.spec_neighbors(row, col)),
    ensures
        next.all_dead(),
{
    let w = next.width as int;
    let h = next.height as int;
    assert forall|i: int| 0 <= i < next.cells@.len() implies next.cells@[i] == Cell::Dead by {
        vstd::arithmetic::div_mod::lemma_fundamental_div_mod(i, w);
        vstd::arithmetic::div_mod::lemma_mod_bound(i, w);
        let row = i / w;
        let col = i % w;
        assert(0 <= row < h) by (nonlinear_arith)
            requires
                0 < w,
                0 <= i < w * h,
                0 <= col < w,
                i == w * row + col,
        ;
        assert(i == row * w + col) by (nonlinear_arith)
            requires
                i == w * row + col,
        ;
        lemma_flat_index_bound(w, h, row, col);
        lemma_dead_neighbors_zero(prev, row, col);
        assert(next.cell_at(row, col) == next_cell(prev.cell_at(row, col), 0));
    }
}

/// Stepping by 1, or by `m - 1`, from a position in `[0, m)` lands on a
/// different position modulo `m`, once `m` is at least 2.
proof fn lemma_shift_changes_position(x: int, d: int, m: int)
    requires
        2 <= m,
        0 <= x < m,
        d == 1 || d == m - 1,
    ensures
        (x + d) % m != x,
{
    if x + d < m {
        vstd::arithmetic::div_mod::lemma_fundamental_div_mod_converse(x + d, m, 0, x + d);
    } else {
        vstd::arithmetic::div_mod::lemma_fundamental_div_mod_converse(x + d, m, 1, x + d - m);
    }
}

/// Two grids that agree everywhere but at one position give the same
/// contribution for any offset that moves off that position.
proof fn lemma_contrib_ignores_cell(g1: World, g2: World, row: int, col: int, dr: int, dc: int)
    requires
        g1.wf(),
        g2.wf(),
        g1.width == g2.width,
        g1.height == g2.height,
        0 <= row < g1.height,
        0 <= col < g1.width,
        0 <= dr,
        0 <= dc,
        (row + dr) % (g1.height as int) != row || (col + dc) % (g1.width as int) != col,
        forall|i: int|
            0 <= i < g1.cells@.len() && i != row * g1.width + col ==> g1.cells@[i] == g2.cells@[i],
    ensures
        g1.neighbor_contrib(row, col, dr, dc) == g2.neighbor_contrib(row, col, dr, dc),
{
    if !(dr == 0 && dc == 0) {
        let h = g1.height as int;
        let w = g1.width as int;
        vstd::arithmetic::div_mod::lemma_mod_bound(row + dr, h);
        vstd::arithmetic::div_mod::lemma_mod_bound(col + dc, w);
        let nr = (row + dr) % h;
        let nc = (col + dc) % w;
        lemma_flat_index_bound(w, h, nr, nc);
        if nr * w + nc == row * w + col {
            vstd::arithmetic::div_mod::lemma_fundamental_div_mod_converse(
                nr * w + nc,
                w,
                nr,
                nc,
            );
            vstd::arithmetic::div_mod::lemma_fundamental_div_mod_converse(
                row * w + col,
                w,
                row,
                col,
            );
        }
    }
}

/// A cell's own state never contributes to its own neighbor count: on a
/// grid at least 2 cells wide and 2 cells tall, two grids that differ at
/// most in the cell at `(row, col)` assign `(row, col)` the same neighbor
/// count. (On a one-row or one-column grid the wrapped offsets reach the
/// cell itself, so there the count does read it; such grids are left out.)
pub proof fn lemma_own_cell_never_counts(g1: World, g2: World, row: int, col: int)
    requires
        g1.wf(),
        g2.wf(),
        g1.width == g2.width,
        g1.height == g2.height,
        2 <= g1.width,
        2 <= g1.height,
        0 <= row < g1.height,
        0 <= col < g1.width,
        forall|i: int|
            0 <= i < g1.cells@.len() && i != row * g1.width + col ==> g1.cells@[i] == g2.cells@[i],
    ensures
        g1.spec_neighbors(row, col) == g2.spec_neighbors(row, col),
{
    let h = g1.height as int;
    let w = g1.width as int;
    let dh = h - 1;
    let dw = w - 1;
    lemma_shift_changes_position(row, 1, h);
    lemma_shift_changes_position(row, dh, h);
    lemma_shift_changes_position(col, 1, w);
    lemma_shift_changes_position(col, dw, w);
    lemma_contrib_ignores_cell(g1, g2, row, col, dh, dw);
    lemma_contrib_ignores_cell(g1, g2, row, col, dh, 0);
    lemma_contrib_ignores_cell(g1, g2, row, col, dh, 1);
    lemma_contrib_ignores_cell(g1, g2, row, col, 0, dw);
    lemma_contrib_ignores_cell(g1, g2, row, col, 0, 1);
    lemma_contrib_ignores_cell(g1, g2, row, col, 1, dw);
    lemma_contrib_ignores_cell(g1, g2, row, col, 1, 0);
    lemma_contrib_ignores_cell(g1, g2, row, col, 1, 1);
}

/// The flat row-major position of in-range coordinates lies inside the
/// buffer of a grid with those dimensions.
proof fn lemma_flat_index_bound(w: int, h: int, r: int, c: int)
    requires
        0 <= r < h,
        0 <= c < w,
    ensures
        0 <= r * w + c < h * w,
        0 <= r * w + c < w * h,
{
    assert(0 <= r * w + c < h * w && r * w + c < w * h) by (nonlinear_arith)
        requires
            0 <= r < h,
            0 <= c < w,
    ;
}

} // verus!
