use vstd::prelude::*;
use vstd::string::StringExecFns;
use vstd::arithmetic::div_mod::{lemma_fundamental_div_mod, lemma_fundamental_div_mod_converse};

verus! {

/// The state of one cell of the grid.
#[derive(Clone, Copy, Debug, PartialEq, Eq, Structural)]
pub enum Cell {
    Dead,
    Alive,
}

/// Why a grid could not be built from the given dimensions and cells.
#[derive(Clone, Copy, Debug, PartialEq, Eq, Structural)]
pub enum GridError {
    /// The width or the height is zero.
    InvalidDimension,
    /// The number of cells is not `width * height`.
    CellCountMismatch,
}

/// The abstract value of a grid: its dimensions and its cells in row-major order.
pub ghost struct GridModel {
    pub width: nat,
    pub height: nat,
    pub cells: Seq<Cell>,
}

/// The next state of a cell in state `cell` with `n` live neighbours.
pub open spec fn next_state(cell: Cell, n: nat) -> Cell {
    match cell {
        Cell::Alive => if n < 2 {
            Cell::Dead
        } else if n <= 3 {
            Cell::Alive
        } else {
            Cell::Dead
        },
        Cell::Dead => if n == 3 {
            Cell::Alive
        } else {
            Cell::Dead
        },
    }
}

/// The initial state of the cell at linear index `i` of a new grid.
pub open spec fn seed_cell(i: int) -> Cell {
    if i % 2 == 0 || i % 7 == 0 {
        Cell::Alive
    } else {
        Cell::Dead
    }
}

/// The glyph that stands for a cell in the text rendering.
pub open spec fn glyph(c: Cell) -> char {
    match c {
        Cell::Dead => '◻',
        Cell::Alive => '◼',
    }
}

impl GridModel {
    /// Positive dimensions, and exactly one cell per position.
    pub open spec fn wf(self) -> bool {
        &&& self.width > 0
        &&& self.height > 0
        &&& self.cells.len() == self.width * self.height
    }

    /// Linear position of `(row, column)` in the cell sequence.
    pub open spec fn index(self, row: int, column: int) -> int {
        row * self.width + column
    }

    /// The cell at `(row, column)`, both coordinates taken modulo the
    /// dimensions, so that the grid wraps around at every edge.
    pub open spec fn cell_at(self, row: int, column: int) -> Cell {
        self.cells[self.index(row % (self.height as int), column % (self.width as int))]
    }

    /// One if the (wrapped) cell at `(row, column)` is alive, else zero.
    pub open spec fn alive_at(self, row: int, column: int) -> nat {
        if self.cell_at(row, column) == Cell::Alive {
            1
        } else {
            0
        }
    }

    /// Number of live cells among the eight that surround `(row, column)`
    /// on the torus.
    pub open spec fn neighbor_count(self, row: int, column: int) -> nat {
        self.alive_at(row - 1, column - 1) + self.alive_at(row - 1, column) + self.alive_at(
            row - 1,
            column + 1,
        ) + self.alive_at(row, column - 1) + self.alive_at(row, column + 1) + self.alive_at(
            row + 1,
            column - 1,
        ) + self.alive_at(row + 1, column) + self.alive_at(row + 1, column + 1)
    }

    /// The next generation: every cell takes its next state from its current
    /// state and its neighbour count in this generation.
    pub open spec fn step(self) -> GridModel {
        GridModel {
            width: self.width,
            height: self.height,
            cells: Seq::new(
                self.cells.len(),
                |i: int|
                    next_state(
                        self.cells[i],
                        self.neighbor_count(i / (self.width as int), i % (self.width as int)),
                    ),
            ),
        }
    }

    /// One line of the text rendering: the glyphs of row `row`, left to
    /// right, followed by a line break.
    pub open spec fn row_text(self, row: int) -> Seq<char> {
        Seq::new(self.width, |c: int| glyph(self.cells[self.index(row, c)])).push('\n')
    }

    /// The lines of the first `rows` rows, top to bottom.
    pub open spec fn text_of_rows(self, rows: nat) -> Seq<char>
        decreases rows,
    {
        if rows == 0 {
            Seq::empty()
        } else {
            self.text_of_rows((rows - 1) as nat) + self.row_text(rows - 1)
        }
    }

    /// The text rendering of the whole grid.
    pub open spec fn text(self) -> Seq<char> {
        self.text_of_rows(self.height)
    }

    /// `x` is one of the two consecutive positions `start` and
    /// `start + 1` (wrapped) along a dimension of size `n`.
    pub open spec fn in_pair(x: int, start: int, n: int) -> bool {
        x == start || x == (start + 1) % n
    }

    /// The live cells are exactly the 2 by 2 block whose top-left cell is
    /// `(top, left)`, wrapping around the edges.
    pub open spec fn is_block(self, top: int, left: int) -> bool {
        forall|row: int, column: int|
            0 <= row < self.height && 0 <= column < self.width ==> #[trigger] self.cells[self.index(
                row,
                column,
            )] == if GridModel::in_pair(row, top, self.height as int) && GridModel::in_pair(
                column,
                left,
                self.width as int,
            ) {
                Cell::Alive
            } else {
                Cell::Dead
            }
    }

    /// The grid after `n` generations.
    pub open spec fn after(self, n: nat) -> GridModel
        decreases n,
    {
        if n == 0 {
            self
        } else {
            self.step().after((n - 1) as nat)
        }
    }
}

/// `x + n` and `x` agree modulo `n` for `x` in `[-1, n]`, and the remainder
/// is the wrapped coordinate.
proof fn lemma_wrap(x: int, n: int)
    requires
        n > 0,
        -1 <= x <= n,
    ensures
        (x + n) % n == x % n,
        x % n == if x < 0 {
            x + n
        } else if x == n {
            0
        } else {
            x
        },
{
    if x < 0 {
        lemma_fundamental_div_mod_converse(x, n, -1, n - 1);
        lemma_fundamental_div_mod_converse(x + n, n, 0, n - 1);
    } else if x == n {
        lemma_fundamental_div_mod_converse(x, n, 1, 0);
        lemma_fundamental_div_mod_converse(x + n, n, 2, 0);
    } else {
        lemma_fundamental_div_mod_converse(x, n, 0, x);
        lemma_fundamental_div_mod_converse(x + n, n, 1, x);
    }
}

/// Advancing a well-formed grid any number of generations keeps its width
/// and height, and keeps it well formed.
pub proof fn lemma_after_keeps_dimensions(m: GridModel, n: nat)
    requires
        m.wf(),
    ensures
        m.after(n).width == m.width,
        m.after(n).height == m.height,
        m.after(n).wf(),
    decreases n,
{
    if n > 0 {
        lemma_after_keeps_dimensions(m.step(), (n - 1) as nat);
    }
}

/// The grid wraps around at its edges: a live cell at `(0, 0)` counts as a
/// neighbour of the three other corners `(height - 1, 0)`, `(0, width - 1)`
/// and `(height - 1, width - 1)`.
pub proof fn lemma_corners_are_neighbors(m: GridModel)
    requires
        m.wf(),
        m.cell_at(0, 0) == Cell::Alive,
    ensures
        m.neighbor_count(m.height - 1, 0) >= 1,
        m.neighbor_count(0, m.width - 1) >= 1,
        m.neighbor_count(m.height - 1, m.width - 1) >= 1,
{
    let h = m.height as int;
    let w = m.width as int;
    lemma_wrap(h, h);
    lemma_wrap(w, w);
    lemma_wrap(0, h);
    lemma_wrap(0, w);
    assert(m.cells.len() > 0) by (nonlinear_arith)
        requires
            m.cells.len() == w * h,
            w > 0,
            h > 0,
    ;
    assert(m.index(0, 0) == 0);
    assert(m.alive_at(h, 0) == 1);
    assert(m.alive_at(0, w) == 1);
    assert(m.alive_at(h, w) == 1);
}

/// In a block, every cell keeps its state for one generation.
proof fn lemma_block_cell(m: GridModel, top: int, left: int, row: int, column: int)
    requires
        m.wf(),
        m.height >= 3,
        m.width >= 3,
        0 <= top < m.height,
        0 <= left < m.width,
        m.is_block(top, left),
        0 <= row < m.height,
        0 <= column < m.width,
    ensures
        next_state(m.cells[m.index(row, column)], m.neighbor_count(row, column)) == m.cells[m.index(
            row,
            column,
        )],
{
    let h = m.height as int;
    let w = m.width as int;
    lemma_wrap(top + 1, h);
    lemma_wrap(left + 1, w);
    lemma_wrap(row - 1, h);
    lemma_wrap(row, h);
    lemma_wrap(row + 1, h);
    lemma_wrap(column - 1, w);
    lemma_wrap(column, w);
    lemma_wrap(column + 1, w);
    let rows = seq![(row - 1) % h, row, (row + 1) % h];
    let columns = seq![(column - 1) % w, column, (column + 1) % w];
    assert forall|i: int, j: int| 0 <= i < 3 && 0 <= j < 3 implies m.alive_at(
        row + i - 1,
        column + j - 1,
    ) == if GridModel::in_pair(rows[i], top, h) && GridModel::in_pair(columns[j], left, w) {
        1nat
    } else {
        0nat
    } by {}
    // Each term of the neighbour count is one instance of the fact above.
    assert(m.alive_at(row - 1, column - 1) == m.alive_at(row + 0 - 1, column + 0 - 1));
    assert(m.alive_at(row - 1, column) == m.alive_at(row + 0 - 1, column + 1 - 1));
    assert(m.alive_at(row - 1, column + 1) == m.alive_at(row + 0 - 1, column + 2 - 1));
    assert(m.alive_at(row, column - 1) == m.alive_at(row + 1 - 1, column + 0 - 1));
    assert(m.alive_at(row, column + 1) == m.alive_at(row + 1 - 1, column + 2 - 1));
    assert(m.alive_at(row + 1, column - 1) == m.alive_at(row + 2 - 1, column + 0 - 1));
    assert(m.alive_at(row + 1, column) == m.alive_at(row + 2 - 1, column + 1 - 1));
    assert(m.alive_at(row + 1, column + 1) == m.alive_at(row + 2 - 1, column + 2 - 1));
}

/// A 2 by 2 block of live cells on an otherwise dead grid of at least 3 rows
/// and 3 columns stays exactly the same for any number of generations.
pub proof fn lemma_block_still_life(m: GridModel, top: int, left: int, n: nat)
    requires
        m.wf(),
        m.height >= 3,
        m.width >= 3,
        0 <= top < m.height,
        0 <= left < m.width,
        m.is_block(top, left),
    ensures
        m.after(n) == m,
    decreases n,
{
    if n > 0 {
        let h = m.height as int;
        let w = m.width as int;
        assert forall|i: int| 0 <= i < m.cells.len() implies #[trigger] m.step().cells[i]
            == m.cells[i] by {
            lemma_fundamental_div_mod(i, w);
            let row = i / w;
            let column = i % w;
            assert(0 <= row < h) by (nonlinear_arith)
                requires
                    i == w * row + column,
                    0 <= column < w,
                    0 <= i < w * h,
            ;
            assert(m.index(row, column) == i) by (nonlinear_arith)
                requires
                    i == w * row + column,
                    m.index(row, column) == row * w + column,
            ;
            lemma_block_cell(m, top, left, row, column);
        }
        assert(m.step().cells =~= m.cells);
        assert(m.step() == m);
        lemma_block_still_life(m, top, left, (n - 1) as nat);
    }
}

/// Width of the grid that [`Universe::new`] builds.
pub const DEFAULT_WIDTH: u32 = 64;

/// Height of the grid that [`Universe::new`] builds.
pub const DEFAULT_HEIGHT: u32 = 64;

/// A grid of cells that advances one generation per `tick`.
#[derive(Debug)]
pub struct Universe {
    width: u32,
    height: u32,
    cells: Vec<Cell>,
}

impl View for Universe {
    type V = GridModel;

    closed spec fn view(&self) -> GridModel {
        GridModel { width: self.width as nat, height: self.height as nat, cells: self.cells@ }
    }
}

impl Universe {
    /// The grid's model is well formed.
    pub open spec fn wf(&self) -> bool {
        self@.wf()
    }

    fn get_index(&self, row: u32, column: u32) -> (r: usize)
        requires
            self.wf(),
            row < self@.height,
            column < self@.width,
        ensures
            r == self@.index(row as int, column as int),
            r < self@.cells.len(),
    {
        let w: u32 = self.width;
        let h: u32 = self.height;
        let len: usize = self.cells.len();
        proof {
            assert(row * w + column < h * w) by (nonlinear_arith)
                requires
                    row < h,
                    column < w,
            ;
        }
        assert(row * w + column < len);
        row as usize * w as usize + column as usize
    }

    /// One if the neighbour at offset `(delta_row - 1, delta_column - 1)` of
    /// `(row, column)` is alive, else zero. The offsets are shifted by one so
    /// that the wrapped coordinate is computed without signed arithmetic.
    fn neighbor_alive(&self, row: u32, column: u32, delta_row: u32, delta_column: u32) -> (r: u8)
        requires
            self.wf(),
            row < self@.height,
            column < self@.width,
            delta_row < 3,
            delta_column < 3,
        ensures
            r as nat == self@.alive_at(row + delta_row - 1, column + delta_column - 1),
    {
        let h: u64 = self.height as u64;
        let w: u64 = self.width as u64;
        let neighbor_row: u32 = ((row as u64 + h - 1 + delta_row as u64) % h) as u32;
        let neighbor_column: u32 = ((column as u64 + w - 1 + delta_column as u64) % w) as u32;
        proof {
            lemma_wrap(row + delta_row - 1, h as int);
            lemma_wrap(column + delta_column - 1, w as int);
        }
        let index: usize = self.get_index(neighbor_row, neighbor_column);
        match self.cells[index] {
            Cell::Alive => 1,
            Cell::Dead => 0,
        }
    }

    /// The number of live cells among the eight neighbours of `(row, column)`,
    /// with wrap-around at the edges.
    pub fn live_neighbor_count(&self, row: u32, column: u32) -> (count: u8)
        requires
            self.wf(),
            row < self@.height,
            column < self@.width,
        ensures
            count as nat == self@.neighbor_count(row as int, column as int),
            count <= 8,
    {
        let mut count: u8 = 0;
        count = count + self.neighbor_alive(row, column, 0, 0);
        count = count + self.neighbor_alive(row, column, 0, 1);
        count = count + self.neighbor_alive(row, column, 0, 2);
        count = count + self.neighbor_alive(row, column, 1, 0);
        count = count + self.neighbor_alive(row, column, 1, 2);
        count = count + self.neighbor_alive(row, column, 2, 0);
        count = count + self.neighbor_alive(row, column, 2, 1);
        count = count + self.neighbor_alive(row, column, 2, 2);
        count
    }

    /// Advances the grid by one generation. The next generation is computed
    /// from the current one in full before it replaces it.
    pub fn tick(&mut self)
        requires
            old(self).wf(),
        ensures
            final(self).wf(),
            final(self)@ == old(self)@.step(),
    {
        let ghost current = self@;
        let mut next: Vec<Cell> = Vec::new();
        let mut row: u32 = 0;
        while row < self.height
            invariant
                self.wf(),
                self@ == current,
                row <= self@.height,
                next@.len() == row * self@.width,
                forall|i: int| 0 <= i < next@.len() ==> next@[i] == #[trigger] current.step().cells[i],
            decreases self@.height - row,
        {
            let mut column: u32 = 0;
            while column < self.width
                invariant
                    self.wf(),
                    self@ == current,
                    row < self@.height,
                    column <= self@.width,
                    next@.len() == row * self@.width + column,
                    forall|i: int| 0 <= i < next@.len() ==> next@[i] == #[trigger] current.step().cells[i],
                decreases self@.width - column,
            {
                let index: usize = self.get_index(row, column);
                let cell: Cell = self.cells[index];
                let live_neighbors: u8 = self.live_neighbor_count(row, column);
                let next_cell: Cell = match cell {
                    Cell::Alive => if live_neighbors < 2 {
                        Cell::Dead
                    } else if live_neighbors == 2 || live_neighbors == 3 {
                        Cell::Alive
                    } else {
                        Cell::Dead
                    },
                    Cell::Dead => if live_neighbors == 3 {
                        Cell::Alive
                    } else {
                        cell
                    },
                };
                proof {
                    lemma_fundamental_div_mod_converse(
                        index as int,
                        current.width as int,
                        row as int,
                        column as int,
                    );
                }
                next.push(next_cell);
                column = column + 1;
            }
            proof {
                assert(row * self@.width + self@.width == (row + 1) * self@.width) by (nonlinear_arith);
            }
            row = row + 1;
        }
        assert(next@.len() == current.cells.len()) by {
            assert(row * current.width == current.width * current.height) by (nonlinear_arith)
                requires
                    row == current.height,
            ;
        }
        assert(next@ =~= current.step().cells);
        self.cells = next;
    }

    /// A `DEFAULT_WIDTH` by `DEFAULT_HEIGHT` grid in which the cell at linear
    /// index `i` is alive exactly when `i` is divisible by 2 or by 7.
    pub fn new() -> (r: Universe)
        ensures
            r.wf(),
            r@.width == DEFAULT_WIDTH,
            r@.height == DEFAULT_HEIGHT,
            forall|i: int| 0 <= i < r@.cells.len() ==> #[trigger] r@.cells[i] == seed_cell(i),
    {
        let width: u32 = DEFAULT_WIDTH;
        let height: u32 = DEFAULT_HEIGHT;
        let mut cells: Vec<Cell> = Vec::new();
        for i in 0..width * height
            invariant
                cells@.len() == i,
                forall|j: int| 0 <= j < i ==> #[trigger] cells@[j] == seed_cell(j),
        {
            let cell: Cell = if i % 2 == 0 || i % 7 == 0 {
                Cell::Alive
            } else {
                Cell::Dead
            };
            cells.push(cell);
        }
        Universe { width, height, cells }
    }

    /// A grid of the given dimensions holding `cells` in row-major order.
    /// Fails with `InvalidDimension` when a dimension is zero, and otherwise
    /// with `CellCountMismatch` when there are not `width * height` cells.
    pub fn from_cells(width: u32, height: u32, cells: Vec<Cell>) -> (r: Result<Universe, GridError>)
        ensures
            r matches Err(GridError::InvalidDimension) <==> (width == 0 || height == 0),
            r matches Err(GridError::CellCountMismatch) <==> (width > 0 && height > 0
                && cells@.len() != width * height),
            r matches Ok(u) ==> u.wf() && u@ == (GridModel {
                width: width as nat,
                height: height as nat,
                cells: cells@,
            }),
    {
        if width == 0 || height == 0 {
            return Err(GridError::InvalidDimension);
        }
        proof {
            assert(width * height <= u32::MAX * u32::MAX) by (nonlinear_arith)
                requires
                    width <= u32::MAX,
                    height <= u32::MAX,
            ;
        }
        if cells.len() as u64 != width as u64 * height as u64 {
            return Err(GridError::CellCountMismatch);
        }
        Ok(Universe { width, height, cells })
    }

    /// Number of columns.
    pub fn width(&self) -> (r: u32)
        ensures
            r == self@.width,
    {
        self.width
    }

    /// Number of rows.
    pub fn height(&self) -> (r: u32)
        ensures
            r == self@.height,
    {
        self.height
    }

    /// The cells in row-major order: the cell at `(row, column)` is at
    /// `row * width + column`.
    pub fn cells(&self) -> (r: &[Cell])
        ensures
            r@ == self@.cells,
    {
        self.cells.as_slice()
    }

    /// The grid as text: one line per row, top to bottom, with `◻` for a dead
    /// cell and `◼` for a live one, each line ended by a line break.
    pub fn render(&self) -> (r: String)
        requires
            self.wf(),
        ensures
            r@ == self@.text(),
    {
        let mut text: String = String::new();
        let mut row: u32 = 0;
        while row < self.height
            invariant
                self.wf(),
                row <= self@.height,
                text@ == self@.text_of_rows(row as nat),
            decreases self@.height - row,
        {
            let ghost before = text@;
            let mut column: u32 = 0;
            while column < self.width
                invariant
                    self.wf(),
                    row < self@.height,
                    column <= self@.width,
                    text@ == before + Seq::new(
                        column as nat,
                        |c: int| glyph(self@.cells[self@.index(row as int, c)]),
                    ),
                decreases self@.width - column,
            {
                let index: usize = self.get_index(row, column);
                let symbol: &str = match self.cells[index] {
                    Cell::Dead => "◻",
                    Cell::Alive => "◼",
                };
                proof {
                    reveal_strlit("◻");
                    reveal_strlit("◼");
                }
                text.append(symbol);
                assert(text@ =~= before + Seq::new(
                    (column + 1) as nat,
                    |c: int| glyph(self@.cells[self@.index(row as int, c)]),
                ));
                column = column + 1;
            }
            proof {
                reveal_strlit("\n");
            }
            text.append("\n");
            assert(text@ =~= self@.text_of_rows((row + 1) as nat));
            row = row + 1;
        }
        text
    }
}

} // verus!
