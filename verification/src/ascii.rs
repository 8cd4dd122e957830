//! The character store of the terminal renderer: a grid of cells that is
//! cleared to blanks, written cell by cell, and read out as text with one
//! line per row.

use vstd::prelude::*;
use crate::render::RenderOutput;

verus! {

/// Text of a grid of `rows` rows of `cols` cells: each row followed by a
/// newline.
pub open spec fn grid_text(cells: Seq<char>, cols: nat, rows: nat) -> Seq<char>
    decreases rows,
{
    if rows == 0 {
        Seq::<char>::empty()
    } else {
        grid_text(cells, cols, (rows - 1) as nat) + cells.subrange((rows - 1) * cols, (rows * cols) as int) + seq!['\n']
    }
}

/// Can the cell `(x, y)` be written on a grid of `cols` by `rows` cells?
/// Coordinates are compared as `i32`, as the renderer computes them.
pub open spec fn cell_drawable(cols: usize, rows: usize, x: int, y: int) -> bool {
    0 <= x && 0 <= y && x < (cols as i32) && y < (rows as i32)
}

/// On a grid whose sides fit in `i32`, a cell can be written exactly when it
/// lies on the grid.
pub proof fn lemma_cell_drawable_on_grid(cols: usize, rows: usize, x: int, y: int)
    requires
        cols <= i32::MAX,
        rows <= i32::MAX,
    ensures
        cell_drawable(cols, rows, x, y) <==> (0 <= x < cols && 0 <= y < rows),
{
}

/// Distinct cells of a grid `cols` wide sit at distinct row-major indices.
proof fn lemma_cell_index_injective(cols: int, x1: int, y1: int, x2: int, y2: int)
    requires
        0 <= x1 < cols,
        0 <= x2 < cols,
        0 <= y1,
        0 <= y2,
        y1 * cols + x1 == y2 * cols + x2,
    ensures
        x1 == x2,
        y1 == y2,
{
    if y1 < y2 {
        assert(y1 * cols + x1 < y2 * cols + x2) by (nonlinear_arith)
            requires
                y1 < y2,
                0 <= x1 < cols,
                0 <= x2,
        ;
    } else if y2 < y1 {
        assert(y2 * cols + x2 < y1 * cols + x1) by (nonlinear_arith)
            requires
                y2 < y1,
                0 <= x2 < cols,
                0 <= x1,
        ;
    }
}

/// The text of a grid has `rows` lines of exactly `cols` characters, each
/// ended by a newline: the character at column `c` of line `r` is the cell
/// `(c, r)`.
pub proof fn lemma_grid_text_layout(cells: Seq<char>, cols: nat, rows: nat)
    requires
        cells.len() == cols * rows,
    ensures
        grid_text(cells, cols, rows).len() == rows * (cols + 1),
        forall|r: int, c: int|
            0 <= r < rows && 0 <= c < cols ==> #[trigger] grid_text(cells, cols, rows)[r * (cols + 1) + c]
                == cells[r * cols + c],
        forall|r: int| 0 <= r < rows ==> #[trigger] grid_text(cells, cols, rows)[r * (cols + 1) + cols] == '\n',
    decreases rows,
{
    if rows > 0 {
        let prev = (rows - 1) as nat;
        assert(cells.len() >= rows * cols) by (nonlinear_arith)
            requires
                cells.len() == cols * rows,
        ;
        assert((rows - 1) * cols <= rows * cols) by (nonlinear_arith)
            requires
                rows > 0,
        ;
        assert(prev * cols == cols * prev) by (nonlinear_arith);
        lemma_grid_text_layout(cells.subrange(0, (prev * cols) as int), cols, prev);
        lemma_grid_text_prefix(cells, cols, prev);
        let t = grid_text(cells, cols, rows);
        let tp = grid_text(cells, cols, prev);
        assert(rows * cols - (rows - 1) * cols == cols) by (nonlinear_arith);
        assert(rows * (cols + 1) == prev * (cols + 1) + cols + 1) by (nonlinear_arith)
            requires
                prev == rows - 1,
        ;
        assert forall|r: int, c: int| 0 <= r < rows && 0 <= c < cols implies #[trigger] t[r * (cols + 1) + c]
            == cells[r * cols + c] by {
            if r < prev {
                assert(r * (cols + 1) + c < prev * (cols + 1)) by (nonlinear_arith)
                    requires
                        0 <= r < prev,
                        0 <= c < cols,
                ;
                assert(r * cols + c < prev * cols) by (nonlinear_arith)
                    requires
                        0 <= r < prev,
                        0 <= c < cols,
                ;
                assert(0 <= r * cols) by (nonlinear_arith)
                    requires
                        0 <= r,
                ;
            } else {
                assert(r * (cols + 1) == prev * (cols + 1)) by (nonlinear_arith)
                    requires
                        r == prev,
                ;
                assert(r * cols == prev * cols) by (nonlinear_arith)
                    requires
                        r == prev,
                ;
            }
        }
        assert forall|r: int| 0 <= r < rows implies #[trigger] t[r * (cols + 1) + cols] == '\n' by {
            if r < prev {
                assert(r * (cols + 1) + cols < prev * (cols + 1)) by (nonlinear_arith)
                    requires
                        0 <= r < prev,
                ;
                assert(0 <= r * (cols + 1)) by (nonlinear_arith)
                    requires
                        0 <= r,
                ;
            } else {
                assert(r * (cols + 1) == prev * (cols + 1)) by (nonlinear_arith)
                    requires
                        r == prev,
                ;
            }
        }
    }
}

/// The text of the first `rows` rows only reads the cells of those rows.
proof fn lemma_grid_text_prefix(cells: Seq<char>, cols: nat, rows: nat)
    requires
        rows * cols <= cells.len(),
    ensures
        grid_text(cells, cols, rows) == grid_text(cells.subrange(0, (rows * cols) as int), cols, rows),
    decreases rows,
{
    if rows > 0 {
        let prev = (rows - 1) as nat;
        assert(prev * cols <= rows * cols) by (nonlinear_arith)
            requires
                prev == rows - 1,
        ;
        lemma_grid_text_prefix(cells, cols, prev);
        lemma_grid_text_prefix(cells.subrange(0, (rows * cols) as int), cols, prev);
        assert(cells.subrange(0, (rows * cols) as int).subrange(0, (prev * cols) as int) =~= cells.subrange(0, (prev * cols) as int));
        assert(cells.subrange(0, (rows * cols) as int).subrange((prev * cols) as int, (rows * cols) as int) =~= cells.subrange(
            (prev * cols) as int,
            (rows * cols) as int,
        ));
    }
}

/// Character grid of the terminal renderer.
pub struct CharGrid {
    cols: usize,
    rows: usize,
    grid: Vec<char>,
}

/// `n` blanks.
fn blanks(n: usize) -> (v: Vec<char>)
    ensures
        v@ == Seq::new(n as nat, |i: int| ' '),
{
    let mut v: Vec<char> = Vec::new();
    let mut i: usize = 0;
    while i < n
        invariant
            i <= n,
            v@ == Seq::new(i as nat, |j: int| ' '),
        decreases n - i,
    {
        v.push(' ');
        i = i + 1;
        assert(v@ =~= Seq::new(i as nat, |j: int| ' '));
    }
    v
}

impl CharGrid {
    /// Columns.
    pub closed spec fn c(&self) -> usize {
        self.cols
    }

    /// Rows.
    pub closed spec fn r(&self) -> usize {
        self.rows
    }

    /// Cells, row-major.
    pub closed spec fn cells(&self) -> Seq<char> {
        self.grid@
    }

    /// The grid holds exactly one cell per column and row.
    pub open spec fn wf(&self) -> bool {
        self.cells().len() == self.c() * self.r()
    }

    /// The cell at column `x` of row `y`.
    pub open spec fn cell(&self, x: int, y: int) -> char {
        self.cells()[y * self.c() + x]
    }

    /// A blank grid of `cols` by `rows` cells.
    pub fn new(cols: usize, rows: usize) -> (g: Self)
        requires
            cols * rows <= usize::MAX,
        ensures
            g.c() == cols,
            g.r() == rows,
            g.wf(),
            g.cells() == Seq::new((cols * rows) as nat, |i: int| ' '),
    {
        CharGrid { cols, rows, grid: blanks(cols * rows) }
    }

    /// Columns.
    pub fn cols(&self) -> (n: usize)
        ensures
            n == self.c(),
    {
        self.cols
    }

    /// Rows.
    pub fn rows(&self) -> (n: usize)
        ensures
            n == self.r(),
    {
        self.rows
    }

    /// Resize to `w` by `h` cells and blank every cell.
    pub fn begin_frame(&mut self, w: u32, h: u32)
        requires
            w * h <= usize::MAX,
        ensures
            final(self).c() == w,
            final(self).r() == h,
            final(self).wf(),
            final(self).cells() == Seq::new((w * h) as nat, |i: int| ' '),
    {
        self.cols = w as usize;
        self.rows = h as usize;
        self.grid = blanks(self.cols * self.rows);
    }

    /// Write `ch` into the cell `(x, y)`; cells off the grid are ignored.
    pub fn put(&mut self, x: i32, y: i32, ch: char)
        requires
            old(self).wf(),
        ensures
            final(self).c() == old(self).c(),
            final(self).r() == old(self).r(),
            final(self).wf(),
            final(self).cells() == (if cell_drawable(old(self).c(), old(self).r(), x as int, y as int) {
                old(self).cells().update(y * old(self).c() + x, ch)
            } else {
                old(self).cells()
            }),
            old(self).c() <= i32::MAX && old(self).r() <= i32::MAX ==> forall|cx: int, cy: int|
                0 <= cx < old(self).c() && 0 <= cy < old(self).r() ==> #[trigger] final(self).cell(cx, cy) == if cx == x
                    && cy == y {
                    ch
                } else {
                    old(self).cell(cx, cy)
                },
    {
        let ghost c0 = self.c() as int;
        let ghost r0 = self.r() as int;
        let ghost g0 = self.cells();
        let ci = self.cols as i32;
        let ri = self.rows as i32;
        if x >= 0 && y >= 0 && x < ci && y < ri {
            let n = self.grid.len();
            proof {
                assert(x < self.c() && y < self.r());
                assert(y * self.c() + x < self.c() * self.r()) by (nonlinear_arith)
                    requires
                        0 <= x < self.c(),
                        0 <= y < self.r(),
                ;
                assert(0 <= y * self.c()) by (nonlinear_arith)
                    requires
                        0 <= y,
                ;
            }
            let i = y as usize * self.cols + x as usize;
            self.grid[i] = ch;
        }
        proof {
            if c0 <= i32::MAX && r0 <= i32::MAX {
                lemma_cell_drawable_on_grid(c0 as usize, r0 as usize, x as int, y as int);
                assert forall|cx: int, cy: int| 0 <= cx < c0 && 0 <= cy < r0 implies #[trigger] self.cell(cx, cy)
                    == if cx == x && cy == y {
                    ch
                } else {
                    g0[cy * c0 + cx]
                } by {
                    assert(cy * c0 + cx < c0 * r0) by (nonlinear_arith)
                        requires
                            0 <= cx < c0,
                            0 <= cy < r0,
                    ;
                    assert(0 <= cy * c0) by (nonlinear_arith)
                        requires
                            0 <= cy,
                            0 <= c0,
                    ;
                    if 0 <= x < c0 && 0 <= y < r0 && cy * c0 + cx == y * c0 + x {
                        lemma_cell_index_injective(c0, cx, cy, x as int, y as int);
                    }
                }
            }
        }
    }

    /// The finished frame: one line per row, each ended by a newline.
    pub fn end_frame(&self) -> (out: RenderOutput)
        requires
            self.wf(),
            self.c() > 0,
        ensures
            out matches RenderOutput::Text(s) && s@ == grid_text(self.cells(), self.c() as nat, self.r() as nat),
    {
        let mut s = String::new();
        let mut row: usize = 0;
        let n = self.grid.len();
        while row < self.rows
            invariant
                n == self.cells().len(),
                self.wf(),
                self.c() > 0,
                row <= self.r(),
                s@ == grid_text(self.cells(), self.c() as nat, row as nat),
            decreases self.r() - row,
        {
            assert((row + 1) * self.c() <= self.c() * self.r()) by (nonlinear_arith)
                requires
                    row < self.r(),
            ;
            assert((row + 1) * self.c() == row * self.c() + self.c()) by (nonlinear_arith);
            let start = row * self.cols;
            let mut col: usize = 0;
            let ghost line_start = s@;
            while col < self.cols
                invariant
                    self.wf(),
                    n == self.cells().len(),
                    row < self.r(),
                    start == row * self.c(),
                    start + self.c() <= self.cells().len(),
                    col <= self.c(),
                    s@ == line_start + self.cells().subrange(start as int, start + col),
                decreases self.c() - col,
            {
                s.push(self.grid[start + col]);
                col = col + 1;
                assert(s@ =~= line_start + self.cells().subrange(start as int, start + col));
            }
            s.push('\n');
            row = row + 1;
            assert(s@ =~= grid_text(self.cells(), self.c() as nat, row as nat));
        }
        RenderOutput::Text(s)
    }
}

} // verus!
