//! Cells of an unbounded square grid and their neighbourhoods.

use vstd::prelude::*;
use vstd::arithmetic::div_mod::lemma_fundamental_div_mod_converse;

verus! {

/// A cell of the grid, by row and column.
#[derive(Clone, Copy, Debug, PartialEq, Eq, Hash, Structural)]
pub struct Cell {
    pub i: isize,
    pub j: isize,
}

/// The coordinate before `x`, or `x` itself at the lower end of the range.
pub open spec fn before(x: isize) -> int {
    if x == isize::MIN {
        x as int
    } else {
        x - 1
    }
}

/// The coordinate after `x`, or `x` itself at the upper end of the range.
pub open spec fn after(x: isize) -> int {
    if x == isize::MAX {
        x as int
    } else {
        x + 1
    }
}

/// How many coordinates lie from `before(x)` to `after(x)`.
pub open spec fn span(x: isize) -> int {
    after(x) - before(x) + 1
}

/// The `k`-th cell of the block around `cell`, rows first.
pub open spec fn cluster_cell(cell: Cell, k: int) -> Cell {
    Cell {
        i: (before(cell.i) + k / span(cell.j)) as isize,
        j: (before(cell.j) + k % span(cell.j)) as isize,
    }
}

/// The block of cells around `cell`: every cell at most one row and one
/// column away, `cell` included, row by row.
pub open spec fn cluster_at(cell: Cell) -> Seq<Cell> {
    Seq::new((span(cell.i) * span(cell.j)) as nat, |k: int| cluster_cell(cell, k))
}

/// The first `k` cells of the block around `cell`, without `cell` itself.
pub open spec fn neighbors_among(cell: Cell, k: int) -> Seq<Cell>
    decreases k,
{
    if k <= 0 {
        Seq::empty()
    } else if cluster_cell(cell, k - 1) == cell {
        neighbors_among(cell, k - 1)
    } else {
        neighbors_among(cell, k - 1).push(cluster_cell(cell, k - 1))
    }
}

/// The cells around `cell`: its block without `cell` itself.
pub open spec fn neighbors_at(cell: Cell) -> Seq<Cell> {
    neighbors_among(cell, span(cell.i) * span(cell.j))
}

/// Whether `other` is another cell at most one row and one column away.
pub open spec fn adjacent(cell: Cell, other: Cell) -> bool {
    &&& other != cell
    &&& -1 <= other.i - cell.i <= 1
    &&& -1 <= other.j - cell.j <= 1
}

impl Cell {
    /// The block of cells around `cell`, rows first; at the edge of the
    /// coordinate range the block is cut off.
    pub fn cluster(cell: Cell) -> (r: Vec<Cell>)
        ensures
            r@ == cluster_at(cell),
    {
        let first_row: isize = if cell.i == isize::MIN {
            cell.i
        } else {
            cell.i - 1
        };
        let first_column: isize = if cell.j == isize::MIN {
            cell.j
        } else {
            cell.j - 1
        };
        let rows: isize = if cell.i == isize::MIN || cell.i == isize::MAX {
            2
        } else {
            3
        };
        let columns: isize = if cell.j == isize::MIN || cell.j == isize::MAX {
            2
        } else {
            3
        };
        let mut out: Vec<Cell> = Vec::new();
        let mut a: isize = 0;
        while a < rows
            invariant
                0 <= a <= rows,
                rows == span(cell.i),
                columns == span(cell.j),
                first_row == before(cell.i),
                first_column == before(cell.j),
                out@.len() == a * columns,
                forall|k: int| 0 <= k < out@.len() ==> out@[k] == cluster_cell(cell, k),
            decreases rows - a,
        {
            let mut b: isize = 0;
            while b < columns
                invariant
                    0 <= a < rows,
                    0 <= b <= columns,
                    rows == span(cell.i),
                    columns == span(cell.j),
                    first_row == before(cell.i),
                    first_column == before(cell.j),
                    out@.len() == a * columns + b,
                    forall|k: int| 0 <= k < out@.len() ==> out@[k] == cluster_cell(cell, k),
                decreases columns - b,
            {
                let ghost k = a * columns + b;
                proof {
                    lemma_fundamental_div_mod_converse(k, columns as int, a as int, b as int);
                }
                out.push(Cell { i: first_row + a, j: first_column + b });
                b = b + 1;
            }
            assert(a * columns + columns == (a + 1) * columns) by (nonlinear_arith);
            a = a + 1;
        }
        assert(out@.len() == span(cell.i) * span(cell.j));
        assert(out@ =~= cluster_at(cell));
        out
    }

    /// The cells around `cell`: those of its block, in the block's order,
    /// without `cell` itself.
    pub fn neighbors(cell: Cell) -> (r: Vec<Cell>)
        ensures
            r@ == neighbors_at(cell),
    {
        let block: Vec<Cell> = Cell::cluster(cell);
        let mut out: Vec<Cell> = Vec::new();
        let mut k: usize = 0;
        while k < block.len()
            invariant
                k <= block.len(),
                block@ == cluster_at(cell),
                out@ == neighbors_among(cell, k as int),
            decreases block.len() - k,
        {
            let candidate: Cell = block[k];
            assert(candidate == cluster_cell(cell, k as int));
            if candidate.i != cell.i || candidate.j != cell.j {
                out.push(candidate);
            }
            k = k + 1;
        }
        out
    }
}

/// The cells that `neighbors_among` lists are those of the first `k` cells
/// of the block that are not `cell` itself.
pub proof fn lemma_neighbors_among(cell: Cell, k: int, other: Cell)
    requires
        0 <= k,
    ensures
        neighbors_among(cell, k).contains(other) <==> other != cell && exists|m: int|
            0 <= m < k && #[trigger] cluster_cell(cell, m) == other,
    decreases k,
{
    if k > 0 {
        lemma_neighbors_among(cell, k - 1, other);
        let before_last = neighbors_among(cell, k - 1);
        let last = cluster_cell(cell, k - 1);
        let now = neighbors_among(cell, k);
        if last != cell {
            assert(now == before_last.push(last));
            if before_last.contains(other) {
                let i = choose|i: int| 0 <= i < before_last.len() && before_last[i] == other;
                assert(now[i] == other);
            }
            if other == last {
                assert(now[now.len() - 1] == other);
            }
            if now.contains(other) {
                let i = choose|i: int| 0 <= i < now.len() && now[i] == other;
                if i < before_last.len() {
                    assert(before_last[i] == other);
                }
            }
        }
        if other != cell && (exists|m: int| 0 <= m < k && #[trigger] cluster_cell(cell, m) == other) {
            let m = choose|m: int| 0 <= m < k && #[trigger] cluster_cell(cell, m) == other;
            if m < k - 1 {
                assert(cluster_cell(cell, m) == other);
            }
        }
    }
}

/// The neighbours of a cell are exactly the other cells at most one row
/// and one column away.
pub proof fn lemma_neighbors_are_the_adjacent_cells(cell: Cell, other: Cell)
    ensures
        neighbors_at(cell).contains(other) <==> adjacent(cell, other),
{
    let rows = span(cell.i);
    let columns = span(cell.j);
    let size = rows * columns;
    assert(size >= 0) by (nonlinear_arith)
        requires
            size == rows * columns,
            rows >= 2,
            columns >= 2,
    ;
    lemma_neighbors_among(cell, size, other);
    if neighbors_at(cell).contains(other) {
        let m = choose|m: int| 0 <= m < size && #[trigger] cluster_cell(cell, m) == other;
        vstd::arithmetic::div_mod::lemma_fundamental_div_mod(m, columns);
        vstd::arithmetic::div_mod::lemma_mod_bound(m, columns);
        assert(0 <= m / columns < rows) by (nonlinear_arith)
            requires
                0 <= m < rows * columns,
                columns > 0,
                m == columns * (m / columns) + m % columns,
                0 <= m % columns < columns,
        ;
    }
    if adjacent(cell, other) {
        let a = other.i - before(cell.i);
        let b = other.j - before(cell.j);
        let m = a * columns + b;
        lemma_fundamental_div_mod_converse(m, columns, a, b);
        assert(0 <= m < rows * columns) by (nonlinear_arith)
            requires
                m == a * columns + b,
                0 <= a < rows,
                0 <= b < columns,
        ;
        assert(cluster_cell(cell, m) == other);
    }
}

} // verus!
