//! Trimming a grid: the rows and the columns that hold nothing are taken out
//! and what is left is packed together, in its order.
use crate::grid::{lemma_index_in_range, lemma_index_to_position, DynGrid, Grid, GridView};
use vstd::prelude::*;

verus! {

/// The indices below `n` of which `keep` holds, in ascending order.
pub open spec fn kept(n: nat, keep: spec_fn(int) -> bool) -> Seq<int>
    decreases n,
{
    if n == 0 {
        Seq::empty()
    } else if keep(n - 1) {
        kept((n - 1) as nat, keep).push(n - 1)
    } else {
        kept((n - 1) as nat, keep)
    }
}

impl<T> GridView<T> {
    /// Whether row `y` holds nothing.
    pub open spec fn row_empty(self, y: int) -> bool {
        forall|x: int| 0 <= x < self.width ==> (#[trigger] self.at(x, y)) is None
    }

    /// Whether column `x` holds nothing.
    pub open spec fn column_empty(self, x: int) -> bool {
        forall|y: int| 0 <= y < self.height ==> (#[trigger] self.at(x, y)) is None
    }

    /// Whether no row and no column is empty.
    pub open spec fn is_dense(self) -> bool {
        &&& forall|y: int| 0 <= y < self.height ==> !(#[trigger] self.row_empty(y))
        &&& forall|x: int| 0 <= x < self.width ==> !(#[trigger] self.column_empty(x))
    }

    /// The rows that hold something, in ascending order.
    pub open spec fn kept_rows(self) -> Seq<int> {
        kept(self.height, |y: int| !self.row_empty(y))
    }

    /// The columns that hold something, in ascending order.
    pub open spec fn kept_columns(self) -> Seq<int> {
        kept(self.width, |x: int| !self.column_empty(x))
    }

    /// This grid without its empty rows and columns: the cell at `(x, y)` of
    /// the result is the cell of this grid at the `x`-th kept column and the
    /// `y`-th kept row.
    pub open spec fn optimized(self) -> GridView<T> {
        let rows = self.kept_rows();
        let columns = self.kept_columns();
        GridView {
            width: columns.len(),
            height: rows.len(),
            cells: Seq::new(
                columns.len() * rows.len(),
                |i: int|
                    self.at(columns[i % (columns.len() as int)], rows[i / (columns.len() as int)]),
            ),
        }
    }
}

/// The kept indices are below `n`, `keep` holds of each, and they ascend.
pub proof fn lemma_kept_sorted(n: nat, keep: spec_fn(int) -> bool)
    ensures
        kept(n, keep).len() <= n,
        forall|i: int|
            0 <= i < kept(n, keep).len() ==> 0 <= (#[trigger] kept(n, keep)[i]) < n && keep(
                kept(n, keep)[i],
            ),
        forall|i: int, j: int|
            0 <= i < j < kept(n, keep).len() ==> (#[trigger] kept(n, keep)[i]) < (#[trigger] kept(
                n,
                keep,
            )[j]),
    decreases n,
{
    if n > 0 {
        lemma_kept_sorted((n - 1) as nat, keep);
    }
}

/// Every index below `n` of which `keep` holds is among the kept.
pub proof fn lemma_kept_complete(n: nat, keep: spec_fn(int) -> bool, k: int)
    requires
        0 <= k < n,
        keep(k),
    ensures
        exists|i: int| 0 <= i < kept(n, keep).len() && #[trigger] kept(n, keep)[i] == k,
    decreases n,
{
    if k == n - 1 {
        let i = kept((n - 1) as nat, keep).len() as int;
        assert(kept(n, keep)[i] == k);
    } else {
        lemma_kept_complete((n - 1) as nat, keep, k);
        let i = choose|i: int|
            0 <= i < kept((n - 1) as nat, keep).len() && #[trigger] kept((n - 1) as nat, keep)[i]
                == k;
        assert(kept(n, keep)[i] == k);
    }
}

/// The indices kept below `m` are the first of those kept below a larger `n`.
pub proof fn lemma_kept_prefix(m: nat, n: nat, keep: spec_fn(int) -> bool)
    requires
        m <= n,
    ensures
        kept(m, keep).len() <= kept(n, keep).len(),
        forall|i: int|
            0 <= i < kept(m, keep).len() ==> (#[trigger] kept(n, keep)[i]) == kept(m, keep)[i],
    decreases n,
{
    if m < n {
        lemma_kept_prefix(m, (n - 1) as nat, keep);
    }
}

/// Where `keep` holds of every index below `n`, all of them are kept.
pub proof fn lemma_kept_all(n: nat, keep: spec_fn(int) -> bool)
    requires
        forall|k: int| 0 <= k < n ==> #[trigger] keep(k),
    ensures
        kept(n, keep).len() == n,
        forall|i: int| 0 <= i < n ==> (#[trigger] kept(n, keep)[i]) == i,
    decreases n,
{
    if n > 0 {
        lemma_kept_all((n - 1) as nat, keep);
    }
}

/// What trimming leaves is a grid, and its cell at `(x, y)` is the cell at
/// the `x`-th kept column and the `y`-th kept row of the grid it came from.
pub proof fn lemma_optimized_cells<T>(g: GridView<T>)
    ensures
        g.optimized().wf(),
        forall|x: int, y: int|
            0 <= x < g.optimized().width && 0 <= y < g.optimized().height ==> (
            #[trigger] g.optimized().at(x, y)) == g.at(g.kept_columns()[x], g.kept_rows()[y]),
{
    let o = g.optimized();
    assert forall|x: int, y: int| 0 <= x < o.width && 0 <= y < o.height implies (#[trigger] o.at(
        x,
        y,
    )) == g.at(g.kept_columns()[x], g.kept_rows()[y]) by {
        lemma_index_in_range(o.width, o.height, x, y);
        lemma_index_to_position(o.width as int, x, y);
    }
}

/// After trimming, no row and no column is empty.
pub proof fn lemma_optimized_is_dense<T>(g: GridView<T>)
    requires
        g.wf(),
    ensures
        g.optimized().is_dense(),
{
    let o = g.optimized();
    let rows = g.kept_rows();
    let columns = g.kept_columns();
    let keep_row = |y: int| !g.row_empty(y);
    let keep_column = |x: int| !g.column_empty(x);
    lemma_optimized_cells(g);
    lemma_kept_sorted(g.height, keep_row);
    lemma_kept_sorted(g.width, keep_column);
    assert forall|y: int| 0 <= y < o.height implies !(#[trigger] o.row_empty(y)) by {
        let source = rows[y];
        let x = choose|x: int| 0 <= x < g.width && !((#[trigger] g.at(x, source)) is None);
        lemma_kept_complete(g.width, keep_column, x);
        let k = choose|k: int| 0 <= k < columns.len() && #[trigger] columns[k] == x;
        assert(o.at(k, y) == g.at(x, source));
    }
    assert forall|x: int| 0 <= x < o.width implies !(#[trigger] o.column_empty(x)) by {
        let source = columns[x];
        let y = choose|y: int| 0 <= y < g.height && !((#[trigger] g.at(source, y)) is None);
        lemma_kept_complete(g.height, keep_row, y);
        let k = choose|k: int| 0 <= k < rows.len() && #[trigger] rows[k] == y;
        assert(o.at(x, k) == g.at(source, y));
    }
}

/// Trimming loses nothing: every cell that holds something is a cell of the
/// result, in the place of its column among the kept columns and of its row
/// among the kept rows.
pub proof fn lemma_optimized_keeps_cells<T>(g: GridView<T>, x: int, y: int)
    requires
        g.wf(),
        g.at(x, y) is Some,
    ensures
        exists|i: int, j: int|
            {
                &&& 0 <= i < g.optimized().width
                &&& 0 <= j < g.optimized().height
                &&& g.kept_columns()[i] == x
                &&& g.kept_rows()[j] == y
                &&& #[trigger] g.optimized().at(i, j) == g.at(x, y)
            },
{
    let keep_row = |y: int| !g.row_empty(y);
    let keep_column = |x: int| !g.column_empty(x);
    lemma_optimized_cells(g);
    lemma_kept_complete(g.width, keep_column, x);
    lemma_kept_complete(g.height, keep_row, y);
    let i = choose|i: int| 0 <= i < g.kept_columns().len() && #[trigger] g.kept_columns()[i] == x;
    let j = choose|j: int| 0 <= j < g.kept_rows().len() && #[trigger] g.kept_rows()[j] == y;
    assert(g.optimized().at(i, j) == g.at(x, y));
}

/// Trimming keeps the order of what it leaves: of two cells of the result,
/// the one further right came from further right, and the one further down
/// from further down.
pub proof fn lemma_optimized_keeps_order<T>(g: GridView<T>)
    ensures
        forall|i: int, j: int|
            0 <= i < j < g.optimized().width ==> (#[trigger] g.kept_columns()[i]) < (
            #[trigger] g.kept_columns()[j]),
        forall|i: int, j: int|
            0 <= i < j < g.optimized().height ==> (#[trigger] g.kept_rows()[i]) < (
            #[trigger] g.kept_rows()[j]),
{
    lemma_kept_sorted(g.height, |y: int| !g.row_empty(y));
    lemma_kept_sorted(g.width, |x: int| !g.column_empty(x));
}

/// A grid without empty rows and columns is trimmed to itself.
pub proof fn lemma_dense_is_fixed<T>(g: GridView<T>)
    requires
        g.wf(),
        g.is_dense(),
    ensures
        g.optimized() == g,
{
    let o = g.optimized();
    lemma_kept_all(g.height, |y: int| !g.row_empty(y));
    lemma_kept_all(g.width, |x: int| !g.column_empty(x));
    assert forall|i: int| 0 <= i < o.cells.len() implies o.cells[i] == g.cells[i] by {
        let w = g.width as int;
        assert(w > 0) by (nonlinear_arith)
            requires
                0 <= i < w * g.height,
                w >= 0,
        ;
        vstd::arithmetic::div_mod::lemma_fundamental_div_mod(i, w);
        vstd::arithmetic::div_mod::lemma_div_pos_is_pos(i, w);
        vstd::arithmetic::div_mod::lemma_mod_bound(i, w);
        let x = i % w;
        let y = i / w;
        assert(y < g.height) by (nonlinear_arith)
            requires
                i == w * y + x,
                0 <= x,
                i < w * g.height,
                w > 0,
        ;
    }
    assert(o.cells =~= g.cells);
}

/// Trimming twice is trimming once.
pub proof fn lemma_optimize_is_idempotent<T>(g: GridView<T>)
    requires
        g.wf(),
    ensures
        g.optimized().optimized() == g.optimized(),
{
    lemma_optimized_cells(g);
    lemma_optimized_is_dense(g);
    lemma_dense_is_fixed(g.optimized());
}

impl<T: Copy> DynGrid<T> {
    /// For each row, whether it holds something.
    fn occupied_rows(&self) -> (rows: Vec<bool>)
        requires
            self.view().wf(),
        ensures
            rows@.len() == self.view().height,
            forall|y: int|
                0 <= y < rows@.len() ==> #[trigger] rows@[y] == !self.view().row_empty(y),
    {
        let ghost g = self.view();
        proof {
            self.lemma_view();
        }
        let mut rows: Vec<bool> = Vec::new();
        let mut y: usize = 0;
        while y < self.height
            invariant
                g == self.view(),
                g.width == self.width,
                g.height == self.height,
                g.wf(),
                y <= self.height,
                rows@.len() == y,
                forall|j: int| 0 <= j < y ==> #[trigger] rows@[j] == !g.row_empty(j),
            decreases self.height - y,
        {
            let mut found = false;
            let mut x: usize = 0;
            while x < self.width && !found
                invariant
                    g == self.view(),
                    g.width == self.width,
                    g.height == self.height,
                g.width == self.width,
                g.height == self.height,
                    g.wf(),
                    y < self.height,
                    x <= self.width,
                    found ==> !g.row_empty(y as int),
                    !found ==> forall|i: int| 0 <= i < x ==> (#[trigger] g.at(i, y as int)) is None,
                decreases self.width - x + if found { 0int } else { 1int },
            {
                if self.get(x, y).is_some() {
                    found = true;
                } else {
                    x = x + 1;
                }
            }
            rows.push(found);
            y = y + 1;
        }
        rows
    }

    /// For each column, whether it holds something.
    fn occupied_columns(&self) -> (columns: Vec<bool>)
        requires
            self.view().wf(),
        ensures
            columns@.len() == self.view().width,
            forall|x: int|
                0 <= x < columns@.len() ==> #[trigger] columns@[x] == !self.view().column_empty(x),
    {
        let ghost g = self.view();
        proof {
            self.lemma_view();
        }
        let mut columns: Vec<bool> = Vec::new();
        let mut x: usize = 0;
        while x < self.width
            invariant
                g == self.view(),
                g.width == self.width,
                g.height == self.height,
                g.wf(),
                x <= self.width,
                columns@.len() == x,
                forall|j: int| 0 <= j < x ==> #[trigger] columns@[j] == !g.column_empty(j),
            decreases self.width - x,
        {
            let mut found = false;
            let mut y: usize = 0;
            while y < self.height && !found
                invariant
                    g == self.view(),
                    g.width == self.width,
                    g.height == self.height,
                g.width == self.width,
                g.height == self.height,
                    g.wf(),
                    x < self.width,
                    y <= self.height,
                    found ==> !g.column_empty(x as int),
                    !found ==> forall|i: int| 0 <= i < y ==> (#[trigger] g.at(x as int, i)) is None,
                decreases self.height - y + if found { 0int } else { 1int },
            {
                if self.get(x, y).is_some() {
                    found = true;
                } else {
                    y = y + 1;
                }
            }
            columns.push(found);
            x = x + 1;
        }
        columns
    }

    /// Takes out the rows and the columns that hold nothing and packs what is
    /// left, in its order, into a grid of the smaller dimensions. Afterwards
    /// no row and no column is empty.
    pub fn optimize(&mut self)
        requires
            old(self).view().wf(),
        ensures
            final(self).view().wf(),
            final(self).view() == old(self).view().optimized(),
            final(self).view().is_dense(),
    {
        let ghost g = self.view();
        let ghost keep_row = |y: int| !g.row_empty(y);
        let ghost keep_column = |x: int| !g.column_empty(x);
        let ghost rows = g.kept_rows();
        let ghost columns = g.kept_columns();
        proof {
            self.lemma_view();
        }
        let row_kept = self.occupied_rows();
        let column_kept = self.occupied_columns();
        let mut new_width: usize = 0;
        let mut x: usize = 0;
        while x < self.width
            invariant
                g == self.view(),
                g.width == self.width,
                g.height == self.height,
                x <= self.width,
                keep_column == |x: int| !g.column_empty(x),
                column_kept@.len() == g.width,
                forall|j: int|
                    0 <= j < column_kept@.len() ==> #[trigger] column_kept@[j] == !g.column_empty(
                        j,
                    ),
                new_width == kept(x as nat, keep_column).len(),
                new_width <= x,
            decreases self.width - x,
        {
            if column_kept[x] {
                new_width = new_width + 1;
            }
            x = x + 1;
        }
        let mut cells: Vec<Option<T>> = Vec::new();
        let mut new_height: usize = 0;
        let mut y: usize = 0;
        while y < self.height
            invariant
                g == self.view(),
                g.width == self.width,
                g.height == self.height,
                g.wf(),
                y <= self.height,
                keep_row == |y: int| !g.row_empty(y),
                keep_column == |x: int| !g.column_empty(x),
                rows == kept(g.height, keep_row),
                columns == kept(g.width, keep_column),
                new_width == columns.len(),
                row_kept@.len() == g.height,
                column_kept@.len() == g.width,
                forall|j: int|
                    0 <= j < row_kept@.len() ==> #[trigger] row_kept@[j] == !g.row_empty(j),
                forall|j: int|
                    0 <= j < column_kept@.len() ==> #[trigger] column_kept@[j] == !g.column_empty(
                        j,
                    ),
                new_height == kept(y as nat, keep_row).len(),
                new_height <= y,
                cells@.len() == new_height * new_width,
                forall|i: int|
                    0 <= i < cells@.len() ==> #[trigger] cells@[i] == g.at(
                        columns[i % (new_width as int)],
                        rows[i / (new_width as int)],
                    ),
            decreases self.height - y,
        {
            if row_kept[y] {
                proof {
                    lemma_kept_prefix((y + 1) as nat, g.height, keep_row);
                }
                let mut taken: usize = 0;
                let mut x: usize = 0;
                while x < self.width
                    invariant
                        g == self.view(),
                        g.width == self.width,
                        g.height == self.height,
                    g.width == self.width,
                    g.height == self.height,
                g.width == self.width,
                g.height == self.height,
                        g.wf(),
                        y < self.height,
                        x <= self.width,
                        keep_column == |x: int| !g.column_empty(x),
                        columns == kept(g.width, keep_column),
                        new_width == columns.len(),
                        column_kept@.len() == g.width,
                        forall|j: int|
                            0 <= j < column_kept@.len() ==> #[trigger] column_kept@[j]
                                == !g.column_empty(j),
                        new_height < rows.len(),
                        rows[new_height as int] == y,
                        taken == kept(x as nat, keep_column).len(),
                        taken <= x,
                        taken <= new_width,
                        cells@.len() == new_height * new_width + taken,
                        forall|i: int|
                            0 <= i < cells@.len() ==> #[trigger] cells@[i] == g.at(
                                columns[i % (new_width as int)],
                                rows[i / (new_width as int)],
                            ),
                    decreases self.width - x,
                {
                    proof {
                        lemma_kept_prefix((x + 1) as nat, g.width, keep_column);
                    }
                    if column_kept[x] {
                        proof {
                            lemma_index_to_position(
                                new_width as int,
                                taken as int,
                                new_height as int,
                            );
                        }
                        cells.push(self.get(x, y));
                        taken = taken + 1;
                    }
                    x = x + 1;
                }
                proof {
                    assert((new_height + 1) * new_width == new_height * new_width + new_width)
                        by (nonlinear_arith);
                }
                new_height = new_height + 1;
            }
            y = y + 1;
        }
        proof {
            assert(cells@ =~= g.optimized().cells);
        }
        self.cells = cells;
        self.width = new_width;
        self.height = new_height;
        proof {
            self.lemma_view();
            lemma_optimized_cells(g);
            lemma_optimized_is_dense(g);
        }
    }
}

} // verus!
