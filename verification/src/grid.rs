//! Rectangular grids of optional cells, in a growable and a fixed-capacity
//! form behind one interface.
use crate::instruction::IsStart;
use vstd::prelude::*;
use vstd::std_specs::cmp::PartialEqSpec;
use vstd::std_specs::convert::FromSpecImpl;

verus! {

broadcast use vstd::slice::group_slice_axioms;

/// What a grid is, mathematically: its dimensions and its cells in row-major
/// order, the cell at column `x` of row `y` at index `y * width + x`.
pub struct GridView<T> {
    pub width: nat,
    pub height: nat,
    pub cells: Seq<Option<T>>,
}

impl<T> GridView<T> {
    /// There is exactly one cell for each position.
    pub open spec fn wf(self) -> bool {
        self.cells.len() == self.width * self.height
    }

    /// Whether `(x, y)` lies on the grid.
    pub open spec fn contains(self, x: int, y: int) -> bool {
        0 <= x < self.width && 0 <= y < self.height
    }

    /// The cell at `(x, y)`; positions off the grid are empty.
    pub open spec fn at(self, x: int, y: int) -> Option<T> {
        if self.contains(x, y) {
            self.cells[y * self.width + x]
        } else {
            None
        }
    }

    /// The grid of the given dimensions with every cell empty.
    pub open spec fn blank(width: nat, height: nat) -> Self {
        GridView { width, height, cells: Seq::new(width * height, |i: int| None) }
    }

    /// This grid with `value` written at `(x, y)`; unchanged when the position
    /// is off the grid.
    pub open spec fn put(self, value: T, x: int, y: int) -> Self {
        if self.contains(x, y) {
            GridView { cells: self.cells.update(y * self.width + x, Some(value)), ..self }
        } else {
            self
        }
    }

    /// The same cells under other dimensions.
    pub open spec fn reshaped(self, width: nat, height: nat) -> Self {
        GridView { width, height, cells: self.cells }
    }

    /// The grid whose rows are `rows`, which are meant to be `rectangular`:
    /// its cell at `(x, y)` is `rows[y][x]`.
    pub open spec fn from_rows(rows: Seq<Seq<Option<T>>>) -> Self {
        let width = rows[0].len();
        GridView {
            width,
            height: rows.len(),
            cells: Seq::new(width * rows.len(), |i: int| cell_of_rows(rows, width as int, i)),
        }
    }

    /// Whether `pred` holds of no cell before index `i`.
    pub open spec fn none_before(self, i: int, pred: spec_fn(T) -> bool) -> bool {
        forall|j: int|
            0 <= j < i && j < self.cells.len() ==> !(#[trigger] self.cells[j] matches Some(c)
                && pred(c))
    }

    /// The first position in row-major order whose cell holds a value that
    /// meets `pred`, where `r` is what a search returned.
    pub open spec fn is_first(self, r: Option<(usize, usize)>, pred: spec_fn(T) -> bool) -> bool {
        match r {
            Some((x, y)) => {
                &&& self.contains(x as int, y as int)
                &&& self.at(x as int, y as int) matches Some(c) && pred(c)
                &&& self.none_before(y * self.width + x, pred)
            },
            None => self.none_before(self.cells.len() as int, pred),
        }
    }
}

/// The cell with index `i` in row-major order of rows of the given width.
pub open spec fn cell_of_rows<T>(rows: Seq<Seq<Option<T>>>, width: int, i: int) -> Option<T> {
    rows[i / width][i % width]
}

/// Whether `rows` can be the rows of a grid: there is a row, the rows hold
/// cells, and all are as long as the first.
pub open spec fn rectangular<T>(rows: Seq<Seq<Option<T>>>) -> bool {
    &&& rows.len() > 0
    &&& rows[0].len() > 0
    &&& forall|y: int| 0 <= y < rows.len() ==> (#[trigger] rows[y]).len() == rows[0].len()
}

/// The rows held by vectors, as sequences.
pub open spec fn rows_of<T>(rows: Seq<Vec<Option<T>>>) -> Seq<Seq<Option<T>>> {
    rows.map_values(|row: Vec<Option<T>>| row@)
}

/// The index of a position on the grid is an index into its cells.
pub proof fn lemma_index_in_range(width: nat, height: nat, x: int, y: int)
    requires
        0 <= x < width,
        0 <= y < height,
    ensures
        0 <= y * width <= y * width + x < width * height,
        y * width + x < (y + 1) * width,
        (y + 1) * width <= width * height,
{
    assert(0 <= y * width) by (nonlinear_arith)
        requires
            0 <= y,
    ;
    assert((y + 1) * width == y * width + width) by (nonlinear_arith);
    assert((y + 1) * width <= height * width) by (nonlinear_arith)
        requires
            y + 1 <= height,
    ;
}

/// Column and row of a cell are the remainder and the quotient of its index
/// by the width.
pub proof fn lemma_index_to_position(width: int, x: int, y: int)
    requires
        0 <= x < width,
        0 <= y,
    ensures
        (y * width + x) / width == y,
        (y * width + x) % width == x,
{
    vstd::arithmetic::div_mod::lemma_fundamental_div_mod_converse_div(y * width + x, width, y, x);
    vstd::arithmetic::div_mod::lemma_fundamental_div_mod_converse_mod(y * width + x, width, y, x);
}

/// A grid made from rectangular rows is well formed and holds `rows[y][x]` at
/// `(x, y)`.
pub proof fn lemma_from_rows<T>(rows: Seq<Seq<Option<T>>>)
    requires
        rectangular(rows),
    ensures
        GridView::from_rows(rows).wf(),
        forall|x: int, y: int|
            0 <= x < rows[0].len() && 0 <= y < rows.len() ==> #[trigger] GridView::from_rows(
                rows,
            ).at(x, y) == rows[y][x],
{
    let g = GridView::from_rows(rows);
    assert forall|x: int, y: int|
        0 <= x < rows[0].len() && 0 <= y < rows.len() implies #[trigger] g.at(x, y)
        == rows[y][x] by {
        lemma_index_in_range(g.width, g.height, x, y);
        lemma_index_to_position(g.width as int, x, y);
    }
}

/// A search has one answer: two results that are both first are the same.
pub proof fn lemma_first_is_unique<T>(
    g: GridView<T>,
    pred: spec_fn(T) -> bool,
    a: Option<(usize, usize)>,
    b: Option<(usize, usize)>,
)
    requires
        g.wf(),
        g.is_first(a, pred),
        g.is_first(b, pred),
    ensures
        a == b,
{
    match (a, b) {
        (Some((ax, ay)), Some((bx, by))) => {
            lemma_index_in_range(g.width, g.height, ax as int, ay as int);
            lemma_index_in_range(g.width, g.height, bx as int, by as int);
            lemma_position_of_index(g.width as int, ax as int, ay as int, bx as int, by as int);
        },
        (Some((ax, ay)), None) => {
            lemma_index_in_range(g.width, g.height, ax as int, ay as int);
        },
        (None, Some((bx, by))) => {
            lemma_index_in_range(g.width, g.height, bx as int, by as int);
        },
        (None, None) => {},
    }
}

/// Two positions on a grid with the same index are the same position.
pub proof fn lemma_position_of_index(width: int, ax: int, ay: int, bx: int, by: int)
    requires
        0 <= ax < width,
        0 <= bx < width,
        ay * width + ax == by * width + bx,
    ensures
        ax == bx,
        ay == by,
{
    if ay < by {
        assert(by * width >= (ay + 1) * width) by (nonlinear_arith)
            requires
                by >= ay + 1,
                width > 0,
        ;
        assert((ay + 1) * width == ay * width + width) by (nonlinear_arith);
    } else if by < ay {
        assert(ay * width >= (by + 1) * width) by (nonlinear_arith)
            requires
                ay >= by + 1,
                width > 0,
        ;
        assert((by + 1) * width == by * width + width) by (nonlinear_arith);
    }
}

/// A rectangular container of optional cells.
pub trait Grid<T: Copy>: Sized {
    /// The grid as a mathematical value.
    spec fn view(&self) -> GridView<T>;

    /// The dimensions that a value of this type can be created with.
    spec fn admits(width: nat, height: nat) -> bool;

    /// An empty grid of the given dimensions.
    fn new(width: usize, height: usize) -> (g: Self)
        requires
            Self::admits(width as nat, height as nat),
        ensures
            g.view().wf(),
            g.view() == GridView::<T>::blank(width as nat, height as nat),
    ;

    /// The number of columns.
    fn get_width(&self) -> (w: usize)
        ensures
            w == self.view().width,
    ;

    /// The number of rows.
    fn get_height(&self) -> (h: usize)
        ensures
            h == self.view().height,
    ;

    /// The cells in row-major order.
    fn get_cells(&self) -> (c: &[Option<T>])
        ensures
            c@ == self.view().cells,
    ;

    /// The cells in row-major order, for writing. The dimensions stay as they
    /// are.
    fn get_cells_mut(&mut self) -> (c: &mut [Option<T>])
        ensures
            c@ == old(self).view().cells,
            final(self).view() == (GridView { cells: final(c)@, ..old(self).view() }),
    ;

    /// Gives the grid other dimensions over the same cells, which must be as
    /// many as before.
    fn reshape(&mut self, width: usize, height: usize)
        requires
            old(self).view().wf(),
            width * height == old(self).view().cells.len(),
        ensures
            final(self).view().wf(),
            final(self).view() == old(self).view().reshaped(width as nat, height as nat),
    ;

    /// The cell at `(x, y)`, empty when the position is off the grid.
    fn get(&self, x: usize, y: usize) -> (r: Option<T>)
        requires
            self.view().wf(),
        ensures
            r == self.view().at(x as int, y as int),
    {
        if x < self.get_width() && y < self.get_height() {
            let cells = self.get_cells();
            proof {
                lemma_index_in_range(self.view().width, self.view().height, x as int, y as int);
                assert(cells@.len() == cells.len());
            }
            cells[y * self.get_width() + x]
        } else {
            None
        }
    }

    /// The cell at `pos`, given as `(x, y)`.
    fn get_pos(&self, pos: (usize, usize)) -> (r: Option<T>)
        requires
            self.view().wf(),
        ensures
            r == self.view().at(pos.0 as int, pos.1 as int),
    {
        self.get(pos.0, pos.1)
    }

    /// Writes `value` at `(x, y)`; does nothing when the position is off the
    /// grid.
    fn set(&mut self, value: T, x: usize, y: usize)
        requires
            old(self).view().wf(),
        ensures
            final(self).view().wf(),
            final(self).view() == old(self).view().put(value, x as int, y as int),
    {
        if x < self.get_width() && y < self.get_height() {
            let width = self.get_width();
            let cells = self.get_cells_mut();
            proof {
                lemma_index_in_range(
                    old(self).view().width,
                    old(self).view().height,
                    x as int,
                    y as int,
                );
                assert(cells@.len() == cells.len());
            }
            cells[y * width + x] = Some(value);
        }
    }

    /// The first position, in row-major order, of a cell that holds `val`.
    fn find(&self, val: T) -> (r: Option<(usize, usize)>) where T: PartialEq
        requires
            self.view().wf(),
        ensures
            T::obeys_eq_spec() ==> self.view().is_first(r, |c: T| val.eq_spec(&c)),
    {
        let width = self.get_width();
        let height = self.get_height();
        let cells = self.get_cells();
        let mut y: usize = 0;
        while y < height
            invariant
                self.view().wf(),
                width == self.view().width,
                height == self.view().height,
                cells@ == self.view().cells,
                y <= height,
                T::obeys_eq_spec() ==> self.view().none_before(y * width, |c: T| val.eq_spec(&c)),
            decreases height - y,
        {
            let mut x: usize = 0;
            while x < width
                invariant
                    self.view().wf(),
                    width == self.view().width,
                    height == self.view().height,
                    cells@ == self.view().cells,
                    y < height,
                    x <= width,
                    T::obeys_eq_spec() ==> self.view().none_before(
                        y * width + x,
                        |c: T| val.eq_spec(&c),
                    ),
                decreases width - x,
            {
                proof {
                    lemma_index_in_range(width as nat, height as nat, x as int, y as int);
                    assert(cells@.len() == cells.len());
                }
                if let Some(f) = cells[y * width + x] {
                    if val == f {
                        return Some((x, y));
                    }
                }
                x = x + 1;
            }
            proof {
                assert((y + 1) * width == y * width + width) by (nonlinear_arith);
            }
            y = y + 1;
        }
        proof {
            assert(height * width == self.view().cells.len()) by (nonlinear_arith)
                requires
                    self.view().cells.len() == self.view().width * self.view().height,
                    width == self.view().width,
                    height == self.view().height,
            ;
        }
        None
    }

    /// The first position, in row-major order, of a cell that marks the start
    /// of a program.
    fn find_start(&self) -> (r: Option<(usize, usize)>) where T: IsStart
        requires
            self.view().wf(),
        ensures
            self.view().is_first(r, |c: T| c.start()),
    {
        let width = self.get_width();
        let height = self.get_height();
        let cells = self.get_cells();
        let mut y: usize = 0;
        while y < height
            invariant
                self.view().wf(),
                width == self.view().width,
                height == self.view().height,
                cells@ == self.view().cells,
                y <= height,
                self.view().none_before(y * width, |c: T| c.start()),
            decreases height - y,
        {
            let mut x: usize = 0;
            while x < width
                invariant
                    self.view().wf(),
                    width == self.view().width,
                    height == self.view().height,
                    cells@ == self.view().cells,
                    y < height,
                    x <= width,
                    self.view().none_before(y * width + x, |c: T| c.start()),
                decreases width - x,
            {
                proof {
                    lemma_index_in_range(width as nat, height as nat, x as int, y as int);
                    assert(cells@.len() == cells.len());
                }
                if let Some(f) = cells[y * width + x] {
                    if f.is_start() {
                        return Some((x, y));
                    }
                }
                x = x + 1;
            }
            proof {
                assert((y + 1) * width == y * width + width) by (nonlinear_arith);
            }
            y = y + 1;
        }
        proof {
            assert(height * width == self.view().cells.len()) by (nonlinear_arith)
                requires
                    self.view().cells.len() == self.view().width * self.view().height,
                    width == self.view().width,
                    height == self.view().height,
            ;
        }
        None
    }
}

/// A grid whose cells live in a vector, so that its dimensions are chosen
/// when it is made.
#[derive(Debug)]
pub struct DynGrid<T> {
    pub(crate) cells: Vec<Option<T>>,
    pub(crate) width: usize,
    pub(crate) height: usize,
}

/// A grid over an array of exactly `S` cells.
#[derive(Debug)]
pub struct ConstGrid<T, const S: usize> {
    pub cells: [Option<T>; S],
    pub width: usize,
    pub height: usize,
}

impl<T: Copy> Grid<T> for DynGrid<T> {
    closed spec fn view(&self) -> GridView<T> {
        GridView { width: self.width as nat, height: self.height as nat, cells: self.cells@ }
    }

    /// Any dimensions whose product is a `usize`.
    open spec fn admits(width: nat, height: nat) -> bool {
        width * height <= usize::MAX
    }

    fn new(width: usize, height: usize) -> (g: Self) {
        let g = Self { cells: vec![None; width * height], width, height };
        assert(g.view().cells =~= GridView::<T>::blank(width as nat, height as nat).cells);
        g
    }

    fn get_width(&self) -> (w: usize) {
        self.width
    }

    fn get_height(&self) -> (h: usize) {
        self.height
    }

    fn get_cells(&self) -> (c: &[Option<T>]) {
        self.cells.as_slice()
    }

    fn get_cells_mut(&mut self) -> (c: &mut [Option<T>]) {
        self.cells.as_mut_slice()
    }

    fn reshape(&mut self, width: usize, height: usize) {
        self.width = width;
        self.height = height;
    }
}

impl<T: Copy, const S: usize> Grid<T> for ConstGrid<T, S> {
    open spec fn view(&self) -> GridView<T> {
        GridView { width: self.width as nat, height: self.height as nat, cells: self.cells@ }
    }

    /// Only dimensions whose product is the capacity `S`.
    open spec fn admits(width: nat, height: nat) -> bool {
        width * height == S
    }

    fn new(width: usize, height: usize) -> (g: Self) {
        let g = Self { cells: [None;S], width, height };
        assert(g.view().cells =~= GridView::<T>::blank(width as nat, height as nat).cells);
        g
    }

    fn get_width(&self) -> (w: usize) {
        self.width
    }

    fn get_height(&self) -> (h: usize) {
        self.height
    }

    fn get_cells(&self) -> (c: &[Option<T>]) {
        &self.cells
    }

    fn get_cells_mut(&mut self) -> (c: &mut [Option<T>]) {
        &mut self.cells
    }

    fn reshape(&mut self, width: usize, height: usize) {
        self.width = width;
        self.height = height;
    }
}

impl<T: Copy> Clone for DynGrid<T> {
    /// A grid of the same dimensions with the same cells.
    fn clone(&self) -> (g: Self)
        ensures
            g.view() == self.view(),
    {
        Self {
            cells: vstd::slice::slice_to_vec(self.cells.as_slice()),
            width: self.width,
            height: self.height,
        }
    }
}

impl<T: Copy> From<Vec<Option<T>>> for DynGrid<T> {
    /// The grid of one row that holds `cells`.
    fn from(cells: Vec<Option<T>>) -> (g: Self)
        ensures
            g.view().wf(),
            g.view() == (GridView { width: cells@.len(), height: 1, cells: cells@ }),
    {
        let width = cells.len();
        Self { cells, width, height: 1 }
    }
}

impl<T: Copy> FromSpecImpl<Vec<Option<T>>> for DynGrid<T> {
    open spec fn obeys_from_spec() -> bool {
        true
    }

    closed spec fn from_spec(cells: Vec<Option<T>>) -> Self {
        DynGrid { cells, width: cells.len(), height: 1 }
    }
}

impl<T: Copy> DynGrid<T> {
    /// The view of a value, by its parts.
    pub(crate) proof fn lemma_view(&self)
        ensures
            self.view() == (GridView {
                width: self.width as nat,
                height: self.height as nat,
                cells: self.cells@,
            }),
    {
    }

    /// The grid of the given width that holds `cells` in row-major order;
    /// `None` unless the width is positive and divides their number.
    pub fn from_cells(cells: Vec<Option<T>>, width: usize) -> (r: Option<Self>)
        ensures
            match r {
                Some(g) => {
                    &&& width > 0
                    &&& cells@.len() % (width as nat) == 0
                    &&& g.view().wf()
                    &&& g.view() == (GridView {
                        width: width as nat,
                        height: cells@.len() / (width as nat),
                        cells: cells@,
                    })
                },
                None => width == 0 || cells@.len() % (width as nat) != 0,
            },
    {
        if width == 0 || cells.len() % width != 0 {
            return None;
        }
        let height = cells.len() / width;
        proof {
            vstd::arithmetic::div_mod::lemma_fundamental_div_mod(
                cells@.len() as int,
                width as int,
            );
        }
        Some(Self { cells, width, height })
    }

    /// The grid whose rows are `rows`, so that its cell at `(x, y)` is
    /// `rows[y][x]`; `None` unless the rows are rectangular.
    pub fn from_rows(rows: Vec<Vec<Option<T>>>) -> (r: Option<Self>)
        ensures
            match r {
                Some(g) => {
                    &&& rectangular(rows_of(rows@))
                    &&& g.view().wf()
                    &&& g.view() == GridView::from_rows(rows_of(rows@))
                },
                None => !rectangular(rows_of(rows@)),
            },
    {
        let ghost given = rows_of(rows@);
        let height = rows.len();
        if height == 0 {
            return None;
        }
        let width = rows[0].len();
        if width == 0 {
            return None;
        }
        let mut cells: Vec<Option<T>> = Vec::new();
        let mut y: usize = 0;
        while y < height
            invariant
                given == rows_of(rows@),
                height == rows.len(),
                width == rows@[0]@.len(),
                width > 0,
                y <= height,
                cells@.len() == y * width,
                forall|j: int| 0 <= j < y ==> (#[trigger] given[j]).len() == width,
                forall|i: int|
                    0 <= i < cells@.len() ==> #[trigger] cells@[i] == cell_of_rows(
                        given,
                        width as int,
                        i,
                    ),
            decreases height - y,
        {
            let row = &rows[y];
            assert(given[y as int] == row@);
            if row.len() != width {
                return None;
            }
            let mut x: usize = 0;
            while x < width
                invariant
                    given == rows_of(rows@),
                    y < height,
                    height == rows.len(),
                    row@ == given[y as int],
                    row.len() == width,
                    x <= width,
                    cells@.len() == y * width + x,
                    forall|i: int|
                        0 <= i < cells@.len() ==> #[trigger] cells@[i] == cell_of_rows(
                            given,
                            width as int,
                            i,
                        ),
                decreases width - x,
            {
                proof {
                    lemma_index_to_position(width as int, x as int, y as int);
                }
                cells.push(row[x]);
                x = x + 1;
            }
            proof {
                assert((y + 1) * width == y * width + width) by (nonlinear_arith);
            }
            y = y + 1;
        }
        proof {
            assert(height * width == width * height) by (nonlinear_arith);
            assert(cells@ =~= GridView::from_rows(given).cells);
        }
        Some(Self { cells, width, height })
    }
}

impl<T: Copy, const S: usize> From<[Option<T>; S]> for ConstGrid<T, S> {
    /// The grid of one row over `cells`.
    fn from(cells: [Option<T>; S]) -> (g: Self)
        ensures
            g.view().wf(),
            g.view() == (GridView { width: S as nat, height: 1, cells: cells@ }),
    {
        Self { cells, width: S, height: 1 }
    }
}

impl<T: Copy, const S: usize> FromSpecImpl<[Option<T>; S]> for ConstGrid<T, S> {
    open spec fn obeys_from_spec() -> bool {
        true
    }

    open spec fn from_spec(cells: [Option<T>; S]) -> Self {
        ConstGrid { cells, width: S, height: 1 }
    }
}

impl<T: Copy, const S: usize> ConstGrid<T, S> {
    /// Whether the cells are as many as the dimensions say, which makes this
    /// value a grid.
    pub fn is_wf(&self) -> (b: bool)
        ensures
            b == self.view().wf(),
    {
        let fits = match self.width.checked_mul(self.height) {
            Some(n) => n == S,
            None => false,
        };
        fits
    }

    /// The grid of the given width over `cells`, in row-major order; `None`
    /// unless the width is positive and divides the capacity.
    pub fn from_array(cells: [Option<T>; S], width: usize) -> (r: Option<Self>)
        ensures
            match r {
                Some(g) => {
                    &&& width > 0
                    &&& S % width == 0
                    &&& g.view().wf()
                    &&& g.view() == (GridView {
                        width: width as nat,
                        height: (S / width) as nat,
                        cells: cells@,
                    })
                },
                None => width == 0 || S % width != 0,
            },
    {
        if width == 0 || S % width != 0 {
            return None;
        }
        let height = S / width;
        proof {
            vstd::arithmetic::div_mod::lemma_fundamental_div_mod(S as int, width as int);
        }
        Some(Self { cells, width, height })
    }

    /// A grid of this capacity with the dimensions and cells of `other`;
    /// `None` unless `other` has exactly `S` cells.
    pub fn from_grid<G: Grid<T>>(other: &G) -> (r: Option<Self>)
        requires
            other.view().wf(),
        ensures
            match r {
                Some(g) => other.view().cells.len() == S && g.view() == other.view(),
                None => other.view().cells.len() != S,
            },
    {
        let source = other.get_cells();
        if source.len() != S {
            return None;
        }
        let mut cells: [Option<T>; S] = [None;S];
        let mut i: usize = 0;
        while i < S
            invariant
                source@.len() == S,
                i <= S,
                forall|j: int| 0 <= j < i ==> #[trigger] cells@[j] == source@[j],
            decreases S - i,
        {
            cells[i] = source[i];
            i = i + 1;
        }
        let g = Self { cells, width: other.get_width(), height: other.get_height() };
        assert(g.view().cells =~= other.view().cells);
        Some(g)
    }

    /// The grid whose rows are `rows`; `None` unless the rows are rectangular
    /// and hold `S` cells in all.
    pub fn from_rows(rows: Vec<Vec<Option<T>>>) -> (r: Option<Self>)
        ensures
            match r {
                Some(g) => {
                    &&& rectangular(rows_of(rows@))
                    &&& g.view().wf()
                    &&& g.view() == GridView::from_rows(rows_of(rows@))
                },
                None => !rectangular(rows_of(rows@)) || GridView::from_rows(
                    rows_of(rows@),
                ).cells.len() != S,
            },
    {
        match DynGrid::from_rows(rows) {
            Some(grid) => Self::from_grid(&grid),
            None => None,
        }
    }
}

} // verus!
