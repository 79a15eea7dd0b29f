//! Writing values as source text that denotes them, for embedding a program
//! as literal data.
use crate::grid::{lemma_index_in_range, ConstGrid, DynGrid, Grid, GridView};
use crate::instruction::{Block, Direction, Index, Value};
use crate::numeral::{decimal, render_decimal};
use vstd::prelude::*;

verus! {

broadcast use vstd::slice::group_slice_axioms;

/// A value that can be written as source text.
pub trait AsCode {
    /// The source text of this value.
    spec fn code(&self) -> Seq<char>;

    /// The source text of this value where it stands `depth` levels deep in
    /// the text around it.
    spec fn code_depth(&self, depth: u8) -> Seq<char>;

    /// Writes this value as source text.
    fn as_code(&self) -> (s: String)
        ensures
            s@ == self.code(),
    ;

    /// Writes this value as source text that stands `depth` levels deep.
    fn as_code_depth(&self, depth: u8) -> (s: String)
        ensures
            s@ == self.code_depth(depth),
    ;
}

impl AsCode for Index {
    /// The decimal numeral.
    open spec fn code(&self) -> Seq<char> {
        decimal(*self as nat)
    }

    open spec fn code_depth(&self, depth: u8) -> Seq<char> {
        self.code()
    }

    fn as_code(&self) -> (s: String) {
        render_decimal(*self as u64)
    }

    fn as_code_depth(&self, depth: u8) -> (s: String) {
        self.as_code()
    }
}

impl AsCode for Value {
    /// The decimal numeral.
    open spec fn code(&self) -> Seq<char> {
        decimal(*self as nat)
    }

    open spec fn code_depth(&self, depth: u8) -> Seq<char> {
        self.code()
    }

    fn as_code(&self) -> (s: String) {
        render_decimal(*self)
    }

    fn as_code_depth(&self, depth: u8) -> (s: String) {
        self.as_code()
    }
}

impl<T: AsCode> AsCode for Option<T> {
    /// `None`, or `Some(..)` around the text of what is held.
    open spec fn code(&self) -> Seq<char> {
        match self {
            Some(x) => "Some("@ + x.code() + ")"@,
            None => "None"@,
        }
    }

    open spec fn code_depth(&self, depth: u8) -> Seq<char> {
        self.code()
    }

    fn as_code(&self) -> (s: String) {
        match self {
            Some(x) => around("Some(", x.as_code(), ")"),
            None => String::from_str("None"),
        }
    }

    fn as_code_depth(&self, depth: u8) -> (s: String) {
        self.as_code()
    }
}

impl AsCode for Direction {
    /// The variant after `Direction::`.
    open spec fn code(&self) -> Seq<char> {
        match self {
            Direction::Up => "Direction::Up"@,
            Direction::Down => "Direction::Down"@,
            Direction::Left => "Direction::Left"@,
            Direction::Right => "Direction::Right"@,
        }
    }

    open spec fn code_depth(&self, depth: u8) -> Seq<char> {
        self.code()
    }

    fn as_code(&self) -> (s: String) {
        match self {
            Direction::Up => String::from_str("Direction::Up"),
            Direction::Down => String::from_str("Direction::Down"),
            Direction::Left => String::from_str("Direction::Left"),
            Direction::Right => String::from_str("Direction::Right"),
        }
    }

    fn as_code_depth(&self, depth: u8) -> (s: String) {
        self.as_code()
    }
}

impl AsCode for Block {
    /// The name of the instruction, as program text has it, after `Block::`,
    /// then its fields in brackets, two fields with `, ` between them.
    open spec fn code(&self) -> Seq<char> {
        match self {
            Block::Start(d) => "Block::Start("@ + d.code() + ")"@,
            Block::Redirect(d) => "Block::Redirect("@ + d.code() + ")"@,
            Block::Store => "Block::Store"@,
            Block::Load => "Block::Load"@,
            Block::Swap => "Block::Swap"@,
            Block::MoveRight(n) => "Block::MoveRight("@ + n.code() + ")"@,
            Block::MoveLeft(n) => "Block::MoveLeft("@ + n.code() + ")"@,
            Block::Goto(n) => "Block::Goto("@ + n.code() + ")"@,
            Block::SetValue(v) => "Block::Set("@ + v.code() + ")"@,
            Block::Save(v) => "Block::Save("@ + v.code() + ")"@,
            Block::Increment(v) => "Block::Increment("@ + v.code() + ")"@,
            Block::Decrement(v) => "Block::Decrement("@ + v.code() + ")"@,
            Block::OpAdd => "Block::OpAdd"@,
            Block::OpSub => "Block::OpSub"@,
            Block::OpMul => "Block::OpMul"@,
            Block::OpDiv => "Block::OpDiv"@,
            Block::CompLarger => "Block::CompLarger"@,
            Block::CompSmaller => "Block::CompSmaller"@,
            Block::CompEqual => "Block::CompEqual"@,
            Block::Conditional(d1, d2) => "Block::Conditional("@ + (d1.code() + ", "@ + d2.code())
                + ")"@,
            Block::Display => "Block::Display"@,
            Block::Print => "Block::Print"@,
            Block::Break => "Block::Break"@,
            Block::Input => "Block::Input"@,
            Block::End => "Block::End"@,
        }
    }

    open spec fn code_depth(&self, depth: u8) -> Seq<char> {
        self.code()
    }

    fn as_code(&self) -> (s: String) {
        match self {
            Block::Start(d) => around("Block::Start(", d.as_code(), ")"),
            Block::Redirect(d) => around("Block::Redirect(", d.as_code(), ")"),
            Block::Store => String::from_str("Block::Store"),
            Block::Load => String::from_str("Block::Load"),
            Block::Swap => String::from_str("Block::Swap"),
            Block::MoveRight(n) => around("Block::MoveRight(", n.as_code(), ")"),
            Block::MoveLeft(n) => around("Block::MoveLeft(", n.as_code(), ")"),
            Block::Goto(n) => around("Block::Goto(", n.as_code(), ")"),
            Block::SetValue(v) => around("Block::Set(", v.as_code(), ")"),
            Block::Save(v) => around("Block::Save(", v.as_code(), ")"),
            Block::Increment(v) => around("Block::Increment(", v.as_code(), ")"),
            Block::Decrement(v) => around("Block::Decrement(", v.as_code(), ")"),
            Block::OpAdd => String::from_str("Block::OpAdd"),
            Block::OpSub => String::from_str("Block::OpSub"),
            Block::OpMul => String::from_str("Block::OpMul"),
            Block::OpDiv => String::from_str("Block::OpDiv"),
            Block::CompLarger => String::from_str("Block::CompLarger"),
            Block::CompSmaller => String::from_str("Block::CompSmaller"),
            Block::CompEqual => String::from_str("Block::CompEqual"),
            Block::Conditional(d1, d2) => {
                let mut both = d1.as_code();
                both.append(", ");
                both.append(d2.as_code().as_str());
                around("Block::Conditional(", both, ")")
            },
            Block::Display => String::from_str("Block::Display"),
            Block::Print => String::from_str("Block::Print"),
            Block::Break => String::from_str("Block::Break"),
            Block::Input => String::from_str("Block::Input"),
            Block::End => String::from_str("Block::End"),
        }
    }

    fn as_code_depth(&self, depth: u8) -> (s: String) {
        self.as_code()
    }
}

/// `inner` between `open` and `close`.
fn around(open: &str, inner: String, close: &str) -> (s: String)
    ensures
        s@ == open@ + inner@ + close@,
{
    let mut s = String::from_str(open);
    s.append(inner.as_str());
    s.append(close);
    s
}

/// The text of each of `cells`, a comma after each.
pub open spec fn cells_code<T: AsCode>(cells: Seq<Option<T>>) -> Seq<char>
    decreases cells.len(),
{
    if cells.len() == 0 {
        Seq::empty()
    } else {
        cells_code(cells.drop_last()) + cells.last().code() + ","@
    }
}

/// The text of the first `n` rows of `g`: each row its cells in square
/// brackets, a comma after it.
pub open spec fn rows_code<T: AsCode>(g: GridView<T>, n: nat) -> Seq<char>
    decreases n,
{
    if n == 0 {
        Seq::empty()
    } else {
        rows_code(g, (n - 1) as nat) + "["@ + cells_code(
            g.cells.subrange((n - 1) * g.width, (n * g.width) as int),
        ) + "],"@
    }
}

/// The compact text of a grid: its rows in square brackets.
pub open spec fn grid_code<T: AsCode>(g: GridView<T>) -> Seq<char> {
    "["@ + rows_code(g, g.height) + "]"@
}

/// `depth` tabs.
pub open spec fn tabs(depth: u8) -> Seq<char> {
    Seq::new(depth as nat, |i: int| '\t')
}

/// The text of each of `cells` on a line of its own, indented by one tab
/// more than `depth`, a comma after each.
pub open spec fn lines_code<T: AsCode>(cells: Seq<Option<T>>, depth: u8) -> Seq<char>
    decreases cells.len(),
{
    if cells.len() == 0 {
        Seq::empty()
    } else {
        lines_code(cells.drop_last(), depth) + tabs(depth) + "\t"@ + cells.last().code_depth(depth)
            + ",\n"@
    }
}

/// The indented text of a grid: all its cells in row-major order, one on
/// each line, in one pair of square brackets, the closing one indented by
/// `depth` tabs.
pub open spec fn grid_code_depth<T: AsCode>(g: GridView<T>, depth: u8) -> Seq<char> {
    "[\n"@ + lines_code(g.cells, depth) + tabs(depth) + "]"@
}

/// Writes `depth` tabs.
fn indent(depth: u8) -> (s: String)
    ensures
        s@ == tabs(depth),
{
    let mut s = String::new();
    let mut i: u8 = 0;
    while i < depth
        invariant
            i <= depth,
            s@ == tabs(i),
        decreases depth - i,
    {
        s.push('\t');
        i = i + 1;
    }
    s
}

/// Writes a grid in its compact form.
pub fn write_grid<T: AsCode + Copy, G: Grid<T>>(grid: &G) -> (s: String)
    requires
        grid.view().wf(),
    ensures
        s@ == grid_code(grid.view()),
{
    let ghost g = grid.view();
    let width = grid.get_width();
    let height = grid.get_height();
    let cells = grid.get_cells();
    let mut s = String::from_str("[");
    let mut y: usize = 0;
    while y < height
        invariant
            g == grid.view(),
            g.wf(),
            width == g.width,
            height == g.height,
            cells@ == g.cells,
            y <= height,
            s@ == "["@ + rows_code(g, y as nat),
        decreases height - y,
    {
        let ghost row = g.cells.subrange(y * g.width, (y + 1) * g.width);
        let ghost start = s@;
        proof {
            assert((y + 1) * g.width == y * g.width + g.width) by (nonlinear_arith);
            assert(0 <= y * g.width) by (nonlinear_arith)
                requires
                    y >= 0,
                    g.width >= 0,
            ;
            assert((y + 1) * g.width <= g.height * g.width) by (nonlinear_arith)
                requires
                    y + 1 <= g.height,
                    g.width >= 0,
            ;
        }
        s.append("[");
        let mut x: usize = 0;
        while x < width
            invariant
                g == grid.view(),
                g.wf(),
                width == g.width,
                height == g.height,
                cells@ == g.cells,
                y < height,
                x <= width,
                0 <= y * g.width <= (y + 1) * g.width <= g.cells.len(),
                (y + 1) * g.width == y * g.width + g.width,
                row == g.cells.subrange(y * g.width, (y + 1) * g.width),
                row.len() == g.width,
                s@ == start + "["@ + cells_code(row.take(x as int)),
            decreases width - x,
        {
            proof {
                lemma_index_in_range(g.width, g.height, x as int, y as int);
                assert(cells@.len() == cells.len());
                assert(row.take(x + 1).drop_last() =~= row.take(x as int));
            }
            let text = cells[y * width + x].as_code();
            s.append(text.as_str());
            s.append(",");
            x = x + 1;
        }
        s.append("],");
        assert(row.take(width as int) =~= row);
        y = y + 1;
    }
    s.append("]");
    s
}

/// Writes a grid in its indented form, `depth` levels deep.
pub fn write_grid_depth<T: AsCode + Copy, G: Grid<T>>(grid: &G, depth: u8) -> (s: String)
    requires
        grid.view().wf(),
    ensures
        s@ == grid_code_depth(grid.view(), depth),
{
    let ghost g = grid.view();
    let cells = grid.get_cells();
    let margin = indent(depth);
    let mut s = String::from_str("[\n");
    let mut i: usize = 0;
    while i < cells.len()
        invariant
            cells@ == g.cells,
            margin@ == tabs(depth),
            i <= cells.len(),
            s@ == "[\n"@ + lines_code(g.cells.take(i as int), depth),
        decreases cells.len() - i,
    {
        assert(g.cells.take(i + 1).drop_last() =~= g.cells.take(i as int));
        let text = cells[i].as_code_depth(depth);
        s.append(margin.as_str());
        s.append("\t");
        s.append(text.as_str());
        s.append(",\n");
        i = i + 1;
    }
    assert(g.cells.take(cells.len() as int) =~= g.cells);
    s.append(margin.as_str());
    s.append("]");
    s
}

impl<T: AsCode + Copy> DynGrid<T> {
    /// The grid in its compact form: the rows in square brackets, each row
    /// its cells in square brackets, a comma after each cell and each row.
    pub fn as_code(&self) -> (s: String)
        requires
            self.view().wf(),
        ensures
            s@ == grid_code(self.view()),
    {
        write_grid(self)
    }

    /// The grid in its indented form, for source text `depth` levels deep:
    /// one cell on each line.
    pub fn as_code_depth(&self, depth: u8) -> (s: String)
        requires
            self.view().wf(),
        ensures
            s@ == grid_code_depth(self.view(), depth),
    {
        write_grid_depth(self, depth)
    }
}

impl<T: AsCode + Copy, const S: usize> ConstGrid<T, S> {
    /// The grid in its compact form: the rows in square brackets, each row
    /// its cells in square brackets, a comma after each cell and each row.
    pub fn as_code(&self) -> (s: String)
        requires
            self.view().wf(),
        ensures
            s@ == grid_code(self.view()),
    {
        write_grid(self)
    }

    /// The grid in its indented form, for source text `depth` levels deep:
    /// one cell on each line.
    pub fn as_code_depth(&self, depth: u8) -> (s: String)
        requires
            self.view().wf(),
        ensures
            s@ == grid_code_depth(self.view(), depth),
    {
        write_grid_depth(self, depth)
    }
}

} // verus!
