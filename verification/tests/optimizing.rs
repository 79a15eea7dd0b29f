use m43lang::compile::Compilable;
use m43lang::grid::{DynGrid, Grid};
use m43lang::instruction::{Block, Direction};

fn grid(text: &str) -> DynGrid<Block> {
    DynGrid::<Block>::decode(text).expect("the text is a program")
}

fn optimized(text: &str) -> DynGrid<Block> {
    let mut g = grid(text);
    g.optimize();
    g
}

fn same(a: &DynGrid<Block>, b: &DynGrid<Block>) -> bool {
    a.get_width() == b.get_width()
        && a.get_height() == b.get_height()
        && a.get_cells() == b.get_cells()
}

fn has_empty_row_or_column(g: &DynGrid<Block>) -> bool {
    let empty_row = (0..g.get_height()).any(|y| (0..g.get_width()).all(|x| g.get(x, y).is_none()));
    let empty_column =
        (0..g.get_width()).any(|x| (0..g.get_height()).all(|y| g.get(x, y).is_none()));
    empty_row || empty_column
}

const SPARSE: &str = "_ _ _ _ _
_ Start(R) _ Set(5) _
_ _ _ _ _
_ _ _ Display _
_ End _ _ _
_ _ _ _ _";

#[test]
fn empty_rows_and_columns_are_taken_out() {
    let g = optimized(SPARSE);
    assert_eq!(g.get_width(), 2);
    assert_eq!(g.get_height(), 3);
    assert_eq!(
        g.get_cells(),
        &[
            Some(Block::Start(Direction::Right)),
            Some(Block::SetValue(5)),
            None,
            Some(Block::Display),
            Some(Block::End),
            None,
        ]
    );
}

#[test]
fn dimensions_shrink_by_the_empty_rows_and_columns() {
    let before = grid(SPARSE);
    let after = optimized(SPARSE);
    assert_eq!(after.get_width(), before.get_width() - 3);
    assert_eq!(after.get_height(), before.get_height() - 3);
    assert_eq!(after.get_cells().len(), after.get_width() * after.get_height());
}

#[test]
fn dense_grid_stays_as_it_is() {
    let text = "Start(R) _\n_ End";
    assert!(same(&optimized(text), &grid(text)));
    let text = "Start(R) Set(5) Display End";
    assert!(same(&optimized(text), &grid(text)));
}

#[test]
fn optimizing_twice_is_optimizing_once() {
    for text in [SPARSE, "_", "_ _\n_ _", "Start(R) _\n_ End", "_ End _\n_ _ _\nLoad _ _"] {
        let once = optimized(text);
        let mut twice = optimized(text);
        twice.optimize();
        assert!(same(&once, &twice), "{:?}", text);
    }
}

#[test]
fn nothing_empty_is_left() {
    for text in [SPARSE, "_ _\n_ _", "Start(R) _\n_ End", "_ End _\n_ _ _\nLoad _ _", "_ _ End"] {
        assert!(!has_empty_row_or_column(&optimized(text)), "{:?}", text);
    }
}

#[test]
fn order_of_the_cells_is_kept() {
    let g = optimized("_ Load _ Store\n_ _ _ _\nSwap _ _ _\n_ _ _ End");
    assert_eq!((g.get_width(), g.get_height()), (3, 3));
    assert_eq!(
        g.get_cells(),
        &[
            None,
            Some(Block::Load),
            Some(Block::Store),
            Some(Block::Swap),
            None,
            None,
            None,
            None,
            Some(Block::End),
        ]
    );
    assert_eq!(g.find(Block::Load), Some((1, 0)));
    assert_eq!(g.find(Block::Swap), Some((0, 1)));
    assert_eq!(g.find(Block::End), Some((2, 2)));
}

#[test]
fn grid_of_empty_cells_becomes_the_grid_without_cells() {
    let g = optimized("_ _ _\n_ _ _");
    assert_eq!((g.get_width(), g.get_height()), (0, 0));
    assert!(g.get_cells().is_empty());
    let mut none = DynGrid::<Block>::new(0, 5);
    none.optimize();
    assert_eq!((none.get_width(), none.get_height()), (0, 0));
    let mut none = DynGrid::<Block>::new(5, 0);
    none.optimize();
    assert_eq!((none.get_width(), none.get_height()), (0, 0));
}

#[test]
fn single_cell_is_kept() {
    let g = optimized("_ _ _\n_ End _\n_ _ _");
    assert_eq!((g.get_width(), g.get_height()), (1, 1));
    assert_eq!(g.get(0, 0), Some(Block::End));
}

#[test]
fn start_is_not_looked_for() {
    let g = optimized("_ Load\n_ _");
    assert_eq!((g.get_width(), g.get_height()), (1, 1));
    assert_eq!(g.find_start(), None);
}

#[test]
fn compile_trims_and_writes_the_cells() {
    let mut g = grid("_ _ _\n_ Start(D) _\n_ Set(43) _\n_ End _");
    let text = g.compile();
    assert_eq!((g.get_width(), g.get_height()), (1, 3));
    assert_eq!(
        text,
        "[\n\t\tSome(Block::Start(Direction::Down)),\n\t\tSome(Block::Set(43)),\n\t\tSome(Block::End),\n\t]"
    );
    assert_eq!(text, g.as_code_depth(1));
}
