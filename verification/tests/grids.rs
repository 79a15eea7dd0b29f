use m43lang::grid::{ConstGrid, DynGrid, Grid};
use m43lang::instruction::{Block, Direction, IsStart};

fn sample() -> DynGrid<Block> {
    let mut grid = DynGrid::<Block>::new(3, 2);
    grid.set(Block::Store, 0, 0);
    grid.set(Block::Start(Direction::Right), 2, 0);
    grid.set(Block::Goto(4), 0, 1);
    grid.set(Block::Start(Direction::Up), 1, 1);
    grid.set(Block::Goto(5), 2, 1);
    grid
}

#[test]
fn new_grid_is_empty() {
    let grid = DynGrid::<Block>::new(4, 3);
    assert_eq!(grid.get_width(), 4);
    assert_eq!(grid.get_height(), 3);
    assert_eq!(grid.get_cells().len(), 12);
    assert!(grid.get_cells().iter().all(|c| c.is_none()));
    let fixed = ConstGrid::<Block, 12>::new(4, 3);
    assert_eq!(fixed.get_width(), 4);
    assert_eq!(fixed.get_height(), 3);
    assert!(fixed.get_cells().iter().all(|c| c.is_none()));
    assert!(fixed.is_wf());
}

#[test]
fn cells_lie_in_row_major_order() {
    let grid = sample();
    assert_eq!(
        grid.get_cells(),
        &[
            Some(Block::Store),
            None,
            Some(Block::Start(Direction::Right)),
            Some(Block::Goto(4)),
            Some(Block::Start(Direction::Up)),
            Some(Block::Goto(5)),
        ]
    );
    assert_eq!(grid.get(2, 0), Some(Block::Start(Direction::Right)));
    assert_eq!(grid.get(0, 1), Some(Block::Goto(4)));
    assert_eq!(grid.get_pos((2, 1)), Some(Block::Goto(5)));
    assert_eq!(grid.get(1, 0), None);
}

#[test]
fn positions_off_the_grid_are_empty_and_cannot_be_written() {
    let mut grid = sample();
    assert_eq!(grid.get(3, 0), None);
    assert_eq!(grid.get(0, 2), None);
    assert_eq!(grid.get(usize::MAX, usize::MAX), None);
    let before = grid.get_cells().to_vec();
    grid.set(Block::End, 3, 0);
    grid.set(Block::End, 0, 2);
    grid.set(Block::End, usize::MAX, 0);
    assert_eq!(grid.get_cells(), &before[..]);
}

#[test]
fn set_overwrites_one_cell() {
    let mut grid = sample();
    grid.set(Block::End, 1, 0);
    assert_eq!(grid.get(1, 0), Some(Block::End));
    grid.set(Block::Load, 1, 0);
    assert_eq!(grid.get(1, 0), Some(Block::Load));
    assert_eq!(grid.get(0, 0), Some(Block::Store));
    assert_eq!(grid.get(2, 0), Some(Block::Start(Direction::Right)));
    let slot = &mut grid.get_cells_mut()[5];
    *slot = None;
    assert_eq!(grid.get(2, 1), None);
}

#[test]
fn find_gives_the_first_equal_cell() {
    let mut grid = sample();
    assert_eq!(grid.find(Block::Goto(5)), Some((2, 1)));
    assert_eq!(grid.find(Block::Goto(4)), Some((0, 1)));
    assert_eq!(grid.find(Block::Goto(6)), None);
    assert_eq!(grid.find(Block::Start(Direction::Up)), Some((1, 1)));
    assert_eq!(grid.find(Block::Start(Direction::Down)), None);
    grid.set(Block::Goto(5), 1, 0);
    assert_eq!(grid.find(Block::Goto(5)), Some((1, 0)));
}

#[test]
fn find_start_gives_the_first_start_cell() {
    let mut grid = sample();
    assert_eq!(grid.find_start(), Some((2, 0)));
    grid.set(Block::End, 2, 0);
    assert_eq!(grid.find_start(), Some((1, 1)));
    grid.set(Block::End, 1, 1);
    assert_eq!(grid.find_start(), None);
    assert!(Block::Start(Direction::Left).is_start());
    assert!(!Block::Redirect(Direction::Left).is_start());
    assert!(!Block::End.is_start());
}

#[test]
fn reshape_keeps_the_cells() {
    let mut grid = sample();
    let before = grid.get_cells().to_vec();
    grid.reshape(2, 3);
    assert_eq!(grid.get_width(), 2);
    assert_eq!(grid.get_height(), 3);
    assert_eq!(grid.get_cells(), &before[..]);
    assert_eq!(grid.get(0, 1), Some(Block::Start(Direction::Right)));
    assert_eq!(grid.get(1, 2), Some(Block::Goto(5)));
    grid.reshape(6, 1);
    assert_eq!(grid.get(5, 0), Some(Block::Goto(5)));
    let mut fixed = ConstGrid::<Block, 6>::from_grid(&grid).unwrap();
    fixed.reshape(1, 6);
    assert_eq!(fixed.get(0, 4), Some(Block::Start(Direction::Up)));
    assert!(fixed.is_wf());
}

#[test]
fn grid_from_one_row() {
    let grid = DynGrid::from(vec![Some(Block::End), None, Some(Block::Load)]);
    assert_eq!(grid.get_width(), 3);
    assert_eq!(grid.get_height(), 1);
    assert_eq!(grid.get(2, 0), Some(Block::Load));
    let none = DynGrid::<Block>::from(vec![]);
    assert_eq!(none.get_width(), 0);
    assert_eq!(none.get_height(), 1);
}

#[test]
fn grid_from_cells_and_width() {
    let cells = vec![Some(Block::End), None, Some(Block::Load), None, None, Some(Block::Swap)];
    let grid = DynGrid::from_cells(cells.clone(), 3).unwrap();
    assert_eq!((grid.get_width(), grid.get_height()), (3, 2));
    assert_eq!(grid.get(2, 1), Some(Block::Swap));
    let grid = DynGrid::from_cells(cells.clone(), 2).unwrap();
    assert_eq!((grid.get_width(), grid.get_height()), (2, 3));
    assert_eq!(grid.get(0, 1), Some(Block::Load));
    assert!(DynGrid::from_cells(cells.clone(), 4).is_none());
    assert!(DynGrid::from_cells(cells.clone(), 0).is_none());
    assert!(DynGrid::from_cells(cells, 7).is_none());
}

#[test]
fn grid_from_rows() {
    let rows = vec![
        vec![Some(Block::End), None],
        vec![None, Some(Block::Load)],
        vec![Some(Block::Swap), None],
    ];
    let grid = DynGrid::from_rows(rows.clone()).unwrap();
    assert_eq!((grid.get_width(), grid.get_height()), (2, 3));
    for y in 0..3 {
        for x in 0..2 {
            assert_eq!(grid.get(x, y), rows[y][x]);
        }
    }
    let fixed = ConstGrid::<Block, 6>::from_rows(rows.clone()).unwrap();
    assert_eq!((fixed.width, fixed.height), (2, 3));
    assert_eq!(fixed.get_cells(), grid.get_cells());
    assert!(ConstGrid::<Block, 5>::from_rows(rows).is_none());
}

#[test]
fn rows_must_be_rectangular() {
    assert!(DynGrid::<Block>::from_rows(vec![]).is_none());
    assert!(DynGrid::<Block>::from_rows(vec![vec![]]).is_none());
    assert!(DynGrid::<Block>::from_rows(vec![vec![], vec![]]).is_none());
    assert!(DynGrid::from_rows(vec![vec![Some(Block::End)], vec![]]).is_none());
    assert!(DynGrid::from_rows(vec![vec![None], vec![None, Some(Block::End)]]).is_none());
    assert!(DynGrid::from_rows(vec![vec![None, Some(Block::End)], vec![None]]).is_none());
}

#[test]
fn fixed_grid_from_its_array() {
    let cells = [Some(Block::End), None, Some(Block::Load), None];
    let grid = ConstGrid::from_array(cells, 2).unwrap();
    assert_eq!((grid.width, grid.height), (2, 2));
    assert_eq!(grid.get(0, 1), Some(Block::Load));
    assert_eq!(grid.find(Block::Load), Some((0, 1)));
    let row = ConstGrid::from_array(cells, 4).unwrap();
    assert_eq!((row.width, row.height), (4, 1));
    let row = ConstGrid::from(cells);
    assert_eq!((row.width, row.height), (4, 1));
    assert_eq!(row.get(2, 0), Some(Block::Load));
    assert!(row.is_wf());
    assert!(ConstGrid::from_array(cells, 3).is_none());
    assert!(ConstGrid::from_array(cells, 0).is_none());
}

#[test]
fn fixed_grid_knows_whether_it_is_a_grid() {
    let cells = [Some(Block::End), None, Some(Block::Load), None];
    assert!(ConstGrid { cells, width: 2, height: 2 }.is_wf());
    assert!(ConstGrid { cells, width: 1, height: 4 }.is_wf());
    assert!(!ConstGrid { cells, width: 2, height: 3 }.is_wf());
    assert!(!ConstGrid { cells, width: 0, height: 0 }.is_wf());
    assert!(!ConstGrid { cells, width: usize::MAX, height: 2 }.is_wf());
}

#[test]
fn clone_is_the_same_grid() {
    let grid = sample();
    let mut copy = grid.clone();
    assert_eq!(copy.get_width(), grid.get_width());
    assert_eq!(copy.get_height(), grid.get_height());
    assert_eq!(copy.get_cells(), grid.get_cells());
    copy.set(Block::End, 0, 0);
    assert_eq!(grid.get(0, 0), Some(Block::Store));
}

#[test]
fn instructions_are_equal_by_variant_and_payload() {
    assert_eq!(Block::Goto(4), Block::Goto(4));
    assert_ne!(Block::Goto(4), Block::Goto(5));
    assert_ne!(Block::Goto(4), Block::MoveRight(4));
    assert_ne!(Block::SetValue(4), Block::Save(4));
    assert_eq!(
        Block::Conditional(Direction::Up, Direction::Down),
        Block::Conditional(Direction::Up, Direction::Down)
    );
    assert_ne!(
        Block::Conditional(Direction::Up, Direction::Down),
        Block::Conditional(Direction::Down, Direction::Up)
    );
    assert_ne!(Block::Store, Block::Load);
    assert_eq!(Block::End, Block::End);
}
