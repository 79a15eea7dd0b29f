use m43lang::encode::{write_grid, write_grid_depth, AsCode};
use m43lang::grid::{ConstGrid, DynGrid};
use m43lang::instruction::{Block, Direction};
use m43lang::numeral::{chars_of, parse_value, render_decimal};

#[test]
fn numbers_are_written_in_decimal() {
    assert_eq!(0u64.as_code(), "0");
    assert_eq!(7u64.as_code(), "7");
    assert_eq!(10u64.as_code(), "10");
    assert_eq!(305u64.as_code(), "305");
    assert_eq!(u64::MAX.as_code(), "18446744073709551615");
    assert_eq!(1024usize.as_code(), "1024");
    assert_eq!(1024usize.as_code_depth(3), "1024");
    assert_eq!(render_decimal(1_000_000), "1000000");
    for n in [0u64, 1, 9, 10, 11, 99, 100, 101, 12345, 9_999_999_999, u64::MAX - 1, u64::MAX] {
        assert_eq!(render_decimal(n), n.to_string());
        assert_eq!(parse_value(&chars_of(&render_decimal(n))), Some(n));
    }
}

#[test]
fn characters_of_a_text_are_kept() {
    assert_eq!(chars_of(""), Vec::<char>::new());
    assert_eq!(chars_of("a(é,\n)"), vec!['a', '(', 'é', ',', '\n', ')']);
}

#[test]
fn directions_are_written_with_their_type() {
    assert_eq!(Direction::Up.as_code(), "Direction::Up");
    assert_eq!(Direction::Down.as_code(), "Direction::Down");
    assert_eq!(Direction::Left.as_code(), "Direction::Left");
    assert_eq!(Direction::Right.as_code(), "Direction::Right");
    assert_eq!(Direction::Right.as_code_depth(2), "Direction::Right");
}

#[test]
fn instructions_are_written_with_their_fields() {
    assert_eq!(Block::Start(Direction::Down).as_code(), "Block::Start(Direction::Down)");
    assert_eq!(Block::Redirect(Direction::Up).as_code(), "Block::Redirect(Direction::Up)");
    assert_eq!(Block::Store.as_code(), "Block::Store");
    assert_eq!(Block::Load.as_code(), "Block::Load");
    assert_eq!(Block::Swap.as_code(), "Block::Swap");
    assert_eq!(Block::MoveRight(2).as_code(), "Block::MoveRight(2)");
    assert_eq!(Block::MoveLeft(1).as_code(), "Block::MoveLeft(1)");
    assert_eq!(Block::Goto(1023).as_code(), "Block::Goto(1023)");
    assert_eq!(Block::SetValue(43).as_code(), "Block::Set(43)");
    assert_eq!(Block::Save(0).as_code(), "Block::Save(0)");
    assert_eq!(Block::Increment(12).as_code(), "Block::Increment(12)");
    assert_eq!(Block::Decrement(3).as_code(), "Block::Decrement(3)");
    assert_eq!(Block::OpAdd.as_code(), "Block::OpAdd");
    assert_eq!(Block::OpSub.as_code(), "Block::OpSub");
    assert_eq!(Block::OpMul.as_code(), "Block::OpMul");
    assert_eq!(Block::OpDiv.as_code(), "Block::OpDiv");
    assert_eq!(Block::CompLarger.as_code(), "Block::CompLarger");
    assert_eq!(Block::CompSmaller.as_code(), "Block::CompSmaller");
    assert_eq!(Block::CompEqual.as_code(), "Block::CompEqual");
    assert_eq!(
        Block::Conditional(Direction::Up, Direction::Down).as_code(),
        "Block::Conditional(Direction::Up, Direction::Down)"
    );
    assert_eq!(Block::Display.as_code(), "Block::Display");
    assert_eq!(Block::Print.as_code(), "Block::Print");
    assert_eq!(Block::Break.as_code(), "Block::Break");
    assert_eq!(Block::Input.as_code(), "Block::Input");
    assert_eq!(Block::End.as_code(), "Block::End");
    assert_eq!(Block::Goto(7).as_code_depth(4), "Block::Goto(7)");
}

#[test]
fn cells_are_written_as_options() {
    assert_eq!(None::<Block>.as_code(), "None");
    assert_eq!(Some(Block::End).as_code(), "Some(Block::End)");
    assert_eq!(Some(Block::SetValue(5)).as_code(), "Some(Block::Set(5))");
    assert_eq!(Some(Block::SetValue(5)).as_code_depth(1), "Some(Block::Set(5))");
    assert_eq!(Some(Some(3u64)).as_code(), "Some(Some(3))");
}

#[test]
fn grid_in_compact_form() {
    let grid = DynGrid::<Block>::decode("Start(D) _\nSet(43) End").unwrap();
    assert_eq!(
        grid.as_code(),
        "[[Some(Block::Start(Direction::Down)),None,],[Some(Block::Set(43)),Some(Block::End),],]"
    );
    assert_eq!(write_grid(&grid), grid.as_code());
    let one = DynGrid::<Block>::decode("_").unwrap();
    assert_eq!(one.as_code(), "[[None,],]");
    let none = DynGrid::<Block>::from(vec![]);
    assert_eq!(none.as_code(), "[[],]");
    let fixed = ConstGrid::<Block, 4>::decode("Start(D) _\nSet(43) End").unwrap();
    assert_eq!(fixed.as_code(), grid.as_code());
}

#[test]
fn grid_in_indented_form() {
    let grid = DynGrid::<Block>::decode("Start(D) _\nSet(43) End").unwrap();
    assert_eq!(
        grid.as_code_depth(1),
        "[\n\t\tSome(Block::Start(Direction::Down)),\n\t\tNone,\n\t\tSome(Block::Set(43)),\n\t\tSome(Block::End),\n\t]"
    );
    assert_eq!(
        grid.as_code_depth(0),
        "[\n\tSome(Block::Start(Direction::Down)),\n\tNone,\n\tSome(Block::Set(43)),\n\tSome(Block::End),\n]"
    );
    assert_eq!(write_grid_depth(&grid, 2), grid.as_code_depth(2));
    assert!(grid.as_code_depth(2).ends_with(",\n\t\t]"));
    let none = DynGrid::<Block>::from(vec![]);
    assert_eq!(none.as_code_depth(1), "[\n\t]");
    let fixed = ConstGrid::<Block, 4>::decode("Start(D) _\nSet(43) End").unwrap();
    assert_eq!(fixed.as_code_depth(1), grid.as_code_depth(1));
}
