use m43lang::host::Host;
use m43lang::grid::DynGrid;
use m43lang::instruction::{Block, Direction};
use m43lang::interpreter::{advance, run_from};
use m43lang::machine::{Executable, Fault, GridState, Stop, STORAGE_SIZE};
use std::cell::RefCell;

/// Carries out `blocks` in order on a fresh state with a host that answers
/// `reply`, and returns the state, the last result, and what was emitted.
fn carry_out(blocks: &[Block], reply: &str) -> (GridState, Result<bool, Fault>, String) {
    let shown = RefCell::new(String::new());
    let mut host = Host::new(|_: &str| reply.to_string(), |s: String| shown.borrow_mut().push_str(&s));
    let mut state = GridState::new((0, 0), Direction::Down);
    let mut last = Ok(true);
    for block in blocks {
        last = block.execute(&mut state, &mut host);
    }
    drop(host);
    (state, last, shown.into_inner())
}

/// The register after `op` with `a` in the register and `b` in the active slot.
fn combine(a: u64, b: u64, op: Block) -> Result<u64, Fault> {
    let (state, result, _) = carry_out(&[Block::Save(b), Block::SetValue(a), op], "");
    result.map(|_| state.val)
}

#[test]
fn fresh_state_is_all_zero() {
    let state = GridState::new((3, 4), Direction::Left);
    assert_eq!(state.coords, (3, 4));
    assert_eq!(state.dir, Direction::Left);
    assert_eq!(state.pos, 0);
    assert_eq!(state.val, 0);
    assert_eq!(state.storage.len(), 1024);
    assert_eq!(STORAGE_SIZE, 1024);
    assert!(state.storage.iter().all(|v| *v == 0));
}

#[test]
fn walk_moves_one_cell() {
    let mut state = GridState::new((1, 1), Direction::Up);
    assert_eq!(state.walk(3, 3), Ok(()));
    assert_eq!(state.coords, (1, 0));
    state.dir = Direction::Right;
    assert_eq!(state.walk(3, 3), Ok(()));
    assert_eq!(state.coords, (2, 0));
    state.dir = Direction::Down;
    assert_eq!(state.walk(3, 3), Ok(()));
    assert_eq!(state.walk(3, 3), Ok(()));
    assert_eq!(state.coords, (2, 2));
    state.dir = Direction::Left;
    assert_eq!(state.walk(3, 3), Ok(()));
    assert_eq!(state.walk(3, 3), Ok(()));
    assert_eq!(state.coords, (0, 2));
}

#[test]
fn walk_off_the_grid_gives_code_one_and_stays() {
    for (coords, dir) in [
        ((1, 0), Direction::Up),
        ((1, 2), Direction::Down),
        ((0, 1), Direction::Left),
        ((2, 1), Direction::Right),
    ] {
        let mut state = GridState::new(coords, dir);
        assert_eq!(state.walk(3, 3), Err(1));
        assert_eq!(state.coords, coords);
    }
    let mut state = GridState::new((0, 0), Direction::Right);
    assert_eq!(state.walk(1, 1), Err(1));
    assert_eq!(state.walk(0, 0), Err(1));
    let mut state = GridState::new((usize::MAX, usize::MAX), Direction::Down);
    assert_eq!(state.walk(usize::MAX, usize::MAX), Err(1));
    state.dir = Direction::Right;
    assert_eq!(state.walk(usize::MAX, usize::MAX), Err(1));
    // From outside the grid, only a step onto it is a walk.
    let mut state = GridState::new((5, 1), Direction::Up);
    assert_eq!(state.walk(3, 3), Err(1));
    let mut state = GridState::new((3, 1), Direction::Left);
    assert_eq!(state.walk(3, 3), Ok(()));
    assert_eq!(state.coords, (2, 1));
}

#[test]
fn arithmetic_on_register_and_slot() {
    assert_eq!(combine(7, 3, Block::OpAdd), Ok(10));
    assert_eq!(combine(7, 3, Block::OpSub), Ok(4));
    assert_eq!(combine(7, 3, Block::OpMul), Ok(21));
    assert_eq!(combine(7, 3, Block::OpDiv), Ok(2));
    assert_eq!(combine(6, 3, Block::OpDiv), Ok(2));
    assert_eq!(combine(2, 3, Block::OpDiv), Ok(0));
    assert_eq!(combine(0, 0, Block::OpAdd), Ok(0));
    assert_eq!(combine(0, 0, Block::OpMul), Ok(0));
    assert_eq!(combine(5, 0, Block::OpMul), Ok(0));
    assert_eq!(combine(3, 3, Block::OpSub), Ok(0));
    assert_eq!(combine(u64::MAX - 1, 1, Block::OpAdd), Ok(u64::MAX));
    assert_eq!(combine(1 << 32, (1 << 32) - 1, Block::OpMul), Ok(u64::MAX - (1 << 32) + 1));
    assert_eq!(combine(u64::MAX, 1, Block::OpMul), Ok(u64::MAX));
    assert_eq!(combine(u64::MAX, u64::MAX, Block::OpDiv), Ok(1));
}

#[test]
fn division_by_zero_is_a_fault() {
    assert_eq!(combine(7, 0, Block::OpDiv), Err(Fault::DivisionByZero));
    assert_eq!(combine(0, 0, Block::OpDiv), Err(Fault::DivisionByZero));
}

#[test]
fn results_out_of_range_are_faults() {
    assert_eq!(combine(u64::MAX, 1, Block::OpAdd), Err(Fault::ValueOverflow));
    assert_eq!(combine(1 << 32, 1 << 32, Block::OpMul), Err(Fault::ValueOverflow));
    assert_eq!(combine(u64::MAX, 2, Block::OpMul), Err(Fault::ValueOverflow));
    assert_eq!(combine(3, 4, Block::OpSub), Err(Fault::ValueUnderflow));
    let (state, result, _) = carry_out(&[Block::SetValue(u64::MAX), Block::Increment(1)], "");
    assert_eq!(result, Err(Fault::ValueOverflow));
    assert_eq!(state.val, u64::MAX);
    let (state, result, _) = carry_out(&[Block::SetValue(2), Block::Decrement(3)], "");
    assert_eq!(result, Err(Fault::ValueUnderflow));
    assert_eq!(state.val, 2);
}

#[test]
fn comparisons_give_one_or_zero() {
    assert_eq!(combine(7, 3, Block::CompLarger), Ok(1));
    assert_eq!(combine(3, 7, Block::CompLarger), Ok(0));
    assert_eq!(combine(3, 3, Block::CompLarger), Ok(0));
    assert_eq!(combine(7, 3, Block::CompSmaller), Ok(0));
    assert_eq!(combine(3, 7, Block::CompSmaller), Ok(1));
    assert_eq!(combine(3, 3, Block::CompSmaller), Ok(0));
    assert_eq!(combine(7, 3, Block::CompEqual), Ok(0));
    assert_eq!(combine(3, 3, Block::CompEqual), Ok(1));
    assert_eq!(combine(0, 0, Block::CompEqual), Ok(1));
}

#[test]
fn conditional_turns_by_the_register() {
    for val in [1u64, 2, 255, 256, u64::MAX] {
        let (state, result, _) = carry_out(
            &[Block::SetValue(val), Block::Conditional(Direction::Left, Direction::Right)],
            "",
        );
        assert_eq!(result, Ok(true));
        assert_eq!(state.dir, Direction::Left);
        assert_eq!(state.val, val);
    }
    let (state, result, _) =
        carry_out(&[Block::Conditional(Direction::Left, Direction::Right)], "");
    assert_eq!(result, Ok(true));
    assert_eq!(state.dir, Direction::Right);
    let (state, _, _) = carry_out(&[Block::Conditional(Direction::Up, Direction::Up)], "");
    assert_eq!(state.dir, Direction::Up);
}

#[test]
fn register_and_storage_instructions() {
    let (state, result, shown) = carry_out(
        &[
            Block::SetValue(9),
            Block::Store,
            Block::MoveRight(3),
            Block::Save(4),
            Block::Swap,
            Block::MoveLeft(1),
            Block::Store,
            Block::Goto(1023),
            Block::Save(77),
            Block::Increment(5),
            Block::Decrement(2),
            Block::Redirect(Direction::Left),
            Block::Start(Direction::Up),
        ],
        "",
    );
    assert_eq!(result, Ok(true));
    assert_eq!(shown, "");
    assert_eq!(state.storage[0], 9);
    assert_eq!(state.storage[3], 9);
    assert_eq!(state.storage[2], 4);
    assert_eq!(state.storage[1023], 77);
    assert_eq!(state.val, 7);
    assert_eq!(state.pos, 1023);
    assert_eq!(state.dir, Direction::Left);
    assert_eq!(state.coords, (0, 0));
    let (state, _, _) = carry_out(&[Block::Save(6), Block::SetValue(1), Block::Load], "");
    assert_eq!(state.val, 6);
    assert_eq!(state.storage[0], 6);
}

#[test]
fn end_halts_and_changes_nothing() {
    let (state, result, shown) = carry_out(&[Block::SetValue(9), Block::End], "");
    assert_eq!(result, Ok(false));
    assert_eq!(state.val, 9);
    assert_eq!(shown, "");
}

#[test]
fn storage_beyond_the_last_slot_is_a_fault() {
    for op in [
        Block::Store,
        Block::Load,
        Block::Swap,
        Block::Save(1),
        Block::OpAdd,
        Block::OpSub,
        Block::OpMul,
        Block::OpDiv,
        Block::CompLarger,
        Block::CompSmaller,
        Block::CompEqual,
    ] {
        let (state, result, _) = carry_out(&[Block::SetValue(5), Block::Goto(1024), op], "");
        assert_eq!(result, Err(Fault::StorageRange), "{:?}", op);
        assert_eq!(state.val, 5);
        assert_eq!(state.pos, 1024);
        let (_, result, _) = carry_out(&[Block::Goto(1023), op], "");
        assert_ne!(result, Err(Fault::StorageRange), "{:?}", op);
    }
    // The cursor itself may stand anywhere.
    let (state, result, _) = carry_out(&[Block::Goto(usize::MAX), Block::MoveLeft(5)], "");
    assert_eq!(result, Ok(true));
    assert_eq!(state.pos, usize::MAX - 5);
}

#[test]
fn storage_cursor_out_of_range_is_a_fault() {
    let (state, result, _) = carry_out(&[Block::MoveRight(2), Block::MoveLeft(3)], "");
    assert_eq!(result, Err(Fault::CursorUnderflow));
    assert_eq!(state.pos, 2);
    let (state, result, _) = carry_out(&[Block::MoveRight(2), Block::MoveLeft(2)], "");
    assert_eq!(result, Ok(true));
    assert_eq!(state.pos, 0);
    let (state, result, _) = carry_out(&[Block::Goto(usize::MAX), Block::MoveRight(1)], "");
    assert_eq!(result, Err(Fault::CursorOverflow));
    assert_eq!(state.pos, usize::MAX);
}

#[test]
fn display_print_and_break_emit_text() {
    let (_, _, shown) = carry_out(&[Block::SetValue(1234), Block::Display], "");
    assert_eq!(shown, "1234");
    let (_, _, shown) = carry_out(&[Block::Display], "");
    assert_eq!(shown, "0");
    let (_, _, shown) = carry_out(&[Block::SetValue(72), Block::Print], "");
    assert_eq!(shown, "H");
    let (_, _, shown) = carry_out(&[Block::SetValue(256 + 72), Block::Print], "");
    assert_eq!(shown, "H");
    let (_, _, shown) = carry_out(&[Block::SetValue(255), Block::Print], "");
    assert_eq!(shown, "\u{ff}");
    let (state, result, shown) = carry_out(&[Block::SetValue(3), Block::Break, Block::Display], "");
    assert_eq!(shown, "\n3");
    assert_eq!(result, Ok(true));
    assert_eq!(state.val, 3);
}

#[test]
fn input_reads_the_reply_into_the_register() {
    let (state, result, _) = carry_out(&[Block::Input], "42");
    assert_eq!(result, Ok(true));
    assert_eq!(state.val, 42);
    let (state, result, _) = carry_out(&[Block::SetValue(8), Block::Input], "x");
    assert_eq!(result, Err(Fault::MalformedInput));
    assert_eq!(state.val, 8);
    let (_, result, _) = carry_out(&[Block::Input], "4 2");
    assert_eq!(result, Err(Fault::MalformedInput));
}

#[test]
fn host_passes_texts_through() {
    let asked = RefCell::new(Vec::new());
    let shown = RefCell::new(Vec::new());
    let mut host = Host::new(
        |p: &str| {
            asked.borrow_mut().push(p.to_string());
            format!("re: {}", p)
        },
        |s: String| shown.borrow_mut().push(s),
    );
    assert_eq!(host.ask("one"), "re: one");
    host.emit("two".to_string());
    assert_eq!(host.ask(""), "re: ");
    drop(host);
    assert_eq!(asked.into_inner(), ["one", ""]);
    assert_eq!(shown.into_inner(), ["two"]);
}

#[test]
fn one_cycle_carries_out_and_walks() {
    let grid = DynGrid::<Block>::decode("Start(R) Set(4) _ OpDiv").unwrap();
    let mut host = Host::new(|_: &str| String::new(), |_: String| {});
    let mut state = GridState::new((0, 0), Direction::Right);
    assert_eq!(advance(&grid, &mut state, &mut host), Ok(()));
    assert_eq!((state.coords, state.val), ((1, 0), 0));
    assert_eq!(advance(&grid, &mut state, &mut host), Ok(()));
    assert_eq!((state.coords, state.val), ((2, 0), 4));
    assert_eq!(advance(&grid, &mut state, &mut host), Ok(()));
    assert_eq!((state.coords, state.val), ((3, 0), 4));
    assert_eq!(advance(&grid, &mut state, &mut host), Err(Stop::Fatal(Fault::DivisionByZero)));
    assert_eq!((state.coords, state.val), ((3, 0), 4));
    state.dir = Direction::Up;
    state.coords = (1, 0);
    assert_eq!(advance(&grid, &mut state, &mut host), Err(Stop::Halt(1)));
    assert_eq!(state.coords, (1, 0));
}

#[test]
fn run_goes_on_from_a_given_state() {
    let grid = DynGrid::<Block>::decode("Start(R) Set(4) Display End").unwrap();
    let shown = RefCell::new(String::new());
    let mut host = Host::new(|_: &str| String::new(), |s: String| shown.borrow_mut().push_str(&s));
    let mut state = GridState::new((2, 0), Direction::Right);
    state.val = 17;
    assert_eq!(run_from(&grid, &mut state, &mut host, 10), Ok(0));
    assert_eq!(state.coords, (3, 0));
    let mut state = GridState::new((0, 0), Direction::Right);
    assert_eq!(run_from(&grid, &mut state, &mut host, 2), Err(Fault::StepLimit));
    assert_eq!(state.coords, (2, 0));
    assert_eq!(run_from(&grid, &mut state, &mut host, 1), Ok(0));
    drop(host);
    assert_eq!(shown.into_inner(), "174");
}
