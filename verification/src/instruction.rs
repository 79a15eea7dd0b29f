//! The instruction set: directions, the closed set of cell instructions and
//! their equality.
use vstd::prelude::*;
use vstd::std_specs::cmp::PartialEqSpecImpl;

verus! {

/// An index into the storage array.
pub type Index = usize;

/// What the register and each storage slot hold.
pub type Value = u64;

/// The four ways the cursor can face.
#[derive(Clone, Copy, Debug, PartialEq, Eq, Structural)]
pub enum Direction {
    Up,
    Down,
    Left,
    Right,
}

/// One instruction of the language. A cell of a grid holds one of these or is
/// empty.
#[derive(Clone, Copy, Debug)]
pub enum Block {
    /// Where the program begins, and which way the cursor faces then.
    Start(Direction),
    /// Turns the cursor.
    Redirect(Direction),
    /// Writes the register to the active slot.
    Store,
    /// Reads the active slot into the register.
    Load,
    /// Exchanges the register and the active slot.
    Swap,
    /// Moves the storage cursor up by so many slots.
    MoveRight(Index),
    /// Moves the storage cursor down by so many slots.
    MoveLeft(Index),
    /// Puts the storage cursor on this slot.
    Goto(Index),
    /// Puts this value in the register. Written `Set` in program text.
    SetValue(Value),
    /// Writes this value to the active slot.
    Save(Value),
    /// Adds this value to the register.
    Increment(Value),
    /// Subtracts this value from the register.
    Decrement(Value),
    /// Adds the active slot to the register.
    OpAdd,
    /// Subtracts the active slot from the register.
    OpSub,
    /// Multiplies the register by the active slot.
    OpMul,
    /// Divides the register by the active slot.
    OpDiv,
    /// Puts 1 in the register if it is larger than the active slot, else 0.
    CompLarger,
    /// Puts 1 in the register if it is smaller than the active slot, else 0.
    CompSmaller,
    /// Puts 1 in the register if it equals the active slot, else 0.
    CompEqual,
    /// Turns the cursor the first way if the register is not zero, the
    /// second way if it is.
    Conditional(Direction, Direction),
    /// Emits the register as a decimal numeral.
    Display,
    /// Emits the character whose code point is the register modulo 256.
    Print,
    /// Emits a line feed.
    Break,
    /// Asks the host, with the register as prompt, and reads the reply into
    /// the register.
    Input,
    /// Ends the program with halt code 0.
    End,
}

impl PartialEq for Block {
    /// Two instructions are equal when they are the same variant with the
    /// same payload.
    fn eq(&self, other: &Self) -> (r: bool) {
        match (*self, *other) {
            (Block::Start(a), Block::Start(b)) => a == b,
            (Block::Redirect(a), Block::Redirect(b)) => a == b,
            (Block::Store, Block::Store) => true,
            (Block::Load, Block::Load) => true,
            (Block::Swap, Block::Swap) => true,
            (Block::MoveRight(a), Block::MoveRight(b)) => a == b,
            (Block::MoveLeft(a), Block::MoveLeft(b)) => a == b,
            (Block::Goto(a), Block::Goto(b)) => a == b,
            (Block::SetValue(a), Block::SetValue(b)) => a == b,
            (Block::Save(a), Block::Save(b)) => a == b,
            (Block::Increment(a), Block::Increment(b)) => a == b,
            (Block::Decrement(a), Block::Decrement(b)) => a == b,
            (Block::OpAdd, Block::OpAdd) => true,
            (Block::OpSub, Block::OpSub) => true,
            (Block::OpMul, Block::OpMul) => true,
            (Block::OpDiv, Block::OpDiv) => true,
            (Block::CompLarger, Block::CompLarger) => true,
            (Block::CompSmaller, Block::CompSmaller) => true,
            (Block::CompEqual, Block::CompEqual) => true,
            (Block::Conditional(a, c), Block::Conditional(b, d)) => a == b && c == d,
            (Block::Display, Block::Display) => true,
            (Block::Print, Block::Print) => true,
            (Block::Break, Block::Break) => true,
            (Block::Input, Block::Input) => true,
            (Block::End, Block::End) => true,
            _ => false,
        }
    }
}

impl Eq for Block {

}

impl PartialEqSpecImpl for Block {
    open spec fn obeys_eq_spec() -> bool {
        true
    }

    open spec fn eq_spec(&self, other: &Self) -> bool {
        *self == *other
    }
}

/// Cell contents that can mark where execution begins.
pub trait IsStart {
    /// Whether this value marks the start of a program.
    spec fn start(&self) -> bool;

    /// Whether this value marks the start of a program.
    fn is_start(&self) -> (b: bool)
        ensures
            b == self.start(),
    ;
}

impl IsStart for Block {
    open spec fn start(&self) -> bool {
        *self is Start
    }

    fn is_start(&self) -> (b: bool) {
        match self {
            Block::Start(_) => true,
            _ => false,
        }
    }
}

impl Block {
    /// The direction that a `Start` instruction carries.
    pub open spec fn heading(self) -> Option<Direction> {
        match self {
            Block::Start(d) => Some(d),
            _ => None,
        }
    }
}

} // verus!
