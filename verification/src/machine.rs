//! The state of a running program and what each instruction does to it.
use crate::host::{last_reply, Event, Host};
use crate::instruction::{Block, Direction, Index, Value};
use crate::numeral::{chars_of, decimal, parse_u64, parse_value, render_decimal};
use vstd::prelude::*;

verus! {

broadcast use vstd::array::group_array_axioms;

/// The number of storage slots.
pub const STORAGE_SIZE: usize = 1024;

/// Why a session ended without a halt code.
#[derive(Clone, Copy, Debug, PartialEq, Eq, Structural)]
pub enum Fault {
    /// The grid has no `Start` cell.
    NoStart,
    /// An instruction used the active storage slot while the storage cursor
    /// was beyond the last slot.
    StorageRange,
    /// `OpDiv` with zero in the active slot.
    DivisionByZero,
    /// The reply to `Input` was no unsigned 64-bit numeral.
    MalformedInput,
    /// `MoveLeft` by more than the storage cursor.
    CursorUnderflow,
    /// `MoveRight` beyond what an index can hold.
    CursorOverflow,
    /// A result above the 64-bit range.
    ValueOverflow,
    /// A result below zero.
    ValueUnderflow,
    /// The session used up the steps it was given.
    StepLimit,
}

/// Why a single step did not leave the machine on a next cell.
#[derive(Clone, Copy, Debug, PartialEq, Eq, Structural)]
pub enum Stop {
    /// The session is over, with this halt code.
    Halt(u8),
    /// The session is over, without a halt code.
    Fatal(Fault),
}

/// The machine state: direction, storage cursor, register, storage, and the
/// position `(x, y)` of the cursor on the grid.
pub struct GridState {
    pub dir: Direction,
    pub pos: Index,
    pub val: Value,
    pub storage: [Value; STORAGE_SIZE],
    pub coords: (usize, usize),
}

/// The machine state as a mathematical value.
pub struct Machine {
    pub dir: Direction,
    pub pos: nat,
    pub val: nat,
    pub storage: Seq<Value>,
    pub x: nat,
    pub y: nat,
}

impl View for GridState {
    type V = Machine;

    open spec fn view(&self) -> Machine {
        Machine {
            dir: self.dir,
            pos: self.pos as nat,
            val: self.val as nat,
            storage: self.storage@,
            x: self.coords.0 as nat,
            y: self.coords.1 as nat,
        }
    }
}

impl Machine {
    /// The state in which a session begins: on `(x, y)` facing `dir`, the
    /// register, the storage cursor and every slot at zero.
    pub open spec fn fresh(x: nat, y: nat, dir: Direction) -> Machine {
        Machine {
            dir,
            pos: 0,
            val: 0,
            storage: Seq::new(STORAGE_SIZE as nat, |i: int| 0u64),
            x,
            y,
        }
    }

    /// What the active slot holds, if the storage cursor is on a slot.
    pub open spec fn slot(self) -> Option<Value> {
        if self.pos < self.storage.len() {
            Some(self.storage[self.pos as int])
        } else {
            None
        }
    }

    /// This state with `v` written to the active slot.
    pub open spec fn write(self, v: Value) -> Result<Machine, Fault> {
        if self.pos < self.storage.len() {
            Ok(Machine { storage: self.storage.update(self.pos as int, v), ..self })
        } else {
            Err(Fault::StorageRange)
        }
    }

    /// This state with the register at `n`, which must be a 64-bit value.
    pub open spec fn assign(self, n: int) -> Result<Machine, Fault> {
        if n < 0 {
            Err(Fault::ValueUnderflow)
        } else if n > u64::MAX {
            Err(Fault::ValueOverflow)
        } else {
            Ok(Machine { val: n as nat, ..self })
        }
    }

    /// This state with the register at what `f` makes of the register and
    /// the active slot.
    pub open spec fn combine(self, f: spec_fn(int, int) -> int) -> Result<Machine, Fault> {
        match self.slot() {
            Some(b) => self.assign(f(self.val as int, b as int)),
            None => Err(Fault::StorageRange),
        }
    }

    /// The position one cell ahead, which may lie off the grid.
    pub open spec fn ahead(self) -> (int, int) {
        match self.dir {
            Direction::Up => (self.x as int, self.y as int - 1),
            Direction::Down => (self.x as int, self.y as int + 1),
            Direction::Left => (self.x as int - 1, self.y as int),
            Direction::Right => (self.x as int + 1, self.y as int),
        }
    }

    /// This state one cell ahead, on a grid of the given dimensions; `None`
    /// when that cell is off the grid.
    pub open spec fn stride(self, width: nat, height: nat) -> Option<Machine> {
        let (x, y) = self.ahead();
        if 0 <= x < width && 0 <= y < height {
            Some(Machine { x: x as nat, y: y as nat, ..self })
        } else {
            None
        }
    }
}

/// The character whose code point is `n` modulo 256.
pub open spec fn low_char(n: nat) -> char {
    ((n % 256) as u8) as char
}

/// Something that can be carried out on the machine state, talking to the
/// host as it goes.
pub trait Executable {
    /// What this makes of state `m`, where `reply` is what the host answered
    /// if it was asked. What cannot be carried out gives the fault.
    spec fn effect(&self, m: Machine, reply: Seq<char>) -> Result<Machine, Fault>;

    /// The exchanges with the host that this makes in state `m`, where
    /// `reply` is what the host answered if it was asked.
    spec fn exchanges(&self, m: Machine, reply: Seq<char>) -> Seq<Event>;

    /// Whether this ends the program.
    spec fn halts(&self) -> bool;

    /// Carries this out on `state` and returns whether the program goes on.
    /// The exchanges are appended to the host's trace; the new state is the
    /// effect under the reply that the host gave. On a fault the state is
    /// left as it was.
    fn execute<I: FnMut(&str) -> String, O: FnMut(String)>(
        &self,
        state: &mut GridState,
        host: &mut Host<I, O>,
    ) -> (r: Result<bool, Fault>)
        requires
            old(host).wf(),
        ensures
            final(host).wf(),
            final(host).asker() == old(host).asker(),
            final(host).teller() == old(host).teller(),
            final(host).trace() == old(host).trace() + self.exchanges(
                old(state)@,
                last_reply(final(host).trace()),
            ),
            match self.effect(old(state)@, last_reply(final(host).trace())) {
                Ok(m) => final(state)@ == m && r == Ok::<bool, Fault>(!self.halts()),
                Err(f) => final(state)@ == old(state)@ && r == Err::<bool, Fault>(f),
            },
    ;
}

impl Executable for Block {
    open spec fn effect(&self, m: Machine, reply: Seq<char>) -> Result<Machine, Fault> {
        match *self {
            Block::Start(_) => Ok(m),
            Block::Redirect(d) => Ok(Machine { dir: d, ..m }),
            Block::Store => m.write(m.val as Value),
            Block::Load => m.combine(|a: int, b: int| b),
            Block::Swap => match m.slot() {
                Some(b) => Ok(
                    Machine {
                        val: b as nat,
                        storage: m.storage.update(m.pos as int, m.val as Value),
                        ..m
                    },
                ),
                None => Err(Fault::StorageRange),
            },
            Block::MoveRight(n) => if m.pos + n <= usize::MAX {
                Ok(Machine { pos: (m.pos + n) as nat, ..m })
            } else {
                Err(Fault::CursorOverflow)
            },
            Block::MoveLeft(n) => if n <= m.pos {
                Ok(Machine { pos: (m.pos - n) as nat, ..m })
            } else {
                Err(Fault::CursorUnderflow)
            },
            Block::Goto(n) => Ok(Machine { pos: n as nat, ..m }),
            Block::SetValue(v) => Ok(Machine { val: v as nat, ..m }),
            Block::Save(v) => m.write(v),
            Block::Increment(v) => m.assign(m.val + v),
            Block::Decrement(v) => m.assign(m.val - v),
            Block::OpAdd => m.combine(|a: int, b: int| a + b),
            Block::OpSub => m.combine(|a: int, b: int| a - b),
            Block::OpMul => m.combine(|a: int, b: int| a * b),
            Block::OpDiv => match m.slot() {
                Some(b) => if b == 0 {
                    Err(Fault::DivisionByZero)
                } else {
                    m.assign(m.val as int / b as int)
                },
                None => Err(Fault::StorageRange),
            },
            Block::CompLarger => m.combine(
                |a: int, b: int|
                    if a > b {
                        1
                    } else {
                        0
                    },
            ),
            Block::CompSmaller => m.combine(
                |a: int, b: int|
                    if a < b {
                        1
                    } else {
                        0
                    },
            ),
            Block::CompEqual => m.combine(
                |a: int, b: int|
                    if a == b {
                        1
                    } else {
                        0
                    },
            ),
            Block::Conditional(d1, d2) => Ok(
                Machine {
                    dir: if m.val != 0 {
                        d1
                    } else {
                        d2
                    },
                    ..m
                },
            ),
            Block::Display => Ok(m),
            Block::Print => Ok(m),
            Block::Break => Ok(m),
            Block::Input => match parse_u64(reply) {
                Some(v) => Ok(Machine { val: v as nat, ..m }),
                None => Err(Fault::MalformedInput),
            },
            Block::End => Ok(m),
        }
    }

    open spec fn exchanges(&self, m: Machine, reply: Seq<char>) -> Seq<Event> {
        match *self {
            Block::Display => seq![Event::Output(decimal(m.val))],
            Block::Print => seq![Event::Output(seq![low_char(m.val)])],
            Block::Break => seq![Event::Output(seq!['\n'])],
            Block::Input => seq![Event::Input { prompt: decimal(m.val), reply }],
            _ => Seq::empty(),
        }
    }

    open spec fn halts(&self) -> bool {
        *self is End
    }

    fn execute<I: FnMut(&str) -> String, O: FnMut(String)>(
        &self,
        state: &mut GridState,
        host: &mut Host<I, O>,
    ) -> (r: Result<bool, Fault>) {
        match *self {
            Block::Start(_) => {},
            Block::Redirect(d) => {
                state.dir = d;
            },
            Block::Store => {
                if state.pos >= STORAGE_SIZE {
                    return Err(Fault::StorageRange);
                }
                state.storage[state.pos] = state.val;
            },
            Block::Load => {
                if state.pos >= STORAGE_SIZE {
                    return Err(Fault::StorageRange);
                }
                state.val = state.storage[state.pos];
            },
            Block::Swap => {
                if state.pos >= STORAGE_SIZE {
                    return Err(Fault::StorageRange);
                }
                let held = state.storage[state.pos];
                state.storage[state.pos] = state.val;
                state.val = held;
            },
            Block::MoveRight(n) => {
                if n > usize::MAX - state.pos {
                    return Err(Fault::CursorOverflow);
                }
                state.pos = state.pos + n;
            },
            Block::MoveLeft(n) => {
                if n > state.pos {
                    return Err(Fault::CursorUnderflow);
                }
                state.pos = state.pos - n;
            },
            Block::Goto(n) => {
                state.pos = n;
            },
            Block::SetValue(v) => {
                state.val = v;
            },
            Block::Save(v) => {
                if state.pos >= STORAGE_SIZE {
                    return Err(Fault::StorageRange);
                }
                state.storage[state.pos] = v;
            },
            Block::Increment(v) => {
                if v > u64::MAX - state.val {
                    return Err(Fault::ValueOverflow);
                }
                state.val = state.val + v;
            },
            Block::Decrement(v) => {
                if v > state.val {
                    return Err(Fault::ValueUnderflow);
                }
                state.val = state.val - v;
            },
            Block::OpAdd => {
                if state.pos >= STORAGE_SIZE {
                    return Err(Fault::StorageRange);
                }
                let b = state.storage[state.pos];
                if b > u64::MAX - state.val {
                    return Err(Fault::ValueOverflow);
                }
                state.val = state.val + b;
            },
            Block::OpSub => {
                if state.pos >= STORAGE_SIZE {
                    return Err(Fault::StorageRange);
                }
                let b = state.storage[state.pos];
                if b > state.val {
                    return Err(Fault::ValueUnderflow);
                }
                state.val = state.val - b;
            },
            Block::OpMul => {
                if state.pos >= STORAGE_SIZE {
                    return Err(Fault::StorageRange);
                }
                let b = state.storage[state.pos];
                if b != 0 && state.val > u64::MAX / b {
                    proof {
                        lemma_product_overflows(state.val as int, b as int);
                    }
                    return Err(Fault::ValueOverflow);
                }
                proof {
                    lemma_product_fits(state.val as int, b as int);
                }
                state.val = state.val * b;
            },
            Block::OpDiv => {
                if state.pos >= STORAGE_SIZE {
                    return Err(Fault::StorageRange);
                }
                let b = state.storage[state.pos];
                if b == 0 {
                    return Err(Fault::DivisionByZero);
                }
                proof {
                    lemma_quotient_fits(state.val as int, b as int);
                }
                state.val = state.val / b;
            },
            Block::CompLarger => {
                if state.pos >= STORAGE_SIZE {
                    return Err(Fault::StorageRange);
                }
                state.val = if state.val > state.storage[state.pos] {
                    1
                } else {
                    0
                };
            },
            Block::CompSmaller => {
                if state.pos >= STORAGE_SIZE {
                    return Err(Fault::StorageRange);
                }
                state.val = if state.val < state.storage[state.pos] {
                    1
                } else {
                    0
                };
            },
            Block::CompEqual => {
                if state.pos >= STORAGE_SIZE {
                    return Err(Fault::StorageRange);
                }
                state.val = if state.val == state.storage[state.pos] {
                    1
                } else {
                    0
                };
            },
            Block::Conditional(d1, d2) => {
                state.dir = if state.val == 0 {
                    d2
                } else {
                    d1
                };
            },
            Block::Display => {
                host.emit(render_decimal(state.val));
            },
            Block::Print => {
                let mut text = String::new();
                text.push(((state.val % 256) as u8) as char);
                host.emit(text);
            },
            Block::Break => {
                let mut text = String::new();
                text.push('\n');
                host.emit(text);
            },
            Block::Input => {
                let prompt = render_decimal(state.val);
                let reply = host.ask(prompt.as_str());
                let typed = chars_of(reply.as_str());
                match parse_value(typed.as_slice()) {
                    Some(v) => {
                        state.val = v;
                    },
                    None => {
                        return Err(Fault::MalformedInput);
                    },
                }
            },
            Block::End => {
                return Ok(false);
            },
        }
        Ok(true)
    }
}

/// The four arithmetic instructions put in the register the sum, the
/// difference, the product and the integer quotient of the register and the
/// active slot, where that is a 64-bit value. Division by zero is a fault,
/// and so is a result out of range.
pub proof fn lemma_arithmetic(m: Machine, reply: Seq<char>)
    requires
        m.val <= u64::MAX,
        m.pos < m.storage.len(),
    ensures
        ({
            let a = m.val as int;
            let b = m.storage[m.pos as int] as int;
            &&& Block::OpAdd.effect(m, reply) == if a + b <= u64::MAX {
                Ok::<Machine, Fault>(Machine { val: (a + b) as nat, ..m })
            } else {
                Err::<Machine, Fault>(Fault::ValueOverflow)
            }
            &&& Block::OpSub.effect(m, reply) == if a - b >= 0 {
                Ok::<Machine, Fault>(Machine { val: (a - b) as nat, ..m })
            } else {
                Err::<Machine, Fault>(Fault::ValueUnderflow)
            }
            &&& Block::OpMul.effect(m, reply) == if a * b <= u64::MAX {
                Ok::<Machine, Fault>(Machine { val: (a * b) as nat, ..m })
            } else {
                Err::<Machine, Fault>(Fault::ValueOverflow)
            }
            &&& Block::OpDiv.effect(m, reply) == if b != 0 {
                Ok::<Machine, Fault>(Machine { val: (a / b) as nat, ..m })
            } else {
                Err::<Machine, Fault>(Fault::DivisionByZero)
            }
        }),
{
    let a = m.val as int;
    let b = m.storage[m.pos as int] as int;
    assert(0 <= a * b) by (nonlinear_arith)
        requires
            0 <= a,
            0 <= b,
    ;
    if b != 0 {
        lemma_quotient_fits(a, b);
    }
}

/// `Conditional(d1, d2)` turns the cursor to `d1` when the register is not
/// zero and to `d2` when it is, and changes nothing else.
pub proof fn lemma_conditional(m: Machine, d1: Direction, d2: Direction, reply: Seq<char>)
    ensures
        Block::Conditional(d1, d2).effect(m, reply) == Ok::<Machine, Fault>(
            Machine {
                dir: if m.val != 0 {
                    d1
                } else {
                    d2
                },
                ..m
            },
        ),
        Block::Conditional(d1, d2).exchanges(m, reply) == Seq::<Event>::empty(),
{
}

/// No instruction moves the cursor: where one is carried out, the position
/// on the grid stays.
pub proof fn lemma_effect_keeps_position(b: Block, m: Machine, reply: Seq<char>)
    ensures
        b.effect(m, reply) matches Ok(n) ==> n.x == m.x && n.y == m.y,
{
}

/// A product of two 64-bit values fits in 64 bits when the first is at most
/// the quotient of the largest such value by the second.
proof fn lemma_product_fits(a: int, b: int)
    requires
        0 <= a <= u64::MAX,
        0 <= b <= u64::MAX,
        b == 0 || a <= u64::MAX as int / b,
    ensures
        0 <= a * b <= u64::MAX,
{
    if b != 0 {
        let q = u64::MAX as int / b;
        assert(q * b <= u64::MAX) by (nonlinear_arith)
            requires
                b > 0,
                q == u64::MAX as int / b,
        ;
        assert(0 <= a * b <= q * b) by (nonlinear_arith)
            requires
                0 <= a <= q,
                b > 0,
        ;
    } else {
        assert(a * b == 0) by (nonlinear_arith)
            requires
                b == 0,
        ;
    }
}

/// A product of two 64-bit values is beyond 64 bits when the first is above
/// the quotient of the largest such value by the second.
proof fn lemma_product_overflows(a: int, b: int)
    requires
        0 < b <= u64::MAX,
        a > u64::MAX as int / b,
    ensures
        a * b > u64::MAX,
{
    let q = u64::MAX as int / b;
    assert((q + 1) * b > u64::MAX) by (nonlinear_arith)
        requires
            b > 0,
            q == u64::MAX as int / b,
    ;
    assert(a * b >= (q + 1) * b) by (nonlinear_arith)
        requires
            a >= q + 1,
            b > 0,
    ;
}

/// A quotient of two 64-bit values is one.
proof fn lemma_quotient_fits(a: int, b: int)
    requires
        0 <= a <= u64::MAX,
        0 < b,
    ensures
        0 <= a / b <= u64::MAX,
{
    assert(0 <= a / b <= a) by (nonlinear_arith)
        requires
            0 <= a,
            0 < b,
    ;
}

impl GridState {
    /// The state in which a session begins on `coords`, facing `dir`.
    pub fn new(coords: (usize, usize), dir: Direction) -> (s: Self)
        ensures
            s@ == Machine::fresh(coords.0 as nat, coords.1 as nat, dir),
    {
        let s = GridState { dir, pos: 0, val: 0, storage: [0u64;STORAGE_SIZE], coords };
        assert(s@.storage =~= Machine::fresh(coords.0 as nat, coords.1 as nat, dir).storage);
        s
    }

    /// Moves one cell in the current direction on a grid of the given
    /// dimensions. When that cell is off the grid, the state stays as it is
    /// and the halt code 1 comes back as the error.
    pub fn walk(&mut self, width: usize, height: usize) -> (r: Result<(), u8>)
        ensures
            match old(self)@.stride(width as nat, height as nat) {
                Some(m) => r is Ok && final(self)@ == m,
                None => r == Err::<(), u8>(1) && final(self)@ == old(self)@,
            },
    {
        let (x, y) = self.coords;
        match self.dir {
            Direction::Up => {
                if y == 0 || y - 1 >= height || x >= width {
                    return Err(1);
                }
                self.coords.1 = y - 1;
            },
            Direction::Down => {
                if height == 0 || y >= height - 1 || x >= width {
                    return Err(1);
                }
                self.coords.1 = y + 1;
            },
            Direction::Left => {
                if x == 0 || x - 1 >= width || y >= height {
                    return Err(1);
                }
                self.coords.0 = x - 1;
            },
            Direction::Right => {
                if width == 0 || x >= width - 1 || y >= height {
                    return Err(1);
                }
                self.coords.0 = x + 1;
            },
        }
        Ok(())
    }
}

} // verus!
