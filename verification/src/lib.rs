//! A direction-driven language on a grid: programs are rectangular grids of
//! cells, a cursor walks them and works on one register and a storage array.
//!
//! - [`instruction`]: the instruction set.
//! - [`grid`]: grids of cells, growable and of fixed capacity.
//! - [`codec`]: reading a program from its text.
//! - [`encode`]: writing values as source text.
//! - [`optimizer`]: trimming empty rows and columns.
//! - [`machine`]: the machine state and the effect of each instruction.
//! - [`host`]: the callbacks of the host, with a trace of what passed.
//! - [`interpreter`]: running a program until it halts.
//! - [`debugger`]: running a program cycle by cycle or to a breakpoint.
//! - [`compile`]: preparing a program for embedding.
//! - [`numeral`]: decimal numerals read and written.
//!
//! The crate is verified with Verus: every function against the contract in
//! its header. The one thing assumed is what `String::push` does, stated in
//! [`numeral`].
pub mod codec;
pub mod compile;
pub mod debugger;
pub mod encode;
pub mod grid;
pub mod host;
pub mod instruction;
pub mod interpreter;
pub mod machine;
pub mod numeral;
pub mod optimizer;
