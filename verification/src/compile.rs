//! Preparing a program for embedding: trimmed, and written as source text.
use crate::encode::grid_code_depth;
use crate::grid::{DynGrid, Grid};
use crate::instruction::Block;
use crate::interpreter::Interpretable;
use vstd::prelude::*;

verus! {

/// A program that can be prepared for embedding in source text.
pub trait Compilable: Interpretable {
    /// Trims the program, which stays trimmed, and returns its cells in the
    /// indented form, one level deep: the text that stands for the cells in
    /// the source of an embedded program, beside the new width and height.
    fn compile(&mut self) -> (text: String)
        requires
            old(self).program().wf(),
        ensures
            final(self).program().wf(),
            final(self).program() == old(self).program().optimized(),
            text@ == grid_code_depth(final(self).program(), 1),
    ;
}

impl Compilable for DynGrid<Block> {
    fn compile(&mut self) -> (text: String) {
        self.optimize();
        self.as_code_depth(1)
    }
}

} // verus!
