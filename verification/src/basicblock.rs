//! A finished basic block: instructions with a terminal instruction at the end.

use crate::instruction::{Instruction, TerminalInstr};
use vstd::prelude::*;

verus! {

/// A basic block within a function.
///
/// It holds the ordered list of instructions that are performed as a whole
/// when the block is executed, with a terminal instruction at the end.
pub struct BasicBlock {
    /// The ordered list of instructions.
    ops: Vec<Instruction>,
}

impl View for BasicBlock {
    type V = Seq<Instruction>;

    /// The instructions in order.
    closed spec fn view(&self) -> Seq<Instruction> {
        self.ops@
    }
}

impl BasicBlock {
    /// Whether the block is not empty and ends in a terminal instruction.
    pub open spec fn is_terminated(&self) -> bool {
        self@.len() > 0 && self@.last() is Terminal
    }

    /// The terminal instruction that the block ends in.
    pub open spec fn terminal_instr(&self) -> TerminalInstr
        recommends
            self.is_terminated(),
    {
        self@.last()->Terminal_0
    }

    /// Creates the basic block of the instructions.
    pub fn new(ops: Vec<Instruction>) -> (block: Self)
        ensures
            block@ == ops@,
    {
        Self { ops }
    }

    /// Returns the instructions of the basic block, in order.
    pub fn ops(&self) -> (ops: &[Instruction])
        ensures
            ops@ == self@,
    {
        self.ops.as_slice()
    }

    /// Returns the instructions of the basic block for changing them in
    /// place: what is written becomes the instructions of the block.
    pub fn ops_mut(&mut self) -> (ops: &mut [Instruction])
        ensures
            ops@ == old(self)@,
            final(self)@ == final(ops)@,
    {
        self.ops.as_mut_slice()
    }

    /// Returns a shared reference to the terminal instruction.
    pub fn terminal(&self) -> (terminal: &TerminalInstr)
        requires
            self.is_terminated(),
        ensures
            *terminal == self.terminal_instr(),
    {
        match &self.ops[self.ops.len() - 1] {
            Instruction::Terminal(terminal) => terminal,
            _ => vstd::pervasive::unreached(),
        }
    }

    /// Returns an exclusive reference to the terminal instruction: what is
    /// written becomes the terminal instruction of the block.
    pub fn terminal_mut(&mut self) -> (terminal: &mut TerminalInstr)
        requires
            old(self).is_terminated(),
        ensures
            *terminal == old(self).terminal_instr(),
            final(self)@ == old(self)@.update(
                old(self)@.len() - 1,
                Instruction::Terminal(*final(terminal)),
            ),
    {
        let last = self.ops.len() - 1;
        match &mut self.ops[last] {
            Instruction::Terminal(terminal) => terminal,
            _ => vstd::pervasive::unreached(),
        }
    }
}

} // verus!
