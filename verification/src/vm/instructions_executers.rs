use vstd::prelude::*;

use crate::vm::syntax_tree::GoToInstruction;

verus! {

/// A jump: execution goes on at the instruction numbered `goto_line`; the
/// `false` says that the next instruction is not simply the following one.
pub fn execute_goto_instruction(instruction: GoToInstruction) -> (r: Result<(bool, u128), String>)
    requires
        instruction.goto_line is Some,
    ensures
        r == Ok::<(bool, u128), String>((false, instruction.goto_line->0)),
{
    match instruction.goto_line {
        Some(line) => Ok((false, line)),
        None => Ok((false, 0)),
    }
}

} // verus!
