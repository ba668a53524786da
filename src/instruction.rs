//! One disassembled instruction: its opcode, operands and comment.

use vstd::prelude::*;

verus! {

/// What an [`Instruction`] holds, as character sequences.
pub struct InstructionModel {
    pub opcode: Seq<char>,
    pub operands: Seq<char>,
    pub comment: Seq<char>,
}

/// One line of a symbol's code. Operands and comment may be empty.
#[derive(Debug, PartialEq, Eq)]
pub struct Instruction {
    pub opcode: String,
    pub operands: String,
    pub comment: String,
}

impl View for Instruction {
    type V = InstructionModel;

    open spec fn view(&self) -> InstructionModel {
        InstructionModel {
            opcode: self.opcode@,
            operands: self.operands@,
            comment: self.comment@,
        }
    }
}

/// The canonical text of an instruction: its opcode on a line of its own.
pub open spec fn render_instruction(i: InstructionModel) -> Seq<char> {
    i.opcode.push('\n')
}

impl Instruction {
    /// An instruction with the given parts, kept as they are.
    pub fn new(opcode: &str, operands: &str, comment: &str) -> (r: Self)
        ensures
            r@ == (InstructionModel { opcode: opcode@, operands: operands@, comment: comment@ }),
    {
        Instruction {
            opcode: opcode.to_owned(),
            operands: operands.to_owned(),
            comment: comment.to_owned(),
        }
    }

    /// Appends the canonical text of this instruction to `out`.
    pub fn render_into(&self, out: &mut Vec<char>)
        ensures
            final(out)@ == old(out)@ + render_instruction(self@),
    {
        crate::text::push_str(out, self.opcode.as_str());
        out.push('\n');
    }

    /// The canonical text of this instruction.
    pub fn to_string(&self) -> (r: String)
        ensures
            r@ == render_instruction(self@),
    {
        let mut out: Vec<char> = Vec::new();
        self.render_into(&mut out);
        assert(out@ =~= render_instruction(self@));
        crate::text::string_from_chars(&out)
    }
}

} // verus!
