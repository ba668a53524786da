//! A symbol: a named run of instructions.

use vstd::prelude::*;

use crate::instruction::{render_instruction, Instruction, InstructionModel};
use crate::order::{models_of, Named};
use crate::text::{chars_of, indent, push_indented, push_str, string_from_chars, trim, trimmed};

verus! {

/// What a [`Symbol`] holds: its name and its instructions in source order.
pub struct SymbolModel {
    pub name: Seq<char>,
    pub instructions: Seq<InstructionModel>,
}

/// A named sequence of instructions, kept in the order they were added.
#[derive(Debug, PartialEq, Eq)]
pub struct Symbol {
    pub name: String,
    pub instructions: Vec<Instruction>,
}

impl View for Symbol {
    type V = SymbolModel;

    open spec fn view(&self) -> SymbolModel {
        SymbolModel { name: self.name@, instructions: models_of(self.instructions@) }
    }
}

/// The line that opens the text of a named entity: `<name>:`.
pub open spec fn header_line(name: Seq<char>) -> Seq<char> {
    name + seq![':', '\n']
}

/// The instructions' texts, each indented, one after another.
pub open spec fn instructions_text(s: Seq<InstructionModel>) -> Seq<char>
    decreases s.len(),
{
    if s.len() == 0 {
        Seq::empty()
    } else {
        instructions_text(s.drop_last()) + indent(render_instruction(s.last()))
    }
}

/// The canonical text of a symbol: its header line, then its instructions
/// indented by four spaces.
pub open spec fn render_symbol(s: SymbolModel) -> Seq<char> {
    header_line(s.name) + instructions_text(s.instructions)
}

/// Appends the header line of an entity called `name` to `out`.
pub fn push_header(out: &mut Vec<char>, name: &String)
    ensures
        final(out)@ == old(out)@ + header_line(name@),
{
    push_str(out, name.as_str());
    out.push(':');
    out.push('\n');
}

impl Named for Symbol {
    open spec fn model_name(m: SymbolModel) -> Seq<char> {
        m.name
    }

    fn name_chars(&self) -> (r: Vec<char>) {
        chars_of(self.name.as_str())
    }
}

impl Symbol {
    /// An empty symbol called `name`, without its surrounding whitespace.
    pub fn new(name: &str) -> (r: Self)
        ensures
            r@ == (SymbolModel { name: trim(name@), instructions: Seq::empty() }),
    {
        let r = Symbol { name: trimmed(name), instructions: Vec::new() };
        assert(r@.instructions =~= Seq::empty());
        r
    }

    /// Appends `instruction` after the symbol's other instructions.
    pub fn add_instruction(&mut self, instruction: Instruction)
        ensures
            final(self)@ == (SymbolModel {
                name: old(self)@.name,
                instructions: old(self)@.instructions.push(instruction@),
            }),
    {
        let ghost m = instruction@;
        self.instructions.push(instruction);
        assert(models_of(self.instructions@) =~= old(self)@.instructions.push(m));
    }

    /// The symbol's name.
    pub fn get_name(&self) -> (r: &String)
        ensures
            r@ == self@.name,
    {
        &self.name
    }

    /// Appends the canonical text of this symbol to `out`.
    pub fn render_into(&self, out: &mut Vec<char>)
        ensures
            final(out)@ == old(out)@ + render_symbol(self@),
    {
        push_header(out, &self.name);
        let ghost models = self@.instructions;
        let mut k: usize = 0;
        while k < self.instructions.len()
            invariant
                k <= self.instructions.len(),
                models == models_of(self.instructions@),
                out@ == old(out)@ + header_line(self.name@) + instructions_text(
                    models.subrange(0, k as int),
                ),
            decreases self.instructions.len() - k,
        {
            let mut tmp: Vec<char> = Vec::new();
            self.instructions[k].render_into(&mut tmp);
            push_indented(out, &tmp);
            assert(models.subrange(0, k + 1).drop_last() =~= models.subrange(0, k as int));
            assert(tmp@ =~= render_instruction(models[k as int]));
            k = k + 1;
        }
        assert(models.subrange(0, k as int) =~= models);
    }

    /// The canonical text of this symbol.
    pub fn to_string(&self) -> (r: String)
        ensures
            r@ == render_symbol(self@),
    {
        let mut out: Vec<char> = Vec::new();
        self.render_into(&mut out);
        assert(out@ =~= render_symbol(self@));
        string_from_chars(&out)
    }
}

} // verus!
