//! A section: a named collection of symbols.

use vstd::prelude::*;

use crate::error::{missing_symbol_message, failure_message, ParseFailure};
use crate::instruction::{Instruction, InstructionModel};
use crate::order::{models_of, name_key, sort_by_name, sort_named, Named};
use crate::symbol::{header_line, push_header, render_symbol, Symbol, SymbolModel};
use crate::text::{chars_of, indent, push_indented, string_from_chars, trim, trimmed};

verus! {

/// What a [`Section`] holds: its name and its symbols.
pub struct SectionModel {
    pub name: Seq<char>,
    pub symbols: Seq<SymbolModel>,
}

/// A named collection of symbols.
#[derive(Debug, PartialEq, Eq)]
pub struct Section {
    pub name: String,
    pub symbols: Vec<Symbol>,
}

impl View for Section {
    type V = SectionModel;

    open spec fn view(&self) -> SectionModel {
        SectionModel { name: self.name@, symbols: models_of(self.symbols@) }
    }
}

/// Symbols are ordered by their names.
pub open spec fn symbol_key() -> spec_fn(SymbolModel) -> Seq<char> {
    name_key::<Symbol>()
}

/// `s` with `i` appended to the instructions of its last symbol.
pub open spec fn with_instruction(s: SectionModel, i: InstructionModel) -> SectionModel
    recommends
        s.symbols.len() > 0,
{
    let last = s.symbols.last();
    SectionModel {
        name: s.name,
        symbols: s.symbols.update(
            s.symbols.len() - 1,
            SymbolModel { name: last.name, instructions: last.instructions.push(i) },
        ),
    }
}

/// `s` with its symbols sorted by name.
pub open spec fn with_sorted_symbols(s: SectionModel) -> SectionModel {
    SectionModel { name: s.name, symbols: sort_by_name(s.symbols, symbol_key()) }
}

/// The symbols' texts, each indented, one after another.
pub open spec fn symbols_text(s: Seq<SymbolModel>) -> Seq<char>
    decreases s.len(),
{
    if s.len() == 0 {
        Seq::empty()
    } else {
        symbols_text(s.drop_last()) + indent(render_symbol(s.last()))
    }
}

/// The canonical text of a section: its header line, then each symbol's
/// text indented by four spaces.
pub open spec fn render_section(s: SectionModel) -> Seq<char> {
    header_line(s.name) + symbols_text(s.symbols)
}

impl Named for Section {
    open spec fn model_name(m: SectionModel) -> Seq<char> {
        m.name
    }

    fn name_chars(&self) -> (r: Vec<char>) {
        chars_of(self.name.as_str())
    }
}

impl Section {
    /// An empty section called `name`, without its surrounding whitespace.
    pub fn new(name: &str) -> (r: Self)
        ensures
            r@ == (SectionModel { name: trim(name@), symbols: Seq::empty() }),
    {
        let r = Section { name: trimmed(name), symbols: Vec::new() };
        assert(r@.symbols =~= Seq::empty());
        r
    }

    /// Appends `symbol` after the section's other symbols.
    pub fn add_symbol(&mut self, symbol: Symbol)
        ensures
            final(self)@ == (SectionModel {
                name: old(self)@.name,
                symbols: old(self)@.symbols.push(symbol@),
            }),
    {
        let ghost m = symbol@;
        self.symbols.push(symbol);
        assert(models_of(self.symbols@) =~= old(self)@.symbols.push(m));
    }

    /// Appends `instruction` to the last symbol of the section; fails, and
    /// changes nothing, when the section has no symbol yet.
    pub fn add_instruction(&mut self, instruction: Instruction) -> (r: Result<(), String>)
        ensures
            old(self)@.symbols.len() == 0 ==> r is Err && r->Err_0@ == failure_message(
                ParseFailure::MissingSymbol,
            ) && final(self)@ == old(self)@,
            old(self)@.symbols.len() > 0 ==> r is Ok && final(self)@ == with_instruction(
                old(self)@,
                instruction@,
            ),
    {
        let ghost before = models_of(self.symbols@);
        match self.symbols.pop() {
            None => Err(missing_symbol_message()),
            Some(mut last) => {
                last.add_instruction(instruction);
                let ghost changed = last@;
                self.symbols.push(last);
                assert(models_of(self.symbols@) =~= before.update(
                    before.len() - 1,
                    changed,
                ));
                Ok(())
            },
        }
    }

    /// The section's name.
    pub fn get_name(&self) -> (r: &String)
        ensures
            r@ == self@.name,
    {
        &self.name
    }

    /// Sorts the section's symbols by name; symbols with equal names keep
    /// their order.
    pub fn sort_symbols(&mut self)
        ensures
            final(self)@ == with_sorted_symbols(old(self)@),
    {
        sort_named(&mut self.symbols);
    }

    /// Appends the canonical text of this section to `out`.
    pub fn render_into(&self, out: &mut Vec<char>)
        ensures
            final(out)@ == old(out)@ + render_section(self@),
    {
        push_header(out, &self.name);
        let ghost models = self@.symbols;
        let mut k: usize = 0;
        while k < self.symbols.len()
            invariant
                k <= self.symbols.len(),
                models == models_of(self.symbols@),
                out@ == old(out)@ + header_line(self.name@) + symbols_text(
                    models.subrange(0, k as int),
                ),
            decreases self.symbols.len() - k,
        {
            let mut tmp: Vec<char> = Vec::new();
            self.symbols[k].render_into(&mut tmp);
            push_indented(out, &tmp);
            assert(models.subrange(0, k + 1).drop_last() =~= models.subrange(0, k as int));
            assert(tmp@ =~= render_symbol(models[k as int]));
            k = k + 1;
        }
        assert(models.subrange(0, k as int) =~= models);
    }

    /// The canonical text of this section.
    pub fn to_string(&self) -> (r: String)
        ensures
            r@ == render_section(self@),
    {
        let mut out: Vec<char> = Vec::new();
        self.render_into(&mut out);
        assert(out@ =~= render_section(self@));
        string_from_chars(&out)
    }
}

} // verus!
