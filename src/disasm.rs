//! The whole listing: file metadata and its sections, the line-by-line parse
//! that builds it, the final sort, and its canonical text.

use vstd::prelude::*;

use crate::error::{
    empty_input_message, failure_message, instruction_outside_section_message,
    malformed_header_message, missing_section_message, unrecognized_line_message, ParseFailure,
};
use crate::grammar::{
    classify, header_fields, instruction_line, parse_header, section_marker, symbol_marker,
    LineKind,
};
use crate::instruction::{Instruction, InstructionModel};
use crate::order::{models_of, name_key, sort_by_name, sort_named};
use crate::section::{
    render_section, with_instruction, with_sorted_symbols, Section, SectionModel,
};
use crate::symbol::{Symbol, SymbolModel};
use crate::text::{chars_of, is_blank, is_blank_chars, string_from_chars};

verus! {

broadcast use vstd::seq_lib::group_seq_properties;

/// What a [`Disasm`] holds: the file's name and format, and its sections.
pub struct DisasmModel {
    pub file_name: Seq<char>,
    pub file_format: Seq<char>,
    pub sections: Seq<SectionModel>,
}

/// A parsed disassembly listing.
#[derive(Debug, PartialEq, Eq)]
pub struct Disasm {
    pub file_name: String,
    pub file_format: String,
    pub sections: Vec<Section>,
}

impl View for Disasm {
    type V = DisasmModel;

    open spec fn view(&self) -> DisasmModel {
        DisasmModel {
            file_name: self.file_name@,
            file_format: self.file_format@,
            sections: models_of(self.sections@),
        }
    }
}

/// The texts of the input lines.
pub open spec fn line_models(lines: Seq<String>) -> Seq<Seq<char>> {
    lines.map_values(|l: String| l@)
}

/// Keeps the lines that are not blank.
pub open spec fn not_blank() -> spec_fn(Seq<char>) -> bool {
    |l: Seq<char>| !is_blank(l)
}

/// The lines that are not blank, in order.
pub open spec fn non_blank(lines: Seq<Seq<char>>) -> Seq<Seq<char>> {
    lines.filter(not_blank())
}

/// The listing before any body line: named, with no section.
pub open spec fn initial(file_name: Seq<char>, file_format: Seq<char>) -> DisasmModel {
    DisasmModel { file_name, file_format, sections: Seq::empty() }
}

/// `d` with `s` appended to its sections.
pub open spec fn with_section(d: DisasmModel, s: SectionModel) -> DisasmModel {
    DisasmModel { sections: d.sections.push(s), ..d }
}

/// `d` with `s` appended to the symbols of its last section.
pub open spec fn with_symbol(d: DisasmModel, s: SymbolModel) -> DisasmModel
    recommends
        d.sections.len() > 0,
{
    let last = d.sections.last();
    DisasmModel {
        sections: d.sections.update(
            d.sections.len() - 1,
            SectionModel { name: last.name, symbols: last.symbols.push(s) },
        ),
        ..d
    }
}

/// `d` with `i` appended to the last symbol of its last section.
pub open spec fn with_last_instruction(d: DisasmModel, i: InstructionModel) -> DisasmModel
    recommends
        d.sections.len() > 0,
{
    DisasmModel {
        sections: d.sections.update(
            d.sections.len() - 1,
            with_instruction(d.sections.last(), i),
        ),
        ..d
    }
}

/// What one body line does to the listing built so far.
pub open spec fn step(d: DisasmModel, line: Seq<char>) -> Result<DisasmModel, ParseFailure> {
    match classify(line) {
        LineKind::Section(name) => Ok(
            with_section(d, SectionModel { name, symbols: Seq::empty() }),
        ),
        LineKind::Symbol(name) => if d.sections.len() == 0 {
            Err(ParseFailure::MissingSection)
        } else {
            Ok(with_symbol(d, SymbolModel { name, instructions: Seq::empty() }))
        },
        LineKind::Instruction(i) => if d.sections.len() == 0 {
            Err(ParseFailure::InstructionOutsideSection)
        } else if d.sections.last().symbols.len() == 0 {
            Err(ParseFailure::MissingSymbol)
        } else {
            Ok(with_last_instruction(d, i))
        },
        LineKind::Unrecognized => Err(ParseFailure::UnrecognizedLine(line)),
    }
}

/// Feeds `lines` one by one to `d`, stopping at the first failure.
pub open spec fn build(d: DisasmModel, lines: Seq<Seq<char>>) -> Result<DisasmModel, ParseFailure>
    decreases lines.len(),
{
    if lines.len() == 0 {
        Ok(d)
    } else {
        match build(d, lines.drop_last()) {
            Ok(e) => step(e, lines.last()),
            Err(f) => Err(f),
        }
    }
}

/// Sections are ordered by their names.
pub open spec fn section_key() -> spec_fn(SectionModel) -> Seq<char> {
    name_key::<Section>()
}

/// Each section with its symbols sorted.
pub open spec fn each_section_sorted(s: Seq<SectionModel>) -> Seq<SectionModel> {
    s.map_values(|x: SectionModel| with_sorted_symbols(x))
}

/// `d` with each section's symbols sorted by name, then its sections sorted
/// by name.
pub open spec fn sort_tree(d: DisasmModel) -> DisasmModel {
    DisasmModel {
        sections: sort_by_name(each_section_sorted(d.sections), section_key()),
        ..d
    }
}

/// The listing that `lines` describe: blank lines are dropped; the first
/// remaining line is the header; the others are fed in order; the result is
/// sorted.
pub open spec fn parse(lines: Seq<Seq<char>>) -> Result<DisasmModel, ParseFailure> {
    let ne = non_blank(lines);
    if ne.len() == 0 {
        Err(ParseFailure::EmptyInput)
    } else {
        match parse_header(ne[0]) {
            None => Err(ParseFailure::MalformedHeader),
            Some((name, format)) => match build(initial(name, format), ne.drop_first()) {
                Ok(d) => Ok(sort_tree(d)),
                Err(f) => Err(f),
            },
        }
    }
}

/// The sections' texts, one after another.
pub open spec fn sections_text(s: Seq<SectionModel>) -> Seq<char>
    decreases s.len(),
{
    if s.len() == 0 {
        Seq::empty()
    } else {
        sections_text(s.drop_last()) + render_section(s.last())
    }
}

/// The canonical text of a listing: its sections' texts; the file name and
/// format are not written.
pub open spec fn render_disasm(d: DisasmModel) -> Seq<char> {
    sections_text(d.sections)
}

/// What the whole pipeline yields for `lines`: the canonical text of the
/// listing, or the message of the first failure.
pub open spec fn canonical_output(lines: Seq<Seq<char>>) -> Result<Seq<char>, Seq<char>> {
    match parse(lines) {
        Ok(d) => Ok(render_disasm(d)),
        Err(f) => Err(failure_message(f)),
    }
}

/// The canonical text of the listing that `lines` describe, or the message
/// of the first failure.
pub fn canonical_text(lines: Vec<String>) -> (r: Result<String, String>)
    ensures
        match canonical_output(line_models(lines@)) {
            Ok(t) => r is Ok && r->Ok_0@ == t,
            Err(e) => r is Err && r->Err_0@ == e,
        },
{
    match Disasm::from_lines(lines) {
        Ok(d) => Ok(d.to_string()),
        Err(e) => Err(e),
    }
}

/// Once the lines fed so far have failed, later lines change nothing.
pub proof fn lemma_build_failure_stays(d: DisasmModel, a: Seq<Seq<char>>, b: Seq<Seq<char>>)
    requires
        build(d, a) is Err,
    ensures
        build(d, a + b) == build(d, a),
    decreases b.len(),
{
    if b.len() == 0 {
        assert(a + b =~= a);
    } else {
        lemma_build_failure_stays(d, a, b.drop_last());
        assert((a + b).drop_last() =~= a + b.drop_last());
    }
}

/// The non-blank lines of `s` extended by `x`.
pub proof fn lemma_non_blank_push(s: Seq<Seq<char>>, x: Seq<char>)
    ensures
        non_blank(s.push(x)) == if is_blank(x) {
            non_blank(s)
        } else {
            non_blank(s).push(x)
        },
{
    s.lemma_filter_push(x, not_blank());
}

impl Disasm {
    /// Appends `section` after the other sections.
    pub fn add_section(&mut self, section: Section)
        ensures
            final(self)@ == with_section(old(self)@, section@),
    {
        let ghost m = section@;
        self.sections.push(section);
        assert(models_of(self.sections@) =~= old(self)@.sections.push(m));
    }

    /// Appends `symbol` to the last section; fails, and changes nothing,
    /// when there is no section yet.
    pub fn add_symbol(&mut self, symbol: Symbol) -> (r: Result<(), String>)
        ensures
            old(self)@.sections.len() == 0 ==> r is Err && r->Err_0@ == failure_message(
                ParseFailure::MissingSection,
            ) && final(self)@ == old(self)@,
            old(self)@.sections.len() > 0 ==> r is Ok && final(self)@ == with_symbol(
                old(self)@,
                symbol@,
            ),
    {
        let ghost before = models_of(self.sections@);
        match self.sections.pop() {
            None => Err(missing_section_message()),
            Some(mut last) => {
                last.add_symbol(symbol);
                let ghost changed = last@;
                self.sections.push(last);
                assert(models_of(self.sections@) =~= before.update(
                    before.len() - 1,
                    changed,
                ));
                Ok(())
            },
        }
    }

    /// Appends `instruction` to the last symbol of the last section; fails,
    /// and changes nothing, when there is no section, or the last section has
    /// no symbol.
    pub fn add_instruction(&mut self, instruction: Instruction) -> (r: Result<(), String>)
        ensures
            old(self)@.sections.len() == 0 ==> r is Err && r->Err_0@ == failure_message(
                ParseFailure::InstructionOutsideSection,
            ) && final(self)@ == old(self)@,
            old(self)@.sections.len() > 0 && old(self)@.sections.last().symbols.len() == 0 ==> r is Err
                && r->Err_0@ == failure_message(ParseFailure::MissingSymbol) && final(self)@ == old(
                self,
            )@,
            old(self)@.sections.len() > 0 && old(self)@.sections.last().symbols.len() > 0 ==> r is Ok
                && final(self)@ == with_last_instruction(old(self)@, instruction@),
    {
        let ghost before = models_of(self.sections@);
        match self.sections.pop() {
            None => Err(instruction_outside_section_message()),
            Some(mut last) => {
                let r = last.add_instruction(instruction);
                let ghost changed = last@;
                self.sections.push(last);
                assert(models_of(self.sections@) =~= before.update(
                    before.len() - 1,
                    changed,
                ));
                proof {
                    if r is Err {
                        assert(models_of(self.sections@) =~= before);
                    }
                }
                r
            },
        }
    }

    /// Takes the file name and format from the header line; fails, and
    /// changes nothing, when the line is not a well-formed header.
    pub fn process_first_line(&mut self, line: String) -> (r: Result<(), String>)
        ensures
            match parse_header(line@) {
                Some((name, format)) => r is Ok && final(self)@ == (DisasmModel {
                    file_name: name,
                    file_format: format,
                    ..old(self)@
                }),
                None => r is Err && r->Err_0@ == failure_message(ParseFailure::MalformedHeader)
                    && final(self)@ == old(self)@,
            },
    {
        match header_fields(line.as_str()) {
            None => Err(malformed_header_message()),
            Some((name, format)) => {
                self.file_name = name;
                self.file_format = format;
                Ok(())
            },
        }
    }

    /// Folds one body line into the listing; fails, and changes nothing, on
    /// a line that does not fit or comes before what it needs.
    pub fn process_other_line(&mut self, line: String) -> (r: Result<(), String>)
        ensures
            match step(old(self)@, line@) {
                Ok(d) => r is Ok && final(self)@ == d,
                Err(f) => r is Err && r->Err_0@ == failure_message(f) && final(self)@ == old(
                    self,
                )@,
            },
    {
        match section_marker(line.as_str()) {
            Some(name) => {
                let section = Section { name, symbols: Vec::new() };
                assert(section@.symbols =~= Seq::<SymbolModel>::empty());
                self.add_section(section);
                return Ok(());
            },
            None => {},
        }
        match symbol_marker(line.as_str()) {
            Some(name) => {
                let symbol = Symbol { name, instructions: Vec::new() };
                assert(symbol@.instructions =~= Seq::<InstructionModel>::empty());
                return self.add_symbol(symbol);
            },
            None => {},
        }
        match instruction_line(line.as_str()) {
            Some(instruction) => self.add_instruction(instruction),
            None => Err(unrecognized_line_message(line.as_str())),
        }
    }

    /// Parses the lines a disassembler printed. Blank lines are skipped; the
    /// first other line is the header; each later line is a section line, a
    /// symbol line or an instruction line. The parse stops at the first line
    /// that fails; on success the result is sorted.
    pub fn from_lines(lines: Vec<String>) -> (r: Result<Disasm, String>)
        ensures
            match parse(line_models(lines@)) {
                Ok(d) => r is Ok && r->Ok_0@ == d,
                Err(f) => r is Err && r->Err_0@ == failure_message(f),
            },
    {
        let ghost m = line_models(lines@);
        let n = lines.len();
        let mut i: usize = 0;
        while i < n && is_blank_chars(&chars_of(lines[i].as_str()))
            invariant
                i <= n == lines.len() == m.len(),
                m == line_models(lines@),
                non_blank(m.subrange(0, i as int)) == Seq::<Seq<char>>::empty(),
            decreases n - i,
        {
            proof {
                assert(m.subrange(0, i + 1) =~= m.subrange(0, i as int).push(m[i as int]));
                lemma_non_blank_push(m.subrange(0, i as int), m[i as int]);
            }
            i = i + 1;
        }
        assert(m.subrange(0, n as int) =~= m);
        if i == n {
            return Err(empty_input_message());
        }
        let ghost head = m.subrange(0, i + 1);
        let ghost body = non_blank(m.subrange(i + 1, n as int));
        proof {
            assert(head =~= m.subrange(0, i as int).push(m[i as int]));
            lemma_non_blank_push(m.subrange(0, i as int), m[i as int]);
            assert(head + m.subrange(i + 1, n as int) =~= m);
            Seq::filter_distributes_over_add(head, m.subrange(i + 1, n as int), not_blank());
            assert(non_blank(m) =~= seq![m[i as int]] + body);
            assert(non_blank(m)[0] == m[i as int]);
            assert(non_blank(m).drop_first() =~= body);
        }
        let mut disasm = Disasm {
            file_name: String::new(),
            file_format: String::new(),
            sections: Vec::new(),
        };
        match disasm.process_first_line(lines[i].clone()) {
            Ok(()) => {},
            Err(e) => {
                return Err(e);
            },
        }
        let ghost start = disasm@;
        assert(start.sections =~= Seq::<SectionModel>::empty());
        assert(start == initial(start.file_name, start.file_format));
        assert(parse(m) == match build(start, body) {
            Ok(d) => Ok(sort_tree(d)),
            Err(f) => Err(f),
        });
        let mut j: usize = i + 1;
        while j < n
            invariant
                i < j <= n == lines.len() == m.len(),
                m == line_models(lines@),
                body == non_blank(m.subrange(i + 1, n as int)),
                start == initial(start.file_name, start.file_format),
                parse(m) == match build(start, body) {
                    Ok(d) => Ok(sort_tree(d)),
                    Err(f) => Err(f),
                },
                build(start, non_blank(m.subrange(i + 1, j as int))) == Ok::<
                    DisasmModel,
                    ParseFailure,
                >(disasm@),
            decreases n - j,
        {
            let ghost done = m.subrange(i + 1, j as int);
            proof {
                assert(m.subrange(i + 1, j + 1) =~= done.push(m[j as int]));
                lemma_non_blank_push(done, m[j as int]);
            }
            if !is_blank_chars(&chars_of(lines[j].as_str())) {
                match disasm.process_other_line(lines[j].clone()) {
                    Ok(()) => {},
                    Err(e) => {
                        proof {
                            let fed = non_blank(m.subrange(i + 1, j + 1));
                            assert(fed.drop_last() =~= non_blank(done));
                            assert(m.subrange(i + 1, j + 1) + m.subrange(j + 1, n as int)
                                =~= m.subrange(i + 1, n as int));
                            Seq::filter_distributes_over_add(
                                m.subrange(i + 1, j + 1),
                                m.subrange(j + 1, n as int),
                                not_blank(),
                            );
                            lemma_build_failure_stays(start, fed, non_blank(m.subrange(j + 1, n as int)));
                        }
                        return Err(e);
                    },
                }
                assert(non_blank(m.subrange(i + 1, j + 1)).drop_last() =~= non_blank(done));
            }
            j = j + 1;
        }
        disasm.sort_sections();
        Ok(disasm)
    }

    /// Sorts each section's symbols by name, then the sections by name; items
    /// with equal names keep their order.
    pub fn sort_sections(&mut self)
        ensures
            final(self)@ == sort_tree(old(self)@),
    {
        let ghost given = models_of(self.sections@);
        let n = self.sections.len();
        let mut k: usize = 0;
        while k < n
            invariant
                k <= n == self.sections.len() == given.len(),
                self.file_name == old(self).file_name,
                self.file_format == old(self).file_format,
                forall|j: int|
                    0 <= j < k ==> #[trigger] models_of(self.sections@)[j]
                        == with_sorted_symbols(given[j]),
                forall|j: int|
                    k <= j < n ==> #[trigger] models_of(self.sections@)[j] == given[j],
            decreases n - k,
        {
            let ghost before = models_of(self.sections@);
            assert(before[k as int] == given[k as int]);
            self.sections[k].sort_symbols();
            assert(models_of(self.sections@) =~= before.update(
                k as int,
                with_sorted_symbols(given[k as int]),
            ));
            k = k + 1;
        }
        assert(models_of(self.sections@) =~= each_section_sorted(given));
        sort_named(&mut self.sections);
    }

    /// Appends the canonical text of this listing to `out`.
    pub fn render_into(&self, out: &mut Vec<char>)
        ensures
            final(out)@ == old(out)@ + render_disasm(self@),
    {
        let ghost models = self@.sections;
        let mut k: usize = 0;
        while k < self.sections.len()
            invariant
                k <= self.sections.len(),
                models == models_of(self.sections@),
                out@ == old(out)@ + sections_text(models.subrange(0, k as int)),
            decreases self.sections.len() - k,
        {
            let ghost before = out@;
            self.sections[k].render_into(out);
            assert(models.subrange(0, k + 1).drop_last() =~= models.subrange(0, k as int));
            assert(out@ =~= before + render_section(models[k as int]));
            k = k + 1;
        }
        assert(models.subrange(0, k as int) =~= models);
    }

    /// The canonical text of this listing.
    pub fn to_string(&self) -> (r: String)
        ensures
            r@ == render_disasm(self@),
    {
        let mut out: Vec<char> = Vec::new();
        self.render_into(&mut out);
        assert(out@ =~= render_disasm(self@));
        string_from_chars(&out)
    }
}

} // verus!
