//! Laws that the parse, the sort and the rendering obey.

use vstd::prelude::*;

use crate::disasm::{
    build, canonical_output, each_section_sorted, initial, lemma_build_failure_stays,
    lemma_non_blank_push, non_blank, parse, section_key, sort_tree, step, DisasmModel,
};
use crate::error::ParseFailure;
use crate::grammar::{classify, format_prefix, parse_header};
use crate::order::{
    is_sorted_by_name, keys_identify, lemma_sort_contains, lemma_sort_ignores_order,
    lemma_sort_of_sorted, lemma_sort_sorted,
};
use crate::section::symbol_key;
use crate::text::{is_blank, lemma_trim_run, trim};

verus! {

/// Parsing then rendering is deterministic: the same lines always give the
/// same output, character for character.
pub proof fn lemma_output_deterministic(a: Seq<Seq<char>>, b: Seq<Seq<char>>)
    requires
        a == b,
    ensures
        canonical_output(a) == canonical_output(b),
        parse(a) == parse(b),
{
}

/// A listing whose sections are in order of name, and each section's
/// symbols too.
pub open spec fn is_sorted_tree(d: DisasmModel) -> bool {
    &&& is_sorted_by_name(d.sections, section_key())
    &&& forall|i: int|
        0 <= i < d.sections.len() ==> is_sorted_by_name(
            #[trigger] d.sections[i].symbols,
            symbol_key(),
        )
}

/// The sort puts sections in order of name, and the symbols of each section
/// in order of name.
pub proof fn lemma_sort_tree_sorted(d: DisasmModel)
    ensures
        is_sorted_tree(sort_tree(d)),
{
    let x = each_section_sorted(d.sections);
    let s = sort_tree(d).sections;
    lemma_sort_sorted(x, section_key());
    assert forall|i: int| 0 <= i < s.len() implies is_sorted_by_name(
        #[trigger] s[i].symbols,
        symbol_key(),
    ) by {
        assert(s.contains(s[i]));
        lemma_sort_contains(x, section_key(), s[i]);
        let j = choose|j: int| 0 <= j < x.len() && x[j] == s[i];
        lemma_sort_sorted(d.sections[j].symbols, symbol_key());
    }
}

/// Sorting a listing that is already in order leaves it unchanged.
pub proof fn lemma_sort_tree_of_sorted(d: DisasmModel)
    requires
        is_sorted_tree(d),
    ensures
        sort_tree(d) == d,
{
    let x = each_section_sorted(d.sections);
    assert forall|i: int| 0 <= i < x.len() implies #[trigger] x[i] == d.sections[i] by {
        lemma_sort_of_sorted(d.sections[i].symbols, symbol_key());
    }
    assert(x =~= d.sections);
    lemma_sort_of_sorted(d.sections, section_key());
}

/// The sorted listing does not depend on the order in which its sections
/// were given, where no two different sections share a name.
pub proof fn lemma_sort_tree_ignores_section_order(d1: DisasmModel, d2: DisasmModel)
    requires
        d1.file_name == d2.file_name,
        d1.file_format == d2.file_format,
        each_section_sorted(d1.sections).to_multiset() == each_section_sorted(
            d2.sections,
        ).to_multiset(),
        keys_identify(each_section_sorted(d1.sections), section_key()),
    ensures
        sort_tree(d1) == sort_tree(d2),
{
    lemma_sort_ignores_order(
        each_section_sorted(d1.sections),
        each_section_sorted(d2.sections),
        section_key(),
    );
}

/// Sorting is idempotent: sorting a sorted listing again changes nothing.
pub proof fn lemma_sort_tree_idempotent(d: DisasmModel)
    ensures
        sort_tree(sort_tree(d)) == sort_tree(d),
{
    lemma_sort_tree_sorted(d);
    lemma_sort_tree_of_sorted(sort_tree(d));
}

/// Input with no line that is not blank fails with the empty-input error.
pub proof fn lemma_blank_input_fails(lines: Seq<Seq<char>>)
    requires
        forall|i: int| 0 <= i < lines.len() ==> is_blank(#[trigger] lines[i]),
    ensures
        parse(lines) == Err::<DisasmModel, ParseFailure>(ParseFailure::EmptyInput),
{
    lemma_all_blank(lines);
}

proof fn lemma_all_blank(lines: Seq<Seq<char>>)
    requires
        forall|i: int| 0 <= i < lines.len() ==> is_blank(#[trigger] lines[i]),
    ensures
        non_blank(lines).len() == 0,
    decreases lines.len(),
{
    if lines.len() > 0 {
        lemma_all_blank(lines.drop_last());
        assert(lines.drop_last().push(lines.last()) =~= lines);
        lemma_non_blank_push(lines.drop_last(), lines.last());
    }
}

/// A first line that is not a well-formed header fails the parse with the
/// header error.
pub proof fn lemma_bad_header_fails(lines: Seq<Seq<char>>)
    requires
        non_blank(lines).len() > 0,
        parse_header(non_blank(lines)[0]) is None,
    ensures
        parse(lines) == Err::<DisasmModel, ParseFailure>(ParseFailure::MalformedHeader),
{
}

/// `p` stands somewhere in `s` as a contiguous run.
pub open spec fn contains_run(s: Seq<char>, p: Seq<char>) -> bool {
    exists|i: int| 0 <= i && i + p.len() <= s.len() && #[trigger] s.subrange(i, i + p.len()) == p
}

/// A well-formed header holds `file format `.
pub proof fn lemma_header_holds_format(line: Seq<char>)
    requires
        parse_header(line) is Some,
    ensures
        contains_run(line, format_prefix()),
{
    line.index_of_first_ensures(':');
    let c = line.index_of_first(':')->0;
    let after = line.subrange(c + 1, line.len() as int);
    let a = lemma_trim_run(after);
    let p = format_prefix().len() as int;
    let i = c + 1 + a;
    assert(line.subrange(i, i + p) =~= trim(after).subrange(0, p));
}

/// A first line without `file format ` in it fails the parse with the
/// header error.
pub proof fn lemma_header_without_format_fails(lines: Seq<Seq<char>>)
    requires
        non_blank(lines).len() > 0,
        !contains_run(non_blank(lines)[0], format_prefix()),
    ensures
        parse(lines) == Err::<DisasmModel, ParseFailure>(ParseFailure::MalformedHeader),
{
    if parse_header(non_blank(lines)[0]) is Some {
        lemma_header_holds_format(non_blank(lines)[0]);
    }
}

/// A symbol line that comes before any section line makes the parse fail,
/// never give a partial listing; when the first line after the header is a
/// symbol line, the failure is the missing section.
pub proof fn lemma_symbol_before_section_fails(lines: Seq<Seq<char>>, k: int)
    requires
        non_blank(lines).len() > 0,
        parse_header(non_blank(lines)[0]) is Some,
        0 <= k < non_blank(lines).len() - 1,
        classify(non_blank(lines)[k + 1]) is Symbol,
        forall|j: int| 1 <= j <= k ==> !(classify(#[trigger] non_blank(lines)[j]) is Section),
    ensures
        parse(lines) is Err,
        classify(non_blank(lines)[1]) is Symbol ==> parse(lines) == Err::<DisasmModel, ParseFailure>(
            ParseFailure::MissingSection,
        ),
{
    let ne = non_blank(lines);
    let body = ne.drop_first();
    let start = header_listing(ne[0]);
    let first = body.subrange(0, 1);
    assert(first.drop_last() =~= Seq::<Seq<char>>::empty());
    assert(build(start, first.drop_last()) == Ok::<DisasmModel, ParseFailure>(start));
    assert(first.last() == body[0]);
    assert(body[0] == ne[1]);
    assert(!(classify(ne[1]) is Section));
    assert(build(start, first) == step(start, ne[1]));
    assert(build(start, first) is Err);
    assert(classify(ne[1]) is Symbol ==> build(start, first) == Err::<DisasmModel, ParseFailure>(
        ParseFailure::MissingSection,
    ));
    assert(first + body.subrange(1, body.len() as int) =~= body);
    lemma_build_failure_stays(start, first, body.subrange(1, body.len() as int));
}

/// The empty listing that a well-formed header line names.
pub open spec fn header_listing(line: Seq<char>) -> DisasmModel {
    match parse_header(line) {
        Some((name, format)) => initial(name, format),
        None => initial(Seq::empty(), Seq::empty()),
    }
}

/// An instruction line that follows a section line, before any symbol line
/// of that section, fails the parse with the missing symbol.
pub proof fn lemma_instruction_before_symbol_fails(lines: Seq<Seq<char>>, k: int)
    requires
        non_blank(lines).len() > 0,
        parse_header(non_blank(lines)[0]) is Some,
        1 <= k < non_blank(lines).len() - 1,
        build(header_listing(non_blank(lines)[0]), non_blank(lines).subrange(1, k)) is Ok,
        classify(non_blank(lines)[k]) is Section,
        classify(non_blank(lines)[k + 1]) is Instruction,
    ensures
        parse(lines) == Err::<DisasmModel, ParseFailure>(ParseFailure::MissingSymbol),
{
    let ne = non_blank(lines);
    let body = ne.drop_first();
    let start = header_listing(ne[0]);
    let upto = body.subrange(0, k + 1);
    assert(upto.drop_last() =~= body.subrange(0, k));
    assert(upto.drop_last().drop_last() =~= ne.subrange(1, k));
    assert(upto.drop_last().last() == ne[k]);
    assert(upto.last() == ne[k + 1]);
    let d0 = build(start, ne.subrange(1, k))->Ok_0;
    assert(build(start, upto.drop_last()) == step(d0, ne[k]));
    let d1 = step(d0, ne[k])->Ok_0;
    assert(d1.sections.last().symbols.len() == 0);
    assert(build(start, upto) == step(d1, ne[k + 1]));
    assert(build(start, upto) == Err::<DisasmModel, ParseFailure>(ParseFailure::MissingSymbol));
    assert(upto + body.subrange(k + 1, body.len() as int) =~= body);
    lemma_build_failure_stays(start, upto, body.subrange(k + 1, body.len() as int));
}

} // verus!
