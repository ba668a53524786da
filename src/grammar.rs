//! The forms a line of disassembler output can take: the header line, section
//! lines, symbol lines and instruction lines.

use vstd::prelude::*;

use crate::instruction::{Instruction, InstructionModel};
use crate::text::{chars_of, is_ws, is_ws_char, trim, trim_range};

verus! {

broadcast use vstd::seq_lib::group_seq_properties;

/// The text that opens a section line.
pub open spec fn section_prefix() -> Seq<char> {
    "Disassembly of section "@
}

/// The text that opens the header line's format, after the separator.
pub open spec fn format_prefix() -> Seq<char> {
    "file format "@
}

/// A character that may stand in a section name: an ASCII letter or digit, or
/// a period.
pub open spec fn is_name_char(c: char) -> bool {
    ||| ('a' <= c && c <= 'z')
    ||| ('A' <= c && c <= 'Z')
    ||| ('0' <= c && c <= '9')
    ||| c == '.'
}

/// A character that may stand in an opcode: a lowercase ASCII letter, a
/// digit, or whitespace.
pub open spec fn is_opcode_char(c: char) -> bool {
    ||| ('a' <= c && c <= 'z')
    ||| ('0' <= c && c <= '9')
    ||| is_ws(c)
}

/// `s` begins with `p`.
pub open spec fn begins_with(s: Seq<char>, p: Seq<char>) -> bool {
    s.len() >= p.len() && s.subrange(0, p.len() as int) == p
}

/// The name in a section line: once trimmed, the line reads
/// `Disassembly of section <NAME>:`, with `<NAME>` a non-empty run of name
/// characters.
pub open spec fn section_marker_name(line: Seq<char>) -> Option<Seq<char>> {
    let t = trim(line);
    let p = section_prefix().len();
    if t.len() >= p + 2 && begins_with(t, section_prefix()) && t.last() == ':' && (forall|i: int|
        p <= i < t.len() - 1 ==> is_name_char(#[trigger] t[i])) {
        Some(t.subrange(p as int, t.len() - 1))
    } else {
        None
    }
}

/// The name in a symbol line: once trimmed, the line begins with `<` and ends
/// with `>:`; the name is the bracketed text, brackets included.
pub open spec fn symbol_marker_name(line: Seq<char>) -> Option<Seq<char>> {
    let t = trim(line);
    if t.len() >= 3 && t[0] == '<' && t[t.len() - 2] == '>' && t[t.len() - 1] == ':' {
        Some(t.subrange(0, t.len() - 1))
    } else {
        None
    }
}

/// The index of the last whitespace character of `s`, if there is one.
pub open spec fn last_ws(s: Seq<char>) -> Option<int>
    decreases s.len(),
{
    if s.len() == 0 {
        None
    } else if is_ws(s.last()) {
        Some(s.len() - 1)
    } else {
        last_ws(s.drop_last())
    }
}

/// An opcode holds only lowercase letters, digits and whitespace.
pub open spec fn is_opcode(s: Seq<char>) -> bool {
    forall|i: int| 0 <= i < s.len() ==> is_opcode_char(#[trigger] s[i])
}

/// The fields of an instruction line: what follows the first `#` is the
/// comment; the rest, trimmed, splits at its last whitespace into opcode and
/// operands (no operands where there is no whitespace left).
pub open spec fn instruction_fields(line: Seq<char>) -> InstructionModel {
    let (left, comment) = match line.index_of_first('#') {
        Some(h) => (line.subrange(0, h), trim(line.subrange(h + 1, line.len() as int))),
        None => (line, Seq::empty()),
    };
    let body = trim(left);
    let (opcode, operands) = match last_ws(body) {
        Some(k) => (trim(body.subrange(0, k)), body.subrange(k + 1, body.len() as int)),
        None => (body, Seq::empty()),
    };
    InstructionModel { opcode, operands, comment }
}

/// An instruction line begins with whitespace, and its opcode is well formed.
pub open spec fn parse_instruction(line: Seq<char>) -> Option<InstructionModel> {
    if line.len() > 0 && is_ws(line[0]) && is_opcode(instruction_fields(line).opcode) {
        Some(instruction_fields(line))
    } else {
        None
    }
}

/// What a body line is, tried in this order.
pub enum LineKind {
    Section(Seq<char>),
    Symbol(Seq<char>),
    Instruction(InstructionModel),
    Unrecognized,
}

/// The kind of a body line: a section line, else a symbol line, else an
/// instruction line, else unrecognized.
pub open spec fn classify(line: Seq<char>) -> LineKind {
    match section_marker_name(line) {
        Some(n) => LineKind::Section(n),
        None => match symbol_marker_name(line) {
            Some(n) => LineKind::Symbol(n),
            None => match parse_instruction(line) {
                Some(i) => LineKind::Instruction(i),
                None => LineKind::Unrecognized,
            },
        },
    }
}

/// The file name and format in the header line: the name is the text before
/// the first `:`, kept as it is; the text after it, trimmed, must begin with
/// `file format `, and what follows, trimmed, is the format.
pub open spec fn parse_header(line: Seq<char>) -> Option<(Seq<char>, Seq<char>)> {
    match line.index_of_first(':') {
        None => None,
        Some(c) => {
            let rest = trim(line.subrange(c + 1, line.len() as int));
            if begins_with(rest, format_prefix()) {
                Some(
                    (
                        line.subrange(0, c),
                        trim(rest.subrange(format_prefix().len() as int, rest.len() as int)),
                    ),
                )
            } else {
                None
            }
        },
    }
}

/// `v[start..end]` begins with `p`.
fn begins_with_at(v: &Vec<char>, start: usize, end: usize, p: &Vec<char>) -> (r: bool)
    requires
        start <= end <= v.len(),
    ensures
        r == begins_with(v@.subrange(start as int, end as int), p@),
{
    if end - start < p.len() {
        return false;
    }
    let mut k: usize = 0;
    while k < p.len()
        invariant
            k <= p.len(),
            start + p.len() <= end <= v.len(),
            forall|j: int| 0 <= j < k ==> v@[start + j] == p@[j],
        decreases p.len() - k,
    {
        if v[start + k] != p[k] {
            assert(v@.subrange(start as int, end as int).subrange(0, p.len() as int)[k as int]
                != p@[k as int]);
            return false;
        }
        k = k + 1;
    }
    assert(v@.subrange(start as int, end as int).subrange(0, p.len() as int) =~= p@);
    true
}

fn is_name_char_exec(c: char) -> (r: bool)
    ensures
        r == is_name_char(c),
{
    ('a' <= c && c <= 'z') || ('A' <= c && c <= 'Z') || ('0' <= c && c <= '9') || c == '.'
}

fn is_opcode_char_exec(c: char) -> (r: bool)
    ensures
        r == is_opcode_char(c),
{
    ('a' <= c && c <= 'z') || ('0' <= c && c <= '9') || is_ws_char(c)
}

/// The name in `line` if it is a section line.
pub fn section_marker(line: &str) -> (r: Option<String>)
    ensures
        match section_marker_name(line@) {
            Some(n) => r is Some && r->0@ == n,
            None => r is None,
        },
{
    let v = chars_of(line);
    let (a, b) = trim_range(&v, 0, v.len());
    assert(v@.subrange(0, v.len() as int) =~= v@);
    let ghost t = trim(line@);
    let prefix = chars_of("Disassembly of section ");
    let p = prefix.len();
    if b - a < 2 || b - a - 2 < p || !begins_with_at(&v, a, b, &prefix) || v[b - 1] != ':' {
        return None;
    }
    let mut i: usize = a + p;
    while i < b - 1
        invariant
            a + p <= i <= b - 1,
            b <= v.len(),
            t == v@.subrange(a as int, b as int),
            t == trim(line@),
            p == prefix@.len(),
            prefix@ == section_prefix(),
            t.len() >= p + 2,
            begins_with(t, section_prefix()),
            t.last() == ':',
            forall|j: int| p <= j < i - a ==> is_name_char(#[trigger] t[j]),
        decreases b - i,
    {
        if !is_name_char_exec(v[i]) {
            assert(t[i - a] == v@[i as int]);
            assert(!is_name_char(t[i - a]));
            return None;
        }
        assert(t[i - a] == v@[i as int]);
        i = i + 1;
    }
    Some(line.substring_char(a + p, b - 1).to_owned())
}

/// The name in `line` if it is a symbol line.
pub fn symbol_marker(line: &str) -> (r: Option<String>)
    ensures
        match symbol_marker_name(line@) {
            Some(n) => r is Some && r->0@ == n,
            None => r is None,
        },
{
    let v = chars_of(line);
    let (a, b) = trim_range(&v, 0, v.len());
    assert(v@.subrange(0, v.len() as int) =~= v@);
    if b - a >= 3 && v[a] == '<' && v[b - 2] == '>' && v[b - 1] == ':' {
        Some(line.substring_char(a, b - 1).to_owned())
    } else {
        None
    }
}

/// The fields of `line` if it is an instruction line.
pub fn instruction_line(line: &str) -> (r: Option<Instruction>)
    ensures
        match parse_instruction(line@) {
            Some(m) => r is Some && r->0@ == m,
            None => r is None,
        },
{
    let v = chars_of(line);
    let n = v.len();
    if n == 0 || !is_ws_char(v[0]) {
        return None;
    }
    let mut h: usize = 0;
    while h < n && v[h] != '#'
        invariant
            h <= n == v.len(),
            forall|j: int| 0 <= j < h ==> v@[j] != '#',
        decreases n - h,
    {
        h = h + 1;
    }
    proof {
        v@.index_of_first_ensures('#');
        if h < n {
            assert(v@.contains('#'));
        } else {
            assert(!v@.contains('#'));
        }
    }
    let comment = if h < n {
        let (ca, cb) = trim_range(&v, h + 1, n);
        line.substring_char(ca, cb).to_owned()
    } else {
        String::new()
    };
    let ghost left = v@.subrange(0, h as int);
    assert(h == n ==> left =~= v@);
    let (ba, bb) = trim_range(&v, 0, h);
    let ghost body = v@.subrange(ba as int, bb as int);
    let mut j: usize = bb;
    while j > ba && !is_ws_char(v[j - 1])
        invariant
            ba <= j <= bb <= v.len(),
            body == v@.subrange(ba as int, bb as int),
            last_ws(body) == last_ws(v@.subrange(ba as int, j as int)),
        decreases j,
    {
        assert(v@.subrange(ba as int, j as int).drop_last() =~= v@.subrange(ba as int, j - 1));
        j = j - 1;
    }
    let (oa, ob, operands) = if j > ba {
        let (oa, ob) = trim_range(&v, ba, j - 1);
        assert(body.subrange(0, j - 1 - ba) =~= v@.subrange(ba as int, j - 1));
        assert(body.subrange(j - ba, body.len() as int) =~= v@.subrange(j as int, bb as int));
        (oa, ob, line.substring_char(j, bb).to_owned())
    } else {
        (ba, bb, String::new())
    };
    let ghost opcode = v@.subrange(oa as int, ob as int);
    assert(opcode == instruction_fields(line@).opcode);
    let mut i: usize = oa;
    while i < ob
        invariant
            oa <= i <= ob <= v.len(),
            opcode == v@.subrange(oa as int, ob as int),
            forall|k: int| 0 <= k < i - oa ==> is_opcode_char(#[trigger] opcode[k]),
            opcode == instruction_fields(line@).opcode,
            line@.len() > 0 && is_ws(line@[0]),
        decreases ob - i,
    {
        assert(opcode[i - oa] == v@[i as int]);
        if !is_opcode_char_exec(v[i]) {
            return None;
        }
        i = i + 1;
    }
    Some(
        Instruction {
            opcode: line.substring_char(oa, ob).to_owned(),
            operands,
            comment,
        },
    )
}

/// The file name and format in `line` if it is a well-formed header line.
pub fn header_fields(line: &str) -> (r: Option<(String, String)>)
    ensures
        match (parse_header(line@), r) {
            (Some((name, format)), Some((a, b))) => a@ == name && b@ == format,
            (None, None) => true,
            _ => false,
        },
{
    let v = chars_of(line);
    let n = v.len();
    let mut c: usize = 0;
    while c < n && v[c] != ':'
        invariant
            c <= n == v.len(),
            forall|j: int| 0 <= j < c ==> v@[j] != ':',
        decreases n - c,
    {
        c = c + 1;
    }
    proof {
        v@.index_of_first_ensures(':');
    }
    if c == n {
        assert(!v@.contains(':'));
        return None;
    }
    assert(v@.contains(':'));
    let (ra, rb) = trim_range(&v, c + 1, n);
    let prefix = chars_of("file format ");
    if !begins_with_at(&v, ra, rb, &prefix) {
        return None;
    }
    let (fa, fb) = trim_range(&v, ra + prefix.len(), rb);
    assert(v@.subrange(ra as int, rb as int).subrange(prefix.len() as int, rb - ra) =~= v@.subrange(
        ra + prefix.len(),
        rb as int,
    ));
    Some((line.substring_char(0, c).to_owned(), line.substring_char(fa, fb).to_owned()))
}

} // verus!
