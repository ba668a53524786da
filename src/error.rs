//! Why a parse fails, and the message reported for each reason.

use vstd::prelude::*;

verus! {

/// The reasons a parse stops.
pub enum ParseFailure {
    /// The input holds no line that is not blank.
    EmptyInput,
    /// The first line lacks the `:` separator or the `file format ` prefix.
    MalformedHeader,
    /// A body line fits none of the line forms; it carries the line.
    UnrecognizedLine(Seq<char>),
    /// A symbol line comes before any section line.
    MissingSection,
    /// An instruction line comes before any section line.
    InstructionOutsideSection,
    /// An instruction line comes before any symbol line of its section.
    MissingSymbol,
}

/// The message reported for each reason.
pub open spec fn failure_message(f: ParseFailure) -> Seq<char> {
    match f {
        ParseFailure::EmptyInput => "Error, the file does not contain any text"@,
        ParseFailure::MalformedHeader => "Incorrect format for the first line"@,
        ParseFailure::UnrecognizedLine(line) => "Unrecognized format for the following line: '"@
            + line + "'"@,
        ParseFailure::MissingSection => "Attempted to add a symbol without first defining a section"@,
        ParseFailure::InstructionOutsideSection =>
            "Attempted to add an instruction without first defining a section"@,
        ParseFailure::MissingSymbol =>
            "Attempted to add an instruction without first defining a symbol"@,
    }
}

/// The message for input without a line that is not blank.
pub fn empty_input_message() -> (r: String)
    ensures
        r@ == failure_message(ParseFailure::EmptyInput),
{
    String::from_str("Error, the file does not contain any text")
}

/// The message for a first line that is not a well-formed header.
pub fn malformed_header_message() -> (r: String)
    ensures
        r@ == failure_message(ParseFailure::MalformedHeader),
{
    String::from_str("Incorrect format for the first line")
}

/// The message for a body line that fits no line form; it quotes the line.
pub fn unrecognized_line_message(line: &str) -> (r: String)
    ensures
        r@ == failure_message(ParseFailure::UnrecognizedLine(line@)),
{
    let mut r = String::from_str("Unrecognized format for the following line: '");
    r.append(line);
    r.append("'");
    r
}

/// The message for a symbol line before any section line.
pub fn missing_section_message() -> (r: String)
    ensures
        r@ == failure_message(ParseFailure::MissingSection),
{
    String::from_str("Attempted to add a symbol without first defining a section")
}

/// The message for an instruction line before any section line.
pub fn instruction_outside_section_message() -> (r: String)
    ensures
        r@ == failure_message(ParseFailure::InstructionOutsideSection),
{
    String::from_str("Attempted to add an instruction without first defining a section")
}

/// The message for an instruction line before any symbol line of its section.
pub fn missing_symbol_message() -> (r: String)
    ensures
        r@ == failure_message(ParseFailure::MissingSymbol),
{
    String::from_str("Attempted to add an instruction without first defining a symbol")
}

} // verus!
