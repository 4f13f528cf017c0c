//! The grammar of the assembly language, as a function from a source text to
//! its items.
//!
//! A source is a sequence of lines. On each line a comment, from `//` to the
//! end of the line, and the blanks around what is left are dropped. What
//! then remains is a statement or nothing. A statement is an A-instruction
//! `@operand`, a label definition `(name)` or a C-instruction
//! `dest=comp;jump`, in which `dest=` and `;jump` may each be left out.
//! Blanks may stand between the parts of a statement, and nowhere inside a
//! part.

use crate::encoding::{comp_bits, is_constant, is_digit, jump_bits};
use crate::error::{AssembleErrorView, Expected};
use crate::item::{ItemView, OperandView};
use crate::search::first_index;
use vstd::prelude::*;

verus! {

/// Whether `c` is a blank: a space, a tab or a carriage return.
pub open spec fn is_blank(c: char) -> bool {
    c == ' ' || c == '\t' || c == '\r'
}

/// Whether a line of `source` ends at index `i`: at a line feed, or at a
/// carriage return that no line feed follows.
pub open spec fn ends_line(source: Seq<char>, i: int) -> bool {
    source[i] == '\n' || (source[i] == '\r' && !(i + 1 < source.len() && source[i + 1] == '\n'))
}

/// The indices at which a line of `source` ends.
pub open spec fn line_ends(source: Seq<char>) -> spec_fn(int) -> bool {
    |i: int| ends_line(source, i)
}

/// The index at which the first line of `source` ends, or the length of
/// `source` where it holds a single line.
pub open spec fn line_len(source: Seq<char>) -> nat {
    first_index(source.len(), line_ends(source))
}

/// The lines of `source`, without the characters that end them. A source
/// that ends with the end of a line has an empty last line.
pub open spec fn lines(source: Seq<char>) -> Seq<Seq<char>>
    decreases source.len(),
{
    let end = line_len(source) as int;
    if end >= source.len() {
        seq![source]
    } else {
        seq![source.take(end)] + lines(source.skip(end + 1))
    }
}

/// Whether a comment starts at index `i` of `line`.
pub open spec fn starts_comment(line: Seq<char>, i: int) -> bool {
    i + 1 < line.len() && line[i] == '/' && line[i + 1] == '/'
}

/// The indices at which a comment starts on `line`.
pub open spec fn comment_starts(line: Seq<char>) -> spec_fn(int) -> bool {
    |i: int| starts_comment(line, i)
}

/// What stands on `line` before its comment.
pub open spec fn code(line: Seq<char>) -> Seq<char> {
    line.take(first_index(line.len(), comment_starts(line)) as int)
}

/// The indices of `text` at which no blank stands.
pub open spec fn marks(text: Seq<char>) -> spec_fn(int) -> bool {
    |i: int| !is_blank(text[i])
}

/// The number of blanks at the start of `text`.
pub open spec fn indent(text: Seq<char>) -> nat {
    first_index(text.len(), marks(text))
}

/// `text` without the blanks at its end.
pub open spec fn trim_end(text: Seq<char>) -> Seq<char>
    decreases text.len(),
{
    if text.len() > 0 && is_blank(text.last()) {
        trim_end(text.drop_last())
    } else {
        text
    }
}

/// `text` without the blanks at its start and at its end.
pub open spec fn trim(text: Seq<char>) -> Seq<char> {
    trim_end(text.skip(indent(text) as int))
}

/// The statement of `line`: its code without the blanks around it.
pub open spec fn statement(line: Seq<char>) -> Seq<char> {
    trim(code(line))
}

/// Whether `c` may stand in a symbol: a letter, a digit or one of `_.$:`.
pub open spec fn is_symbol_char(c: char) -> bool {
    ('a' <= c <= 'z') || ('A' <= c <= 'Z') || is_digit(c) || c == '_' || c == '.' || c == '$'
        || c == ':'
}

/// Whether `text` is a symbol: one symbol character or more, the first of
/// them no digit.
pub open spec fn is_symbol(text: Seq<char>) -> bool {
    &&& text.len() > 0
    &&& !is_digit(text[0])
    &&& forall|i: int| 0 <= i < text.len() ==> is_symbol_char(#[trigger] text[i])
}

/// Whether `text` is a destination: one or more of the letters `A`, `D` and
/// `M`, in any order and none of them twice.
pub open spec fn is_destination(text: Seq<char>) -> bool {
    &&& text.len() > 0
    &&& forall|i: int|
        0 <= i < text.len() ==> #[trigger] text[i] == 'A' || text[i] == 'D' || text[i] == 'M'
    &&& text.no_duplicates()
}

/// Whether `text` is one of the seven jump mnemonics.
pub open spec fn is_jump(text: Seq<char>) -> bool {
    text.len() > 0 && jump_bits(text) is Some
}

/// The indices of `text` at which `c` stands.
pub open spec fn occurrences(text: Seq<char>, c: char) -> spec_fn(int) -> bool {
    |i: int| text[i] == c
}

/// The index of the first `c` in `text`, or the length of `text` where it
/// holds none.
pub open spec fn position(text: Seq<char>, c: char) -> nat {
    first_index(text.len(), occurrences(text, c))
}

/// The A-instruction that the statement `text` writes, where `text` starts
/// with `@`: what follows is a constant or a symbol.
pub open spec fn parse_a_instruction(text: Seq<char>) -> Result<ItemView, Expected> {
    let operand = trim(text.skip(1));
    if is_constant(operand) {
        Ok(ItemView::AInstruction(OperandView::Constant(operand)))
    } else if is_symbol(operand) {
        Ok(ItemView::AInstruction(OperandView::Symbol(operand)))
    } else {
        Err(Expected::Operand)
    }
}

/// The label definition that the statement `text` writes, where `text`
/// starts with `(`: it ends with `)`, and a symbol stands between the two.
pub open spec fn parse_label(text: Seq<char>) -> Result<ItemView, Expected> {
    let name = trim(text.subrange(1, text.len() - 1));
    if text.len() >= 2 && text.last() == ')' && is_symbol(name) {
        Ok(ItemView::LabelDefinition(name))
    } else {
        Err(Expected::Label)
    }
}

/// The C-instruction that the statement `text` writes.
///
/// Where `text` holds a `=`, a destination stands before the first of them.
/// Where what is left holds a `;`, a jump stands after the first of them. A
/// computation of the instruction set stands between the two.
pub open spec fn parse_c_instruction(text: Seq<char>) -> Result<ItemView, Expected> {
    let equals = position(text, '=') as int;
    let has_dest = equals < text.len();
    let dest = if has_dest {
        trim(text.take(equals))
    } else {
        Seq::empty()
    };
    let rest = if has_dest {
        text.skip(equals + 1)
    } else {
        text
    };
    let semicolon = position(rest, ';') as int;
    let has_jump = semicolon < rest.len();
    let comp = trim(rest.take(semicolon));
    let jump = if has_jump {
        trim(rest.skip(semicolon + 1))
    } else {
        Seq::empty()
    };
    if has_dest && !is_destination(dest) {
        Err(Expected::Destination)
    } else if comp_bits(comp) is None {
        Err(Expected::Computation)
    } else if has_jump && !is_jump(jump) {
        Err(Expected::Jump)
    } else {
        Ok(ItemView::CInstruction { dest, comp, jump })
    }
}

/// The item that the statement `text` writes, or what was expected where it
/// writes none.
pub open spec fn parse_statement(text: Seq<char>) -> Result<ItemView, Expected>
    recommends
        text.len() > 0,
{
    if text[0] == '@' {
        parse_a_instruction(text)
    } else if text[0] == '(' {
        parse_label(text)
    } else {
        parse_c_instruction(text)
    }
}

/// The items of `lines`, in order, or the error of the first line whose
/// statement writes no item. The error holds the number of that line and
/// the column at which its statement starts, both counted from one.
pub open spec fn parse_lines(lines: Seq<Seq<char>>) -> Result<Seq<ItemView>, AssembleErrorView>
    decreases lines.len(),
{
    if lines.len() == 0 {
        Ok(Seq::empty())
    } else {
        match parse_lines(lines.drop_last()) {
            Err(e) => Err(e),
            Ok(items) => {
                let line = lines.last();
                if statement(line).len() == 0 {
                    Ok(items)
                } else {
                    match parse_statement(statement(line)) {
                        Ok(item) => Ok(items.push(item)),
                        Err(expected) => Err(
                            AssembleErrorView::SyntaxError {
                                line: lines.len(),
                                column: indent(line) + 1,
                                expected,
                            },
                        ),
                    }
                }
            },
        }
    }
}

/// The items of the source text `source`, with the end of input after them,
/// or its first syntax error.
pub open spec fn parse_source(source: Seq<char>) -> Result<Seq<ItemView>, AssembleErrorView> {
    match parse_lines(lines(source)) {
        Ok(items) => Ok(items.push(ItemView::EndOfInput)),
        Err(e) => Err(e),
    }
}

} // verus!
