//! The ways in which assembly fails.

use crate::text::{decimal_text, push_decimal};
use vstd::prelude::*;
use vstd::string::StringExecFns;

verus! {

/// What the parser was looking for where a statement went wrong.
#[derive(Clone, Copy, Debug, PartialEq, Eq)]
pub enum Expected {
    /// After `@`: a decimal constant or a symbol.
    Operand,
    /// After `(`: a symbol and a closing `)`.
    Label,
    /// Before `=`: one to three of the letters `A`, `D`, `M`, none twice.
    Destination,
    /// One of the computations of the instruction set.
    Computation,
    /// After `;`: one of the seven jump mnemonics.
    Jump,
}

/// Why a program could not be assembled.
#[derive(Debug, PartialEq, Eq)]
pub enum AssembleError {
    /// The statement that starts at this line and column (both counted from
    /// one) is not in the language.
    SyntaxError { line: usize, column: usize, expected: Expected },
    /// A label is named like a predefined symbol.
    RedefinesPredefined(String),
    /// A label is defined twice.
    DuplicateLabel(String),
    /// The constant of an A-instruction is not a decimal number below 32768.
    InvalidConstant(String),
    /// The computation of a C-instruction is not in the instruction set.
    InvalidComputation(String),
    /// The jump of a C-instruction is not in the instruction set.
    InvalidJump(String),
    /// The program holds more than 32768 instructions.
    ProgramTooLarge,
    /// The program's variables do not fit below address 32768.
    TooManyVariables,
}

/// What an [`AssembleError`] holds, as a mathematical value.
pub enum AssembleErrorView {
    SyntaxError { line: nat, column: nat, expected: Expected },
    RedefinesPredefined(Seq<char>),
    DuplicateLabel(Seq<char>),
    InvalidConstant(Seq<char>),
    InvalidComputation(Seq<char>),
    InvalidJump(Seq<char>),
    ProgramTooLarge,
    TooManyVariables,
}

impl Clone for AssembleError {
    fn clone(&self) -> (copy: Self)
        ensures
            copy@ == self@,
    {
        match self {
            AssembleError::SyntaxError { line, column, expected } => AssembleError::SyntaxError {
                line: *line,
                column: *column,
                expected: *expected,
            },
            AssembleError::RedefinesPredefined(name) => AssembleError::RedefinesPredefined(
                name.clone(),
            ),
            AssembleError::DuplicateLabel(name) => AssembleError::DuplicateLabel(name.clone()),
            AssembleError::InvalidConstant(text) => AssembleError::InvalidConstant(text.clone()),
            AssembleError::InvalidComputation(text) => AssembleError::InvalidComputation(
                text.clone(),
            ),
            AssembleError::InvalidJump(text) => AssembleError::InvalidJump(text.clone()),
            AssembleError::ProgramTooLarge => AssembleError::ProgramTooLarge,
            AssembleError::TooManyVariables => AssembleError::TooManyVariables,
        }
    }
}

impl View for AssembleError {
    type V = AssembleErrorView;

    open spec fn view(&self) -> AssembleErrorView {
        match self {
            AssembleError::SyntaxError { line, column, expected } => AssembleErrorView::SyntaxError {
                line: *line as nat,
                column: *column as nat,
                expected: *expected,
            },
            AssembleError::RedefinesPredefined(name) => AssembleErrorView::RedefinesPredefined(
                name@,
            ),
            AssembleError::DuplicateLabel(name) => AssembleErrorView::DuplicateLabel(name@),
            AssembleError::InvalidConstant(text) => AssembleErrorView::InvalidConstant(text@),
            AssembleError::InvalidComputation(text) => AssembleErrorView::InvalidComputation(
                text@,
            ),
            AssembleError::InvalidJump(text) => AssembleErrorView::InvalidJump(text@),
            AssembleError::ProgramTooLarge => AssembleErrorView::ProgramTooLarge,
            AssembleError::TooManyVariables => AssembleErrorView::TooManyVariables,
        }
    }
}

impl Expected {
    /// What was expected, in words.
    pub open spec fn text(self) -> Seq<char> {
        match self {
            Expected::Operand => "a constant or a symbol after '@'"@,
            Expected::Label => "a symbol between '(' and ')'"@,
            Expected::Destination => "a destination made of 'A', 'D' and 'M' before '='"@,
            Expected::Computation => "a computation of the instruction set"@,
            Expected::Jump => "a jump mnemonic after ';'"@,
        }
    }

    /// What was expected, in words.
    pub fn describe(&self) -> (words: &'static str)
        ensures
            words@ == self.text(),
    {
        match self {
            Expected::Operand => "a constant or a symbol after '@'",
            Expected::Label => "a symbol between '(' and ')'",
            Expected::Destination => "a destination made of 'A', 'D' and 'M' before '='",
            Expected::Computation => "a computation of the instruction set",
            Expected::Jump => "a jump mnemonic after ';'",
        }
    }
}

impl AssembleErrorView {
    /// The diagnostic of the error, as one text: it names the kind of the
    /// error and, where there is one, the place in the source or the
    /// offending text.
    pub open spec fn message(self) -> Seq<char> {
        match self {
            AssembleErrorView::SyntaxError { line, column, expected } => "syntax error at line "@
                + decimal_text(line) + ", column "@ + decimal_text(column) + ": expected "@
                + expected.text(),
            AssembleErrorView::RedefinesPredefined(name) => "symbol '"@ + name
                + "' is predefined"@,
            AssembleErrorView::DuplicateLabel(name) => "symbol '"@ + name
                + "' is already defined"@,
            AssembleErrorView::InvalidConstant(text) => "invalid constant '"@ + text + "'"@,
            AssembleErrorView::InvalidComputation(text) => "invalid computation '"@ + text
                + "'"@,
            AssembleErrorView::InvalidJump(text) => "invalid jump '"@ + text + "'"@,
            AssembleErrorView::ProgramTooLarge => "too many lines"@,
            AssembleErrorView::TooManyVariables => "too many variables"@,
        }
    }
}

/// `text` between `before` and `after`.
fn quote(before: &str, text: &str, after: &str) -> (all: String)
    ensures
        all@ == before@ + text@ + after@,
{
    let mut all = String::from_str(before);
    all.append(text);
    all.append(after);
    all
}

impl AssembleError {
    /// The diagnostic of the error, as one text.
    pub fn message(&self) -> (text: String)
        ensures
            text@ == self@.message(),
    {
        match self {
            AssembleError::SyntaxError { line, column, expected } => {
                let mut text = String::from_str("syntax error at line ");
                push_decimal(&mut text, *line);
                text.append(", column ");
                push_decimal(&mut text, *column);
                text.append(": expected ");
                text.append(expected.describe());
                text
            },
            AssembleError::RedefinesPredefined(name) => quote(
                "symbol '",
                name.as_str(),
                "' is predefined",
            ),
            AssembleError::DuplicateLabel(name) => quote(
                "symbol '",
                name.as_str(),
                "' is already defined",
            ),
            AssembleError::InvalidConstant(text) => quote("invalid constant '", text.as_str(), "'"),
            AssembleError::InvalidComputation(text) => quote(
                "invalid computation '",
                text.as_str(),
                "'",
            ),
            AssembleError::InvalidJump(text) => quote("invalid jump '", text.as_str(), "'"),
            AssembleError::ProgramTooLarge => String::from_str("too many lines"),
            AssembleError::TooManyVariables => String::from_str("too many variables"),
        }
    }
}

} // verus!
