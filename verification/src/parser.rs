//! The parser: from a source text to its items.

use crate::encoding::{encode_comp, encode_jump, is_constant, is_digit};
use crate::error::{AssembleError, AssembleErrorView, Expected};
use crate::grammar::{
    code, comment_starts, indent, is_blank, is_destination, is_symbol, is_symbol_char,
    line_ends, line_len, lines, marks, occurrences, parse_a_instruction, parse_c_instruction,
    parse_label, parse_lines, parse_source, parse_statement, position, statement, trim,
};
use crate::grammar_laws::{
    is_valid_line, lemma_parse_lines_exists, lemma_syntax_error, lemma_trim_end,
};
use crate::item::{Item, ItemView, Operand};
use crate::search::{lemma_first_index, lemma_first_index_is};
use crate::text::{chars_of, string_of};
use vstd::prelude::*;

verus! {

/// The index of the first `c` in `chars[from..to]`, or `to`.
fn find_char(chars: &Vec<char>, from: usize, to: usize, c: char) -> (at: usize)
    requires
        from <= to <= chars.len(),
    ensures
        from <= at <= to,
        at - from == position(chars@.subrange(from as int, to as int), c),
{
    let ghost text = chars@.subrange(from as int, to as int);
    let mut at: usize = from;
    while at < to && chars[at] != c
        invariant
            from <= at <= to <= chars.len(),
            text == chars@.subrange(from as int, to as int),
            forall|j: int| 0 <= j < at - from ==> !#[trigger] occurrences(text, c)(j),
        decreases to - at,
    {
        at += 1;
    }
    proof {
        lemma_first_index_is(text.len(), occurrences(text, c), at - from);
    }
    at
}

/// The index of the first character of `chars[from..to]` that is no blank,
/// or `to`.
fn skip_blanks(chars: &Vec<char>, from: usize, to: usize) -> (at: usize)
    requires
        from <= to <= chars.len(),
    ensures
        from <= at <= to,
        at - from == indent(chars@.subrange(from as int, to as int)),
{
    let ghost text = chars@.subrange(from as int, to as int);
    let mut at: usize = from;
    while at < to && (chars[at] == ' ' || chars[at] == '\t' || chars[at] == '\r')
        invariant
            from <= at <= to <= chars.len(),
            text == chars@.subrange(from as int, to as int),
            forall|j: int| 0 <= j < at - from ==> !#[trigger] marks(text)(j),
        decreases to - at,
    {
        at += 1;
    }
    proof {
        lemma_first_index_is(text.len(), marks(text), at - from);
    }
    at
}

/// The bounds of `chars[from..to]` without the blanks around it.
fn trim_range(chars: &Vec<char>, from: usize, to: usize) -> (bounds: (usize, usize))
    requires
        from <= to <= chars.len(),
    ensures
        from <= bounds.0 <= bounds.1 <= to,
        bounds.0 - from == indent(chars@.subrange(from as int, to as int)),
        chars@.subrange(bounds.0 as int, bounds.1 as int) == trim(
            chars@.subrange(from as int, to as int),
        ),
{
    let first: usize = skip_blanks(chars, from, to);
    let mut last: usize = to;
    while last > first && (chars[last - 1] == ' ' || chars[last - 1] == '\t' || chars[last - 1]
        == '\r')
        invariant
            from <= first <= last <= to <= chars.len(),
            forall|j: int| last <= j < to ==> is_blank(#[trigger] chars@[j]),
        decreases last,
    {
        last -= 1;
    }
    proof {
        let text = chars@.subrange(from as int, to as int);
        let tail = text.skip(first - from);
        lemma_trim_end(tail, last - first);
    }
    (first, last)
}

/// The index at which the line that starts at `from` ends, or the length of
/// `chars` where it is the last line.
fn line_end(chars: &Vec<char>, from: usize) -> (at: usize)
    requires
        from <= chars.len(),
    ensures
        from <= at <= chars.len(),
        at - from == line_len(chars@.skip(from as int)),
{
    let ghost rest = chars@.skip(from as int);
    let n: usize = chars.len();
    let mut at: usize = from;
    while at < n
        invariant
            from <= at <= n,
            n == chars.len(),
            rest == chars@.skip(from as int),
            forall|j: int| 0 <= j < at - from ==> !#[trigger] line_ends(rest)(j),
        ensures
            at < n ==> line_ends(rest)(at - from),
        decreases n - at,
    {
        let c = chars[at];
        if c == '\n' || (c == '\r' && !(at + 1 < n && chars[at + 1] == '\n')) {
            break ;
        }
        at += 1;
    }
    proof {
        lemma_first_index_is(rest.len(), line_ends(rest), at - from);
    }
    at
}

/// The index at which the comment of the line `chars[from..to]` starts, or
/// `to` where it has none.
fn code_end(chars: &Vec<char>, from: usize, to: usize) -> (at: usize)
    requires
        from <= to <= chars.len(),
    ensures
        from <= at <= to,
        chars@.subrange(from as int, at as int) == code(chars@.subrange(from as int, to as int)),
{
    let ghost line = chars@.subrange(from as int, to as int);
    let mut at: usize = from;
    while at < to
        invariant
            from <= at <= to <= chars.len(),
            line == chars@.subrange(from as int, to as int),
            forall|j: int| 0 <= j < at - from ==> !#[trigger] comment_starts(line)(j),
        ensures
            at < to ==> comment_starts(line)(at - from),
        decreases to - at,
    {
        if chars[at] == '/' && at + 1 < to && chars[at + 1] == '/' {
            break ;
        }
        at += 1;
    }
    proof {
        lemma_first_index_is(line.len(), comment_starts(line), at - from);
    }
    at
}

/// Whether `chars[from..to]` is a decimal literal.
fn is_constant_at(chars: &Vec<char>, from: usize, to: usize) -> (ok: bool)
    requires
        from <= to <= chars.len(),
    ensures
        ok == is_constant(chars@.subrange(from as int, to as int)),
{
    let ghost text = chars@.subrange(from as int, to as int);
    if from == to {
        return false;
    }
    let mut i: usize = from;
    while i < to
        invariant
            from <= i <= to <= chars.len(),
            text == chars@.subrange(from as int, to as int),
            forall|j: int| 0 <= j < i - from ==> is_digit(#[trigger] text[j]),
        decreases to - i,
    {
        let c = chars[i];
        if c < '0' || c > '9' {
            assert(!is_digit(text[i - from]));
            return false;
        }
        i += 1;
    }
    true
}

/// Whether `chars[from..to]` is a symbol.
fn is_symbol_at(chars: &Vec<char>, from: usize, to: usize) -> (ok: bool)
    requires
        from <= to <= chars.len(),
    ensures
        ok == is_symbol(chars@.subrange(from as int, to as int)),
{
    let ghost text = chars@.subrange(from as int, to as int);
    if from == to {
        return false;
    }
    let first = chars[from];
    if first >= '0' && first <= '9' {
        return false;
    }
    let mut i: usize = from;
    while i < to
        invariant
            from <= i <= to <= chars.len(),
            text == chars@.subrange(from as int, to as int),
            forall|j: int| 0 <= j < i - from ==> is_symbol_char(#[trigger] text[j]),
        decreases to - i,
    {
        let c = chars[i];
        let fits = (c >= 'a' && c <= 'z') || (c >= 'A' && c <= 'Z') || (c >= '0' && c <= '9')
            || c == '_' || c == '.' || c == '$' || c == ':';
        if !fits {
            assert(!is_symbol_char(text[i - from]));
            return false;
        }
        i += 1;
    }
    true
}

/// Whether `chars[from..to]` is a destination.
fn is_destination_at(chars: &Vec<char>, from: usize, to: usize) -> (ok: bool)
    requires
        from <= to <= chars.len(),
    ensures
        ok == is_destination(chars@.subrange(from as int, to as int)),
{
    let ghost text = chars@.subrange(from as int, to as int);
    if from == to {
        return false;
    }
    let mut a = false;
    let mut d = false;
    let mut m = false;
    let mut i: usize = from;
    while i < to
        invariant
            from <= i <= to <= chars.len(),
            text == chars@.subrange(from as int, to as int),
            forall|j: int|
                0 <= j < i - from ==> #[trigger] text[j] == 'A' || text[j] == 'D' || text[j]
                    == 'M',
            forall|j: int, k: int| 0 <= j < k < i - from ==> text[j] != text[k],
            a <==> exists|j: int| 0 <= j < i - from && text[j] == 'A',
            d <==> exists|j: int| 0 <= j < i - from && text[j] == 'D',
            m <==> exists|j: int| 0 <= j < i - from && text[j] == 'M',
        decreases to - i,
    {
        let c = chars[i];
        assert(c == text[i - from]);
        let seen = if c == 'A' {
            a
        } else if c == 'D' {
            d
        } else if c == 'M' {
            m
        } else {
            return false;
        };
        if seen {
            proof {
                let j = choose|j: int| 0 <= j < i - from && text[j] == c;
                assert(text[j] == text[i - from]);
            }
            return false;
        }
        if c == 'A' {
            a = true;
        } else if c == 'D' {
            d = true;
        } else {
            m = true;
        }
        i += 1;
    }
    true
}

/// What the result of parsing a statement holds, as a mathematical value.
pub open spec fn statement_view(result: Result<Item, Expected>) -> Result<ItemView, Expected> {
    match result {
        Ok(item) => Ok(item@),
        Err(expected) => Err(expected),
    }
}

/// Parses the statement `chars[from..to]`, which starts with `@`.
fn parse_a_instruction_at(chars: &Vec<char>, from: usize, to: usize) -> (result: Result<
    Item,
    Expected,
>)
    requires
        from < to <= chars.len(),
    ensures
        statement_view(result) == parse_a_instruction(chars@.subrange(from as int, to as int)),
{
    let ghost text = chars@.subrange(from as int, to as int);
    assert(text.skip(1) == chars@.subrange(from + 1, to as int));
    let (first, last) = trim_range(chars, from + 1, to);
    if is_constant_at(chars, first, last) {
        Ok(Item::AInstruction(Operand::Constant(string_of(chars, first, last))))
    } else if is_symbol_at(chars, first, last) {
        Ok(Item::AInstruction(Operand::Symbol(string_of(chars, first, last))))
    } else {
        Err(Expected::Operand)
    }
}

/// Parses the statement `chars[from..to]`, which starts with `(`.
fn parse_label_at(chars: &Vec<char>, from: usize, to: usize) -> (result: Result<Item, Expected>)
    requires
        from < to <= chars.len(),
    ensures
        statement_view(result) == parse_label(chars@.subrange(from as int, to as int)),
{
    let ghost text = chars@.subrange(from as int, to as int);
    if to - from < 2 || chars[to - 1] != ')' {
        return Err(Expected::Label);
    }
    assert(text.subrange(1, text.len() - 1) == chars@.subrange(from + 1, to - 1));
    let (first, last) = trim_range(chars, from + 1, to - 1);
    if is_symbol_at(chars, first, last) {
        Ok(Item::LabelDefinition(string_of(chars, first, last)))
    } else {
        Err(Expected::Label)
    }
}

/// Parses the statement `chars[from..to]` as a C-instruction.
fn parse_c_instruction_at(chars: &Vec<char>, from: usize, to: usize) -> (result: Result<
    Item,
    Expected,
>)
    requires
        from <= to <= chars.len(),
    ensures
        statement_view(result) == parse_c_instruction(chars@.subrange(from as int, to as int)),
{
    let ghost text = chars@.subrange(from as int, to as int);
    let equals: usize = find_char(chars, from, to, '=');
    let has_dest = equals < to;
    let rest_from: usize = if has_dest {
        equals + 1
    } else {
        from
    };
    let ghost rest = chars@.subrange(rest_from as int, to as int);
    proof {
        if has_dest {
            assert(text.skip(equals - from + 1) == rest);
            assert(text.take(equals - from) == chars@.subrange(from as int, equals as int));
        }
    }
    let semicolon: usize = find_char(chars, rest_from, to, ';');
    let has_jump = semicolon < to;
    proof {
        assert(rest.take(semicolon - rest_from) == chars@.subrange(
            rest_from as int,
            semicolon as int,
        ));
        if has_jump {
            assert(rest.skip(semicolon - rest_from + 1) == chars@.subrange(
                semicolon + 1,
                to as int,
            ));
        }
    }
    let dest = if has_dest {
        let (first, last) = trim_range(chars, from, equals);
        if !is_destination_at(chars, first, last) {
            return Err(Expected::Destination);
        }
        string_of(chars, first, last)
    } else {
        String::new()
    };
    let (comp_first, comp_last) = trim_range(chars, rest_from, semicolon);
    let comp = string_of(chars, comp_first, comp_last);
    if encode_comp(comp.as_str()).is_none() {
        return Err(Expected::Computation);
    }
    let jump = if has_jump {
        let (first, last) = trim_range(chars, semicolon + 1, to);
        let jump = string_of(chars, first, last);
        if first == last || encode_jump(jump.as_str()).is_none() {
            return Err(Expected::Jump);
        }
        jump
    } else {
        String::new()
    };
    Ok(Item::CInstruction { dest, comp, jump })
}

/// Parses the statement `chars[from..to]`.
fn parse_statement_at(chars: &Vec<char>, from: usize, to: usize) -> (result: Result<
    Item,
    Expected,
>)
    requires
        from < to <= chars.len(),
    ensures
        statement_view(result) == parse_statement(chars@.subrange(from as int, to as int)),
{
    let first = chars[from];
    if first == '@' {
        parse_a_instruction_at(chars, from, to)
    } else if first == '(' {
        parse_label_at(chars, from, to)
    } else {
        parse_c_instruction_at(chars, from, to)
    }
}

/// What a line gives: an item, nothing, or the column and the expectation of
/// a syntax error.
pub open spec fn parse_line(line: Seq<char>) -> Result<Option<ItemView>, (nat, Expected)> {
    if statement(line).len() == 0 {
        Ok(None)
    } else {
        match parse_statement(statement(line)) {
            Ok(item) => Ok(Some(item)),
            Err(expected) => Err((indent(line) + 1, expected)),
        }
    }
}

/// What the result of parsing a line holds, as a mathematical value.
pub open spec fn line_view(result: Result<Option<Item>, (usize, Expected)>) -> Result<
    Option<ItemView>,
    (nat, Expected),
> {
    match result {
        Ok(Some(item)) => Ok(Some(item@)),
        Ok(None) => Ok(None),
        Err((column, expected)) => Err((column as nat, expected)),
    }
}

/// The blanks at the start of a line are those at the start of its code,
/// where the code holds more than blanks.
proof fn lemma_indent_of_code(line: Seq<char>, n: int)
    requires
        0 <= n <= line.len(),
        indent(line.take(n)) < n,
    ensures
        indent(line) == indent(line.take(n)),
{
    let k = indent(line.take(n)) as int;
    lemma_first_index(line.take(n).len(), marks(line.take(n)));
    assert forall|j: int| 0 <= j < k implies !#[trigger] marks(line)(j) by {
        assert(!marks(line.take(n))(j));
    }
    lemma_first_index_is(line.len(), marks(line), k);
}

/// Parses the line `chars[from..to]`.
fn parse_line_at(chars: &Vec<char>, from: usize, to: usize) -> (result: Result<
    Option<Item>,
    (usize, Expected),
>)
    requires
        from <= to <= chars.len(),
    ensures
        line_view(result) == parse_line(chars@.subrange(from as int, to as int)),
{
    let ghost line = chars@.subrange(from as int, to as int);
    let end: usize = code_end(chars, from, to);
    let (first, last) = trim_range(chars, from, end);
    if first == last {
        return Ok(None);
    }
    proof {
        lemma_indent_of_code(line, end - from);
    }
    match parse_statement_at(chars, first, last) {
        Ok(item) => Ok(Some(item)),
        Err(expected) => Err((first - from + 1, expected)),
    }
}

/// An error in the first `n` lines is the error of all the lines.
pub proof fn lemma_parse_lines_fails_for_good(lines: Seq<Seq<char>>, n: int)
    requires
        0 <= n <= lines.len(),
        parse_lines(lines.take(n)) is Err,
    ensures
        parse_lines(lines) == parse_lines(lines.take(n)),
    decreases lines.len(),
{
    if n == lines.len() {
        assert(lines.take(n) == lines);
    } else {
        assert(lines.drop_last().take(n) == lines.take(n));
        lemma_parse_lines_fails_for_good(lines.drop_last(), n);
    }
}

/// What the result of parsing a source holds, as a mathematical value.
pub open spec fn parse_view(result: Result<Vec<Item>, AssembleError>) -> Result<
    Seq<ItemView>,
    AssembleErrorView,
> {
    match result {
        Ok(items) => Ok(items.deep_view()),
        Err(e) => Err(e@),
    }
}

/// Parses a source text into its items, with the end of input after them.
///
/// Fails with `SyntaxError` at the first line whose statement is not in the
/// language, and on no other source. The result is the value of
/// [`parse_source`] for the text.
pub fn parse(source: &str) -> (result: Result<Vec<Item>, AssembleError>)
    ensures
        parse_view(result) == parse_source(source@),
        result is Ok <==> forall|k: int|
            0 <= k < lines(source@).len() ==> is_valid_line(#[trigger] lines(source@)[k]),
        result matches Ok(items) ==> items.len() > 0 && items[items.len() - 1] is EndOfInput,
        result matches Err(e) ==> e is SyntaxError,
{
    proof {
        lemma_parse_lines_exists(lines(source@));
        if parse_lines(lines(source@)) is Err {
            lemma_syntax_error(lines(source@));
        }
    }
    let chars = chars_of(source);
    let mut items: Vec<Item> = Vec::new();
    assert(items.deep_view() == Seq::<ItemView>::empty());
    let ghost mut done: Seq<Seq<char>> = Seq::empty();
    let mut line_number: usize = 0;
    let mut from: usize = 0;
    assert(chars@.skip(0) == chars@);
    loop
        invariant_except_break
            chars@ == source@,
            from <= chars.len(),
            line_number == done.len(),
            line_number <= from,
            lines(chars@) == done + lines(chars@.skip(from as int)),
            parse_lines(done) == Ok::<_, AssembleErrorView>(items.deep_view()),
        ensures
            parse_lines(lines(source@)) == Ok::<_, AssembleErrorView>(items.deep_view()),
        decreases chars.len() - from,
    {
        let to: usize = line_end(&chars, from);
        let ghost rest = chars@.skip(from as int);
        let ghost line = chars@.subrange(from as int, to as int);
        let ghost earlier = items.deep_view();
        proof {
            assert(rest.take(to - from) == line);
            assert(done.push(line).drop_last() == done);
            if to < chars.len() {
                assert(rest.skip(to - from + 1) == chars@.skip(to + 1));
                assert(lines(chars@) == done.push(line) + lines(chars@.skip(to + 1)));
                assert(lines(chars@).take(line_number + 1) == done.push(line));
            } else {
                assert(lines(chars@) == done.push(line));
            }
        }
        match parse_line_at(&chars, from, to) {
            Ok(Some(item)) => {
                items.push(item);
                assert(items.deep_view() == earlier.push(item@));
            },
            Ok(None) => {},
            Err((column, expected)) => {
                proof {
                    lemma_parse_lines_fails_for_good(lines(chars@), line_number + 1);
                }
                return Err(
                    AssembleError::SyntaxError { line: line_number + 1, column, expected },
                );
            },
        }
        proof {
            done = done.push(line);
        }
        if to == chars.len() {
            break ;
        }
        line_number += 1;
        from = to + 1;
    }
    let ghost earlier = items.deep_view();
    items.push(Item::EndOfInput);
    assert(items.deep_view() == earlier.push(ItemView::EndOfInput));
    Ok(items)
}

} // verus!
