//! What holds of every parse.

use crate::encoding::{comp_bits, is_constant};
use crate::error::AssembleErrorView;
use crate::grammar::{
    code, comment_starts, indent, is_blank, is_destination, is_jump, is_symbol, lines, marks,
    parse_lines, parse_source, parse_statement, statement, trim_end,
};
use crate::item::{ItemView, OperandView};
use crate::search::lemma_first_index_is;
use crate::symbols::{ends, program};
use vstd::prelude::*;

verus! {

/// Without its blank end, `text` is its first `n` characters, where those
/// after them are blanks and the last of them is none.
pub proof fn lemma_trim_end(text: Seq<char>, n: int)
    requires
        0 <= n <= text.len(),
        forall|j: int| n <= j < text.len() ==> is_blank(#[trigger] text[j]),
        n > 0 ==> !is_blank(text[n - 1]),
    ensures
        trim_end(text) == text.take(n),
    decreases text.len(),
{
    if n < text.len() {
        lemma_trim_end(text.drop_last(), n);
    }
}

/// Whether every character of `text` is a blank.
pub open spec fn is_blank_text(text: Seq<char>) -> bool {
    forall|i: int| 0 <= i < text.len() ==> is_blank(#[trigger] text[i])
}

/// Whether `text` is a comment, or nothing: it is empty or starts with `//`.
pub open spec fn is_comment(text: Seq<char>) -> bool {
    text.len() == 0 || (text.len() >= 2 && text[0] == '/' && text[1] == '/')
}

/// Whether `text` can be the statement of a line: it neither starts nor ends
/// with a blank, and holds no `/`.
pub open spec fn is_bare(text: Seq<char>) -> bool {
    &&& text.len() > 0 ==> !is_blank(text[0]) && !is_blank(text.last())
    &&& forall|i: int| 0 <= i < text.len() ==> #[trigger] text[i] != '/'
}

/// Blanks before and after a statement and a comment behind it are ignored:
/// the statement of a line made of blanks, a bare text, blanks and a comment
/// is the bare text, and where that is not empty, the blanks before it are
/// the indent of the line.
pub proof fn lemma_statement_ignores_decoration(
    lead: Seq<char>,
    text: Seq<char>,
    trail: Seq<char>,
    comment: Seq<char>,
)
    requires
        is_blank_text(lead),
        is_bare(text),
        is_blank_text(trail),
        is_comment(comment),
    ensures
        statement(lead + text + trail + comment) == text,
        text.len() > 0 ==> indent(lead + text + trail + comment) == lead.len(),
{
    let line = lead + text + trail + comment;
    let visible = lead + text + trail;
    let n = visible.len() as int;
    // The blanks and the text hold no `/`, so the code of the line is what
    // stands before `comment`.
    assert forall|j: int| 0 <= j < n implies !#[trigger] comment_starts(line)(j) by {}
    lemma_first_index_is(line.len(), comment_starts(line), n);
    assert(line.take(n) == visible);
    // Its first character that is no blank is the first of the text.
    let k = if text.len() > 0 {
        lead.len() as int
    } else {
        n
    };
    assert forall|j: int| 0 <= j < k implies !#[trigger] marks(visible)(j) by {}
    lemma_first_index_is(visible.len(), marks(visible), k);
    // What follows the text is blank.
    let tail = visible.skip(k);
    assert forall|j: int| text.len() <= j < tail.len() implies is_blank(#[trigger] tail[j]) by {}
    lemma_trim_end(tail, text.len() as int);
    if text.len() > 0 {
        assert forall|j: int| 0 <= j < k implies !#[trigger] marks(line)(j) by {}
        lemma_first_index_is(line.len(), marks(line), k);
    }
}

/// Whether `line` is in the language: it holds no statement, or one that
/// writes an item.
pub open spec fn is_valid_line(line: Seq<char>) -> bool {
    statement(line).len() == 0 || parse_statement(statement(line)) is Ok
}

/// Lines have items exactly where each of them is in the language.
pub proof fn lemma_parse_lines_exists(lines: Seq<Seq<char>>)
    ensures
        parse_lines(lines) is Ok <==> forall|k: int|
            0 <= k < lines.len() ==> is_valid_line(#[trigger] lines[k]),
    decreases lines.len(),
{
    if lines.len() > 0 {
        let before = lines.drop_last();
        lemma_parse_lines_exists(before);
        if forall|k: int| 0 <= k < lines.len() ==> is_valid_line(#[trigger] lines[k]) {
            assert forall|k: int| 0 <= k < before.len() implies is_valid_line(
                #[trigger] before[k],
            ) by {}
        }
        if parse_lines(lines) is Ok {
            assert forall|k: int| 0 <= k < lines.len() implies is_valid_line(
                #[trigger] lines[k],
            ) by {
                if k < before.len() {
                    assert(before[k] == lines[k]);
                }
            }
        }
    }
}

/// A syntax error is that of the first line that is not in the language:
/// the lines before it are, and the error holds its number, the column at
/// which its statement starts and what its statement lacks. Parsing fails
/// in no other way.
pub proof fn lemma_syntax_error(lines: Seq<Seq<char>>)
    requires
        parse_lines(lines) is Err,
    ensures
        parse_lines(lines)->Err_0 is SyntaxError,
        ({
            let line = parse_lines(lines)->Err_0->line;
            let column = parse_lines(lines)->Err_0->column;
            let expected = parse_lines(lines)->Err_0->expected;
            &&& 1 <= line <= lines.len()
            &&& parse_lines(lines.take(line - 1)) is Ok
            &&& statement(lines[line - 1]).len() > 0
            &&& parse_statement(statement(lines[line - 1])) == Err::<ItemView, _>(expected)
            &&& column == indent(lines[line - 1]) + 1
        }),
    decreases lines.len(),
{
    let before = lines.drop_last();
    if parse_lines(before) is Err {
        lemma_syntax_error(before);
        let line = parse_lines(before)->Err_0->line;
        assert(before.take(line - 1) == lines.take(line - 1));
    }
}

/// The items of lines that follow one another: where `first` and `second`
/// have items, the lines of both have the items of `first` and then those
/// of `second`.
pub proof fn lemma_parse_lines_in_sequence(first: Seq<Seq<char>>, second: Seq<Seq<char>>)
    requires
        parse_lines(first) is Ok,
        parse_lines(second) is Ok,
    ensures
        parse_lines(first + second) == Ok::<_, AssembleErrorView>(
            parse_lines(first)->Ok_0 + parse_lines(second)->Ok_0,
        ),
    decreases second.len(),
{
    if second.len() > 0 {
        let before = second.drop_last();
        assert((first + second).drop_last() == first + before);
        lemma_parse_lines_in_sequence(first, before);
        let items = parse_lines(first)->Ok_0;
        let more = parse_lines(before)->Ok_0;
        if statement(second.last()).len() > 0 {
            let item = parse_statement(statement(second.last()))->Ok_0;
            assert((items + more).push(item) == items + more.push(item));
        }
    }
}

/// Empty lines, blank lines and lines that hold only a comment are ignored:
/// with such a line put anywhere between them, lines that have items have
/// the same items.
pub proof fn lemma_empty_line_is_ignored(
    first: Seq<Seq<char>>,
    line: Seq<char>,
    second: Seq<Seq<char>>,
)
    requires
        statement(line).len() == 0,
        parse_lines(first + second) is Ok,
    ensures
        parse_lines(first + seq![line] + second) == parse_lines(first + second),
{
    lemma_parse_lines_exists(first + second);
    assert forall|k: int| 0 <= k < first.len() implies is_valid_line(#[trigger] first[k]) by {
        assert(first[k] == (first + second)[k]);
    }
    assert forall|k: int| 0 <= k < second.len() implies is_valid_line(#[trigger] second[k]) by {
        assert(second[k] == (first + second)[k + first.len()]);
    }
    lemma_parse_lines_exists(first);
    lemma_parse_lines_exists(second);
    assert((first + seq![line]).drop_last() == first);
    lemma_parse_lines_in_sequence(first, second);
    lemma_parse_lines_in_sequence(first + seq![line], second);
}

/// Whether an item can come from a source text: its operand is a decimal
/// literal or a symbol, its label is a symbol, or its destination, its
/// computation and its jump are those of the language.
pub open spec fn is_well_formed(item: ItemView) -> bool {
    match item {
        ItemView::AInstruction(OperandView::Constant(text)) => is_constant(text),
        ItemView::AInstruction(OperandView::Symbol(name)) => is_symbol(name),
        ItemView::CInstruction { dest, comp, jump } => {
            &&& dest.len() == 0 || is_destination(dest)
            &&& comp_bits(comp) is Some
            &&& jump.len() == 0 || is_jump(jump)
        },
        ItemView::LabelDefinition(name) => is_symbol(name),
        ItemView::EndOfInput => false,
    }
}

/// The item of a statement is well formed.
pub proof fn lemma_statement_is_well_formed(text: Seq<char>)
    requires
        parse_statement(text) is Ok,
    ensures
        is_well_formed(parse_statement(text)->Ok_0),
{
}

/// The items of lines are well formed.
pub proof fn lemma_lines_are_well_formed(lines: Seq<Seq<char>>, i: int)
    requires
        parse_lines(lines) is Ok,
        0 <= i < parse_lines(lines)->Ok_0.len(),
    ensures
        is_well_formed(parse_lines(lines)->Ok_0[i]),
    decreases lines.len(),
{
    if lines.len() > 0 {
        let before = lines.drop_last();
        if i < parse_lines(before)->Ok_0.len() {
            lemma_lines_are_well_formed(before, i);
        } else {
            lemma_statement_is_well_formed(statement(lines.last()));
        }
    }
}

/// The items of a source text end with the end of input, and each of the
/// others is well formed: the passes look at all of them.
pub proof fn lemma_source_is_well_formed(source: Seq<char>)
    requires
        parse_source(source) is Ok,
    ensures
        parse_source(source)->Ok_0.len() > 0,
        parse_source(source)->Ok_0.last() is EndOfInput,
        program(parse_source(source)->Ok_0) == parse_source(source)->Ok_0.drop_last(),
        forall|i: int|
            0 <= i < parse_source(source)->Ok_0.len() - 1 ==> is_well_formed(
                #[trigger] parse_source(source)->Ok_0[i],
            ),
{
    let items = parse_source(source)->Ok_0;
    let body = parse_lines(lines(source))->Ok_0;
    assert(items.drop_last() == body);
    assert forall|i: int| 0 <= i < items.len() - 1 implies is_well_formed(#[trigger] items[i]) by {
        lemma_lines_are_well_formed(lines(source), i);
    }
    assert forall|i: int| 0 <= i < items.len() - 1 implies !#[trigger] ends(items)(i) by {}
    lemma_first_index_is(items.len(), ends(items), items.len() - 1);
}

} // verus!
