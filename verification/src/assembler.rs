//! The encoding pass: from items and their symbol table to lines of output.

use crate::encoding::{
    binary_digits, binary_line, comp_bits, constant_value, dest_bits, encode_comp, encode_dest,
    encode_jump, jump_bits, parse_constant, ADDRESS_SPACE_SIZE,
};
use crate::error::{AssembleError, AssembleErrorView};
use crate::grammar::parse_source;
use crate::item::{instruction_count, Item, ItemView, Operand, OperandView};
use crate::output_laws::{
    encodable, is_assembly_error, is_binary_line, lemma_assembly_error, lemma_assembly_exists,
    lemma_line_count, lemma_lines_are_binary,
};
use crate::parser::parse;
use crate::symbol_laws::{lemma_addresses_in_range, lemma_symbols_resolved, resolvable};
use crate::symbols::{
    program, program_end, scan_symbols, symbol_table, SymbolData, SymbolTable,
};
use vstd::prelude::*;
use vstd::string::StringExecFns;

verus! {

/// The width of an instruction, in binary digits.
pub const INSTRUCTION_WIDTH: usize = 16;

/// The line of output of one instruction, or the error that keeps it from
/// having one.
///
/// An A-instruction gives the sixteen binary digits of its constant, or of
/// the address that `table` holds for its symbol. A C-instruction gives
/// `111`, the bits of its computation, those of its destination and those of
/// its jump.
pub open spec fn instruction_line(item: ItemView, table: Map<Seq<char>, SymbolData>) -> Result<
    Seq<char>,
    AssembleErrorView,
>
    recommends
        item.is_instruction(),
{
    match item {
        ItemView::AInstruction(OperandView::Constant(text)) => match constant_value(text) {
            Some(value) => Ok(binary_digits(value, INSTRUCTION_WIDTH as nat)),
            None => Err(AssembleErrorView::InvalidConstant(text)),
        },
        ItemView::AInstruction(OperandView::Symbol(name)) => Ok(
            binary_digits(table[name].value as nat, INSTRUCTION_WIDTH as nat),
        ),
        ItemView::CInstruction { dest, comp, jump } => match comp_bits(comp) {
            None => Err(AssembleErrorView::InvalidComputation(comp)),
            Some(c) => match jump_bits(jump) {
                None => Err(AssembleErrorView::InvalidJump(jump)),
                Some(j) => Ok("111"@ + c + dest_bits(dest) + j),
            },
        },
        _ => Ok(Seq::empty()),
    }
}

/// The lines of output of `items`, one for each instruction and in their
/// order, or the error of the first instruction that has no line.
pub open spec fn output_lines(items: Seq<ItemView>, table: Map<Seq<char>, SymbolData>) -> Result<
    Seq<Seq<char>>,
    AssembleErrorView,
>
    decreases items.len(),
{
    if items.len() == 0 {
        Ok(Seq::empty())
    } else {
        match output_lines(items.drop_last(), table) {
            Err(e) => Err(e),
            Ok(lines) => if items.last().is_instruction() {
                match instruction_line(items.last(), table) {
                    Ok(line) => Ok(lines.push(line)),
                    Err(e) => Err(e),
                }
            } else {
                Ok(lines)
            },
        }
    }
}

/// The output of a program: the lines of its instructions, encoded with its
/// symbol table, or the first error on the way: one of the symbol table, or
/// else one of the encoding.
pub open spec fn assembly(items: Seq<ItemView>) -> Result<Seq<Seq<char>>, AssembleErrorView> {
    match symbol_table(items) {
        Err(e) => Err(e),
        Ok(table) => output_lines(program(items), table),
    }
}

/// What the result of an assembly holds, as a mathematical value.
pub open spec fn output_view(result: Result<Vec<String>, AssembleError>) -> Result<
    Seq<Seq<char>>,
    AssembleErrorView,
> {
    match result {
        Ok(lines) => Ok(lines.deep_view()),
        Err(e) => Err(e@),
    }
}

/// What the result of encoding one instruction holds, as a mathematical
/// value.
pub open spec fn line_view(result: Result<String, AssembleError>) -> Result<
    Seq<char>,
    AssembleErrorView,
> {
    match result {
        Ok(line) => Ok(line@),
        Err(e) => Err(e@),
    }
}

/// Whether `table` can resolve the operand of `item`: it holds the symbol of
/// an A-instruction, with an address of at most sixteen binary digits.
pub open spec fn resolves(table: Map<Seq<char>, SymbolData>, item: ItemView) -> bool {
    item matches ItemView::AInstruction(OperandView::Symbol(name)) ==> table.contains_key(name)
        && table[name].value <= u16::MAX
}

/// Encodes one instruction as a line of sixteen binary digits.
pub(crate) fn encode_instruction(item: &Item, table: &SymbolTable) -> (result: Result<
    String,
    AssembleError,
>)
    requires
        item@.is_instruction(),
        resolves(table@, item@),
    ensures
        line_view(result) == instruction_line(item@, table@),
{
    match item {
        Item::AInstruction(Operand::Constant(text)) => match parse_constant(text.as_str()) {
            Some(value) => Ok(binary_line(value)),
            None => Err(AssembleError::InvalidConstant(text.clone())),
        },
        Item::AInstruction(Operand::Symbol(name)) => {
            let address: u16 = match table.get(name.as_str()) {
                Some(data) => data.value as u16,
                None => 0,
            };
            Ok(binary_line(address))
        },
        Item::CInstruction { dest, comp, jump } => {
            match encode_comp(comp.as_str()) {
                None => Err(AssembleError::InvalidComputation(comp.clone())),
                Some(c) => match encode_jump(jump.as_str()) {
                    None => Err(AssembleError::InvalidJump(jump.clone())),
                    Some(j) => {
                        let mut line = String::from_str("111");
                        line.append(c);
                        line.append(encode_dest(dest.as_str()).as_str());
                        line.append(j);
                        Ok(line)
                    },
                },
            }
        },
        _ => Ok(String::new()),
    }
}

/// The encoding pass: the lines of the instructions among the first `end`
/// items.
fn encode_program(items: &Vec<Item>, end: usize, table: &SymbolTable) -> (result: Result<
    Vec<String>,
    AssembleError,
>)
    requires
        end <= items.len(),
        forall|i: int| 0 <= i < end ==> resolves(table@, #[trigger] items@[i]@),
    ensures
        output_view(result) == output_lines(items.deep_view().take(end as int), table@),
{
    let ghost all = items.deep_view().take(end as int);
    let mut lines: Vec<String> = Vec::new();
    assert(lines.deep_view() == Seq::<Seq<char>>::empty());
    let mut i: usize = 0;
    while i < end
        invariant
            i <= end <= items.len(),
            all == items.deep_view().take(end as int),
            forall|k: int| 0 <= k < end ==> resolves(table@, #[trigger] items@[k]@),
            output_lines(all.take(i as int), table@) == Ok::<_, AssembleErrorView>(
                lines.deep_view(),
            ),
        decreases end - i,
    {
        proof {
            assert(all.take(i + 1).drop_last() == all.take(i as int));
        }
        match &items[i] {
            Item::AInstruction(_) | Item::CInstruction { .. } => {
                match encode_instruction(&items[i], table) {
                    Ok(line) => {
                        let ghost earlier = lines.deep_view();
                        lines.push(line);
                        assert(lines.deep_view() == earlier.push(line@));
                    },
                    Err(e) => {
                        proof {
                            lemma_output_fails_for_good(all, table@, i + 1);
                        }
                        return Err(e);
                    },
                }
            },
            _ => {},
        }
        i += 1;
    }
    assert(all.take(end as int) == all);
    Ok(lines)
}

/// An error of the encoding of the first `n` items is the error of the
/// encoding of all of them.
pub proof fn lemma_output_fails_for_good(
    items: Seq<ItemView>,
    table: Map<Seq<char>, SymbolData>,
    n: int,
)
    requires
        0 <= n <= items.len(),
        output_lines(items.take(n), table) is Err,
    ensures
        output_lines(items, table) == output_lines(items.take(n), table),
    decreases items.len(),
{
    if n == items.len() {
        assert(items.take(n) == items);
    } else {
        assert(items.drop_last().take(n) == items.take(n));
        lemma_output_fails_for_good(items.drop_last(), table, n);
    }
}

/// Assembles a program: resolves its labels and variables, and encodes each
/// of its instructions as a line of sixteen binary digits.
///
/// The result is the value of [`assembly`] for the items: the lines in the
/// order of the instructions, or the first error. An error of the symbol
/// table comes before any error of the encoding. There is an output exactly
/// where the program is resolvable and each of its items is encodable; it
/// holds one line of sixteen binary digits for each instruction. Where there
/// is none, the program gives cause for the error.
pub fn assemble(items: &Vec<Item>) -> (result: Result<Vec<String>, AssembleError>)
    ensures
        output_view(result) == assembly(items.deep_view()),
        result is Ok <==> resolvable(items.deep_view()) && forall|i: int|
            0 <= i < program(items.deep_view()).len() ==> encodable(
                #[trigger] program(items.deep_view())[i],
            ),
        result matches Ok(lines) ==> lines.len() == instruction_count(
            program(items.deep_view()),
        ) && forall|k: int| 0 <= k < lines.len() ==> is_binary_line(#[trigger] lines[k]@),
        result matches Err(e) ==> is_assembly_error(items.deep_view(), e@),
{
    proof {
        lemma_assembly_exists(items.deep_view());
        if assembly(items.deep_view()) is Err {
            lemma_assembly_error(items.deep_view());
        }
    }
    let table = match scan_symbols(items) {
        Ok(table) => table,
        Err(e) => {
            return Err(e);
        },
    };
    let end: usize = program_end(items);
    proof {
        let views = items.deep_view();
        assert forall|i: int| 0 <= i < end implies resolves(table@, #[trigger] items@[i]@) by {
            if let ItemView::AInstruction(OperandView::Symbol(name)) = items@[i]@ {
                lemma_symbols_resolved(views, name, i);
                lemma_addresses_in_range(views, name);
            }
        }
    }
    let result = encode_program(items, end, &table);
    proof {
        if result is Ok {
            let lines = result->Ok_0;
            let views = items.deep_view();
            lemma_line_count(views);
            assert forall|k: int| 0 <= k < lines.len() implies is_binary_line(
                #[trigger] lines[k]@,
            ) by {
                lemma_lines_are_binary(views, k);
            }
        }
    }
    result
}

/// The output of a source text: the assembly of its items, or its first
/// syntax error.
pub open spec fn source_assembly(source: Seq<char>) -> Result<Seq<Seq<char>>, AssembleErrorView> {
    match parse_source(source) {
        Err(e) => Err(e),
        Ok(items) => assembly(items),
    }
}

/// Assembles a source text: parses it and assembles its items.
///
/// The result is the value of [`source_assembly`] for the text: one line of
/// sixteen binary digits for each instruction, in source order, or the first
/// error. A syntax error comes before any other.
pub fn assemble_source(source: &str) -> (result: Result<Vec<String>, AssembleError>)
    ensures
        output_view(result) == source_assembly(source@),
        result matches Ok(lines) ==> lines.len() <= ADDRESS_SPACE_SIZE && forall|k: int|
            0 <= k < lines.len() ==> is_binary_line(#[trigger] lines[k]@),
{
    match parse(source) {
        Ok(items) => assemble(&items),
        Err(e) => Err(e),
    }
}

/// The text of an output: its lines, each with a line feed after it.
pub open spec fn output_text(lines: Seq<Seq<char>>) -> Seq<char>
    decreases lines.len(),
{
    if lines.len() == 0 {
        Seq::empty()
    } else {
        output_text(lines.drop_last()) + lines.last() + seq!['\n']
    }
}

/// Joins the lines of an output into one text, each line with a line feed
/// after it.
pub fn render(lines: &Vec<String>) -> (text: String)
    ensures
        text@ == output_text(lines.deep_view()),
{
    let ghost all = lines.deep_view();
    let mut text = String::new();
    let mut i: usize = 0;
    while i < lines.len()
        invariant
            i <= lines.len(),
            all == lines.deep_view(),
            text@ == output_text(all.take(i as int)),
        decreases lines.len() - i,
    {
        proof {
            assert(all.take(i + 1).drop_last() == all.take(i as int));
            assert(all.take(i + 1).last() == lines[i as int]@);
        }
        text.append(lines[i].as_str());
        text.push('\n');
        i += 1;
    }
    assert(all.take(i as int) == all);
    text
}

} // verus!
