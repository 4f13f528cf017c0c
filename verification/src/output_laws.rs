//! What holds of every assembly and of the digits that it writes.

use crate::assembler::{
    assembly, instruction_line, output_lines, output_text, output_view, source_assembly,
    INSTRUCTION_WIDTH,
};
use crate::encoding::{
    binary_digits, comp_bits, constant_value, decimal_value, is_constant, is_digit,
    jump_bits, ADDRESS_SPACE_SIZE,
};
use crate::error::{AssembleError, AssembleErrorView};
use crate::grammar::{lines, parse_source};
use crate::grammar_laws::{
    is_valid_line, is_well_formed, lemma_parse_lines_exists, lemma_source_is_well_formed,
};
use crate::item::{instruction_count, ItemView, OperandView};
use crate::symbol_laws::{
    defines_label, is_symbol_error, lemma_label_address, lemma_symbol_error,
    lemma_symbol_table_exists, resolvable, uses_symbol,
};
use crate::symbols::{program, symbol_table, SymbolData};
use crate::text::{decimal_text, digit_char};
use vstd::arithmetic::power2::{lemma2_to64, lemma_pow2_unfold, pow2};
use vstd::prelude::*;

verus! {

/// Whether `line` is a line of output: sixteen characters, each of them `0`
/// or `1`.
pub open spec fn is_binary_line(line: Seq<char>) -> bool {
    &&& line.len() == INSTRUCTION_WIDTH
    &&& forall|k: int| 0 <= k < line.len() ==> #[trigger] line[k] == '0' || line[k] == '1'
}

/// Whether `text` holds `n` characters, each of them `0` or `1`.
pub open spec fn is_bits(text: Seq<char>, n: nat) -> bool {
    &&& text.len() == n
    &&& forall|k: int| 0 <= k < text.len() ==> #[trigger] text[k] == '0' || text[k] == '1'
}

/// Whether an instruction has a line of output: its constant is a decimal
/// number below 32768, or its computation and its jump are in the
/// instruction set.
pub open spec fn encodable(item: ItemView) -> bool {
    match item {
        ItemView::AInstruction(OperandView::Constant(text)) => constant_value(text) is Some,
        ItemView::CInstruction { dest, comp, jump } => comp_bits(comp) is Some && jump_bits(
            jump,
        ) is Some,
        _ => true,
    }
}

/// The binary digits of a number are as many as asked for, each `0` or `1`.
pub proof fn lemma_binary_digits_are_bits(value: nat, width: nat)
    ensures
        is_bits(binary_digits(value, width), width),
    decreases width,
{
    if width > 0 {
        lemma_binary_digits_are_bits(value / 2, (width - 1) as nat);
    }
}

/// The code of a computation is seven binary digits.
pub proof fn lemma_comp_bits_are_bits(comp: Seq<char>)
    requires
        comp_bits(comp) is Some,
    ensures
        is_bits(comp_bits(comp)->0, 7),
{
    reveal_strlit("0101010");
    reveal_strlit("0111111");
    reveal_strlit("0111010");
    reveal_strlit("0001100");
    reveal_strlit("0110000");
    reveal_strlit("1110000");
    reveal_strlit("0001101");
    reveal_strlit("0110001");
    reveal_strlit("1110001");
    reveal_strlit("0001111");
    reveal_strlit("0110011");
    reveal_strlit("1110011");
    reveal_strlit("0011111");
    reveal_strlit("0110111");
    reveal_strlit("1110111");
    reveal_strlit("0001110");
    reveal_strlit("0110010");
    reveal_strlit("1110010");
    reveal_strlit("0000010");
    reveal_strlit("1000010");
    reveal_strlit("0010011");
    reveal_strlit("1010011");
    reveal_strlit("0000111");
    reveal_strlit("1000111");
    reveal_strlit("0000000");
    reveal_strlit("1000000");
    reveal_strlit("0010101");
    reveal_strlit("1010101");
}

/// The code of a jump is three binary digits.
pub proof fn lemma_jump_bits_are_bits(jump: Seq<char>)
    requires
        jump_bits(jump) is Some,
    ensures
        is_bits(jump_bits(jump)->0, 3),
{
    reveal_strlit("000");
    reveal_strlit("001");
    reveal_strlit("010");
    reveal_strlit("011");
    reveal_strlit("100");
    reveal_strlit("101");
    reveal_strlit("110");
    reveal_strlit("111");
}

/// The line of an instruction is sixteen binary digits.
pub proof fn lemma_instruction_line_is_binary(item: ItemView, table: Map<Seq<char>, SymbolData>)
    requires
        item.is_instruction(),
        instruction_line(item, table) is Ok,
    ensures
        is_binary_line(instruction_line(item, table)->Ok_0),
{
    match item {
        ItemView::AInstruction(OperandView::Constant(text)) => {
            lemma_binary_digits_are_bits(constant_value(text)->0, INSTRUCTION_WIDTH as nat);
        },
        ItemView::AInstruction(OperandView::Symbol(name)) => {
            lemma_binary_digits_are_bits(table[name].value as nat, INSTRUCTION_WIDTH as nat);
        },
        ItemView::CInstruction { dest, comp, jump } => {
            lemma_comp_bits_are_bits(comp);
            lemma_jump_bits_are_bits(jump);
            reveal_strlit("111");
        },
        _ => {},
    }
}

/// An instruction has a line exactly where it is encodable.
pub proof fn lemma_instruction_line_exists(item: ItemView, table: Map<Seq<char>, SymbolData>)
    ensures
        instruction_line(item, table) is Ok <==> encodable(item),
{
}

/// The lines of `items`, one by one: there are as many lines as
/// instructions, and the line of the instruction at index `i` stands at the
/// number of instructions before it.
pub proof fn lemma_output_lines(items: Seq<ItemView>, table: Map<Seq<char>, SymbolData>, i: int)
    requires
        output_lines(items, table) is Ok,
        0 <= i < items.len(),
        items[i].is_instruction(),
    ensures
        output_lines(items, table)->Ok_0.len() == instruction_count(items),
        instruction_count(items.take(i)) < instruction_count(items),
        instruction_line(items[i], table) == Ok::<_, AssembleErrorView>(
            output_lines(items, table)->Ok_0[instruction_count(items.take(i)) as int],
        ),
    decreases items.len(),
{
    let before = items.drop_last();
    let last = items.len() - 1;
    lemma_output_count(items, table);
    lemma_output_count(before, table);
    if i < last {
        assert(before.take(i) == items.take(i));
        lemma_output_lines(before, table, i);
    }
}

/// There are as many lines as instructions.
pub proof fn lemma_output_count(items: Seq<ItemView>, table: Map<Seq<char>, SymbolData>)
    requires
        output_lines(items, table) is Ok,
    ensures
        output_lines(items, table)->Ok_0.len() == instruction_count(items),
    decreases items.len(),
{
    if items.len() > 0 {
        lemma_output_count(items.drop_last(), table);
    }
}

/// Every line of `items` is sixteen binary digits.
pub proof fn lemma_output_is_binary(items: Seq<ItemView>, table: Map<Seq<char>, SymbolData>, k: int)
    requires
        output_lines(items, table) is Ok,
        0 <= k < output_lines(items, table)->Ok_0.len(),
    ensures
        is_binary_line(output_lines(items, table)->Ok_0[k]),
    decreases items.len(),
{
    if items.len() > 0 {
        let before = items.drop_last();
        if k < output_lines(before, table)->Ok_0.len() {
            lemma_output_is_binary(before, table, k);
        } else {
            lemma_instruction_line_is_binary(items.last(), table);
        }
    }
}

/// The items have lines exactly where each of them is encodable.
pub proof fn lemma_output_exists(items: Seq<ItemView>, table: Map<Seq<char>, SymbolData>)
    ensures
        output_lines(items, table) is Ok <==> forall|i: int|
            0 <= i < items.len() ==> encodable(#[trigger] items[i]),
    decreases items.len(),
{
    if items.len() > 0 {
        let before = items.drop_last();
        lemma_output_exists(before, table);
        if forall|i: int| 0 <= i < items.len() ==> encodable(#[trigger] items[i]) {
            assert forall|i: int| 0 <= i < before.len() implies encodable(
                #[trigger] before[i],
            ) by {}
        }
        if output_lines(items, table) is Ok {
            assert forall|i: int| 0 <= i < items.len() implies encodable(#[trigger] items[i]) by {
                if i < before.len() {
                    assert(before[i] == items[i]);
                }
            }
        }
    }
}

/// A program has an output exactly where it is resolvable and each of its
/// items is encodable.
pub proof fn lemma_assembly_exists(items: Seq<ItemView>)
    ensures
        assembly(items) is Ok <==> resolvable(items) && forall|i: int|
            0 <= i < program(items).len() ==> encodable(#[trigger] program(items)[i]),
{
    lemma_symbol_table_exists(items);
    if symbol_table(items) is Ok {
        lemma_output_exists(program(items), symbol_table(items)->Ok_0);
    }
}

/// The output holds exactly one line for each instruction of the program,
/// in their order, and none for a label definition: there are as many lines
/// as instructions, and the line of the instruction at index `i` of the
/// program stands at the number of instructions before it.
pub proof fn lemma_one_line_per_instruction(items: Seq<ItemView>, i: int)
    requires
        assembly(items) is Ok,
        0 <= i < program(items).len(),
        program(items)[i].is_instruction(),
    ensures
        assembly(items)->Ok_0.len() == instruction_count(program(items)),
        instruction_count(program(items).take(i)) < assembly(items)->Ok_0.len(),
        instruction_line(program(items)[i], symbol_table(items)->Ok_0) == Ok::<
            _,
            AssembleErrorView,
        >(assembly(items)->Ok_0[instruction_count(program(items).take(i)) as int]),
{
    lemma_output_lines(program(items), symbol_table(items)->Ok_0, i);
}

/// The output has as many lines as the program has instructions.
pub proof fn lemma_line_count(items: Seq<ItemView>)
    requires
        assembly(items) is Ok,
    ensures
        assembly(items)->Ok_0.len() == instruction_count(program(items)),
        assembly(items)->Ok_0.len() <= ADDRESS_SPACE_SIZE,
{
    lemma_output_count(program(items), symbol_table(items)->Ok_0);
    lemma_symbol_table_exists(items);
}

/// Every line of the output is sixteen characters, each `0` or `1`.
pub proof fn lemma_lines_are_binary(items: Seq<ItemView>, k: int)
    requires
        assembly(items) is Ok,
        0 <= k < assembly(items)->Ok_0.len(),
    ensures
        is_binary_line(assembly(items)->Ok_0[k]),
{
    lemma_output_is_binary(program(items), symbol_table(items)->Ok_0, k);
}

/// A reference to a label gives the same line whether it stands before or
/// after the definition: the line of an A-instruction with the symbol of a
/// label is the address of the instruction that follows the definition,
/// wherever the two stand.
pub proof fn lemma_label_reference(items: Seq<ItemView>, name: Seq<char>, i: int, j: int)
    requires
        assembly(items) is Ok,
        uses_symbol(program(items), name, i),
        defines_label(program(items), name, j),
    ensures
        instruction_count(program(items).take(i)) < assembly(items)->Ok_0.len(),
        assembly(items)->Ok_0[instruction_count(program(items).take(i)) as int] == binary_digits(
            instruction_count(program(items).take(j)),
            INSTRUCTION_WIDTH as nat,
        ),
{
    lemma_one_line_per_instruction(items, i);
    lemma_label_address(items, name, j);
}

/// Whether the constant of `item` is below 32768, where it has one.
pub open spec fn is_in_range(item: ItemView) -> bool {
    item matches ItemView::AInstruction(OperandView::Constant(text)) ==> constant_value(
        text,
    ) is Some
}

/// A well-formed item is encodable exactly where its constant is in range.
pub proof fn lemma_well_formed_is_encodable(item: ItemView)
    requires
        is_well_formed(item),
    ensures
        encodable(item) <==> is_in_range(item),
{
    if let ItemView::CInstruction { dest, comp, jump } = item {
        if jump.len() == 0 {
            reveal_strlit("");
            assert(jump == ""@);
        }
    }
}

/// A source text has an output exactly where each of its lines is in the
/// language, its items are resolvable and each of its constants is below
/// 32768.
pub proof fn lemma_source_assembly_exists(source: Seq<char>)
    ensures
        source_assembly(source) is Ok <==> ({
            &&& forall|k: int|
                0 <= k < lines(source).len() ==> is_valid_line(#[trigger] lines(source)[k])
            &&& resolvable(parse_source(source)->Ok_0)
            &&& forall|i: int|
                0 <= i < parse_source(source)->Ok_0.len() ==> is_in_range(
                    #[trigger] parse_source(source)->Ok_0[i],
                )
        }),
{
    lemma_parse_lines_exists(lines(source));
    if parse_source(source) is Ok {
        let items = parse_source(source)->Ok_0;
        let p = program(items);
        lemma_source_is_well_formed(source);
        lemma_assembly_exists(items);
        assert forall|i: int| 0 <= i < p.len() implies (encodable(#[trigger] p[i]) <==> is_in_range(
            items[i],
        )) by {
            lemma_well_formed_is_encodable(items[i]);
        }
        if source_assembly(source) is Ok {
            assert forall|i: int| 0 <= i < items.len() implies is_in_range(#[trigger] items[i]) by {
                if i < p.len() {
                    assert(encodable(p[i]));
                }
            }
        } else if resolvable(items) && forall|i: int|
            0 <= i < items.len() ==> is_in_range(#[trigger] items[i]) {
            assert forall|i: int| 0 <= i < p.len() implies encodable(#[trigger] p[i]) by {}
        }
    }
}

/// Every line of the output of a source text is sixteen characters, each
/// `0` or `1`, and there are at most 32768 of them.
pub proof fn lemma_source_lines_are_binary(source: Seq<char>, k: int)
    requires
        source_assembly(source) is Ok,
        0 <= k < source_assembly(source)->Ok_0.len(),
    ensures
        is_binary_line(source_assembly(source)->Ok_0[k]),
        source_assembly(source)->Ok_0.len() <= ADDRESS_SPACE_SIZE,
{
    lemma_lines_are_binary(parse_source(source)->Ok_0, k);
    lemma_line_count(parse_source(source)->Ok_0);
}

/// Assembly is deterministic: two results for one source text hold the same
/// lines, or the same error.
pub proof fn lemma_assembly_is_deterministic(
    source: Seq<char>,
    first: Result<Vec<String>, AssembleError>,
    second: Result<Vec<String>, AssembleError>,
)
    requires
        output_view(first) == source_assembly(source),
        output_view(second) == source_assembly(source),
    ensures
        output_view(first) == output_view(second),
{
}

/// The number that binary digits write, the highest digit first.
pub open spec fn binary_value(digits: Seq<char>) -> nat
    decreases digits.len(),
{
    if digits.len() == 0 {
        0
    } else {
        binary_value(digits.drop_last()) * 2 + if digits.last() == '1' {
            1nat
        } else {
            0nat
        }
    }
}

/// Binary digits write the number that they were made from, where it fits
/// in their width.
pub proof fn lemma_binary_digits_write_the_value(value: nat, width: nat)
    requires
        value < pow2(width),
    ensures
        binary_value(binary_digits(value, width)) == value,
    decreases width,
{
    if width > 0 {
        lemma_pow2_unfold(width);
        lemma_binary_digits_write_the_value(value / 2, (width - 1) as nat);
        assert(binary_digits(value, width).drop_last() == binary_digits(
            value / 2,
            (width - 1) as nat,
        ));
    } else {
        lemma2_to64();
    }
}

/// The line of an A-instruction writes its value: for every address, the
/// sixteen binary digits write the address.
pub proof fn lemma_line_writes_the_address(address: nat)
    requires
        address <= ADDRESS_SPACE_SIZE,
    ensures
        binary_value(binary_digits(address, INSTRUCTION_WIDTH as nat)) == address,
{
    lemma2_to64();
    lemma_binary_digits_write_the_value(address, INSTRUCTION_WIDTH as nat);
}

/// The character of a digit is a decimal digit, as far above `0` as the
/// digit says.
pub proof fn lemma_digit_char(d: nat)
    requires
        d < 10,
    ensures
        is_digit(digit_char(d)),
        digit_char(d) as nat - '0' as nat == d,
{
}

/// The decimal text of a number is a decimal literal that writes the number.
pub proof fn lemma_decimal_text_writes_the_number(n: nat)
    ensures
        is_constant(decimal_text(n)),
        decimal_value(decimal_text(n)) == n,
    decreases n,
{
    lemma_digit_char(n % 10);
    if n >= 10 {
        lemma_decimal_text_writes_the_number(n / 10);
        assert(decimal_text(n).drop_last() == decimal_text(n / 10));
    } else {
        assert(decimal_text(n).drop_last() == Seq::<char>::empty());
        assert(decimal_value(Seq::<char>::empty()) == 0);
    }
}

/// Whether an A-instruction of `items` holds the constant `text`.
pub open spec fn has_constant(items: Seq<ItemView>, text: Seq<char>) -> bool {
    exists|i: int|
        0 <= i < items.len() && #[trigger] items[i] == ItemView::AInstruction(
            OperandView::Constant(text),
        )
}

/// Whether a C-instruction of `items` holds the computation `comp`.
pub open spec fn has_computation(items: Seq<ItemView>, comp: Seq<char>) -> bool {
    exists|i: int|
        0 <= i < items.len() && (#[trigger] items[i]) is CInstruction && items[i]->comp == comp
}

/// Whether a C-instruction of `items` holds the jump `jump`.
pub open spec fn has_jump(items: Seq<ItemView>, jump: Seq<char>) -> bool {
    exists|i: int|
        0 <= i < items.len() && (#[trigger] items[i]) is CInstruction && items[i]->jump == jump
}

/// Whether `items` give cause for the error `error` of the encoding: a
/// constant, a computation or a jump of theirs that has no code.
pub open spec fn is_encoding_error(items: Seq<ItemView>, error: AssembleErrorView) -> bool {
    match error {
        AssembleErrorView::InvalidConstant(text) => constant_value(text) is None && has_constant(
            items,
            text,
        ),
        AssembleErrorView::InvalidComputation(comp) => comp_bits(comp) is None
            && has_computation(items, comp),
        AssembleErrorView::InvalidJump(jump) => jump_bits(jump) is None && has_jump(items, jump),
        _ => false,
    }
}

/// The encoding fails only with an error that the items give cause for.
pub proof fn lemma_encoding_error(items: Seq<ItemView>, table: Map<Seq<char>, SymbolData>)
    requires
        output_lines(items, table) is Err,
    ensures
        is_encoding_error(items, output_lines(items, table)->Err_0),
    decreases items.len(),
{
    let before = items.drop_last();
    let last = items.len() - 1;
    if output_lines(before, table) is Err {
        lemma_encoding_error(before, table);
        match output_lines(before, table)->Err_0 {
            AssembleErrorView::InvalidConstant(text) => {
                let i = choose|i: int|
                    0 <= i < before.len() && #[trigger] before[i] == ItemView::AInstruction(
                        OperandView::Constant(text),
                    );
                assert(items[i] == before[i]);
            },
            AssembleErrorView::InvalidComputation(comp) => {
                let i = choose|i: int|
                    0 <= i < before.len() && (#[trigger] before[i]) is CInstruction
                        && before[i]->comp == comp;
                assert(items[i] == before[i]);
            },
            AssembleErrorView::InvalidJump(jump) => {
                let i = choose|i: int|
                    0 <= i < before.len() && (#[trigger] before[i]) is CInstruction
                        && before[i]->jump == jump;
                assert(items[i] == before[i]);
            },
            _ => {},
        }
    } else {
        assert(items[last] == items.last());
    }
}

/// Whether a program gives cause for the error `error` of its assembly: a
/// cause for an error of its symbol table or of the encoding. A syntax
/// error is neither.
pub open spec fn is_assembly_error(items: Seq<ItemView>, error: AssembleErrorView) -> bool {
    is_symbol_error(items, error) || is_encoding_error(program(items), error)
}

/// An assembly fails only with an error that the program gives cause for.
pub proof fn lemma_assembly_error(items: Seq<ItemView>)
    requires
        assembly(items) is Err,
    ensures
        is_assembly_error(items, assembly(items)->Err_0),
{
    if symbol_table(items) is Err {
        lemma_symbol_error(items);
    } else {
        lemma_encoding_error(program(items), symbol_table(items)->Ok_0);
    }
}

/// The text of an output holds seventeen characters for each line: its
/// sixteen digits and the line feed.
pub proof fn lemma_output_text_len(lines: Seq<Seq<char>>)
    requires
        forall|k: int| 0 <= k < lines.len() ==> is_binary_line(#[trigger] lines[k]),
    ensures
        output_text(lines).len() == (INSTRUCTION_WIDTH + 1) * lines.len(),
    decreases lines.len(),
{
    if lines.len() > 0 {
        let before = lines.drop_last();
        assert forall|k: int| 0 <= k < before.len() implies is_binary_line(
            #[trigger] before[k],
        ) by {
            assert(before[k] == lines[k]);
        }
        lemma_output_text_len(before);
        assert(is_binary_line(lines[lines.len() - 1]));
        assert((INSTRUCTION_WIDTH + 1) * lines.len() == (INSTRUCTION_WIDTH + 1) * before.len()
            + (INSTRUCTION_WIDTH + 1)) by (nonlinear_arith)
            requires
                lines.len() == before.len() + 1,
        ;
    }
}

} // verus!
