//! What holds of every symbol table.

use crate::encoding::ADDRESS_SPACE_SIZE;
use crate::error::AssembleErrorView;
use crate::item::{instruction_count, ItemView, OperandView};
use crate::search::{first_index, lemma_first_index, lemma_first_index_is};
use crate::symbols::{
    lemma_with_variables_names, predefined_address, predefined_symbols, program, scan_labels,
    symbol_table, variables, with_variables, SymbolData, RESERVED_REGISTERS,
};
use vstd::prelude::*;

verus! {

/// Whether the item at index `j` of `items` defines the label `name`.
pub open spec fn defines_label(items: Seq<ItemView>, name: Seq<char>, j: int) -> bool {
    0 <= j < items.len() && items[j] == ItemView::LabelDefinition(name)
}

/// Whether the item at index `i` of `items` is an A-instruction with the
/// symbol `name`.
pub open spec fn uses_symbol(items: Seq<ItemView>, name: Seq<char>, i: int) -> bool {
    0 <= i < items.len() && items[i] == ItemView::AInstruction(OperandView::Symbol(name))
}

/// The table of a label pass without error, name by name: a predefined
/// symbol keeps its address, a label stands for the number of instructions
/// before its definition, and the table holds no other name. No label is
/// named like a predefined symbol, and at most 32768 instructions were seen.
pub proof fn lemma_label_table(items: Seq<ItemView>, name: Seq<char>)
    requires
        scan_labels(items) is Ok,
    ensures
        instruction_count(items) <= ADDRESS_SPACE_SIZE,
        predefined_address(name) is Some ==> scan_labels(items)->Ok_0.contains_key(name)
            && scan_labels(items)->Ok_0[name] == predefined_symbols()[name],
        predefined_address(name) is None ==> (scan_labels(items)->Ok_0.contains_key(name)
            <==> exists|j: int| defines_label(items, name, j)),
        forall|j: int| #[trigger]
            defines_label(items, name, j) ==> predefined_address(name) is None && scan_labels(
                items,
            )->Ok_0[name] == (SymbolData {
                value: instruction_count(items.take(j)) as usize,
                is_predefined: false,
            }),
    decreases items.len(),
{
    if items.len() > 0 {
        let before = items.drop_last();
        let last = items.len() - 1;
        lemma_label_table(before, name);
        assert forall|j: int| 0 <= j <= last implies #[trigger] items.take(j) == before.take(j) by {}
        assert forall|j: int| j != last implies defines_label(items, name, j) == defines_label(
            before,
            name,
            j,
        ) by {}
        if items[last] == ItemView::LabelDefinition(name) {
            assert(defines_label(items, name, last));
        } else {
            if exists|j: int| defines_label(items, name, j) {
                let j = choose|j: int| defines_label(items, name, j);
                assert(defines_label(before, name, j));
            }
        }
    }
}

/// The variables of `items`: each is the symbol of an A-instruction and not
/// among the `known` names, none occurs twice, and every symbol of an
/// A-instruction is a known name or a variable.
pub proof fn lemma_variables(items: Seq<ItemView>, known: Set<Seq<char>>)
    ensures
        variables(items, known).no_duplicates(),
        forall|k: int|
            0 <= k < variables(items, known).len() ==> !known.contains(
                #[trigger] variables(items, known)[k],
            ) && exists|i: int| uses_symbol(items, variables(items, known)[k], i),
        forall|name: Seq<char>, i: int| #[trigger]
            uses_symbol(items, name, i) ==> known.contains(name) || variables(
                items,
                known,
            ).contains(name),
    decreases items.len(),
{
    let vars = variables(items, known);
    if items.len() > 0 {
        let before = items.drop_last();
        let earlier = variables(before, known);
        lemma_variables(before, known);
        assert forall|k: int| 0 <= k < vars.len() implies !known.contains(#[trigger] vars[k])
            && exists|i: int| uses_symbol(items, vars[k], i) by {
            if k < earlier.len() {
                let i = choose|i: int| uses_symbol(before, earlier[k], i);
                assert(uses_symbol(items, vars[k], i));
            } else {
                assert(uses_symbol(items, vars[k], items.len() - 1));
            }
        }
        assert forall|name: Seq<char>, i: int| #[trigger]
            uses_symbol(items, name, i) implies known.contains(name) || vars.contains(name) by {
            if i < items.len() - 1 {
                assert(uses_symbol(before, name, i));
                if earlier.contains(name) {
                    let k = choose|k: int| 0 <= k < earlier.len() && earlier[k] == name;
                    assert(vars[k] == name);
                }
            } else if !known.contains(name) && !earlier.contains(name) {
                assert(vars[earlier.len() as int] == name);
            } else if earlier.contains(name) {
                let k = choose|k: int| 0 <= k < earlier.len() && earlier[k] == name;
                assert(vars[k] == name);
            }
        }
    }
}

/// A table with variables added, name by name: the names of the table keep
/// what they stood for, and the variable at index `k` stands for the address
/// `16 + k`.
pub proof fn lemma_with_variables(
    table: Map<Seq<char>, SymbolData>,
    vars: Seq<Seq<char>>,
    name: Seq<char>,
)
    requires
        vars.no_duplicates(),
        forall|k: int| 0 <= k < vars.len() ==> !table.contains_key(#[trigger] vars[k]),
    ensures
        with_variables(table, vars).contains_key(name) <==> table.contains_key(name)
            || vars.contains(name),
        table.contains_key(name) ==> with_variables(table, vars)[name] == table[name],
        forall|k: int|
            0 <= k < vars.len() && #[trigger] vars[k] == name ==> with_variables(
                table,
                vars,
            )[name] == (SymbolData {
                value: (RESERVED_REGISTERS + k) as usize,
                is_predefined: false,
            }),
    decreases vars.len(),
{
    lemma_with_variables_names(table, vars, name);
    if vars.len() > 0 {
        let earlier = vars.drop_last();
        lemma_with_variables(table, earlier, name);
        assert forall|k: int| 0 <= k < earlier.len() implies earlier[k] == vars[k] by {}
    }
}

/// The instructions among the first `n` items are at most those among all.
pub proof fn lemma_instruction_count_grows(items: Seq<ItemView>, n: int)
    requires
        0 <= n <= items.len(),
    ensures
        instruction_count(items.take(n)) <= instruction_count(items),
    decreases items.len(),
{
    if n == items.len() {
        assert(items.take(n) == items);
    } else {
        assert(items.drop_last().take(n) == items.take(n));
        lemma_instruction_count_grows(items.drop_last(), n);
    }
}

/// The table of a program holds the symbol of each of its A-instructions.
pub proof fn lemma_symbols_resolved(items: Seq<ItemView>, name: Seq<char>, i: int)
    requires
        symbol_table(items) is Ok,
        uses_symbol(program(items), name, i),
    ensures
        symbol_table(items)->Ok_0.contains_key(name),
{
    let labels = scan_labels(program(items))->Ok_0;
    let vars = variables(program(items), labels.dom());
    lemma_variables(program(items), labels.dom());
    lemma_with_variables(labels, vars, name);
}

/// No address of a program's table is above 32768, and none is 32768 unless
/// the program holds 32768 instructions: then a label that is defined after
/// the last of them stands for 32768.
pub proof fn lemma_addresses_in_range(items: Seq<ItemView>, name: Seq<char>)
    requires
        symbol_table(items) is Ok,
        symbol_table(items)->Ok_0.contains_key(name),
    ensures
        symbol_table(items)->Ok_0[name].value <= ADDRESS_SPACE_SIZE,
        instruction_count(program(items)) < ADDRESS_SPACE_SIZE ==> symbol_table(
            items,
        )->Ok_0[name].value < ADDRESS_SPACE_SIZE,
{
    let p = program(items);
    let labels = scan_labels(p)->Ok_0;
    let vars = variables(p, labels.dom());
    lemma_variables(p, labels.dom());
    lemma_with_variables(labels, vars, name);
    lemma_label_table(p, name);
    if labels.contains_key(name) {
        if predefined_address(name) is None {
            let j = choose|j: int| defines_label(p, name, j);
            lemma_instruction_count_grows(p, j);
        }
    } else {
        let k = choose|k: int| 0 <= k < vars.len() && vars[k] == name;
        assert(vars[k] == name);
    }
}

/// A label stands for the address of the instruction that follows its
/// definition: in the table of a program, the label that the item at index
/// `j` defines stands for the number of instructions before that item, is
/// not predefined, and is defined nowhere else.
pub proof fn lemma_label_address(items: Seq<ItemView>, name: Seq<char>, j: int)
    requires
        symbol_table(items) is Ok,
        defines_label(program(items), name, j),
    ensures
        symbol_table(items)->Ok_0.contains_key(name),
        symbol_table(items)->Ok_0[name] == (SymbolData {
            value: instruction_count(program(items).take(j)) as usize,
            is_predefined: false,
        }),
        instruction_count(program(items).take(j)) <= ADDRESS_SPACE_SIZE,
        forall|k: int| defines_label(program(items), name, k) ==> k == j,
{
    let p = program(items);
    let labels = scan_labels(p)->Ok_0;
    let vars = variables(p, labels.dom());
    lemma_label_table(p, name);
    lemma_variables(p, labels.dom());
    lemma_with_variables(labels, vars, name);
    lemma_instruction_count_grows(p, j);
    assert forall|k: int| defines_label(p, name, k) implies k == j by {
        lemma_label_defined_once(p, name, j, k);
    }
}

/// After a label pass without error no two items define the same label.
pub proof fn lemma_label_defined_once(items: Seq<ItemView>, name: Seq<char>, j: int, k: int)
    requires
        scan_labels(items) is Ok,
        defines_label(items, name, j),
        defines_label(items, name, k),
    ensures
        j == k,
    decreases items.len(),
{
    let before = items.drop_last();
    let last = items.len() - 1;
    if j < last && k < last {
        lemma_label_defined_once(before, name, j, k);
    } else if j != k {
        let other = if j < last {
            j
        } else {
            k
        };
        assert(defines_label(before, name, other));
        lemma_label_table(before, name);
    }
}

/// Predefined symbols are never labels or variables: in the table of a
/// program each of them stands for its own address and is marked as
/// predefined.
pub proof fn lemma_predefined_kept(items: Seq<ItemView>, name: Seq<char>)
    requires
        symbol_table(items) is Ok,
        predefined_address(name) is Some,
    ensures
        symbol_table(items)->Ok_0.contains_key(name),
        symbol_table(items)->Ok_0[name] == (SymbolData {
            value: predefined_address(name)->0,
            is_predefined: true,
        }),
{
    let p = program(items);
    let labels = scan_labels(p)->Ok_0;
    lemma_label_table(p, name);
    lemma_variables(p, labels.dom());
    lemma_with_variables(labels, variables(p, labels.dom()), name);
}

/// A program that defines a label with the name of a predefined symbol has
/// no symbol table.
pub proof fn lemma_predefined_label_fails(items: Seq<ItemView>, name: Seq<char>, j: int)
    requires
        defines_label(program(items), name, j),
        predefined_address(name) is Some,
    ensures
        symbol_table(items) is Err,
{
    if scan_labels(program(items)) is Ok {
        lemma_label_table(program(items), name);
    }
}

/// The names that a program cannot use for a variable: the predefined
/// symbols and the labels that it defines.
pub open spec fn known_names(items: Seq<ItemView>) -> Set<Seq<char>> {
    Set::new(
        |name: Seq<char>|
            predefined_address(name) is Some || exists|j: int| defines_label(items, name, j),
    )
}

/// The variables of a program, in the order in which they first occur: the
/// symbols of its A-instructions that are neither predefined nor labels.
pub open spec fn program_variables(items: Seq<ItemView>) -> Seq<Seq<char>> {
    variables(program(items), known_names(program(items)))
}

/// Whether a program has a symbol table: it holds at most 32768
/// instructions, none of its labels is named like a predefined symbol or
/// defined twice, and its variables fit between address 16 and the end of
/// the address space.
pub open spec fn resolvable(items: Seq<ItemView>) -> bool {
    let p = program(items);
    &&& instruction_count(p) <= ADDRESS_SPACE_SIZE
    &&& forall|name: Seq<char>, j: int| #[trigger]
        defines_label(p, name, j) ==> predefined_address(name) is None
    &&& forall|name: Seq<char>, j: int, k: int|
        #![trigger defines_label(p, name, j), defines_label(p, name, k)]
        defines_label(p, name, j) && defines_label(p, name, k) ==> j == k
    &&& RESERVED_REGISTERS + program_variables(items).len() <= ADDRESS_SPACE_SIZE
}

/// The names of the table of a label pass without error are the predefined
/// symbols and the labels.
pub proof fn lemma_label_table_names(items: Seq<ItemView>)
    requires
        scan_labels(items) is Ok,
    ensures
        scan_labels(items)->Ok_0.dom() == known_names(items),
{
    let labels = scan_labels(items)->Ok_0;
    assert forall|name: Seq<char>| labels.dom().contains(name) == known_names(items).contains(
        name,
    ) by {
        lemma_label_table(items, name);
    }
}

/// The label pass has no error where there are at most 32768 instructions
/// and no label is named like a predefined symbol or defined twice.
pub proof fn lemma_scan_labels_succeeds(items: Seq<ItemView>)
    requires
        instruction_count(items) <= ADDRESS_SPACE_SIZE,
        forall|name: Seq<char>, j: int| #[trigger]
            defines_label(items, name, j) ==> predefined_address(name) is None,
        forall|name: Seq<char>, j: int, k: int|
            #![trigger defines_label(items, name, j), defines_label(items, name, k)]
            defines_label(items, name, j) && defines_label(items, name, k) ==> j == k,
    ensures
        scan_labels(items) is Ok,
    decreases items.len(),
{
    if items.len() > 0 {
        let before = items.drop_last();
        let last = items.len() - 1;
        assert forall|name: Seq<char>, j: int| #[trigger]
            defines_label(before, name, j) implies defines_label(items, name, j) by {}
        lemma_scan_labels_succeeds(before);
        if let ItemView::LabelDefinition(name) = items[last] {
            lemma_label_table(before, name);
            assert(defines_label(items, name, last));
            if exists|j: int| defines_label(before, name, j) {
                let j = choose|j: int| defines_label(before, name, j);
                assert(defines_label(items, name, j));
            }
        }
    }
}

/// A program has a symbol table exactly where it is resolvable.
pub proof fn lemma_symbol_table_exists(items: Seq<ItemView>)
    ensures
        symbol_table(items) is Ok <==> resolvable(items),
{
    let p = program(items);
    if scan_labels(p) is Ok {
        lemma_label_table_names(p);
        assert forall|name: Seq<char>, j: int| #[trigger]
            defines_label(p, name, j) implies predefined_address(name) is None by {
            lemma_label_table(p, name);
        }
        assert forall|name: Seq<char>, j: int, k: int|
            #![trigger defines_label(p, name, j), defines_label(p, name, k)]
            defines_label(p, name, j) && defines_label(p, name, k) implies j == k by {
            lemma_label_defined_once(p, name, j, k);
        }
        lemma_label_table(p, Seq::empty());
    } else if resolvable(items) {
        lemma_scan_labels_succeeds(p);
    }
}

/// The indices of `items` at which an A-instruction with the symbol `name`
/// stands.
pub open spec fn uses(items: Seq<ItemView>, name: Seq<char>) -> spec_fn(int) -> bool {
    |i: int| items[i] == ItemView::AInstruction(OperandView::Symbol(name))
}

/// The index of the first A-instruction of `items` with the symbol `name`,
/// or the number of items where there is none.
pub open spec fn first_use(items: Seq<ItemView>, name: Seq<char>) -> nat {
    first_index(items.len(), uses(items, name))
}

/// The variables of a program are the symbols of its A-instructions that
/// are neither predefined nor labels, each of them once.
pub proof fn lemma_variables_are_the_new_symbols(items: Seq<ItemView>, name: Seq<char>)
    ensures
        program_variables(items).no_duplicates(),
        program_variables(items).contains(name) <==> !known_names(program(items)).contains(name)
            && exists|i: int| uses_symbol(program(items), name, i),
{
    let p = program(items);
    let vars = program_variables(items);
    lemma_variables(p, known_names(p));
    if vars.contains(name) {
        let k = choose|k: int| 0 <= k < vars.len() && vars[k] == name;
        assert(!known_names(p).contains(vars[k]));
    }
}

/// Variables get the addresses from 16 up, in their order: in the table of
/// a program the variable at index `k` stands for the address `16 + k`,
/// which is below 32768, and is not predefined.
pub proof fn lemma_variable_address(items: Seq<ItemView>, k: int)
    requires
        symbol_table(items) is Ok,
        0 <= k < program_variables(items).len(),
    ensures
        symbol_table(items)->Ok_0.contains_key(program_variables(items)[k]),
        symbol_table(items)->Ok_0[program_variables(items)[k]] == (SymbolData {
            value: (RESERVED_REGISTERS + k) as usize,
            is_predefined: false,
        }),
        RESERVED_REGISTERS + k < ADDRESS_SPACE_SIZE,
{
    let p = program(items);
    let labels = scan_labels(p)->Ok_0;
    let vars = program_variables(items);
    lemma_label_table_names(p);
    lemma_variables(p, known_names(p));
    lemma_with_variables(labels, vars, vars[k]);
}

/// The table of a program holds the predefined symbols, its labels and its
/// variables, and no other name.
pub proof fn lemma_table_names(items: Seq<ItemView>, name: Seq<char>)
    requires
        symbol_table(items) is Ok,
    ensures
        symbol_table(items)->Ok_0.contains_key(name) <==> known_names(program(items)).contains(
            name,
        ) || program_variables(items).contains(name),
{
    let p = program(items);
    let labels = scan_labels(p)->Ok_0;
    lemma_label_table_names(p);
    lemma_variables(p, known_names(p));
    lemma_with_variables(labels, program_variables(items), name);
}

/// The first use of a symbol among the first `n` items is its first use
/// among all of them.
proof fn lemma_first_use_stays(items: Seq<ItemView>, name: Seq<char>, n: int)
    requires
        0 <= n <= items.len(),
        first_use(items.take(n), name) < n,
    ensures
        first_use(items, name) == first_use(items.take(n), name),
{
    let k = first_use(items.take(n), name) as int;
    lemma_first_index(items.take(n).len(), uses(items.take(n), name));
    assert forall|j: int| 0 <= j < k implies !#[trigger] uses(items, name)(j) by {
        assert(!uses(items.take(n), name)(j));
    }
    lemma_first_index_is(items.len(), uses(items, name), k);
}

/// The variables of `items` stand in the order of their first uses.
pub proof fn lemma_variables_in_order(items: Seq<ItemView>, known: Set<Seq<char>>)
    ensures
        forall|k: int|
            0 <= k < variables(items, known).len() ==> first_use(
                items,
                #[trigger] variables(items, known)[k],
            ) < items.len(),
        forall|j: int, k: int|
            0 <= j < k < variables(items, known).len() ==> first_use(
                items,
                #[trigger] variables(items, known)[j],
            ) < first_use(items, #[trigger] variables(items, known)[k]),
    decreases items.len(),
{
    let vars = variables(items, known);
    if items.len() > 0 {
        let before = items.drop_last();
        let last = items.len() - 1;
        let earlier = variables(before, known);
        lemma_variables_in_order(before, known);
        lemma_variables(before, known);
        assert forall|k: int| 0 <= k < earlier.len() implies first_use(
            items,
            #[trigger] earlier[k],
        ) == first_use(before, earlier[k]) by {
            lemma_first_use_stays(items, earlier[k], last);
        }
        if vars.len() > earlier.len() {
            let name = vars[earlier.len() as int];
            assert forall|i: int| 0 <= i < last implies !#[trigger] uses(items, name)(i) by {
                if uses(items, name)(i) {
                    assert(uses_symbol(before, name, i));
                }
            }
            lemma_first_index_is(items.len(), uses(items, name), last);
        }
        assert forall|k: int| 0 <= k < vars.len() implies first_use(items, #[trigger] vars[k])
            < items.len() by {}
        assert forall|j: int, k: int| 0 <= j < k < vars.len() implies first_use(
            items,
            #[trigger] vars[j],
        ) < first_use(items, #[trigger] vars[k]) by {}
    }
}

/// The order of the variables is that of their first occurrence: of two
/// variables of a program, the one with the lower address is first used
/// before the other is.
pub proof fn lemma_variables_in_order_of_first_use(items: Seq<ItemView>, j: int, k: int)
    requires
        0 <= j < k < program_variables(items).len(),
    ensures
        first_use(program(items), program_variables(items)[j]) < first_use(
            program(items),
            program_variables(items)[k],
        ),
        first_use(program(items), program_variables(items)[k]) < program(items).len(),
{
    lemma_variables_in_order(program(items), known_names(program(items)));
}

/// Whether two of the `items` define the label `name`.
pub open spec fn is_defined_twice(items: Seq<ItemView>, name: Seq<char>) -> bool {
    exists|j: int, k: int|
        j < k && #[trigger] defines_label(items, name, j) && #[trigger] defines_label(
            items,
            name,
            k,
        )
}

/// Whether `items` give cause for the error `error` of the label pass: a
/// label named like a predefined symbol, a label defined twice, or more than
/// 32768 instructions.
pub open spec fn is_label_error(items: Seq<ItemView>, error: AssembleErrorView) -> bool {
    match error {
        AssembleErrorView::RedefinesPredefined(name) => predefined_address(name) is Some
            && exists|j: int| defines_label(items, name, j),
        AssembleErrorView::DuplicateLabel(name) => is_defined_twice(items, name),
        AssembleErrorView::ProgramTooLarge => instruction_count(items) > ADDRESS_SPACE_SIZE,
        _ => false,
    }
}

/// The label pass fails only with an error that the items give cause for.
pub proof fn lemma_label_error(items: Seq<ItemView>)
    requires
        scan_labels(items) is Err,
    ensures
        is_label_error(items, scan_labels(items)->Err_0),
    decreases items.len(),
{
    let before = items.drop_last();
    let last = items.len() - 1;
    assert(instruction_count(items) >= instruction_count(before));
    if scan_labels(before) is Err {
        lemma_label_error(before);
        match scan_labels(before)->Err_0 {
            AssembleErrorView::RedefinesPredefined(name) => {
                let j = choose|j: int| defines_label(before, name, j);
                assert(defines_label(items, name, j));
            },
            AssembleErrorView::DuplicateLabel(name) => {
                let (j, k) = choose|j: int, k: int|
                    j < k && #[trigger] defines_label(before, name, j) && #[trigger] defines_label(
                        before,
                        name,
                        k,
                    );
                assert(j < k && defines_label(items, name, j) && defines_label(items, name, k));
            },
            _ => {},
        }
    } else if let ItemView::LabelDefinition(name) = items[last] {
        lemma_label_table(before, name);
        if predefined_address(name) is None {
            let j = choose|j: int| defines_label(before, name, j);
            assert(j < last && defines_label(items, name, j) && defines_label(items, name, last));
        }
    }
}

/// A program of more than 32768 instructions has no symbol table, and one
/// without label definitions fails as too large. No program of at most
/// 32768 instructions fails as too large.
pub proof fn lemma_program_too_large(items: Seq<ItemView>)
    ensures
        instruction_count(program(items)) > ADDRESS_SPACE_SIZE ==> symbol_table(items) is Err,
        instruction_count(program(items)) > ADDRESS_SPACE_SIZE && (forall|
            name: Seq<char>,
            j: int,
        |
            !defines_label(program(items), name, j)) ==> symbol_table(items) == Err::<
            Map<Seq<char>, SymbolData>,
            _,
        >(AssembleErrorView::ProgramTooLarge),
        symbol_table(items) == Err::<Map<Seq<char>, SymbolData>, _>(
            AssembleErrorView::ProgramTooLarge,
        ) ==> instruction_count(program(items)) > ADDRESS_SPACE_SIZE,
{
    if scan_labels(program(items)) is Err {
        lemma_label_error(program(items));
    } else {
        lemma_label_table(program(items), Seq::empty());
    }
}

/// Whether a program gives cause for the error `error` of its symbol table:
/// a cause for an error of the label pass, or more variables than there are
/// addresses from 16 up.
pub open spec fn is_symbol_error(items: Seq<ItemView>, error: AssembleErrorView) -> bool {
    ||| is_label_error(program(items), error)
    ||| error is TooManyVariables && RESERVED_REGISTERS + program_variables(items).len()
        > ADDRESS_SPACE_SIZE
}

/// A program is without symbol table only by an error that it gives cause
/// for.
pub proof fn lemma_symbol_error(items: Seq<ItemView>)
    requires
        symbol_table(items) is Err,
    ensures
        is_symbol_error(items, symbol_table(items)->Err_0),
{
    let p = program(items);
    if scan_labels(p) is Err {
        lemma_label_error(p);
    } else {
        lemma_label_table_names(p);
    }
}

} // verus!
