//! The symbol table: predefined symbols, labels and variables.

use crate::encoding::ADDRESS_SPACE_SIZE;
use crate::error::{AssembleError, AssembleErrorView};
use crate::item::{instruction_count, Item, ItemView, Operand, OperandView};
use crate::search::{first_index, lemma_first_index_is};
use crate::symbol_laws::{
    is_symbol_error, lemma_symbol_error, lemma_symbol_table_exists, resolvable,
};
use vstd::hash_map::StringHashMap;
use vstd::prelude::*;

verus! {

/// What the symbol table holds for one name.
#[derive(Clone, Copy, Debug, PartialEq, Eq)]
pub struct SymbolData {
    /// The address that the name stands for.
    pub value: usize,
    /// Whether the name is one of the language's own.
    pub is_predefined: bool,
}

/// The symbol table of a program: from each name to what it stands for.
pub type SymbolTable = StringHashMap<SymbolData>;

/// The address of the first variable: the addresses below it belong to the
/// registers `R0` to `R15`.
pub const RESERVED_REGISTERS: usize = 16;

/// The address of a predefined symbol.
pub open spec fn predefined_address(name: Seq<char>) -> Option<usize> {
    if name == "SP"@ || name == "R0"@ {
        Some(0)
    } else if name == "LCL"@ || name == "R1"@ {
        Some(1)
    } else if name == "ARG"@ || name == "R2"@ {
        Some(2)
    } else if name == "THIS"@ || name == "R3"@ {
        Some(3)
    } else if name == "THAT"@ || name == "R4"@ {
        Some(4)
    } else if name == "R5"@ {
        Some(5)
    } else if name == "R6"@ {
        Some(6)
    } else if name == "R7"@ {
        Some(7)
    } else if name == "R8"@ {
        Some(8)
    } else if name == "R9"@ {
        Some(9)
    } else if name == "R10"@ {
        Some(10)
    } else if name == "R11"@ {
        Some(11)
    } else if name == "R12"@ {
        Some(12)
    } else if name == "R13"@ {
        Some(13)
    } else if name == "R14"@ {
        Some(14)
    } else if name == "R15"@ {
        Some(15)
    } else if name == "SCREEN"@ {
        Some(16384)
    } else if name == "KBD"@ {
        Some(24576)
    } else {
        None
    }
}

/// The table before any pass: the predefined symbols and nothing else.
pub open spec fn predefined_symbols() -> Map<Seq<char>, SymbolData> {
    Map::new(
        |name: Seq<char>| predefined_address(name) is Some,
        |name: Seq<char>| SymbolData { value: predefined_address(name)->0, is_predefined: true },
    )
}

/// The indices of `items` at which an end of input stands.
pub open spec fn ends(items: Seq<ItemView>) -> spec_fn(int) -> bool {
    |i: int| items[i] is EndOfInput
}

/// The number of items before the first end of input, or the number of items
/// where there is none.
pub open spec fn program_len(items: Seq<ItemView>) -> nat {
    first_index(items.len(), ends(items))
}

/// The items that the passes look at: those before the first end of input.
pub open spec fn program(items: Seq<ItemView>) -> Seq<ItemView> {
    items.take(program_len(items) as int)
}

/// The table after the first pass over `items`, or the first error of that
/// pass.
///
/// An instruction fails the pass when 32768 instructions stand before it. A
/// label definition fails it when its name is in the table already;
/// otherwise the name enters the table with the number of instructions that
/// stand before the definition.
pub open spec fn scan_labels(items: Seq<ItemView>) -> Result<
    Map<Seq<char>, SymbolData>,
    AssembleErrorView,
>
    decreases items.len(),
{
    if items.len() == 0 {
        Ok(predefined_symbols())
    } else {
        let before = items.drop_last();
        match scan_labels(before) {
            Err(e) => Err(e),
            Ok(table) => match items.last() {
                ItemView::LabelDefinition(name) => if !table.contains_key(name) {
                    Ok(
                        table.insert(
                            name,
                            SymbolData {
                                value: instruction_count(before) as usize,
                                is_predefined: false,
                            },
                        ),
                    )
                } else if table[name].is_predefined {
                    Err(AssembleErrorView::RedefinesPredefined(name))
                } else {
                    Err(AssembleErrorView::DuplicateLabel(name))
                },
                ItemView::EndOfInput => Ok(table),
                _ => if instruction_count(before) >= ADDRESS_SPACE_SIZE {
                    Err(AssembleErrorView::ProgramTooLarge)
                } else {
                    Ok(table)
                },
            },
        }
    }
}

/// The variables of `items`, in the order in which they first occur: the
/// symbols of A-instructions that are not among the `known` names.
pub open spec fn variables(items: Seq<ItemView>, known: Set<Seq<char>>) -> Seq<Seq<char>>
    decreases items.len(),
{
    if items.len() == 0 {
        Seq::empty()
    } else {
        let earlier = variables(items.drop_last(), known);
        match items.last() {
            ItemView::AInstruction(OperandView::Symbol(name)) => if known.contains(name)
                || earlier.contains(name) {
                earlier
            } else {
                earlier.push(name)
            },
            _ => earlier,
        }
    }
}

/// `table` with the names of `vars` added, the first at address 16 and each
/// of the others one above the one before it.
pub open spec fn with_variables(table: Map<Seq<char>, SymbolData>, vars: Seq<Seq<char>>) -> Map<
    Seq<char>,
    SymbolData,
>
    decreases vars.len(),
{
    if vars.len() == 0 {
        table
    } else {
        with_variables(table, vars.drop_last()).insert(
            vars.last(),
            SymbolData {
                value: (RESERVED_REGISTERS + vars.len() - 1) as usize,
                is_predefined: false,
            },
        )
    }
}

/// The table after the second pass over `items`, which starts from the
/// table `labels`: that table with the variables of `items` added, where
/// they fit below the end of the address space.
pub open spec fn allocate(items: Seq<ItemView>, labels: Map<Seq<char>, SymbolData>) -> Result<
    Map<Seq<char>, SymbolData>,
    AssembleErrorView,
> {
    let vars = variables(items, labels.dom());
    if RESERVED_REGISTERS + vars.len() > ADDRESS_SPACE_SIZE {
        Err(AssembleErrorView::TooManyVariables)
    } else {
        Ok(with_variables(labels, vars))
    }
}

/// The symbol table of a program, or the error that keeps it from having
/// one: the first error of the label pass, or, after a label pass without
/// error, more variables than there are addresses from 16 up.
pub open spec fn symbol_table(items: Seq<ItemView>) -> Result<
    Map<Seq<char>, SymbolData>,
    AssembleErrorView,
> {
    match scan_labels(program(items)) {
        Err(e) => Err(e),
        Ok(labels) => allocate(program(items), labels),
    }
}

/// What the result of a scan holds, as a mathematical value.
pub open spec fn scan_view(result: Result<SymbolTable, AssembleError>) -> Result<
    Map<Seq<char>, SymbolData>,
    AssembleErrorView,
> {
    match result {
        Ok(table) => Ok(table@),
        Err(e) => Err(e@),
    }
}

/// Adds a predefined symbol to `table`.
fn predefine(table: &mut SymbolTable, name: &str, value: usize)
    ensures
        final(table)@ == old(table)@.insert(
            name@,
            SymbolData { value, is_predefined: true },
        ),
{
    table.insert(name.to_owned(), SymbolData { value, is_predefined: true });
}

/// The table of the predefined symbols.
pub fn predefined_table() -> (table: SymbolTable)
    ensures
        table@ == predefined_symbols(),
{
    let mut table: SymbolTable = StringHashMap::new();
    predefine(&mut table, "KBD", 24576);
    predefine(&mut table, "SCREEN", 16384);
    predefine(&mut table, "R15", 15);
    predefine(&mut table, "R14", 14);
    predefine(&mut table, "R13", 13);
    predefine(&mut table, "R12", 12);
    predefine(&mut table, "R11", 11);
    predefine(&mut table, "R10", 10);
    predefine(&mut table, "R9", 9);
    predefine(&mut table, "R8", 8);
    predefine(&mut table, "R7", 7);
    predefine(&mut table, "R6", 6);
    predefine(&mut table, "R5", 5);
    predefine(&mut table, "R4", 4);
    predefine(&mut table, "THAT", 4);
    predefine(&mut table, "R3", 3);
    predefine(&mut table, "THIS", 3);
    predefine(&mut table, "R2", 2);
    predefine(&mut table, "ARG", 2);
    predefine(&mut table, "R1", 1);
    predefine(&mut table, "LCL", 1);
    predefine(&mut table, "R0", 0);
    predefine(&mut table, "SP", 0);
    table
}

/// The number of items of `items` before the first end of input.
pub fn program_end(items: &Vec<Item>) -> (end: usize)
    ensures
        end == program_len(items.deep_view()),
        end <= items.len(),
{
    let ghost views = items.deep_view();
    let mut end: usize = 0;
    while end < items.len()
        invariant
            end <= items.len(),
            views == items.deep_view(),
            forall|j: int| 0 <= j < end ==> !#[trigger] ends(views)(j),
        decreases items.len() - end,
    {
        if let Item::EndOfInput = &items[end] {
            proof {
                lemma_first_index_is(views.len(), ends(views), end as int);
            }
            return end;
        }
        end += 1;
    }
    proof {
        lemma_first_index_is(views.len(), ends(views), end as int);
    }
    end
}

/// The first pass: enters the labels of the first `end` items into `table`.
fn define_labels(items: &Vec<Item>, end: usize, table: SymbolTable) -> (result: Result<
    SymbolTable,
    AssembleError,
>)
    requires
        end <= items.len(),
        table@ == predefined_symbols(),
    ensures
        scan_view(result) == scan_labels(items.deep_view().take(end as int)),
{
    let ghost all = items.deep_view().take(end as int);
    let mut table = table;
    let mut rom_index: usize = 0;
    let mut i: usize = 0;
    while i < end
        invariant
            i <= end <= items.len(),
            all == items.deep_view().take(end as int),
            scan_labels(all.take(i as int)) == Ok::<_, AssembleErrorView>(table@),
            rom_index == instruction_count(all.take(i as int)),
            rom_index <= ADDRESS_SPACE_SIZE,
        decreases end - i,
    {
        proof {
            assert(all.take(i + 1).drop_last() == all.take(i as int));
        }
        match &items[i] {
            Item::LabelDefinition(name) => {
                match table.get(name.as_str()) {
                    Some(data) => {
                        let error = if data.is_predefined {
                            AssembleError::RedefinesPredefined(name.clone())
                        } else {
                            AssembleError::DuplicateLabel(name.clone())
                        };
                        proof {
                            lemma_scan_labels_fails_for_good(all, i + 1);
                        }
                        return Err(error);
                    },
                    None => {
                        table.insert(
                            name.clone(),
                            SymbolData { value: rom_index, is_predefined: false },
                        );
                    },
                }
            },
            Item::EndOfInput => {},
            _ => {
                if rom_index >= ADDRESS_SPACE_SIZE {
                    proof {
                        lemma_scan_labels_fails_for_good(all, i + 1);
                    }
                    return Err(AssembleError::ProgramTooLarge);
                }
                rom_index += 1;
            },
        }
        i += 1;
    }
    assert(all.take(end as int) == all);
    Ok(table)
}

/// An error of the first pass on the first `n` items is the error of the
/// pass on all of them.
pub proof fn lemma_scan_labels_fails_for_good(items: Seq<ItemView>, n: int)
    requires
        0 <= n <= items.len(),
        scan_labels(items.take(n)) is Err,
    ensures
        scan_labels(items) == scan_labels(items.take(n)),
    decreases items.len(),
{
    if n == items.len() {
        assert(items.take(n) == items);
    } else {
        assert(items.drop_last().take(n) == items.take(n));
        lemma_scan_labels_fails_for_good(items.drop_last(), n);
    }
}

/// The variables of the first `n` items are a prefix of the variables of all
/// of them.
pub proof fn lemma_variables_grow(items: Seq<ItemView>, known: Set<Seq<char>>, n: int)
    requires
        0 <= n <= items.len(),
    ensures
        variables(items.take(n), known).len() <= variables(items, known).len(),
        variables(items.take(n), known) == variables(items, known).take(
            variables(items.take(n), known).len() as int,
        ),
    decreases items.len(),
{
    if n == items.len() {
        assert(items.take(n) == items);
    } else {
        assert(items.drop_last().take(n) == items.take(n));
        lemma_variables_grow(items.drop_last(), known, n);
    }
}

/// The names in a table with variables added are those of the table and the
/// variables.
pub proof fn lemma_with_variables_names(
    table: Map<Seq<char>, SymbolData>,
    vars: Seq<Seq<char>>,
    name: Seq<char>,
)
    ensures
        with_variables(table, vars).contains_key(name) == (table.contains_key(name)
            || vars.contains(name)),
    decreases vars.len(),
{
    if vars.len() > 0 {
        lemma_with_variables_names(table, vars.drop_last(), name);
        if vars.drop_last().contains(name) {
            let k = choose|k: int| 0 <= k < vars.drop_last().len() && vars.drop_last()[k] == name;
        }
        if vars.contains(name) && vars.last() != name {
            let k = choose|k: int| 0 <= k < vars.len() && vars[k] == name;
            assert(vars.drop_last()[k] == name);
        }
    }
}

/// The second pass: gives each variable of the first `end` items the next
/// free address from 16 up.
fn allocate_variables(items: &Vec<Item>, end: usize, start: SymbolTable) -> (result: Result<
    SymbolTable,
    AssembleError,
>)
    requires
        end <= items.len(),
    ensures
        scan_view(result) == allocate(items.deep_view().take(end as int), start@),
{
    let ghost all = items.deep_view().take(end as int);
    let ghost labels = start@;
    let ghost known = labels.dom();
    let mut table = start;
    let mut next: usize = RESERVED_REGISTERS;
    let mut i: usize = 0;
    while i < end
        invariant
            i <= end <= items.len(),
            all == items.deep_view().take(end as int),
            labels == start@,
            known == labels.dom(),
            table@ == with_variables(labels, variables(all.take(i as int), known)),
            next == RESERVED_REGISTERS + variables(all.take(i as int), known).len(),
            next <= ADDRESS_SPACE_SIZE,
        decreases end - i,
    {
        let ghost earlier = variables(all.take(i as int), known);
        proof {
            assert(all.take(i + 1).drop_last() == all.take(i as int));
        }
        if let Item::AInstruction(Operand::Symbol(name)) = &items[i] {
            proof {
                lemma_with_variables_names(labels, earlier, name@);
            }
            if !table.contains_key(name.as_str()) {
                proof {
                    assert(earlier.push(name@).drop_last() == earlier);
                }
                if next >= ADDRESS_SPACE_SIZE {
                    proof {
                        lemma_variables_grow(all, known, i + 1);
                    }
                    return Err(AssembleError::TooManyVariables);
                }
                table.insert(name.clone(), SymbolData { value: next, is_predefined: false });
                next += 1;
            }
        }
        i += 1;
    }
    assert(all.take(end as int) == all);
    Ok(table)
}

/// Builds the symbol table of a program: the predefined symbols, each label
/// with the address of the instruction that follows its definition, and each
/// variable with the next free address from 16 up, in the order in which the
/// variables first occur.
///
/// Fails with `ProgramTooLarge`, `RedefinesPredefined` or `DuplicateLabel`,
/// whichever the items give rise to first, and with `TooManyVariables` where
/// the labels are in order and the variables do not fit. It succeeds on
/// every other program: on those that are resolvable.
pub fn scan_symbols(items: &Vec<Item>) -> (result: Result<SymbolTable, AssembleError>)
    ensures
        scan_view(result) == symbol_table(items.deep_view()),
        result is Ok <==> resolvable(items.deep_view()),
        result matches Err(e) ==> is_symbol_error(items.deep_view(), e@),
{
    proof {
        lemma_symbol_table_exists(items.deep_view());
        if symbol_table(items.deep_view()) is Err {
            lemma_symbol_error(items.deep_view());
        }
    }
    let end: usize = program_end(items);
    match define_labels(items, end, predefined_table()) {
        Ok(labels) => allocate_variables(items, end, labels),
        Err(e) => Err(e),
    }
}

} // verus!
