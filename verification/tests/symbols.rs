use hack_assembler::symbols::{predefined_table, program_end};
use hack_assembler::{parse, scan_symbols, AssembleError, Item, Operand, SymbolData};

fn symbol(name: &str) -> Item {
    Item::AInstruction(Operand::Symbol(name.to_string()))
}

fn label(name: &str) -> Item {
    Item::LabelDefinition(name.to_string())
}

fn compute(comp: &str) -> Item {
    Item::CInstruction { dest: String::new(), comp: comp.to_string(), jump: String::new() }
}

fn predefined(value: usize) -> Option<SymbolData> {
    Some(SymbolData { value, is_predefined: true })
}

fn defined(value: usize) -> Option<SymbolData> {
    Some(SymbolData { value, is_predefined: false })
}

#[test]
fn predefined_table_holds_the_23_symbols() {
    let table = predefined_table();
    assert_eq!(table.len(), 23);
    for i in 0..16 {
        assert_eq!(table.get(&format!("R{i}")).copied(), predefined(i));
    }
    assert_eq!(table.get("SP").copied(), predefined(0));
    assert_eq!(table.get("LCL").copied(), predefined(1));
    assert_eq!(table.get("ARG").copied(), predefined(2));
    assert_eq!(table.get("THIS").copied(), predefined(3));
    assert_eq!(table.get("THAT").copied(), predefined(4));
    assert_eq!(table.get("SCREEN").copied(), predefined(16384));
    assert_eq!(table.get("KBD").copied(), predefined(24576));
    assert_eq!(table.get("R16").copied(), None);
    assert_eq!(table.get("sp").copied(), None);
    assert_eq!(table.get("").copied(), None);
}

#[test]
fn empty_program_has_the_predefined_symbols_only() {
    let table = scan_symbols(&Vec::new()).unwrap();
    assert_eq!(table.len(), 23);
    let table = scan_symbols(&vec![Item::EndOfInput]).unwrap();
    assert_eq!(table.len(), 23);
}

#[test]
fn labels_stand_for_the_next_instruction() {
    let items = vec![
        label("START"),
        compute("0"),
        compute("1"),
        label("MID"),
        label("ALSO_MID"),
        compute("D"),
        label("END"),
        Item::EndOfInput,
    ];
    let table = scan_symbols(&items).unwrap();
    assert_eq!(table.len(), 27);
    assert_eq!(table.get("START").copied(), defined(0));
    assert_eq!(table.get("MID").copied(), defined(2));
    assert_eq!(table.get("ALSO_MID").copied(), defined(2));
    assert_eq!(table.get("END").copied(), defined(3));
}

#[test]
fn variables_start_at_16_in_order_of_first_use() {
    let items = vec![
        symbol("i"),
        compute("1"),
        label("LOOP"),
        symbol("i"),
        symbol("sum"),
        symbol("LOOP"),
        symbol("SCREEN"),
        symbol("END"),
        symbol("n"),
        label("END"),
        Item::EndOfInput,
    ];
    let table = scan_symbols(&items).unwrap();
    assert_eq!(table.len(), 28);
    assert_eq!(table.get("i").copied(), defined(16));
    assert_eq!(table.get("sum").copied(), defined(17));
    assert_eq!(table.get("n").copied(), defined(18));
    assert_eq!(table.get("LOOP").copied(), defined(2));
    assert_eq!(table.get("END").copied(), defined(8));
    assert_eq!(table.get("SCREEN").copied(), predefined(16384));
}

#[test]
fn constants_and_computations_add_no_symbol() {
    let items = vec![
        Item::AInstruction(Operand::Constant("123".to_string())),
        Item::AInstruction(Operand::Constant("x".to_string())),
        Item::CInstruction { dest: "x".to_string(), comp: "y".to_string(), jump: "z".to_string() },
    ];
    assert_eq!(scan_symbols(&items).unwrap().len(), 23);
}

#[test]
fn scan_fails_on_a_predefined_label() {
    for name in ["R5", "SCREEN"] {
        let items = vec![compute("0"), label(name), Item::EndOfInput];
        assert_eq!(
            scan_symbols(&items).err(),
            Some(AssembleError::RedefinesPredefined(name.to_string()))
        );
    }
}

#[test]
fn scan_fails_on_a_duplicate_label() {
    let items = vec![label("X"), compute("0"), label("X")];
    assert_eq!(scan_symbols(&items).err(), Some(AssembleError::DuplicateLabel("X".to_string())));
}

#[test]
fn variable_may_not_be_defined_as_a_label_later() {
    let items = vec![symbol("x"), label("x"), symbol("y")];
    let table = scan_symbols(&items).unwrap();
    assert_eq!(table.get("x").copied(), defined(1));
    assert_eq!(table.get("y").copied(), defined(16));
}

#[test]
fn scan_counts_instructions_up_to_32768() {
    let mut items: Vec<Item> = Vec::new();
    for _ in 0..32768 {
        items.push(compute("0"));
    }
    items.push(label("END"));
    let table = scan_symbols(&items).unwrap();
    assert_eq!(table.get("END").copied(), defined(32768));
    items.push(compute("0"));
    assert_eq!(scan_symbols(&items).err(), Some(AssembleError::ProgramTooLarge));
}

#[test]
fn scan_fails_on_too_many_variables() {
    let mut items: Vec<Item> = Vec::new();
    for i in 0..32752 {
        items.push(symbol(&format!("v{i}")));
    }
    let table = scan_symbols(&items).unwrap();
    assert_eq!(table.len(), 23 + 32752);
    assert_eq!(table.get("v0").copied(), defined(16));
    assert_eq!(table.get("v32751").copied(), defined(32767));
    items.push(symbol("v0"));
    assert!(scan_symbols(&items).is_ok());
    items.push(symbol("last"));
    assert_eq!(scan_symbols(&items).err(), Some(AssembleError::TooManyVariables));
}

#[test]
fn program_ends_at_the_first_end_of_input() {
    assert_eq!(program_end(&Vec::new()), 0);
    assert_eq!(program_end(&vec![Item::EndOfInput]), 0);
    assert_eq!(program_end(&vec![compute("0"), label("X")]), 2);
    assert_eq!(program_end(&vec![compute("0"), Item::EndOfInput, Item::EndOfInput]), 1);
    let items = vec![label("X"), Item::EndOfInput, label("X")];
    assert!(scan_symbols(&items).is_ok());
}

#[test]
fn counter_loop_has_its_variable_and_its_label() {
    let items = parse("@i\nM=1\n(LOOP)\n@i\nM=M+1\n@LOOP\n0;JMP\n").unwrap();
    let table = scan_symbols(&items).unwrap();
    assert_eq!(table.len(), 25);
    assert_eq!(table.get("i").copied(), defined(16));
    assert_eq!(table.get("LOOP").copied(), defined(2));
}
