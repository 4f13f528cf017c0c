use hack_assembler::{assemble, AssembleError, Item, Operand};

fn constant(text: &str) -> Item {
    Item::AInstruction(Operand::Constant(text.to_string()))
}

fn symbol(name: &str) -> Item {
    Item::AInstruction(Operand::Symbol(name.to_string()))
}

fn compute(dest: &str, comp: &str, jump: &str) -> Item {
    Item::CInstruction { dest: dest.to_string(), comp: comp.to_string(), jump: jump.to_string() }
}

fn label(name: &str) -> Item {
    Item::LabelDefinition(name.to_string())
}

fn lines(text: &[&str]) -> Vec<String> {
    text.iter().map(|line| line.to_string()).collect()
}

fn one_line(item: Item) -> String {
    let mut out = assemble(&vec![item, Item::EndOfInput]).unwrap();
    assert_eq!(out.len(), 1);
    out.remove(0)
}

#[test]
fn constant_a_instruction() {
    assert_eq!(assemble(&vec![constant("5"), Item::EndOfInput]), Ok(lines(&["0000000000000101"])));
}

#[test]
fn constants_are_rendered_in_binary() {
    assert_eq!(one_line(constant("0")), "0000000000000000");
    assert_eq!(one_line(constant("1")), "0000000000000001");
    assert_eq!(one_line(constant("2")), "0000000000000010");
    assert_eq!(one_line(constant("21845")), "0101010101010101");
    assert_eq!(one_line(constant("16384")), "0100000000000000");
    assert_eq!(one_line(constant("00017")), "0000000000010001");
}

#[test]
fn largest_constant_is_32767() {
    assert_eq!(one_line(constant("32767")), "0111111111111111");
    assert_eq!(
        assemble(&vec![constant("32768"), Item::EndOfInput]),
        Err(AssembleError::InvalidConstant("32768".to_string()))
    );
}

#[test]
fn constants_that_are_no_numbers_are_invalid() {
    for text in ["", "12a", "+5", "-1", " 7", "99999999999999999999999999", "65536"] {
        assert_eq!(
            assemble(&vec![constant(text)]),
            Err(AssembleError::InvalidConstant(text.to_string())),
            "constant {text:?}"
        );
    }
}

#[test]
fn every_computation_has_its_code() {
    let table = [
        ("0", "0101010"),
        ("1", "0111111"),
        ("-1", "0111010"),
        ("D", "0001100"),
        ("A", "0110000"),
        ("M", "1110000"),
        ("!D", "0001101"),
        ("!A", "0110001"),
        ("!M", "1110001"),
        ("-D", "0001111"),
        ("-A", "0110011"),
        ("-M", "1110011"),
        ("D+1", "0011111"),
        ("A+1", "0110111"),
        ("M+1", "1110111"),
        ("D-1", "0001110"),
        ("A-1", "0110010"),
        ("M-1", "1110010"),
        ("D+A", "0000010"),
        ("D+M", "1000010"),
        ("D-A", "0010011"),
        ("D-M", "1010011"),
        ("A-D", "0000111"),
        ("M-D", "1000111"),
        ("D&A", "0000000"),
        ("D&M", "1000000"),
        ("D|A", "0010101"),
        ("D|M", "1010101"),
    ];
    for (comp, code) in table {
        assert_eq!(one_line(compute("", comp, "")), format!("111{code}000000"), "comp {comp}");
    }
}

#[test]
fn every_jump_has_its_code() {
    let table = [
        ("", "000"),
        ("JGT", "001"),
        ("JEQ", "010"),
        ("JGE", "011"),
        ("JLT", "100"),
        ("JNE", "101"),
        ("JLE", "110"),
        ("JMP", "111"),
    ];
    for (jump, code) in table {
        assert_eq!(one_line(compute("", "D", jump)), format!("1110001100000{code}"), "jump {jump}");
    }
}

#[test]
fn every_destination_has_its_code() {
    let table = [
        ("", "000"),
        ("M", "001"),
        ("D", "010"),
        ("MD", "011"),
        ("DM", "011"),
        ("A", "100"),
        ("AM", "101"),
        ("MA", "101"),
        ("AD", "110"),
        ("AMD", "111"),
        ("DMA", "111"),
    ];
    for (dest, code) in table {
        assert_eq!(one_line(compute(dest, "D", "")), format!("1110001100{code}000"), "dest {dest}");
    }
}

#[test]
fn destination_counts_each_letter_once() {
    assert_eq!(one_line(compute("AA", "D", "")), "1110001100100000");
    assert_eq!(one_line(compute("MMD", "D", "")), "1110001100011000");
    assert_eq!(one_line(compute("xyz", "D", "")), "1110001100000000");
}

#[test]
fn simple_c_instruction() {
    assert_eq!(one_line(compute("D", "A", "")), "1110110000010000");
    assert_eq!(one_line(compute("", "0", "JMP")), "1110101010000111");
    assert_eq!(one_line(compute("AM", "M-1", "JNE")), "1111110010101101");
}

#[test]
fn unknown_computation_is_invalid() {
    for comp in ["", "D+D", "d", "1+D", "D + 1", "M+A", "2"] {
        assert_eq!(
            assemble(&vec![compute("D", comp, "JMP")]),
            Err(AssembleError::InvalidComputation(comp.to_string())),
            "comp {comp:?}"
        );
    }
}

#[test]
fn unknown_jump_is_invalid() {
    for jump in ["JXX", "jmp", "J", "JMPP", " JMP"] {
        assert_eq!(
            assemble(&vec![compute("D", "A", jump)]),
            Err(AssembleError::InvalidJump(jump.to_string())),
            "jump {jump:?}"
        );
    }
}

#[test]
fn computation_is_checked_before_jump() {
    assert_eq!(
        assemble(&vec![compute("D", "Q", "JXX")]),
        Err(AssembleError::InvalidComputation("Q".to_string()))
    );
}

#[test]
fn predefined_symbols_have_their_addresses() {
    assert_eq!(one_line(symbol("SP")), "0000000000000000");
    assert_eq!(one_line(symbol("LCL")), "0000000000000001");
    assert_eq!(one_line(symbol("ARG")), "0000000000000010");
    assert_eq!(one_line(symbol("THIS")), "0000000000000011");
    assert_eq!(one_line(symbol("THAT")), "0000000000000100");
    assert_eq!(one_line(symbol("R0")), "0000000000000000");
    assert_eq!(one_line(symbol("R7")), "0000000000000111");
    assert_eq!(one_line(symbol("R15")), "0000000000001111");
    assert_eq!(one_line(symbol("SCREEN")), "0100000000000000");
    assert_eq!(one_line(symbol("KBD")), "0110000000000000");
}

#[test]
fn names_are_case_sensitive() {
    assert_eq!(one_line(symbol("screen")), "0000000000010000");
    assert_eq!(one_line(symbol("r0")), "0000000000010000");
    assert_eq!(one_line(symbol("R16")), "0000000000010000");
}

#[test]
fn label_and_variable_interplay() {
    let items = vec![
        symbol("i"),
        compute("M", "1", ""),
        label("LOOP"),
        symbol("i"),
        compute("M", "M+1", ""),
        symbol("LOOP"),
        compute("", "0", "JMP"),
        Item::EndOfInput,
    ];
    assert_eq!(
        assemble(&items),
        Ok(lines(&[
            "0000000000010000",
            "1110111111001000",
            "0000000000010000",
            "1111110111001000",
            "0000000000000010",
            "1110101010000111",
        ]))
    );
}

#[test]
fn one_line_for_each_instruction_and_none_for_a_label() {
    let items = vec![
        label("A0"),
        constant("1"),
        label("A1"),
        label("B1"),
        compute("D", "A", ""),
        constant("2"),
        label("A3"),
        Item::EndOfInput,
    ];
    assert_eq!(
        assemble(&items),
        Ok(lines(&["0000000000000001", "1110110000010000", "0000000000000010"]))
    );
    assert_eq!(assemble(&vec![label("ONLY"), Item::EndOfInput]), Ok(Vec::new()));
    assert_eq!(assemble(&vec![Item::EndOfInput]), Ok(Vec::new()));
    assert_eq!(assemble(&Vec::new()), Ok(Vec::new()));
}

#[test]
fn every_line_is_sixteen_binary_digits() {
    let items = vec![
        symbol("x"),
        compute("AMD", "D|M", "JLE"),
        label("L"),
        constant("32767"),
        symbol("L"),
        symbol("KBD"),
        compute("", "-1", ""),
    ];
    let out = assemble(&items).unwrap();
    assert_eq!(out.len(), 6);
    for line in out {
        assert_eq!(line.len(), 16);
        assert!(line.chars().all(|c| c == '0' || c == '1'));
    }
}

#[test]
fn assembling_twice_gives_the_same_lines() {
    let items = vec![symbol("b"), symbol("a"), label("L"), symbol("L"), compute("D", "M", "")];
    assert_eq!(assemble(&items), assemble(&items));
    assert_eq!(assemble(&items), assemble(&items.clone()));
}

#[test]
fn label_may_be_used_before_and_after_its_definition() {
    let before = vec![symbol("L"), compute("", "0", ""), label("L"), compute("", "1", "")];
    let after = vec![compute("", "0", ""), label("L"), compute("", "1", ""), symbol("L")];
    assert_eq!(assemble(&before).unwrap()[0], "0000000000000010");
    assert_eq!(assemble(&after).unwrap()[2], "0000000000000001");
    let both = vec![symbol("L"), label("L"), symbol("L")];
    assert_eq!(assemble(&both), Ok(lines(&["0000000000000001", "0000000000000001"])));
}

#[test]
fn variables_get_addresses_in_order_of_first_use() {
    let items = vec![
        symbol("c"),
        symbol("a"),
        symbol("LATER"),
        symbol("c"),
        symbol("R3"),
        symbol("b"),
        label("LATER"),
        symbol("a"),
    ];
    assert_eq!(
        assemble(&items),
        Ok(lines(&[
            "0000000000010000",
            "0000000000010001",
            "0000000000000110",
            "0000000000010000",
            "0000000000000011",
            "0000000000010010",
            "0000000000010001",
        ]))
    );
}

#[test]
fn duplicate_label() {
    let items = vec![label("X"), label("X"), constant("0")];
    assert_eq!(assemble(&items), Err(AssembleError::DuplicateLabel("X".to_string())));
}

#[test]
fn label_named_like_a_predefined_symbol() {
    for name in ["R5", "SCREEN", "SP", "KBD", "R0", "R15", "THAT"] {
        assert_eq!(
            assemble(&vec![constant("1"), label(name)]),
            Err(AssembleError::RedefinesPredefined(name.to_string())),
            "label {name}"
        );
    }
}

#[test]
fn first_label_error_wins() {
    let items = vec![label("X"), label("R1"), label("X")];
    assert_eq!(assemble(&items), Err(AssembleError::RedefinesPredefined("R1".to_string())));
    let items = vec![label("X"), label("X"), label("R1")];
    assert_eq!(assemble(&items), Err(AssembleError::DuplicateLabel("X".to_string())));
}

#[test]
fn symbol_errors_come_before_encoding_errors() {
    let items = vec![constant("99999"), compute("", "Q", ""), label("X"), label("X")];
    assert_eq!(assemble(&items), Err(AssembleError::DuplicateLabel("X".to_string())));
    let items = vec![constant("99999"), compute("", "Q", "")];
    assert_eq!(assemble(&items), Err(AssembleError::InvalidConstant("99999".to_string())));
}

#[test]
fn nothing_after_the_end_of_input_counts() {
    let items = vec![
        constant("1"),
        Item::EndOfInput,
        constant("99999"),
        label("R1"),
        compute("", "Q", ""),
        Item::EndOfInput,
    ];
    assert_eq!(assemble(&items), Ok(lines(&["0000000000000001"])));
}

#[test]
fn program_of_32768_instructions_fits() {
    let mut items: Vec<Item> = Vec::new();
    for _ in 0..32768 {
        items.push(compute("", "0", ""));
    }
    items.push(Item::EndOfInput);
    let out = assemble(&items).unwrap();
    assert_eq!(out.len(), 32768);
    assert_eq!(out[32767], "1110101010000000");
}

#[test]
fn program_of_32769_instructions_is_too_large() {
    let mut items: Vec<Item> = Vec::new();
    for _ in 0..32769 {
        items.push(constant("0"));
    }
    items.push(Item::EndOfInput);
    assert_eq!(assemble(&items), Err(AssembleError::ProgramTooLarge));
}

#[test]
fn label_after_the_last_of_32768_instructions() {
    let mut items: Vec<Item> = vec![symbol("END")];
    for _ in 0..32767 {
        items.push(compute("", "0", ""));
    }
    items.push(label("END"));
    let out = assemble(&items).unwrap();
    assert_eq!(out.len(), 32768);
    assert_eq!(out[0], "1000000000000000");
}

#[test]
fn variables_fill_the_memory_from_16_up() {
    let mut items: Vec<Item> = Vec::new();
    for i in 0..32752 {
        items.push(symbol(&format!("v{i}")));
    }
    let out = assemble(&items).unwrap();
    assert_eq!(out.len(), 32752);
    assert_eq!(out[0], "0000000000010000");
    assert_eq!(out[32751], "0111111111111111");
}

#[test]
fn one_variable_too_many() {
    let mut items: Vec<Item> = Vec::new();
    for i in 0..32753 {
        items.push(symbol(&format!("v{i}")));
    }
    assert_eq!(assemble(&items), Err(AssembleError::TooManyVariables));
}
