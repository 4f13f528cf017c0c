use hack_assembler::{assemble_source, parse, AssembleError, Expected, Item, Operand};

fn lines(text: &[&str]) -> Vec<String> {
    text.iter().map(|line| line.to_string()).collect()
}

fn constant(text: &str) -> Item {
    Item::AInstruction(Operand::Constant(text.to_string()))
}

fn symbol(name: &str) -> Item {
    Item::AInstruction(Operand::Symbol(name.to_string()))
}

fn compute(dest: &str, comp: &str, jump: &str) -> Item {
    Item::CInstruction { dest: dest.to_string(), comp: comp.to_string(), jump: jump.to_string() }
}

fn label(name: &str) -> Item {
    Item::LabelDefinition(name.to_string())
}

fn syntax_error(line: usize, column: usize, expected: Expected) -> AssembleError {
    AssembleError::SyntaxError { line, column, expected }
}

#[test]
fn scenario_constant_a() {
    assert_eq!(assemble_source("@5\n"), Ok(lines(&["0000000000000101"])));
}

#[test]
fn scenario_simple_c() {
    assert_eq!(assemble_source("D=A\n"), Ok(lines(&["1110110000010000"])));
}

#[test]
fn scenario_unconditional_jump() {
    assert_eq!(assemble_source("0;JMP\n"), Ok(lines(&["1110101010000111"])));
}

#[test]
fn scenario_predefined_symbol() {
    assert_eq!(assemble_source("@SCREEN\n"), Ok(lines(&["0100000000000000"])));
}

#[test]
fn scenario_label_and_variable() {
    let source = "@i\nM=1\n(LOOP)\n@i\nM=M+1\n@LOOP\n0;JMP\n";
    assert_eq!(
        assemble_source(source),
        Ok(lines(&[
            "0000000000010000",
            "1110111111001000",
            "0000000000010000",
            "1111110111001000",
            "0000000000000010",
            "1110101010000111",
        ]))
    );
}

#[test]
fn scenario_duplicate_label() {
    assert_eq!(
        assemble_source("(X)\n(X)\n@0"),
        Err(AssembleError::DuplicateLabel("X".to_string()))
    );
}

#[test]
fn sum_of_two_registers() {
    let source = "// Adds R0 and R1 into R2\n@R0\nD=M\n@R1\nD=D+M\n@R2\nM=D\n(END)\n@END\n0;JMP\n";
    assert_eq!(
        assemble_source(source),
        Ok(lines(&[
            "0000000000000000",
            "1111110000010000",
            "0000000000000001",
            "1111000010010000",
            "0000000000000010",
            "1110001100001000",
            "0000000000000110",
            "1110101010000111",
        ]))
    );
}

#[test]
fn largest_constant_in_a_source() {
    assert_eq!(assemble_source("@32767"), Ok(lines(&["0111111111111111"])));
    assert_eq!(
        assemble_source("@32768"),
        Err(AssembleError::InvalidConstant("32768".to_string()))
    );
}

#[test]
fn predefined_label_in_a_source() {
    assert_eq!(
        assemble_source("@1\n(R5)\n"),
        Err(AssembleError::RedefinesPredefined("R5".to_string()))
    );
    assert_eq!(
        assemble_source("(SCREEN)"),
        Err(AssembleError::RedefinesPredefined("SCREEN".to_string()))
    );
}

#[test]
fn empty_source_has_no_output() {
    assert_eq!(parse(""), Ok(vec![Item::EndOfInput]));
    assert_eq!(assemble_source(""), Ok(Vec::new()));
    assert_eq!(assemble_source("\n\n\n"), Ok(Vec::new()));
    assert_eq!(assemble_source("   \t \n// nothing\n  // here\n"), Ok(Vec::new()));
}

#[test]
fn parse_gives_items_in_order() {
    let items = parse("// sum\n@R0\nD=M // load\n  (END)\r\n@END\n0;JMP").unwrap();
    assert_eq!(
        items,
        vec![
            symbol("R0"),
            compute("D", "M", ""),
            label("END"),
            symbol("END"),
            compute("", "0", "JMP"),
            Item::EndOfInput,
        ]
    );
}

#[test]
fn blanks_and_comments_are_ignored() {
    let plain = assemble_source("@i\nM=1\n(LOOP)\n@LOOP\n0;JMP\n").unwrap();
    let decorated = "\n\n  // counter\n\t@i   // the variable\n\n   M=1\t\n// top\n (LOOP)//here\n\n@LOOP \n  0;JMP// back\n\n";
    assert_eq!(assemble_source(decorated), Ok(plain));
    assert_eq!(parse("   @7   "), Ok(vec![constant("7"), Item::EndOfInput]));
    assert_eq!(parse("@7//x"), Ok(vec![constant("7"), Item::EndOfInput]));
    assert_eq!(parse("@7 // a // b"), Ok(vec![constant("7"), Item::EndOfInput]));
    assert_eq!(parse("//@7\n///\n////"), Ok(vec![Item::EndOfInput]));
}

#[test]
fn comments_may_hold_any_text() {
    assert_eq!(
        parse("@1 // caf\u{e9} \u{4e16}\u{754c} = ; ( @\nD=A"),
        Ok(vec![constant("1"), compute("D", "A", ""), Item::EndOfInput])
    );
}

#[test]
fn every_line_terminator_ends_a_line() {
    let expected = vec![constant("1"), compute("D", "A", ""), label("X"), Item::EndOfInput];
    assert_eq!(parse("@1\nD=A\n(X)\n"), Ok(expected.clone()));
    assert_eq!(parse("@1\r\nD=A\r\n(X)\r\n"), Ok(expected.clone()));
    assert_eq!(parse("@1\rD=A\r(X)\r"), Ok(expected.clone()));
    assert_eq!(parse("@1\n\rD=A\r\r\n(X)"), Ok(expected.clone()));
    assert_eq!(parse("@1\nD=A\n(X)"), Ok(expected));
}

#[test]
fn blanks_may_stand_between_the_parts_of_a_statement() {
    assert_eq!(parse("D = A ; JGT"), Ok(vec![compute("D", "A", "JGT"), Item::EndOfInput]));
    assert_eq!(parse("AM\t=\tM-1\t;\tJNE"), Ok(vec![compute("AM", "M-1", "JNE"), Item::EndOfInput]));
    assert_eq!(parse("@ 12"), Ok(vec![constant("12"), Item::EndOfInput]));
    assert_eq!(parse("( LOOP )"), Ok(vec![label("LOOP"), Item::EndOfInput]));
}

#[test]
fn blanks_may_not_stand_inside_a_part() {
    assert_eq!(parse("D=D + 1"), Err(syntax_error(1, 1, Expected::Computation)));
    assert_eq!(parse("A M=1"), Err(syntax_error(1, 1, Expected::Destination)));
    assert_eq!(parse("0;J MP"), Err(syntax_error(1, 1, Expected::Jump)));
    assert_eq!(parse("@1 2"), Err(syntax_error(1, 1, Expected::Operand)));
    assert_eq!(parse("(A B)"), Err(syntax_error(1, 1, Expected::Label)));
}

#[test]
fn symbols_hold_letters_digits_and_four_signs() {
    let name = "a_b.c$d:e9Z";
    assert_eq!(parse(&format!("@{name}\n({name})")), Ok(vec![symbol(name), label(name), Item::EndOfInput]));
    assert_eq!(parse("@_"), Ok(vec![symbol("_"), Item::EndOfInput]));
    assert_eq!(parse("@$.:"), Ok(vec![symbol("$.:"), Item::EndOfInput]));
    assert_eq!(parse("@9a"), Err(syntax_error(1, 1, Expected::Operand)));
    assert_eq!(parse("@a-b"), Err(syntax_error(1, 1, Expected::Operand)));
    assert_eq!(parse("@a#"), Err(syntax_error(1, 1, Expected::Operand)));
    assert_eq!(parse("@\u{e9}"), Err(syntax_error(1, 1, Expected::Operand)));
    assert_eq!(parse("(1X)"), Err(syntax_error(1, 1, Expected::Label)));
    assert_eq!(parse("(42)"), Err(syntax_error(1, 1, Expected::Label)));
}

#[test]
fn operand_is_a_constant_or_a_symbol() {
    assert_eq!(parse("@0"), Ok(vec![constant("0"), Item::EndOfInput]));
    assert_eq!(parse("@007"), Ok(vec![constant("007"), Item::EndOfInput]));
    assert_eq!(parse("@99999"), Ok(vec![constant("99999"), Item::EndOfInput]));
    assert_eq!(parse("@"), Err(syntax_error(1, 1, Expected::Operand)));
    assert_eq!(parse("@ // 1"), Err(syntax_error(1, 1, Expected::Operand)));
    assert_eq!(parse("@-1"), Err(syntax_error(1, 1, Expected::Operand)));
    assert_eq!(parse("@+1"), Err(syntax_error(1, 1, Expected::Operand)));
    assert_eq!(parse("@@1"), Err(syntax_error(1, 1, Expected::Operand)));
}

#[test]
fn label_needs_both_parentheses() {
    assert_eq!(parse("(X"), Err(syntax_error(1, 1, Expected::Label)));
    assert_eq!(parse("("), Err(syntax_error(1, 1, Expected::Label)));
    assert_eq!(parse("()"), Err(syntax_error(1, 1, Expected::Label)));
    assert_eq!(parse("(X))"), Err(syntax_error(1, 1, Expected::Label)));
    assert_eq!(parse("(X) @1"), Err(syntax_error(1, 1, Expected::Label)));
    assert_eq!(parse("X)"), Err(syntax_error(1, 1, Expected::Computation)));
}

#[test]
fn destination_is_a_set_of_registers() {
    for dest in ["A", "D", "M", "AD", "DA", "AM", "MA", "MD", "DM", "AMD", "ADM", "DAM", "DMA", "MAD", "MDA"] {
        assert_eq!(
            parse(&format!("{dest}=0")),
            Ok(vec![compute(dest, "0", ""), Item::EndOfInput]),
            "dest {dest}"
        );
    }
    for dest in ["", "AA", "ADA", "AMDA", "X", "a", "D1", "AMDM"] {
        assert_eq!(
            parse(&format!("{dest}=0")),
            Err(syntax_error(1, 1, Expected::Destination)),
            "dest {dest:?}"
        );
    }
}

#[test]
fn computation_is_one_of_the_instruction_set() {
    for comp in [
        "0", "1", "-1", "D", "A", "M", "!D", "!A", "!M", "-D", "-A", "-M", "D+1", "A+1", "M+1",
        "D-1", "A-1", "M-1", "D+A", "D+M", "D-A", "D-M", "A-D", "M-D", "D&A", "D&M", "D|A", "D|M",
    ] {
        assert_eq!(
            parse(&format!("D={comp};JEQ")),
            Ok(vec![compute("D", comp, "JEQ"), Item::EndOfInput]),
            "comp {comp}"
        );
        assert_eq!(parse(comp), Ok(vec![compute("", comp, ""), Item::EndOfInput]), "comp {comp}");
    }
    for comp in ["", "2", "1+D", "A+D", "M+D", "D+D", "d", "D++1", "D=A", "A&D", "!0", "-0"] {
        assert_eq!(
            parse(&format!("D={comp};JEQ")),
            Err(syntax_error(1, 1, Expected::Computation)),
            "comp {comp:?}"
        );
    }
}

#[test]
fn jump_is_one_of_seven() {
    for jump in ["JGT", "JEQ", "JGE", "JLT", "JNE", "JLE", "JMP"] {
        assert_eq!(
            parse(&format!("D;{jump}")),
            Ok(vec![compute("", "D", jump), Item::EndOfInput]),
            "jump {jump}"
        );
    }
    for jump in ["", "JXX", "jmp", "JMPX", "J", "JMP;JMP", "0"] {
        assert_eq!(
            parse(&format!("D;{jump}")),
            Err(syntax_error(1, 1, Expected::Jump)),
            "jump {jump:?}"
        );
    }
}

#[test]
fn first_wrong_part_is_named() {
    assert_eq!(parse("X=Q;JXX"), Err(syntax_error(1, 1, Expected::Destination)));
    assert_eq!(parse("D=Q;JXX"), Err(syntax_error(1, 1, Expected::Computation)));
    assert_eq!(parse("D=A;JXX"), Err(syntax_error(1, 1, Expected::Jump)));
    assert_eq!(parse(";JMP"), Err(syntax_error(1, 1, Expected::Computation)));
    assert_eq!(parse("="), Err(syntax_error(1, 1, Expected::Destination)));
    assert_eq!(parse("/"), Err(syntax_error(1, 1, Expected::Computation)));
    assert_eq!(parse("D=A / x"), Err(syntax_error(1, 1, Expected::Computation)));
}

#[test]
fn syntax_error_has_line_and_column() {
    assert_eq!(parse("@1\n\n   D=Q\n"), Err(syntax_error(3, 4, Expected::Computation)));
    assert_eq!(parse("@1\r\n\t(X\r\n"), Err(syntax_error(2, 2, Expected::Label)));
    assert_eq!(parse("@1\r@2\r  @x y"), Err(syntax_error(3, 3, Expected::Operand)));
    assert_eq!(parse("// a\n// b\n// c\n0;JMP\n  D;J // no"), Err(syntax_error(5, 3, Expected::Jump)));
}

#[test]
fn first_syntax_error_wins() {
    assert_eq!(parse("@1\n@\n(\nD=\n"), Err(syntax_error(2, 1, Expected::Operand)));
    assert_eq!(assemble_source("(X)\n(X)\n@"), Err(syntax_error(3, 1, Expected::Operand)));
}

#[test]
fn two_statements_do_not_share_a_line() {
    assert_eq!(parse("@1 D=A"), Err(syntax_error(1, 1, Expected::Operand)));
    assert_eq!(parse("D=A @1"), Err(syntax_error(1, 1, Expected::Computation)));
    assert_eq!(parse("D=A D=M"), Err(syntax_error(1, 1, Expected::Computation)));
}

#[test]
fn assembling_a_source_twice_gives_the_same_output() {
    let source = "@a\n@b\n(L)\n@L\nD=M;JGT\n";
    assert_eq!(assemble_source(source), assemble_source(source));
    let broken = "@a\n@b\n(L)\n(L)\n";
    assert_eq!(assemble_source(broken), assemble_source(broken));
}

#[test]
fn large_source_is_assembled() {
    let mut source = String::new();
    for i in 0..32768 {
        source.push_str(if i % 2 == 0 { "@last // load\n" } else { "  0;JMP\r\n" });
    }
    source.push_str("(last)\n");
    let out = assemble_source(&source).unwrap();
    assert_eq!(out.len(), 32768);
    assert_eq!(out[0], "1000000000000000");
    assert_eq!(out[1], "1110101010000111");
    source.push_str("@0");
    assert_eq!(assemble_source(&source), Err(AssembleError::ProgramTooLarge));
}
