use hack_toolchain::assembler::code::CodeGen;
use hack_toolchain::assembler::parser::{symbol_from_capture, AsmError, InstructionType, Parser};
use hack_toolchain::assembler::program::{
    assemble, assemble_lines, encode_address, encode_compute, resolve_symbol, FIRST_VARIABLE,
};
use hack_toolchain::assembler::symbol_table::SymbolTable;
use hack_toolchain::assembly::{Comp, Dest, Jump, MAX_ADDRESS};

fn s(text: &str) -> String {
    text.to_string()
}

#[test]
fn comp_table_holds_the_instruction_set() {
    let code = CodeGen::new();
    let table = [
        ("0", "101010"),
        ("1", "111111"),
        ("-1", "111010"),
        ("D", "001100"),
        ("A", "110000"),
        ("M", "110000"),
        ("!D", "001101"),
        ("!A", "110001"),
        ("!M", "110001"),
        ("-D", "001111"),
        ("-A", "110011"),
        ("-M", "110011"),
        ("D+1", "011111"),
        ("A+1", "110111"),
        ("M+1", "110111"),
        ("D-1", "001110"),
        ("A-1", "110010"),
        ("M-1", "110010"),
        ("D+A", "000010"),
        ("D+M", "000010"),
        ("D-A", "010011"),
        ("D-M", "010011"),
        ("A-D", "000111"),
        ("M-D", "000111"),
        ("D&A", "000000"),
        ("D&M", "000000"),
        ("D|A", "010101"),
        ("D|M", "010101"),
    ];
    for (mnemonic, bits) in table {
        assert_eq!(code.find_comp(&s(mnemonic)), Some(s(bits)));
        assert_eq!(code.gen_comp(&s(mnemonic)), bits);
    }
    assert_eq!(code.find_comp(&s("M+D")), None);
    assert_eq!(code.find_comp(&s("")), None);
    assert_eq!(code.find_comp(&s("d")), None);
}

#[test]
fn dest_table_holds_the_instruction_set() {
    let code = CodeGen::new();
    let table = [
        ("null", "000"),
        ("M", "001"),
        ("D", "010"),
        ("DM", "011"),
        ("MD", "011"),
        ("A", "100"),
        ("AM", "101"),
        ("AD", "110"),
        ("ADM", "111"),
    ];
    for (mnemonic, bits) in table {
        assert_eq!(code.find_dest(&s(mnemonic)), Some(s(bits)));
        assert_eq!(code.gen_dest(&s(mnemonic)), bits);
    }
    assert_eq!(code.find_dest(&s("X")), None);
}

#[test]
fn jump_table_holds_the_instruction_set() {
    let code = CodeGen::new();
    let table = [
        ("null", "000"),
        ("JGT", "001"),
        ("JEQ", "010"),
        ("JGE", "011"),
        ("JLT", "100"),
        ("JNE", "101"),
        ("JLE", "110"),
        ("JMP", "111"),
    ];
    for (mnemonic, bits) in table {
        assert_eq!(code.find_jump(&s(mnemonic)), Some(s(bits)));
        assert_eq!(code.gen_jump(&s(mnemonic)), bits);
    }
    assert_eq!(code.find_jump(&s("JXX")), None);
}

#[test]
fn a_bit_tells_whether_memory_is_read() {
    let code = CodeGen::new();
    assert_eq!(code.gen_abit(&s("M")), "1");
    assert_eq!(code.gen_abit(&s("D+M")), "1");
    assert_eq!(code.gen_abit(&s("M-D")), "1");
    assert_eq!(code.gen_abit(&s("D+A")), "0");
    assert_eq!(code.gen_abit(&s("0")), "0");
    assert_eq!(code.gen_abit(&s("")), "0");
}

#[test]
fn every_mnemonic_that_a_line_renders_is_in_the_tables() {
    let code = CodeGen::new();
    let comps = [
        Comp::Zero,
        Comp::One,
        Comp::MinusOne,
        Comp::D,
        Comp::A,
        Comp::M,
        Comp::NotD,
        Comp::NotA,
        Comp::NotM,
        Comp::NegD,
        Comp::NegA,
        Comp::NegM,
        Comp::DPlusOne,
        Comp::APlusOne,
        Comp::MPlusOne,
        Comp::DMinusOne,
        Comp::AMinusOne,
        Comp::MMinusOne,
        Comp::DPlusA,
        Comp::DPlusM,
        Comp::DMinusA,
        Comp::DMinusM,
        Comp::AMinusD,
        Comp::MMinusD,
        Comp::DAndA,
        Comp::DAndM,
        Comp::DOrA,
        Comp::DOrM,
    ];
    for comp in comps {
        assert!(code.find_comp(&s(comp.text())).is_some());
    }
    for dest in [Dest::M, Dest::D, Dest::DM, Dest::A, Dest::AM, Dest::AD, Dest::ADM] {
        assert!(code.find_dest(&s(dest.text())).is_some());
    }
    for jump in
        [Jump::JGT, Jump::JEQ, Jump::JGE, Jump::JLT, Jump::JNE, Jump::JLE, Jump::JMP]
    {
        assert!(code.find_jump(&s(jump.text())).is_some());
    }
    assert_eq!(Dest::Null.text(), "");
    assert_eq!(Jump::Null.text(), "");
}

#[test]
fn symbol_table_starts_with_the_predefined_symbols() {
    let table = SymbolTable::new();
    for i in 0..16 {
        assert_eq!(table.lookup(&format!("R{}", i)), Some(i));
    }
    assert_eq!(table.get_address(&s("SP")), 0);
    assert_eq!(table.get_address(&s("LCL")), 1);
    assert_eq!(table.get_address(&s("ARG")), 2);
    assert_eq!(table.get_address(&s("THIS")), 3);
    assert_eq!(table.get_address(&s("THAT")), 4);
    assert_eq!(table.get_address(&s("SCREEN")), 16384);
    assert_eq!(table.get_address(&s("KBD")), 24576);
    assert!(table.contains(&s("R15")));
    assert!(!table.contains(&s("R16")));
    assert!(!table.contains(&s("sp")));
    assert_eq!(table.lookup(&s("LOOP")), None);
}

#[test]
fn symbol_table_keeps_the_last_address_given() {
    let mut table = SymbolTable::new();
    table.add_entry(s("LOOP"), 12);
    assert!(table.contains(&s("LOOP")));
    assert_eq!(table.get_address(&s("LOOP")), 12);
    table.add_entry(s("LOOP"), 20);
    assert_eq!(table.get_address(&s("LOOP")), 20);
    table.add_entry(s("SP"), 99);
    assert_eq!(table.get_address(&s("SP")), 99);
    assert_eq!(table.get_address(&s("LCL")), 1);
}

#[test]
fn parser_splits_the_program_into_lines() {
    let parser = Parser::new("@1\nD=A\n");
    assert_eq!(parser.codes, vec!["@1", "D=A", ""]);
    assert_eq!(parser.lineno, 0);
    assert_eq!(parser.get_instruction_type(), InstructionType::A_INSTRUCTION);
    assert_eq!(parser.get_symbol(), "");
    assert!(parser.has_more_lines());
    assert!(!Parser::new("").codes.is_empty());
}

#[test]
fn parser_reads_address_instructions() {
    let mut parser = Parser::new("  @R1  // load\n@100\n@__RETURN__L0");
    assert_eq!(parser.advance(), Ok(true));
    assert_eq!(parser.get_instruction_type(), InstructionType::A_INSTRUCTION);
    assert_eq!(parser.get_symbol(), "R1");
    assert_eq!(parser.advance(), Ok(true));
    assert_eq!(parser.get_symbol(), "100");
    assert_eq!(parser.advance(), Ok(true));
    assert_eq!(parser.get_symbol(), "__RETURN__L0");
    assert!(!parser.has_more_lines());
    assert_eq!(parser.advance(), Ok(false));
}

#[test]
fn parser_reads_compute_instructions() {
    let mut parser = Parser::new("D=M\n0;JMP\nAM=M-1;JNE\n D = D+A ; JGT \nD|M");
    let expected = [
        ("D", "M", "null"),
        ("null", "0", "JMP"),
        ("AM", "M-1", "JNE"),
        ("D", "D+A", "JGT"),
        ("null", "D|M", "null"),
    ];
    for (dest, comp, jump) in expected {
        assert_eq!(parser.advance(), Ok(true));
        assert_eq!(parser.get_instruction_type(), InstructionType::C_INSTRUCTION);
        assert_eq!(parser.get_dest(), dest);
        assert_eq!(parser.get_comp(), comp);
        assert_eq!(parser.get_jump(), jump);
    }
    assert_eq!(parser.advance(), Ok(false));
}

#[test]
fn parser_reads_label_declarations() {
    let mut parser = Parser::new("(LOOP)\n  (Main.vm.f)  // entry\n(__RETURN__L12)\n(a$b:c_d.e)");
    for symbol in ["LOOP", "Main.vm.f", "__RETURN__L12", "a$b:c_d.e"] {
        assert_eq!(parser.advance(), Ok(true));
        assert_eq!(parser.get_instruction_type(), InstructionType::L_INSTRUCTION);
        assert_eq!(parser.get_symbol(), symbol);
    }
    assert_eq!(parser.advance(), Ok(false));
}

#[test]
fn parser_refuses_what_is_no_label_declaration() {
    for text in ["(LOOP", "()", "(A B)", "(A)B", "((A))", "(A)(B)"] {
        let mut parser = Parser::new(text);
        assert_eq!(parser.advance(), Err(AsmError::MalformedLabel));
        assert_eq!(parser.lineno, 0);
    }
}

#[test]
fn parser_passes_lines_without_code() {
    let mut parser = Parser::new("// header\n\n   \n@1 // one\n\t// indented\nD=A\n\n");
    assert_eq!(parser.advance(), Ok(true));
    assert_eq!(parser.lineno, 4);
    assert_eq!(parser.get_symbol(), "1");
    assert_eq!(parser.advance(), Ok(true));
    assert_eq!(parser.lineno, 6);
    assert_eq!(parser.get_comp(), "A");
    assert!(parser.has_more_lines());
    assert_eq!(parser.advance(), Ok(false));
    assert!(!parser.has_more_lines());
}

#[test]
fn symbol_from_capture_maps_each_outcome() {
    assert_eq!(symbol_from_capture(Ok(Some(s("LOOP")))), Ok(s("LOOP")));
    assert_eq!(symbol_from_capture(Ok(None)), Err(AsmError::MalformedLabel));
    let broken = regex::Regex::new("(").unwrap_err();
    assert_eq!(symbol_from_capture(Err(broken)), Err(AsmError::Pattern));
}

#[test]
fn address_words_have_a_zero_and_fifteen_bits() {
    assert_eq!(encode_address(0), "0000000000000000");
    assert_eq!(encode_address(2), "0000000000000010");
    assert_eq!(encode_address(16384), "0100000000000000");
    assert_eq!(encode_address(32767), "0111111111111111");
}

#[test]
fn compute_words_join_the_bits_of_the_fields() {
    let code = CodeGen::new();
    assert_eq!(encode_compute(&code, &s("D"), &s("A"), &s("null")), Ok(s("1110110000010000")));
    assert_eq!(encode_compute(&code, &s("D"), &s("D+A"), &s("null")), Ok(s("1110000010010000")));
    assert_eq!(encode_compute(&code, &s("M"), &s("D"), &s("null")), Ok(s("1110001100001000")));
    assert_eq!(encode_compute(&code, &s("null"), &s("0"), &s("JMP")), Ok(s("1110101010000111")));
    assert_eq!(encode_compute(&code, &s("AM"), &s("M-1"), &s("JNE")), Ok(s("1111110010101101")));
    assert_eq!(encode_compute(&code, &s("D"), &s("M"), &s("null")), Ok(s("1111110000010000")));
}

#[test]
fn compute_words_need_known_mnemonics() {
    let code = CodeGen::new();
    assert_eq!(encode_compute(&code, &s("X"), &s("A"), &s("null")), Err(AsmError::UnknownDest));
    assert_eq!(encode_compute(&code, &s("D"), &s("A+D"), &s("null")), Err(AsmError::UnknownComp));
    assert_eq!(encode_compute(&code, &s("D"), &s("A"), &s("JUMP")), Err(AsmError::UnknownJump));
    assert_eq!(encode_compute(&code, &s("X"), &s("Y"), &s("Z")), Err(AsmError::UnknownDest));
    assert_eq!(encode_compute(&code, &s("D"), &s("Y"), &s("Z")), Err(AsmError::UnknownComp));
}

#[test]
fn symbols_resolve_to_numbers_labels_and_variables() {
    let mut table = SymbolTable::new();
    table.add_entry(s("LOOP"), 7);
    let mut next = FIRST_VARIABLE;
    assert_eq!(resolve_symbol(&s("21"), &mut table, &mut next), Ok(21));
    assert_eq!(resolve_symbol(&s("LOOP"), &mut table, &mut next), Ok(7));
    assert_eq!(resolve_symbol(&s("SCREEN"), &mut table, &mut next), Ok(16384));
    assert_eq!(next, 16);
    assert_eq!(resolve_symbol(&s("i"), &mut table, &mut next), Ok(16));
    assert_eq!(resolve_symbol(&s("sum"), &mut table, &mut next), Ok(17));
    assert_eq!(resolve_symbol(&s("i"), &mut table, &mut next), Ok(16));
    assert_eq!(next, 18);
    assert!(table.contains(&s("sum")));
}

#[test]
fn symbols_that_resolve_to_nothing_are_errors() {
    let mut table = SymbolTable::new();
    let mut next = FIRST_VARIABLE;
    assert_eq!(resolve_symbol(&s(""), &mut table, &mut next), Err(AsmError::MissingSymbol));
    assert_eq!(resolve_symbol(&s("12ab"), &mut table, &mut next), Err(AsmError::InvalidNumber));
    assert_eq!(
        resolve_symbol(&s("32768"), &mut table, &mut next),
        Err(AsmError::AddressOutOfRange)
    );
    assert_eq!(resolve_symbol(&s("32767"), &mut table, &mut next), Ok(MAX_ADDRESS));
    assert_eq!(resolve_symbol(&s("END"), &mut table, &mut next), Err(AsmError::UndefinedSymbol));
    assert_eq!(resolve_symbol(&s("_x"), &mut table, &mut next), Err(AsmError::UndefinedSymbol));
    table.add_entry(s("FAR"), 40000);
    assert_eq!(resolve_symbol(&s("FAR"), &mut table, &mut next), Err(AsmError::AddressOutOfRange));
    let mut full = 32768;
    assert_eq!(resolve_symbol(&s("v"), &mut table, &mut full), Err(AsmError::AddressOutOfRange));
    assert_eq!(next, 16);
    assert!(!table.contains(&s("v")));
}

#[test]
fn assemble_encodes_a_program_without_symbols() {
    let program = "// Computes R0 = 2 + 3\n\n@2\nD=A\n@3\nD=D+A\n@0\nM=D\n";
    assert_eq!(
        assemble(program),
        Ok(vec![
            s("0000000000000010"),
            s("1110110000010000"),
            s("0000000000000011"),
            s("1110000010010000"),
            s("0000000000000000"),
            s("1110001100001000"),
        ])
    );
}

#[test]
fn assemble_resolves_labels_and_variables() {
    let program = "\
   @i
   M=1      // i = 1
   @sum
   M=0
(LOOP)
   @i
   D=M
   @R0
   D=D-M
   @END
   D;JGT
   @i
   D=M
   @sum
   M=D+M
   @i
   M=M+1
   @LOOP
   0;JMP
(END)
   @END
   0;JMP
";
    assert_eq!(
        assemble(program),
        Ok(vec![
            s("0000000000010000"),
            s("1110111111001000"),
            s("0000000000010001"),
            s("1110101010001000"),
            s("0000000000010000"),
            s("1111110000010000"),
            s("0000000000000000"),
            s("1111010011010000"),
            s("0000000000010010"),
            s("1110001100000001"),
            s("0000000000010000"),
            s("1111110000010000"),
            s("0000000000010001"),
            s("1111000010001000"),
            s("0000000000010000"),
            s("1111110111001000"),
            s("0000000000000100"),
            s("1110101010000111"),
            s("0000000000010010"),
            s("1110101010000111"),
        ])
    );
}

#[test]
fn assemble_of_no_instruction_is_empty() {
    assert_eq!(assemble(""), Ok(Vec::new()));
    assert_eq!(assemble("// nothing\n\n   \n"), Ok(Vec::new()));
    assert_eq!(assemble("(ONLY)\n"), Ok(Vec::new()));
}

#[test]
fn assemble_reports_errors() {
    assert_eq!(assemble("@1\n(BROKEN\n"), Err(AsmError::MalformedLabel));
    assert_eq!(assemble("@\n"), Err(AsmError::MissingSymbol));
    assert_eq!(assemble("@1x\n"), Err(AsmError::InvalidNumber));
    assert_eq!(assemble("@40000\n"), Err(AsmError::AddressOutOfRange));
    assert_eq!(assemble("@NOWHERE\n0;JMP\n"), Err(AsmError::UndefinedSymbol));
    assert_eq!(assemble("Q=D\n"), Err(AsmError::UnknownDest));
    assert_eq!(assemble("D=M+D\n"), Err(AsmError::UnknownComp));
    assert_eq!(assemble("D;JJJ\n"), Err(AsmError::UnknownJump));
    assert_eq!(assemble("push constant 1\n"), Err(AsmError::UnknownComp));
}

#[test]
fn a_label_may_be_used_before_it_is_declared() {
    assert_eq!(
        assemble("@END\n0;JMP\n(END)\n@END\n"),
        Ok(vec![s("0000000000000010"), s("1110101010000111"), s("0000000000000010")])
    );
}

#[test]
fn assemble_lines_is_assemble_line_by_line() {
    let lines = vec![s("@END // jump"), s(""), s("0;JMP"), s("(END)"), s("  @END")];
    let text = lines.join("\n");
    assert_eq!(assemble_lines(lines), assemble(&text));
    assert_eq!(
        assemble(&text),
        Ok(vec![s("0000000000000010"), s("1110101010000111"), s("0000000000000010")])
    );
    assert_eq!(assemble_lines(Vec::new()), Ok(Vec::new()));
}

#[test]
fn parser_from_lines_starts_before_the_first_line() {
    let mut parser = Parser::from_lines(vec![s("D=A"), s("(X)")]);
    assert_eq!(parser.lineno, 0);
    assert_eq!(parser.codes.len(), 2);
    assert_eq!(parser.advance(), Ok(true));
    assert_eq!(parser.get_comp(), "A");
    assert_eq!(parser.advance(), Ok(true));
    assert_eq!(parser.get_symbol(), "X");
    assert_eq!(parser.advance(), Ok(false));
}
