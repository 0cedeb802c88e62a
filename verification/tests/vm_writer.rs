use hack_toolchain::assembly::{render_lines, Comp, Dest, Jump, Line, Operand, MAX_ADDRESS};
use hack_toolchain::vm::code_writer::CodeWriter;
use hack_toolchain::vm::command::{ArithmeticOp, Command, CommandType, Segment};
use hack_toolchain::vm::driver::{translate, ErrorCause, SourceUnit, TranslateError};
use hack_toolchain::vm::labels::{is_internal_label, LabelAllocator};
use hack_toolchain::vm::parser::ParseError;
use hack_toolchain::vm::resolver::{
    resolve, resolve_cell, AddressPlan, ResolverError, VmAddress,
};

fn written(commands: &[Command]) -> Vec<String> {
    let mut writer = CodeWriter::new();
    for command in commands {
        writer.write_code(command).unwrap();
    }
    writer.render()
}

fn instructions(lines: &[String]) -> Vec<&str> {
    lines.iter().map(|l| l.as_str()).filter(|l| !l.starts_with("//")).collect()
}

fn unit(name: &str, text: &[&str]) -> SourceUnit {
    SourceUnit { name: name.to_string(), lines: text.iter().map(|l| l.to_string()).collect() }
}

const POP_TAIL: [&str; 10] =
    ["D=A", "@15", "M=D", "@SP", "M=M-1", "A=M", "D=M", "@15", "A=M", "M=D"];

const PUSH_TAIL: [&str; 5] = ["@SP", "A=M", "M=D", "@SP", "M=M+1"];

fn pop_to(address: &str) -> Vec<String> {
    let mut out = vec![address.to_string()];
    out.extend(POP_TAIL.iter().map(|l| l.to_string()));
    out
}

fn push_from(address: &str) -> Vec<String> {
    let mut out = vec![address.to_string(), "D=M".to_string()];
    out.extend(PUSH_TAIL.iter().map(|l| l.to_string()));
    out
}

#[test]
fn lines_render_as_assembly_text() {
    assert_eq!(Line::Comment("start push".to_string()).render(), "//start push");
    assert_eq!(Line::Label("LOOP".to_string()).render(), "(LOOP)");
    assert_eq!(Line::At(Operand::Number(15)).render(), "@15");
    assert_eq!(Line::At(Operand::Name("SP".to_string())).render(), "@SP");
    assert_eq!(
        Line::Compute { dest: Dest::M, comp: Comp::MPlusOne, jump: Jump::Null }.render(),
        "M=M+1"
    );
    assert_eq!(
        Line::Compute { dest: Dest::Null, comp: Comp::D, jump: Jump::JNE }.render(),
        "D;JNE"
    );
    assert_eq!(
        Line::Compute { dest: Dest::Null, comp: Comp::Zero, jump: Jump::JMP }.render(),
        "0;JMP"
    );
    assert_eq!(
        Line::Compute { dest: Dest::AM, comp: Comp::MMinusOne, jump: Jump::JLT }.render(),
        "AM=M-1;JLT"
    );
    assert_eq!(
        Line::Compute { dest: Dest::Null, comp: Comp::DOrM, jump: Jump::Null }.render(),
        "D|M"
    );
    let lines = vec![Line::At(Operand::Number(0)), Line::Label("X".to_string())];
    assert_eq!(render_lines(&lines), vec!["@0", "(X)"]);
}

#[test]
fn resolver_follows_the_rule_table() {
    assert_eq!(resolve(Segment::Constant, 7), Ok(AddressPlan::Literal(7)));
    assert_eq!(resolve(Segment::Pointer, 0), Ok(AddressPlan::Fixed(3)));
    assert_eq!(resolve(Segment::Pointer, 1), Ok(AddressPlan::Fixed(4)));
    assert_eq!(resolve(Segment::Temp, 0), Ok(AddressPlan::Fixed(5)));
    assert_eq!(resolve(Segment::Temp, 7), Ok(AddressPlan::Fixed(12)));
    assert_eq!(resolve(Segment::Static, 0), Ok(AddressPlan::Fixed(16)));
    assert_eq!(resolve(Segment::Static, 3), Ok(AddressPlan::Fixed(19)));
    assert_eq!(resolve(Segment::Local, 2), Ok(AddressPlan::Indirect { base: 1, offset: 2 }));
    assert_eq!(resolve(Segment::Argument, 0), Ok(AddressPlan::Indirect { base: 2, offset: 0 }));
    assert_eq!(resolve(Segment::This, 9), Ok(AddressPlan::Indirect { base: 3, offset: 9 }));
    assert_eq!(resolve(Segment::That, 1), Ok(AddressPlan::Indirect { base: 4, offset: 1 }));
}

#[test]
fn pointer_index_must_be_zero_or_one() {
    assert_eq!(resolve(Segment::Pointer, 2), Err(ResolverError::InvalidPointerIndex));
    assert_eq!(resolve(Segment::Pointer, usize::MAX), Err(ResolverError::InvalidPointerIndex));
    assert_eq!(resolve_cell(Segment::Pointer, 2), Err(ResolverError::InvalidPointerIndex));
}

#[test]
fn what_cannot_be_loaded_is_out_of_range() {
    assert_eq!(MAX_ADDRESS, 32767);
    assert_eq!(resolve(Segment::Constant, 32767), Ok(AddressPlan::Literal(32767)));
    assert_eq!(resolve(Segment::Constant, 32768), Err(ResolverError::OutOfRange));
    assert_eq!(resolve(Segment::Static, 32751), Ok(AddressPlan::Fixed(32767)));
    assert_eq!(resolve(Segment::Static, 32752), Err(ResolverError::OutOfRange));
    assert_eq!(resolve(Segment::Temp, 32762), Ok(AddressPlan::Fixed(32767)));
    assert_eq!(resolve(Segment::Temp, 32763), Err(ResolverError::OutOfRange));
    assert_eq!(resolve(Segment::Local, 32768), Err(ResolverError::OutOfRange));
    assert_eq!(resolve(Segment::Static, usize::MAX), Err(ResolverError::OutOfRange));
    assert_eq!(resolve(Segment::That, usize::MAX), Err(ResolverError::OutOfRange));
}

#[test]
fn constant_is_no_cell() {
    assert_eq!(resolve_cell(Segment::Constant, 0), Err(ResolverError::PopToConstant));
    assert_eq!(resolve_cell(Segment::Local, 0), Ok(AddressPlan::Indirect { base: 1, offset: 0 }));
    assert_eq!(resolve_cell(Segment::Temp, 1), Ok(AddressPlan::Fixed(6)));
}

#[test]
fn fixed_cells_have_their_addresses() {
    assert_eq!(VmAddress::SP.as_usize(), 0);
    assert_eq!(VmAddress::LCL.as_usize(), 1);
    assert_eq!(VmAddress::ARG.as_usize(), 2);
    assert_eq!(VmAddress::THIS.as_usize(), 3);
    assert_eq!(VmAddress::THAT.as_usize(), 4);
    assert_eq!(VmAddress::TEMP.as_usize(), 5);
    assert_eq!(VmAddress::R13.as_usize(), 13);
    assert_eq!(VmAddress::R14.as_usize(), 14);
    assert_eq!(VmAddress::R15.as_usize(), 15);
    assert_eq!(VmAddress::STATIC.as_usize(), 16);
}

#[test]
fn labels_are_numbered_from_one_counter() {
    let mut labels = LabelAllocator::new();
    assert_eq!(labels.count(), 0);
    assert_eq!(labels.next_label(), "L0");
    assert_eq!(labels.next_return_label(), "__RETURN__L1");
    assert_eq!(labels.next_label(), "L2");
    assert_eq!(labels.next_return_label(), "__RETURN__L3");
    assert_eq!(labels.count(), 4);
    for _ in 4..10 {
        labels.next_label();
    }
    assert_eq!(labels.next_label(), "L10");
}

#[test]
fn push_constant_loads_the_number_itself() {
    let out = written(&[Command::Push { segment: Segment::Constant, index: 7 }]);
    assert_eq!(
        out,
        vec![
            "//start push",
            "@7",
            "D=A",
            "@SP",
            "A=M",
            "M=D",
            "@SP",
            "M=M+1",
            "//end push"
        ]
    );
}

#[test]
fn pop_local_adds_the_index_to_the_base() {
    let out = written(&[Command::Pop { segment: Segment::Local, index: 2 }]);
    assert_eq!(
        out,
        vec![
            "//start pop",
            "//start load_m_from_dynamic_index_value",
            "@1",
            "D=M",
            "@2",
            "A=D+A",
            "//end load_m_from_dynamic_index_value",
            "D=A",
            "@15",
            "M=D",
            "@SP",
            "M=M-1",
            "A=M",
            "D=M",
            "@15",
            "A=M",
            "M=D",
            "//end pop"
        ]
    );
}

#[test]
fn push_of_each_segment_reads_its_cell() {
    let cases = [
        (Segment::Argument, 3, vec!["@2", "D=M", "@3", "A=D+A", "D=M"]),
        (Segment::Local, 0, vec!["@1", "D=M", "@0", "A=D+A", "D=M"]),
        (Segment::This, 1, vec!["@3", "D=M", "@1", "A=D+A", "D=M"]),
        (Segment::That, 4, vec!["@4", "D=M", "@4", "A=D+A", "D=M"]),
        (Segment::Static, 5, vec!["@21", "D=M"]),
        (Segment::Temp, 6, vec!["@11", "D=M"]),
        (Segment::Pointer, 0, vec!["@3", "D=M"]),
        (Segment::Pointer, 1, vec!["@4", "D=M"]),
        (Segment::Constant, 0, vec!["@0", "D=A"]),
    ];
    for (segment, index, head) in cases {
        let out = written(&[Command::Push { segment, index }]);
        let mut expected: Vec<String> = head.iter().map(|l| l.to_string()).collect();
        expected.extend(PUSH_TAIL.iter().map(|l| l.to_string()));
        assert_eq!(instructions(&out), expected);
        assert_eq!(out.first().unwrap(), "//start push");
        assert_eq!(out.last().unwrap(), "//end push");
    }
}

#[test]
fn pop_of_each_fixed_segment_writes_its_cell() {
    let cases = [
        (Segment::Static, 0, "@16"),
        (Segment::Temp, 7, "@12"),
        (Segment::Pointer, 0, "@3"),
        (Segment::Pointer, 1, "@4"),
    ];
    for (segment, index, address) in cases {
        let out = written(&[Command::Pop { segment, index }]);
        assert_eq!(instructions(&out), pop_to(address));
    }
}

#[test]
fn add_pops_two_and_pushes_one() {
    let out = written(&[Command::Arithmetic { op: ArithmeticOp::Add }]);
    let mut expected = pop_to("@13");
    expected.extend(pop_to("@14"));
    expected.extend(["@13", "D=M", "@14", "M=D+M"].iter().map(|l| l.to_string()));
    expected.extend(push_from("@14"));
    assert_eq!(instructions(&out), expected);
    assert_eq!(out.first().unwrap(), "//start add");
    assert_eq!(out.last().unwrap(), "//end add");
}

#[test]
fn sub_takes_the_right_operand_from_the_left() {
    let out = written(&[Command::Arithmetic { op: ArithmeticOp::Sub }]);
    let mut expected = pop_to("@13");
    expected.extend(pop_to("@14"));
    expected.extend(["@14", "D=M", "@13", "M=D-M"].iter().map(|l| l.to_string()));
    expected.extend(push_from("@13"));
    assert_eq!(instructions(&out), expected);
}

#[test]
fn and_and_or_combine_in_the_data_register() {
    for (op, combine) in [(ArithmeticOp::And, "D=D&M"), (ArithmeticOp::Or, "D=D|M")] {
        let out = written(&[Command::Arithmetic { op }]);
        let mut expected = pop_to("@13");
        expected.extend(pop_to("@14"));
        expected.extend(["@14", "D=M", "@13", combine, "M=D"].iter().map(|l| l.to_string()));
        expected.extend(push_from("@13"));
        assert_eq!(instructions(&out), expected);
    }
}

#[test]
fn neg_and_not_replace_the_top() {
    for (op, apply) in [(ArithmeticOp::Neg, "M=-M"), (ArithmeticOp::Not, "M=!M")] {
        let out = written(&[Command::Arithmetic { op }]);
        let mut expected = pop_to("@13");
        expected.extend(["@13", apply].iter().map(|l| l.to_string()));
        expected.extend(push_from("@13"));
        assert_eq!(instructions(&out), expected);
    }
}

#[test]
fn comparison_branches_over_three_fresh_labels() {
    for (op, jump) in
        [(ArithmeticOp::Eq, "D;JEQ"), (ArithmeticOp::Gt, "D;JGT"), (ArithmeticOp::Lt, "D;JLT")]
    {
        let out = written(&[Command::Arithmetic { op }]);
        let mut expected = pop_to("@13");
        expected.extend(pop_to("@14"));
        expected.extend(
            [
                "@14", "D=M", "@13", "D=D-M", "@L0", jump, "@L1", "0;JMP", "(L0)", "D=-1", "@L2",
                "0;JMP", "(L1)", "D=0", "@L2", "0;JMP", "(L2)", "@13", "M=D",
            ]
            .iter()
            .map(|l| l.to_string()),
        );
        expected.extend(push_from("@13"));
        assert_eq!(instructions(&out), expected);
    }
}

#[test]
fn comparisons_never_share_a_label() {
    let out = written(&[
        Command::Arithmetic { op: ArithmeticOp::Eq },
        Command::Arithmetic { op: ArithmeticOp::Lt },
    ]);
    let declared: Vec<&str> =
        out.iter().map(|l| l.as_str()).filter(|l| l.starts_with('(')).collect();
    assert_eq!(declared, vec!["(L0)", "(L1)", "(L2)", "(L3)", "(L4)", "(L5)"]);
}

#[test]
fn label_is_declared_as_written() {
    let out = written(&[Command::Label { name: "LOOP".to_string() }]);
    assert_eq!(out, vec!["//start label", "(LOOP)", "//end label"]);
}

#[test]
fn goto_jumps_without_condition() {
    let out = written(&[Command::Goto { name: "LOOP".to_string() }]);
    assert_eq!(out, vec!["//start goto", "@LOOP", "0;JMP", "//end goto"]);
}

#[test]
fn if_goto_pops_then_jumps_on_nonzero() {
    let out = written(&[Command::IfGoto { name: "END".to_string() }]);
    assert_eq!(
        out,
        vec![
            "//start if-goto",
            "@SP",
            "M=M-1",
            "A=M",
            "D=M",
            "@END",
            "D;JNE",
            "//end if-goto"
        ]
    );
}

#[test]
fn function_declares_its_qualified_label_and_clears_its_locals() {
    let mut writer = CodeWriter::new();
    writer.set_base_name("Main.vm");
    writer.write_code(&Command::Function { name: "run".to_string(), n_locals: 2 }).unwrap();
    let out = writer.render();
    let text = instructions(&out);
    let mut expected = vec!["(Main.run)".to_string()];
    for i in 0..2 {
        expected.extend(["@0", "D=A"].iter().map(|l| l.to_string()));
        expected.extend(PUSH_TAIL.iter().map(|l| l.to_string()));
        expected.extend(
            ["@1".to_string(), "D=M".to_string(), format!("@{}", i), "A=D+A".to_string()]
        );
        expected.extend(POP_TAIL.iter().map(|l| l.to_string()));
    }
    assert_eq!(text, expected);
    assert_eq!(out.first().unwrap(), "//start function");
    assert_eq!(out.last().unwrap(), "//end function");
}

#[test]
fn function_without_locals_is_its_label() {
    let out = written(&[Command::Function { name: "f".to_string(), n_locals: 0 }]);
    assert_eq!(out, vec!["//start function", "(.f)", "//end function"]);
}

#[test]
fn call_saves_the_frame_and_jumps() {
    let mut writer = CodeWriter::new();
    writer.set_base_name("dir/Main.vm");
    writer.write_code(&Command::Call { name: "f".to_string(), n_args: 2 }).unwrap();
    let out = writer.render();
    let push_d = ["@SP", "M=M+1", "A=M-1", "M=D"];
    let mut expected: Vec<String> = vec!["@__RETURN__L0".to_string(), "D=A".to_string()];
    expected.extend(push_d.iter().map(|l| l.to_string()));
    for register in ["@LCL", "@ARG", "@THIS", "@THAT"] {
        expected.extend([register.to_string(), "D=M".to_string()]);
        expected.extend(push_d.iter().map(|l| l.to_string()));
    }
    expected.extend(
        [
            "@SP", "D=M", "@5", "D=D-A", "@2", "D=D-A", "@ARG", "M=D", "@SP", "D=M", "@LCL", "M=D",
            "@Main.f", "0;JMP", "(__RETURN__L0)",
        ]
        .iter()
        .map(|l| l.to_string()),
    );
    assert_eq!(instructions(&out), expected);
    assert_eq!(out.first().unwrap(), "//start call function");
    assert_eq!(out.last().unwrap(), "//end call function");
}

#[test]
fn two_calls_of_one_function_return_to_two_labels() {
    let call = Command::Call { name: "f".to_string(), n_args: 0 };
    let out = written(&[call.clone(), call]);
    let declared: Vec<&str> =
        out.iter().map(|l| l.as_str()).filter(|l| l.starts_with('(')).collect();
    assert_eq!(declared, vec!["(__RETURN__L0)", "(__RETURN__L1)"]);
    let loaded: Vec<&str> =
        out.iter().map(|l| l.as_str()).filter(|l| l.starts_with("@__RETURN__")).collect();
    assert_eq!(loaded, vec!["@__RETURN__L0", "@__RETURN__L1"]);
}

#[test]
fn return_restores_the_frame_of_the_caller() {
    let out = written(&[Command::Return]);
    let mut expected: Vec<String> = [
        "@LCL", "D=M", "@13", "M=D", "@5", "A=D-A", "D=M", "@14", "M=D", "@2", "D=M", "@0",
        "A=D+A",
    ]
    .iter()
    .map(|l| l.to_string())
    .collect();
    expected.extend(POP_TAIL.iter().map(|l| l.to_string()));
    expected.extend(["@ARG", "D=M+1", "@SP", "M=D"].iter().map(|l| l.to_string()));
    for register in ["@THAT", "@THIS", "@ARG", "@LCL"] {
        expected.extend(
            ["@13", "M=M-1", "A=M", "D=M", register, "M=D"].iter().map(|l| l.to_string()),
        );
    }
    expected.extend(["@14", "A=M", "0;JMP"].iter().map(|l| l.to_string()));
    assert_eq!(instructions(&out), expected);
}

#[test]
fn what_cannot_be_lowered_writes_nothing() {
    let mut writer = CodeWriter::new();
    writer.write_code(&Command::Return).unwrap();
    let before = writer.render();
    assert_eq!(
        writer.write_code(&Command::Pop { segment: Segment::Constant, index: 1 }),
        Err(ResolverError::PopToConstant)
    );
    assert_eq!(
        writer.write_code(&Command::Push { segment: Segment::Pointer, index: 2 }),
        Err(ResolverError::InvalidPointerIndex)
    );
    assert_eq!(
        writer.write_code(&Command::Push { segment: Segment::Constant, index: 40000 }),
        Err(ResolverError::OutOfRange)
    );
    assert_eq!(
        writer.write_code(&Command::Call { name: "f".to_string(), n_args: 32768 }),
        Err(ResolverError::OutOfRange)
    );
    assert_eq!(
        writer.write_code(&Command::Function { name: "f".to_string(), n_locals: 32770 }),
        Err(ResolverError::OutOfRange)
    );
    assert_eq!(writer.render(), before);
}

#[test]
fn write_push_pop_takes_the_kind() {
    let mut writer = CodeWriter::new();
    writer.write_push_pop(CommandType::C_PUSH, Segment::Constant, 3).unwrap();
    writer.write_push_pop(CommandType::C_POP, Segment::Temp, 0).unwrap();
    let out = writer.render();
    let mut expected: Vec<String> = vec!["@3".to_string(), "D=A".to_string()];
    expected.extend(PUSH_TAIL.iter().map(|l| l.to_string()));
    expected.extend(pop_to("@5"));
    assert_eq!(instructions(&out), expected);
    assert_eq!(
        writer.write_push_pop(CommandType::C_POP, Segment::Constant, 3),
        Err(ResolverError::PopToConstant)
    );
}

#[test]
fn write_push_pop_refuses_every_other_kind() {
    let kinds = [
        CommandType::C_INIT,
        CommandType::C_ARITHETIC,
        CommandType::C_LABEL,
        CommandType::C_GOTO,
        CommandType::C_IF,
        CommandType::C_FUNCTION,
        CommandType::C_RETURN,
        CommandType::C_CALL,
    ];
    let mut writer = CodeWriter::new();
    writer.write_push_pop(CommandType::C_PUSH, Segment::Constant, 3).unwrap();
    let before = writer.render();
    for kind in kinds {
        assert_eq!(
            writer.write_push_pop(kind, Segment::Local, 0),
            Err(ResolverError::NotPushOrPop)
        );
        assert_eq!(writer.render(), before);
    }
}

#[test]
fn write_arithmetic_writes_the_operation() {
    let mut writer = CodeWriter::new();
    writer.write_arithmetic(ArithmeticOp::Not);
    let out = writer.render();
    assert_eq!(out.first().unwrap(), "//start not");
    assert!(out.iter().any(|l| l == "M=!M"));
}

#[test]
fn comments_record_the_command() {
    let mut writer = CodeWriter::new();
    writer.write_comment(&Command::Push { segment: Segment::Local, index: 4 });
    writer.write_comment(&Command::Arithmetic { op: ArithmeticOp::Add });
    writer.write_comment(&Command::Return);
    writer.write_comment(&Command::Call { name: "f".to_string(), n_args: 2 });
    writer.write_simple_comment("plain");
    assert_eq!(
        writer.render(),
        vec![
            "// C_PUSH, local, 4",
            "// C_ARITHETIC, add, 0",
            "// C_RETURN, , 0",
            "// C_CALL, f, 2",
            "//plain"
        ]
    );
}

#[test]
fn base_name_is_the_name_of_the_file_without_its_extension() {
    for (path, tag) in [
        ("Main.vm", "Main"),
        ("prog/Main.vm", "Main"),
        ("a/b/c.vm", "c"),
        ("/abs/Main.vm", "Main"),
        ("./Main.vm", "Main"),
        ("Main", "Main"),
        ("dir.d/Main", "Main"),
        ("My.Class.vm", "My.Class"),
        (".hidden", ".hidden"),
        ("dir/", ""),
        ("", ""),
    ] {
        let mut writer = CodeWriter::new();
        writer.set_base_name(path);
        assert_eq!(writer.base_name(), tag);
        writer.write_code(&Command::Function { name: "f".to_string(), n_locals: 0 }).unwrap();
        assert_eq!(writer.render()[1], format!("({}.f)", tag));
        assert_eq!(writer.lines().len(), 3);
    }
}

#[test]
fn two_files_of_one_directory_have_two_tags() {
    let mut writer = CodeWriter::new();
    assert_eq!(writer.base_name(), "");
    writer.set_base_name("prog/A.vm");
    writer.write_function("run", 0).unwrap();
    writer.set_base_name("prog/B.vm");
    writer.write_function("run", 0).unwrap();
    let out = writer.render();
    let declared: Vec<&str> =
        out.iter().map(|l| l.as_str()).filter(|l| l.starts_with('(')).collect();
    assert_eq!(declared, vec!["(A.run)", "(B.run)"]);
}

#[test]
fn a_label_of_the_form_of_the_internal_labels_is_refused() {
    for name in ["L0", "L12", "L007", "__RETURN__L0", "__RETURN__L345"] {
        let mut writer = CodeWriter::new();
        writer.write_return();
        let before = writer.render();
        assert!(is_internal_label(name));
        assert_eq!(
            writer.write_code(&Command::Label { name: name.to_string() }),
            Err(ResolverError::ReservedLabel)
        );
        assert_eq!(writer.write_label(name), Err(ResolverError::ReservedLabel));
        assert_eq!(writer.render(), before);
    }
}

#[test]
fn any_other_label_is_declared() {
    for name in
        ["L", "LOOP", "L1x", "l0", "L-1", "__RETURN__L", "__RETURN__0", "_RETURN__L0", "xL0", ""]
    {
        let mut writer = CodeWriter::new();
        assert!(!is_internal_label(name));
        assert_eq!(writer.write_label(name), Ok(()));
        assert_eq!(writer.render()[1], format!("({})", name));
    }
}

#[test]
fn a_written_label_never_is_the_return_label_of_a_call() {
    let mut writer = CodeWriter::new();
    assert_eq!(writer.write_label("__RETURN__L0"), Err(ResolverError::ReservedLabel));
    writer.write_call("f", 0).unwrap();
    let out = writer.render();
    let declared: Vec<&str> =
        out.iter().map(|l| l.as_str()).filter(|l| l.starts_with('(')).collect();
    assert_eq!(declared, vec!["(__RETURN__L0)"]);
}

#[test]
fn every_command_has_its_own_method() {
    let commands = [
        Command::Push { segment: Segment::Local, index: 3 },
        Command::Pop { segment: Segment::That, index: 1 },
        Command::Arithmetic { op: ArithmeticOp::Add },
        Command::Arithmetic { op: ArithmeticOp::Sub },
        Command::Arithmetic { op: ArithmeticOp::Neg },
        Command::Arithmetic { op: ArithmeticOp::And },
        Command::Arithmetic { op: ArithmeticOp::Or },
        Command::Arithmetic { op: ArithmeticOp::Not },
        Command::Arithmetic { op: ArithmeticOp::Eq },
        Command::Arithmetic { op: ArithmeticOp::Gt },
        Command::Arithmetic { op: ArithmeticOp::Lt },
        Command::Label { name: "HERE".to_string() },
        Command::Goto { name: "HERE".to_string() },
        Command::IfGoto { name: "HERE".to_string() },
        Command::Function { name: "f".to_string(), n_locals: 2 },
        Command::Call { name: "f".to_string(), n_args: 1 },
        Command::Return,
    ];
    let mut whole = CodeWriter::new();
    whole.set_base_name("Unit.vm");
    for command in &commands {
        whole.write_code(command).unwrap();
    }
    let mut parts = CodeWriter::new();
    parts.set_base_name("Unit.vm");
    parts.write_push(Segment::Local, 3).unwrap();
    parts.write_pop(Segment::That, 1).unwrap();
    parts.write_add();
    parts.write_sub();
    parts.write_neg();
    parts.write_and();
    parts.write_or();
    parts.write_not();
    parts.write_eq();
    parts.write_gt();
    parts.write_lt();
    parts.write_label("HERE").unwrap();
    parts.write_goto("HERE");
    parts.write_if_goto("HERE");
    parts.write_function("f", 2).unwrap();
    parts.write_call("f", 1).unwrap();
    parts.write_return();
    assert_eq!(parts.render(), whole.render());
}

#[test]
fn the_methods_refuse_what_write_code_refuses() {
    let mut writer = CodeWriter::new();
    assert_eq!(writer.write_push(Segment::Pointer, 2), Err(ResolverError::InvalidPointerIndex));
    assert_eq!(writer.write_push(Segment::Constant, 32768), Err(ResolverError::OutOfRange));
    assert_eq!(writer.write_pop(Segment::Constant, 0), Err(ResolverError::PopToConstant));
    assert_eq!(writer.write_function("f", 32769), Err(ResolverError::OutOfRange));
    assert_eq!(writer.write_call("f", 32768), Err(ResolverError::OutOfRange));
    assert!(writer.render().is_empty());
    assert_eq!(writer.write_function("f", 0), Ok(()));
    assert_eq!(writer.write_call("f", 32767), Ok(()));
}

#[test]
fn translate_keeps_the_order_of_units_and_lines() {
    let units = vec![
        unit("One.vm", &["// first unit", "push constant 1", "", "function f 0"]),
        unit("two/Two.vm", &["function f 0", "eq // compare", "call f 0", "eq"]),
    ];
    let lines = translate(&units).unwrap();
    let out = render_lines(&lines);
    let notes: Vec<&str> =
        out.iter().map(|l| l.as_str()).filter(|l| l.starts_with("// ")).collect();
    assert_eq!(
        notes,
        vec![
            "// C_PUSH, constant, 1",
            "// C_FUNCTION, f, 0",
            "// C_FUNCTION, f, 0",
            "// C_ARITHETIC, eq, 0",
            "// C_CALL, f, 0",
            "// C_ARITHETIC, eq, 0"
        ]
    );
    let declared: Vec<&str> =
        out.iter().map(|l| l.as_str()).filter(|l| l.starts_with('(')).collect();
    assert_eq!(
        declared,
        vec![
            "(One.f)",
            "(Two.f)",
            "(L0)",
            "(L1)",
            "(L2)",
            "(__RETURN__L3)",
            "(L4)",
            "(L5)",
            "(L6)"
        ]
    );
    assert!(out.iter().any(|l| l == "@Two.f"));
}

#[test]
fn translate_is_the_writer_line_by_line() {
    let units = vec![unit("U", &["push constant 5", "push constant 2", "sub"])];
    let out = render_lines(&translate(&units).unwrap());
    let mut writer = CodeWriter::new();
    writer.set_base_name("U");
    for command in [
        Command::Push { segment: Segment::Constant, index: 5 },
        Command::Push { segment: Segment::Constant, index: 2 },
        Command::Arithmetic { op: ArithmeticOp::Sub },
    ] {
        writer.write_comment(&command);
        writer.write_code(&command).unwrap();
    }
    assert_eq!(out, writer.render());
}

#[test]
fn translate_of_nothing_is_empty() {
    assert!(translate(&Vec::new()).unwrap().is_empty());
    assert!(translate(&vec![unit("A", &[]), unit("B", &["", "// nothing"])]).unwrap().is_empty());
}

#[test]
fn translate_reports_the_first_error_with_its_place() {
    let units = vec![
        unit("A.vm", &["push constant 1", "add"]),
        unit("B.vm", &["", "push constant 2", "pop constant 0", "bogus"]),
    ];
    assert_eq!(
        translate(&units).unwrap_err(),
        TranslateError {
            unit: 1,
            line: 3,
            cause: ErrorCause::Resolve(ResolverError::PopToConstant)
        }
    );
    let units = vec![unit("A.vm", &["push constant 1", "", "push local"])];
    assert_eq!(
        translate(&units).unwrap_err(),
        TranslateError { unit: 0, line: 3, cause: ErrorCause::Parse(ParseError::Arity) }
    );
    let units = vec![unit("A.vm", &["jump"]), unit("B.vm", &["pop constant 0"])];
    assert_eq!(
        translate(&units).unwrap_err(),
        TranslateError { unit: 0, line: 1, cause: ErrorCause::Parse(ParseError::UnknownCommand) }
    );
}
