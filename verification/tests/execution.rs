use hack_toolchain::assembler::program::assemble_lines;
use hack_toolchain::assembly::render_lines;
use hack_toolchain::vm::command::{Command, Segment};
use hack_toolchain::vm::code_writer::CodeWriter;
use hack_toolchain::vm::driver::{translate, SourceUnit};

const SP: usize = 0;
const LCL: usize = 1;
const ARG: usize = 2;
const THIS: usize = 3;
const THAT: usize = 4;

struct Computer {
    a: u16,
    d: u16,
    pc: usize,
    ram: Vec<u16>,
    rom: Vec<u16>,
}

fn computer(rom: Vec<u16>) -> Computer {
    let mut ram = vec![0u16; 65536];
    ram[SP] = 256;
    ram[LCL] = 300;
    ram[ARG] = 400;
    ram[THIS] = 3000;
    ram[THAT] = 3010;
    Computer { a: 0, d: 0, pc: 0, ram, rom }
}

fn words(assembly: &[String]) -> Vec<u16> {
    let binary = assemble_lines(assembly.to_vec()).unwrap();
    binary
        .iter()
        .map(|w| {
            assert_eq!(w.len(), 16);
            u16::from_str_radix(w, 2).unwrap()
        })
        .collect()
}

fn build(program: &[&str]) -> Computer {
    let unit = SourceUnit {
        name: "Test".to_string(),
        lines: program.iter().map(|l| l.to_string()).collect(),
    };
    let lines = translate(&vec![unit]).unwrap();
    computer(words(&render_lines(&lines)))
}

fn step(c: &mut Computer) {
    let word = c.rom[c.pc];
    if word & 0x8000 == 0 {
        c.a = word;
        c.pc += 1;
        return;
    }
    let bit = |n: u16| word & (1 << n) != 0;
    let mut x = c.d;
    let mut y = if bit(12) { c.ram[c.a as usize] } else { c.a };
    if bit(11) {
        x = 0;
    }
    if bit(10) {
        x = !x;
    }
    if bit(9) {
        y = 0;
    }
    if bit(8) {
        y = !y;
    }
    let mut out = if bit(7) { x.wrapping_add(y) } else { x & y };
    if bit(6) {
        out = !out;
    }
    let target = c.a;
    if bit(3) {
        c.ram[target as usize] = out;
    }
    if bit(4) {
        c.d = out;
    }
    if bit(5) {
        c.a = out;
    }
    let value = out as i16;
    let jump = (bit(2) && value < 0) || (bit(1) && value == 0) || (bit(0) && value > 0);
    c.pc = if jump { target as usize } else { c.pc + 1 };
}

fn run(c: &mut Computer) {
    let mut steps = 0;
    while c.pc < c.rom.len() {
        step(c);
        steps += 1;
        assert!(steps < 1_000_000, "the program does not end");
    }
}

fn run_for(c: &mut Computer, steps: usize) {
    for _ in 0..steps {
        assert!(c.pc < c.rom.len(), "the program left its code");
        step(c);
    }
}

fn top(c: &Computer) -> u16 {
    c.ram[c.ram[SP] as usize - 1]
}

fn run_with_stack(program: &[&str], stack: &[u16]) -> Computer {
    let mut c = build(program);
    for (i, v) in stack.iter().enumerate() {
        c.ram[256 + i] = *v;
    }
    c.ram[SP] = 256 + stack.len() as u16;
    run(&mut c);
    c
}

#[test]
fn push_then_pop_to_the_same_place_changes_nothing_else() {
    let places = [
        (Segment::Local, 0),
        (Segment::Local, 7),
        (Segment::Argument, 3),
        (Segment::This, 2),
        (Segment::That, 9),
        (Segment::Static, 0),
        (Segment::Static, 5),
        (Segment::Temp, 0),
        (Segment::Temp, 7),
        (Segment::Temp, 10),
        (Segment::Pointer, 0),
        (Segment::Pointer, 1),
    ];
    for (segment, index) in places {
        let mut writer = CodeWriter::new();
        writer.write_code(&Command::Push { segment, index }).unwrap();
        writer.write_code(&Command::Pop { segment, index }).unwrap();
        let mut c = computer(words(&writer.render()));
        for i in 5..4000 {
            c.ram[i] = (i as u16).wrapping_mul(31).wrapping_add(7);
        }
        c.ram[SP] = 260;
        let before = c.ram.clone();
        run(&mut c);
        assert_eq!(c.ram[SP], 260);
        for i in 0..c.ram.len() {
            if i != 15 && i != 260 {
                assert_eq!(c.ram[i], before[i], "cell {} for {:?} {}", i, segment, index);
            }
        }
    }
}

#[test]
fn push_then_pop_works_where_the_place_is_the_stack_pointer_or_the_scratch_cell() {
    for this in [0u16, 15, 260] {
        let mut c = build(&["push this 0", "pop this 0"]);
        c.ram[THIS] = this;
        c.ram[SP] = 260;
        c.ram[15] = 1234;
        c.ram[260] = 4321;
        let before = c.ram.clone();
        run(&mut c);
        assert_eq!(c.ram[SP], 260);
        assert_eq!(c.ram[this as usize], before[this as usize]);
        for i in 0..c.ram.len() {
            if i != 15 && i != 260 {
                assert_eq!(c.ram[i], before[i]);
            }
        }
    }
}

#[test]
fn push_constant_then_pop_local_sets_the_local() {
    for k in [0u16, 1, 42, 32767] {
        for junk in [0u16, 7, 0xFFFF] {
            let line = format!("push constant {}", k);
            let mut c = build(&[&line, "pop local 0"]);
            c.ram[SP] = 310;
            for i in 300..320 {
                c.ram[i] = junk;
            }
            run(&mut c);
            assert_eq!(c.ram[300], k);
            assert_eq!(c.ram[SP], 310);
        }
    }
}

#[test]
fn push_constant_then_pop_local_works_where_the_local_is_the_top() {
    let mut c = build(&["push constant 99", "pop local 0"]);
    c.ram[SP] = 300;
    run(&mut c);
    assert_eq!(c.ram[300], 99);
    assert_eq!(c.ram[SP], 300);
}

#[test]
fn add_wraps_around() {
    let pairs = [
        (0u16, 0u16),
        (1, 2),
        (32767, 1),
        (0xFFFF, 1),
        (0xFFFF, 0xFFFF),
        (0x8000, 0x8000),
        (12345, 54321),
        (40000, 30000),
    ];
    for (a, b) in pairs {
        let c = run_with_stack(&["add"], &[a, b]);
        assert_eq!(c.ram[SP], 257);
        assert_eq!(top(&c), a.wrapping_add(b));
    }
}

#[test]
fn add_of_pushed_constants() {
    let c = build_and_run(&["push constant 7", "push constant 8", "add"]);
    assert_eq!(top(&c), 15);
    assert_eq!(c.ram[SP], 257);
    let c = build_and_run(&["push constant 32767", "push constant 32767", "add"]);
    assert_eq!(top(&c), 65534);
}

fn build_and_run(program: &[&str]) -> Computer {
    let mut c = build(program);
    run(&mut c);
    c
}

#[test]
fn sub_is_left_minus_right() {
    let c = build_and_run(&["push constant 5", "push constant 2", "sub"]);
    assert_eq!(top(&c), 3);
    assert_eq!(c.ram[SP], 257);
    let c = build_and_run(&["push constant 2", "push constant 5", "sub"]);
    assert_eq!(top(&c), 0xFFFD);
    assert_eq!(top(&c) as i16, -3);
    assert_eq!(c.ram[SP], 257);
}

#[test]
fn sub_wraps_around() {
    for (a, b) in [(0u16, 1u16), (0x8000, 1), (5, 0xFFFF), (1000, 1000)] {
        let c = run_with_stack(&["sub"], &[a, b]);
        assert_eq!(top(&c), a.wrapping_sub(b));
    }
}

#[test]
fn neg_and_not_and_or_work_on_bits() {
    for v in [0u16, 1, 5, 0x8000, 0xFFFF] {
        let c = run_with_stack(&["neg"], &[v]);
        assert_eq!(top(&c), v.wrapping_neg());
        assert_eq!(c.ram[SP], 257);
        let c = run_with_stack(&["not"], &[v]);
        assert_eq!(top(&c), !v);
        assert_eq!(c.ram[SP], 257);
    }
    for (a, b) in [(0b1100u16, 0b1010u16), (0xFFFF, 0x0F0F), (0, 0xFFFF)] {
        let c = run_with_stack(&["and"], &[a, b]);
        assert_eq!(top(&c), a & b);
        assert_eq!(c.ram[SP], 257);
        let c = run_with_stack(&["or"], &[a, b]);
        assert_eq!(top(&c), a | b);
        assert_eq!(c.ram[SP], 257);
    }
}

#[test]
fn comparisons_push_all_ones_or_zero() {
    let values: [i16; 9] = [0, 1, -1, 2, -2, 100, -100, 16000, -16000];
    for a in values {
        for b in values {
            let (x, y) = (a as u16, b as u16);
            let c = run_with_stack(&["eq"], &[x, y]);
            assert_eq!(top(&c), if a == b { 0xFFFF } else { 0 });
            assert_eq!(c.ram[SP], 257);
            let c = run_with_stack(&["gt"], &[x, y]);
            assert_eq!(top(&c), if a > b { 0xFFFF } else { 0 });
            assert_eq!(c.ram[SP], 257);
            let c = run_with_stack(&["lt"], &[x, y]);
            assert_eq!(top(&c), if a < b { 0xFFFF } else { 0 });
            assert_eq!(c.ram[SP], 257);
        }
    }
}

#[test]
fn comparisons_go_by_the_sign_of_the_wrapped_difference() {
    let pairs = [(32767i16, -1i16), (-32768, 1), (-32768, 32767), (32767, -32768), (0, -32768)];
    for (a, b) in pairs {
        let difference = a.wrapping_sub(b);
        for (op, holds) in [("eq", difference == 0), ("gt", difference > 0), ("lt", difference < 0)]
        {
            let c = run_with_stack(&[op], &[a as u16, b as u16]);
            let result = top(&c);
            assert!(result == 0 || result == 0xFFFF);
            assert_eq!(result == 0xFFFF, holds);
        }
    }
}

#[test]
fn if_goto_pops_and_jumps_on_any_nonzero_value() {
    let program = [
        "if-goto TAKEN",
        "push constant 1",
        "goto END",
        "label TAKEN",
        "push constant 2",
        "label END",
    ];
    for (condition, expected) in [(0u16, 1u16), (0xFFFF, 2), (1, 2), (0x8000, 2)] {
        let c = run_with_stack(&program, &[77, condition]);
        assert_eq!(c.ram[SP], 258);
        assert_eq!(top(&c), expected);
        assert_eq!(c.ram[256], 77);
    }
}

#[test]
fn goto_loops_until_the_counter_is_spent() {
    let program = [
        "push constant 0",
        "pop temp 0",
        "push constant 5",
        "pop temp 1",
        "label LOOP",
        "push temp 0",
        "push temp 1",
        "add",
        "pop temp 0",
        "push temp 1",
        "push constant 1",
        "sub",
        "pop temp 1",
        "push temp 1",
        "if-goto LOOP",
        "push temp 0",
    ];
    let c = build_and_run(&program);
    assert_eq!(top(&c), 15);
    assert_eq!(c.ram[SP], 257);
}

#[test]
fn pointer_sets_the_bases_of_this_and_that() {
    let program = [
        "push constant 3030",
        "pop pointer 0",
        "push constant 3040",
        "pop pointer 1",
        "push constant 32",
        "pop this 2",
        "push constant 46",
        "pop that 6",
        "push pointer 0",
        "push pointer 1",
        "add",
        "push this 2",
        "sub",
        "push that 6",
        "add",
    ];
    let c = build_and_run(&program);
    assert_eq!(c.ram[THIS], 3030);
    assert_eq!(c.ram[THAT], 3040);
    assert_eq!(c.ram[3032], 32);
    assert_eq!(c.ram[3046], 46);
    assert_eq!(top(&c), 6084);
}

#[test]
fn static_and_temp_are_fixed_cells() {
    let program = [
        "push constant 111",
        "pop static 8",
        "push constant 222",
        "pop temp 6",
        "push static 8",
        "push temp 6",
        "sub",
    ];
    let c = build_and_run(&program);
    assert_eq!(c.ram[24], 111);
    assert_eq!(c.ram[11], 222);
    assert_eq!(top(&c) as i16, -111);
}

#[test]
fn function_sets_its_locals_to_zero_and_keeps_the_stack_pointer() {
    let mut c = build(&["function f 3"]);
    c.ram[SP] = 300;
    for i in 300..310 {
        c.ram[i] = 0xAAAA;
    }
    run(&mut c);
    assert_eq!(&c.ram[300..303], &[0, 0, 0]);
    assert_eq!(c.ram[303], 0xAAAA);
    assert_eq!(c.ram[SP], 300);
}

#[test]
fn call_pushes_the_frame_and_sets_the_bases() {
    let mut c = build(&["push constant 10", "push constant 20", "call f 2", "function f 0"]);
    let call_end = c.rom.len();
    run(&mut c);
    assert_eq!(c.pc, call_end);
    assert_eq!(c.ram[SP], 263);
    assert_eq!(c.ram[ARG], 256);
    assert_eq!(c.ram[LCL], 263);
    assert_eq!(&c.ram[259..263], &[300, 400, 3000, 3010]);
    assert_eq!(c.ram[256], 10);
    assert_eq!(c.ram[257], 20);
}

#[test]
fn call_without_arguments_then_return_leaves_one_slot() {
    let program =
        ["call f 0", "label END", "goto END", "function f 0", "return"];
    let mut c = build(&program);
    c.ram[SP] = 280;
    run_for(&mut c, 2000);
    assert_eq!(c.ram[SP], 281);
    assert_eq!(c.ram[LCL], 300);
    assert_eq!(c.ram[ARG], 400);
    assert_eq!(c.ram[THIS], 3000);
    assert_eq!(c.ram[THAT], 3010);
}

#[test]
fn call_without_arguments_returns_the_value_over_the_return_address() {
    let program = [
        "call f 0",
        "label END",
        "goto END",
        "function f 0",
        "push constant 1234",
        "return",
    ];
    let mut c = build(&program);
    run_for(&mut c, 2000);
    assert_eq!(c.ram[SP], 257);
    assert_eq!(top(&c), 1234);
    assert_eq!(c.ram[256], 1234);
}

#[test]
fn return_replaces_the_arguments_by_the_value() {
    let program = [
        "push constant 3",
        "push constant 4",
        "call mult 2",
        "label END",
        "goto END",
        "function mult 0",
        "push argument 0",
        "push argument 1",
        "add",
        "push argument 0",
        "add",
        "return",
    ];
    let mut c = build(&program);
    run_for(&mut c, 5000);
    assert_eq!(c.ram[SP], 257);
    assert_eq!(top(&c), 10);
    assert_eq!(c.ram[LCL], 300);
    assert_eq!(c.ram[ARG], 400);
    assert_eq!(c.ram[THIS], 3000);
    assert_eq!(c.ram[THAT], 3010);
}

#[test]
fn nested_calls_restore_the_frame_of_the_first_caller() {
    let program = [
        "call a 0",
        "label END",
        "goto END",
        "function a 1",
        "push constant 0",
        "push constant 99",
        "pop local 0",
        "push constant 3333",
        "pop pointer 0",
        "push constant 4444",
        "pop pointer 1",
        "call b 0",
        "pop temp 0",
        "push local 0",
        "push pointer 0",
        "add",
        "push pointer 1",
        "add",
        "return",
        "function b 0",
        "push constant 1",
        "pop pointer 0",
        "call c 0",
        "return",
        "function c 0",
        "push constant 2",
        "pop pointer 1",
        "push constant 7",
        "return",
    ];
    let mut c = build(&program);
    run_for(&mut c, 20000);
    assert_eq!(c.ram[5], 7);
    assert_eq!(top(&c), 99 + 3333 + 4444);
    assert_eq!(c.ram[SP], 257);
    assert_eq!(c.ram[LCL], 300);
    assert_eq!(c.ram[ARG], 400);
    assert_eq!(c.ram[THIS], 3000);
    assert_eq!(c.ram[THAT], 3010);
}

#[test]
fn two_calls_in_a_row_each_return_to_their_own_site() {
    let program = [
        "call one 0",
        "call one 0",
        "add",
        "label END",
        "goto END",
        "function one 0",
        "push constant 1",
        "return",
    ];
    let mut c = build(&program);
    run_for(&mut c, 5000);
    assert_eq!(top(&c), 2);
    assert_eq!(c.ram[SP], 257);
}

#[test]
fn labels_are_declared_as_written_in_every_function() {
    let unit = SourceUnit {
        name: "Test".to_string(),
        lines: [
            "function a 0",
            "label LOOP",
            "goto LOOP",
            "function b 0",
            "label LOOP",
            "goto OTHER",
        ]
        .iter()
        .map(|l| l.to_string())
        .collect(),
    };
    let out = render_lines(&translate(&vec![unit]).unwrap());
    let declared: Vec<&str> =
        out.iter().map(|l| l.as_str()).filter(|l| l.starts_with('(')).collect();
    assert_eq!(declared, vec!["(Test.a)", "(LOOP)", "(Test.b)", "(LOOP)"]);
    let jumps: Vec<&str> = out
        .iter()
        .map(|l| l.as_str())
        .filter(|l| l.starts_with('@') && (l.ends_with("LOOP") || l.ends_with("OTHER")))
        .collect();
    assert_eq!(jumps, vec!["@LOOP", "@OTHER"]);
}

#[test]
fn functions_of_one_name_in_two_units_get_two_labels() {
    let units = vec![
        SourceUnit { name: "A".to_string(), lines: vec!["function run 0".to_string()] },
        SourceUnit { name: "B".to_string(), lines: vec!["function run 0".to_string()] },
    ];
    let out = render_lines(&translate(&units).unwrap());
    let declared: Vec<&str> =
        out.iter().map(|l| l.as_str()).filter(|l| l.starts_with('(')).collect();
    assert_eq!(declared, vec!["(A.run)", "(B.run)"]);
}

#[test]
fn two_files_of_one_directory_get_two_labels_for_one_function_name() {
    let units = vec![
        SourceUnit {
            name: "prog/A.vm".to_string(),
            lines: vec!["function run 0".to_string(), "call run 0".to_string()],
        },
        SourceUnit {
            name: "prog/B.vm".to_string(),
            lines: vec!["function run 0".to_string(), "call run 0".to_string()],
        },
    ];
    let out = render_lines(&translate(&units).unwrap());
    let declared: Vec<&str> =
        out.iter().map(|l| l.as_str()).filter(|l| l.starts_with('(')).collect();
    assert_eq!(declared, vec!["(A.run)", "(__RETURN__L0)", "(B.run)", "(__RETURN__L1)"]);
    let jumps: Vec<&str> =
        out.iter().map(|l| l.as_str()).filter(|l| l.ends_with(".run")).collect();
    assert_eq!(jumps, vec!["@A.run", "@B.run"]);
    assert!(assemble_lines(out).is_ok());
}

#[test]
fn a_program_in_a_file_of_a_directory_runs() {
    let unit = SourceUnit {
        name: "/home/prog/Main.vm".to_string(),
        lines: [
            "call Main.seven 0",
            "label END",
            "goto END",
            "function Main.seven 0",
            "push constant 7",
            "return",
        ]
        .iter()
        .map(|l| l.to_string())
        .collect(),
    };
    let lines = translate(&vec![unit]).unwrap();
    let out = render_lines(&lines);
    assert!(out.iter().any(|l| l == "(Main.Main.seven)"));
    let mut c = computer(words(&out));
    run_for(&mut c, 2000);
    assert_eq!(top(&c), 7);
    assert_eq!(c.ram[SP], 257);
}

#[test]
fn a_reserved_label_stops_the_translation() {
    let unit = SourceUnit {
        name: "Main.vm".to_string(),
        lines: vec!["push constant 1".to_string(), "label L0".to_string(), "eq".to_string()],
    };
    let error = translate(&vec![unit]).unwrap_err();
    assert_eq!(error.unit, 0);
    assert_eq!(error.line, 2);
}
