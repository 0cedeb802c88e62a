//! What the emitted lines do when the computer runs them: the program that
//! lines stand for, and the effect of each idiom on the machine model.

use vstd::prelude::*;
use crate::assembly::{Comp, Dest, Jump, LineView, OperandView};
use crate::machine::{
    exec, falls_through, jumps, lemma_exec_add, lemma_exec_straight_pc, lemma_straight_add, placed,
    run, step, straight, word_and, word_false, word_not, word_or, word_true, wrap, Instruction,
    Machine,
};
use crate::vm::command::ArithmeticOp;
use crate::vm::emission::{
    address_lines, arithmetic_lines, assign, at_symbol, branch_lines, combine_lines, comment,
    difference_lines, end_comment, frame_lines, frame_pop_lines, frame_push_lines, goto_lines,
    locals_lines, pop_lines, pop_operands_lines, pop_tail_lines, push_d_lines, push_lines,
    push_tail_lines, reposition_lines, restore_lines, return_jump_lines, save_lines, scratch_left,
    scratch_right, start_comment, unwind_lines, value_lines,
};
use crate::vm::resolver::AddressPlan;

verus! {

/// The instruction that a line stands for, with names resolved by
/// `symbols`. Comments and label declarations stand for none; for them
/// the result is not used.
pub open spec fn instruction_of(line: LineView, symbols: Map<Seq<char>, int>) -> Instruction {
    match line {
        LineView::At(OperandView::Number(n)) => Instruction::Load(n as int),
        LineView::At(OperandView::Name(name)) => Instruction::Load(symbols[name]),
        LineView::Compute { dest, comp, jump } => Instruction::Compute { dest, comp, jump },
        _ => Instruction::Load(0),
    }
}

/// The instructions that `lines` stand for, in order: what the assembler
/// puts into program memory for them, where it resolves names by
/// `symbols`.
pub open spec fn loaded(lines: Seq<LineView>, symbols: Map<Seq<char>, int>) -> Seq<Instruction>
    decreases lines.len(),
{
    if lines.len() == 0 {
        Seq::empty()
    } else if lines.last().is_instruction() {
        loaded(lines.drop_last(), symbols).push(instruction_of(lines.last(), symbols))
    } else {
        loaded(lines.drop_last(), symbols)
    }
}

/// Whether `symbols` gives the predefined names of the five pointers
/// their cells.
pub open spec fn standard(symbols: Map<Seq<char>, int>) -> bool {
    &&& symbols["SP"@] == 0
    &&& symbols["LCL"@] == 1
    &&& symbols["ARG"@] == 2
    &&& symbols["THIS"@] == 3
    &&& symbols["THAT"@] == 4
}

/// The instructions of lines with one more line.
pub proof fn lemma_loaded_unfold(symbols: Map<Seq<char>, int>)
    ensures
        loaded(Seq::empty(), symbols) == Seq::<Instruction>::empty(),
        forall|lines: Seq<LineView>, line: LineView| #[trigger]
            loaded(lines.push(line), symbols) == (if line.is_instruction() {
                loaded(lines, symbols).push(instruction_of(line, symbols))
            } else {
                loaded(lines, symbols)
            }),
{
    assert forall|lines: Seq<LineView>, line: LineView| #[trigger]
        loaded(lines.push(line), symbols) == (if line.is_instruction() {
            loaded(lines, symbols).push(instruction_of(line, symbols))
        } else {
            loaded(lines, symbols)
        }) by {
        assert(lines.push(line).drop_last() =~= lines);
    }
}

/// Running code with one more instruction.
pub proof fn lemma_exec_unfold()
    ensures
        forall|s: Machine| #[trigger] exec(Seq::empty(), s) == s,
        forall|code: Seq<Instruction>, instruction: Instruction, s: Machine| #[trigger]
            exec(code.push(instruction), s) == step(instruction, exec(code, s)),
{
    assert forall|code: Seq<Instruction>, instruction: Instruction, s: Machine| #[trigger]
        exec(code.push(instruction), s) == step(instruction, exec(code, s)) by {
        assert(code.push(instruction).drop_last() =~= code);
    }
}

/// The instructions of two runs of lines in a row.
pub proof fn lemma_loaded_add(
    first: Seq<LineView>,
    second: Seq<LineView>,
    symbols: Map<Seq<char>, int>,
)
    ensures
        loaded(first + second, symbols) == loaded(first, symbols) + loaded(second, symbols),
    decreases second.len(),
{
    if second.len() == 0 {
        assert(first + second =~= first);
        assert(loaded(first, symbols) + loaded(second, symbols) =~= loaded(first, symbols));
    } else {
        assert((first + second).drop_last() =~= first + second.drop_last());
        assert((first + second).last() == second.last());
        lemma_loaded_add(first, second.drop_last(), symbols);
        assert(loaded(first, symbols) + loaded(second.drop_last(), symbols).push(
            instruction_of(second.last(), symbols),
        ) =~= (loaded(first, symbols) + loaded(second.drop_last(), symbols)).push(
            instruction_of(second.last(), symbols),
        ));
    }
}

/// Whether no line of `lines` is an instruction that jumps.
pub open spec fn straight_lines(lines: Seq<LineView>) -> bool {
    forall|k: int|
        0 <= k < lines.len() ==> match #[trigger] lines[k] {
            LineView::Compute { jump, .. } => jump == Jump::Null,
            _ => true,
        }
}

/// Lines without jumps stand for straight code.
pub proof fn lemma_straight_loaded(lines: Seq<LineView>, symbols: Map<Seq<char>, int>)
    requires
        straight_lines(lines),
    ensures
        straight(loaded(lines, symbols)),
    decreases lines.len(),
{
    if lines.len() > 0 {
        let front = lines.drop_last();
        assert forall|k: int| 0 <= k < front.len() implies match #[trigger] front[k] {
            LineView::Compute { jump, .. } => jump == Jump::Null,
            _ => true,
        } by {
            assert(front[k] == lines[k]);
        }
        lemma_straight_loaded(front, symbols);
        let code = loaded(lines, symbols);
        let last = lines[lines.len() - 1];
        assert forall|k: int| 0 <= k < code.len() implies falls_through(#[trigger] code[k]) by {
            if k < loaded(front, symbols).len() {
                assert(code[k] == loaded(front, symbols)[k]);
            }
        }
    }
}

/// The address that a plan reaches in the state `s`; for a literal, the
/// number.
pub open spec fn address_of(plan: AddressPlan, s: Machine) -> int {
    match plan {
        AddressPlan::Literal(k) => k as int,
        AddressPlan::Fixed(a) => a as int,
        AddressPlan::Indirect { base, offset } => wrap(s.ram[base as int] + offset),
    }
}

/// The value that a plan reaches in the state `s`: the number of a
/// literal, else what the cell holds.
pub open spec fn value_of(plan: AddressPlan, s: Machine) -> int {
    match plan {
        AddressPlan::Literal(k) => k as int,
        _ => s.ram[address_of(plan, s)],
    }
}

/// After the address lines of a plan, `A` holds the address; the memory
/// is as before.
pub proof fn lemma_address(plan: AddressPlan, symbols: Map<Seq<char>, int>, s: Machine)
    ensures
        ({
            let code = loaded(address_lines(plan), symbols);
            let t = exec(code, s);
            &&& straight(code)
            &&& t.a == address_of(plan, s)
            &&& t.ram == s.ram
            &&& t.pc == s.pc + code.len()
        }),
{
    lemma_loaded_unfold(symbols);
    lemma_exec_unfold();
    lemma_straight_loaded(address_lines(plan), symbols);
    lemma_exec_straight_pc(loaded(address_lines(plan), symbols), s);
}

/// After the value lines of a plan, `D` holds the value; the memory is as
/// before.
pub proof fn lemma_value(plan: AddressPlan, symbols: Map<Seq<char>, int>, s: Machine)
    ensures
        ({
            let code = loaded(value_lines(plan), symbols);
            let t = exec(code, s);
            &&& straight(code)
            &&& t.d == value_of(plan, s)
            &&& t.ram == s.ram
            &&& t.pc == s.pc + code.len()
        }),
{
    lemma_loaded_unfold(symbols);
    lemma_exec_unfold();
    lemma_straight_loaded(value_lines(plan), symbols);
    lemma_exec_straight_pc(loaded(value_lines(plan), symbols), s);
}

/// The push tail stores `D` at the stack pointer and moves the pointer up.
pub proof fn lemma_push_tail(symbols: Map<Seq<char>, int>, s: Machine)
    requires
        standard(symbols),
        1 <= s.ram[0] < 65535,
    ensures
        ({
            let code = loaded(push_tail_lines(), symbols);
            let t = exec(code, s);
            &&& straight(code)
            &&& t.ram == s.ram.insert(s.ram[0], s.d).insert(0, s.ram[0] + 1)
            &&& t.d == s.d
            &&& t.pc == s.pc + code.len()
        }),
{
    lemma_loaded_unfold(symbols);
    lemma_exec_unfold();
    lemma_straight_loaded(push_tail_lines(), symbols);
    lemma_exec_straight_pc(loaded(push_tail_lines(), symbols), s);
}

/// The pop tail, entered with the address of a cell in `A`, keeps the
/// address in cell 15, moves the stack pointer down and copies the top of
/// the stack into the cell.
pub proof fn lemma_pop_tail(symbols: Map<Seq<char>, int>, s: Machine)
    requires
        standard(symbols),
        17 <= s.ram[0] <= 65535,
    ensures
        ({
            let code = loaded(pop_tail_lines(), symbols);
            let t = exec(code, s);
            let top = s.ram[0] - 1;
            &&& straight(code)
            &&& t.ram == s.ram.insert(15, s.a).insert(0, top).insert(s.a, s.ram[top])
            &&& t.d == s.ram[top]
            &&& t.pc == s.pc + code.len()
        }),
{
    lemma_loaded_unfold(symbols);
    lemma_exec_unfold();
    lemma_straight_loaded(pop_tail_lines(), symbols);
    lemma_exec_straight_pc(loaded(pop_tail_lines(), symbols), s);
}

/// A comment stands for no instruction.
pub proof fn lemma_comment_is_no_code(text: Seq<char>, symbols: Map<Seq<char>, int>)
    ensures
        loaded(seq![comment(text)], symbols) == Seq::<Instruction>::empty(),
{
    lemma_loaded_unfold(symbols);
    assert(loaded(seq![comment(text)], symbols) =~= Seq::<Instruction>::empty());
}

/// Two runs of lines in a row stand for their two pieces of code in a
/// row, which run one after the other.
pub proof fn lemma_sequence(
    first: Seq<LineView>,
    second: Seq<LineView>,
    symbols: Map<Seq<char>, int>,
    s: Machine,
)
    ensures
        loaded(first + second, symbols) == loaded(first, symbols) + loaded(second, symbols),
        exec(loaded(first + second, symbols), s) == exec(
            loaded(second, symbols),
            exec(loaded(first, symbols), s),
        ),
        straight(loaded(first, symbols)) && straight(loaded(second, symbols)) ==> straight(
            loaded(first + second, symbols),
        ),
{
    lemma_loaded_add(first, second, symbols);
    lemma_exec_add(loaded(first, symbols), loaded(second, symbols), s);
    if straight(loaded(first, symbols)) && straight(loaded(second, symbols)) {
        lemma_straight_add(loaded(first, symbols), loaded(second, symbols));
    }
}

/// A push stores the planned value at the stack pointer and moves the
/// pointer up by one.
pub proof fn lemma_push(plan: AddressPlan, symbols: Map<Seq<char>, int>, s: Machine)
    requires
        standard(symbols),
        16 <= s.ram[0] < 65535,
    ensures
        ({
            let code = loaded(push_lines(plan), symbols);
            let t = exec(code, s);
            &&& straight(code)
            &&& t.ram == s.ram.insert(s.ram[0], value_of(plan, s)).insert(0, s.ram[0] + 1)
            &&& t.pc == s.pc + code.len()
        }),
{
    let head = seq![comment("start push"@)];
    lemma_comment_is_no_code("start push"@, symbols);
    lemma_sequence(head + value_lines(plan), push_tail_lines(), symbols, s);
    lemma_sequence(head, value_lines(plan), symbols, s);
    lemma_value(plan, symbols, s);
    let s1 = exec(loaded(value_lines(plan), symbols), s);
    assert(loaded(head, symbols) =~= Seq::<Instruction>::empty());
    assert(loaded(head, symbols) + loaded(value_lines(plan), symbols) =~= loaded(
        value_lines(plan),
        symbols,
    ));
    lemma_push_tail(symbols, s1);
}

/// A pop moves the stack pointer down by one and copies the word it then
/// addresses into the planned cell, whose address it leaves in cell 15.
pub proof fn lemma_pop(plan: AddressPlan, symbols: Map<Seq<char>, int>, s: Machine)
    requires
        standard(symbols),
        17 <= s.ram[0] <= 65535,
    ensures
        ({
            let code = loaded(pop_lines(plan), symbols);
            let t = exec(code, s);
            let top = s.ram[0] - 1;
            let cell = address_of(plan, s);
            &&& straight(code)
            &&& t.ram == s.ram.insert(15, cell).insert(0, top).insert(cell, s.ram[top])
            &&& t.d == s.ram[top]
            &&& t.pc == s.pc + code.len()
        }),
{
    let head = seq![comment("start pop"@)];
    lemma_comment_is_no_code("start pop"@, symbols);
    lemma_sequence(head + address_lines(plan), pop_tail_lines(), symbols, s);
    lemma_sequence(head, address_lines(plan), symbols, s);
    lemma_address(plan, symbols, s);
    let s1 = exec(loaded(address_lines(plan), symbols), s);
    assert(loaded(head, symbols) =~= Seq::<Instruction>::empty());
    assert(loaded(head, symbols) + loaded(address_lines(plan), symbols) =~= loaded(
        address_lines(plan),
        symbols,
    ));
    lemma_pop_tail(symbols, s1);
}

/// What a binary operation gives for the operands `left` and `right`.
pub open spec fn binary_result(op: ArithmeticOp, left: int, right: int) -> int {
    match op {
        ArithmeticOp::Add => wrap(left + right),
        ArithmeticOp::Sub => wrap(left - right),
        ArithmeticOp::And => word_and(left, right),
        _ => word_or(left, right),
    }
}

/// What a unary operation gives for the operand `value`.
pub open spec fn unary_result(op: ArithmeticOp, value: int) -> int {
    match op {
        ArithmeticOp::Neg => wrap(-value),
        _ => word_not(value),
    }
}

/// The memory after the two operands on top of the stack were popped: the
/// right one, which was on top, into cell 13 and the left one into cell
/// 14.
pub open spec fn operands_popped(ram: Map<int, int>) -> Map<int, int> {
    let top = ram[0];
    ram.insert(13, ram[top - 1]).insert(14, ram[top - 2]).insert(15, 14).insert(0, top - 2)
}

/// Popping the operands does what [`operands_popped`] says.
pub proof fn lemma_pop_operands(symbols: Map<Seq<char>, int>, s: Machine)
    requires
        standard(symbols),
        18 <= s.ram[0] <= 65535,
    ensures
        ({
            let code = loaded(pop_operands_lines(), symbols);
            let t = exec(code, s);
            &&& straight(code)
            &&& t.ram == operands_popped(s.ram)
            &&& t.pc == s.pc + code.len()
        }),
{
    let right = scratch_right();
    let left = scratch_left();
    lemma_sequence(pop_lines(right), pop_lines(left), symbols, s);
    lemma_pop(right, symbols, s);
    let s1 = exec(loaded(pop_lines(right), symbols), s);
    lemma_pop(left, symbols, s1);
    let t = exec(loaded(pop_operands_lines(), symbols), s);
    assert(t.ram =~= operands_popped(s.ram));
}

/// The lines of a binary operation replace the two operands on top of the
/// stack by the result.
pub proof fn lemma_binary(op: ArithmeticOp, symbols: Map<Seq<char>, int>, s: Machine)
    requires
        standard(symbols),
        18 <= s.ram[0] <= 65535,
        op == ArithmeticOp::Add || op == ArithmeticOp::Sub || op == ArithmeticOp::And || op
            == ArithmeticOp::Or,
    ensures
        ({
            let code = loaded(arithmetic_lines(op, 0), symbols);
            let t = exec(code, s);
            let top = s.ram[0];
            let result = binary_result(op, s.ram[top - 2], s.ram[top - 1]);
            &&& straight(code)
            &&& t.pc == s.pc + code.len()
            &&& t.ram[0] == top - 1
            &&& t.ram[top - 2] == result
            &&& forall|x: int|
                x != 0 && x != 13 && x != 14 && x != 15 && x != top - 2 ==> t.ram[x] == s.ram[x]
        }),
{
    lemma_loaded_unfold(symbols);
    lemma_exec_unfold();
    let head = seq![comment(start_comment(op))];
    let tail = seq![comment(end_comment(op))];
    let pops = pop_operands_lines();
    let first = if op == ArithmeticOp::Add {
        scratch_right()
    } else {
        scratch_left()
    };
    let second = if op == ArithmeticOp::Add {
        scratch_left()
    } else {
        scratch_right()
    };
    let core = if op == ArithmeticOp::Add {
        seq![assign(Dest::M, Comp::DPlusM)]
    } else {
        combine_lines(op)
    };
    let x1 = head + pops;
    let x2 = x1 + value_lines(first);
    let x3 = x2 + address_lines(second);
    let x4 = x3 + core;
    let x5 = x4 + push_lines(second);
    let x6 = x5 + tail;
    assert(arithmetic_lines(op, 0) == x6);
    lemma_sequence(x5, tail, symbols, s);
    lemma_sequence(x4, push_lines(second), symbols, s);
    lemma_sequence(x3, core, symbols, s);
    lemma_sequence(x2, address_lines(second), symbols, s);
    lemma_sequence(x1, value_lines(first), symbols, s);
    lemma_sequence(head, pops, symbols, s);
    assert(loaded(head, symbols) =~= Seq::<Instruction>::empty());
    assert(loaded(tail, symbols) =~= Seq::<Instruction>::empty());
    lemma_pop_operands(symbols, s);
    let s1 = exec(loaded(pops, symbols), s);
    assert(exec(loaded(x1, symbols), s) == s1);
    lemma_value(first, symbols, s1);
    let s2 = exec(loaded(value_lines(first), symbols), s1);
    lemma_address(second, symbols, s2);
    let s3 = exec(loaded(address_lines(second), symbols), s2);
    lemma_straight_loaded(core, symbols);
    lemma_exec_straight_pc(loaded(core, symbols), s3);
    let s4 = exec(loaded(core, symbols), s3);
    assert(s4.ram == s3.ram.insert(
        address_of(second, s),
        binary_result(op, s.ram[s.ram[0] - 2], s.ram[s.ram[0] - 1]),
    ));
    lemma_push(second, symbols, s4);
    let s5 = exec(loaded(push_lines(second), symbols), s4);
    assert(exec(loaded(x6, symbols), s) == s5);
}

/// The lines of a unary operation replace the operand on top of the stack
/// by the result.
pub proof fn lemma_unary(op: ArithmeticOp, symbols: Map<Seq<char>, int>, s: Machine)
    requires
        standard(symbols),
        17 <= s.ram[0] <= 65535,
        op.is_unary(),
    ensures
        ({
            let code = loaded(arithmetic_lines(op, 0), symbols);
            let t = exec(code, s);
            let top = s.ram[0];
            &&& straight(code)
            &&& t.pc == s.pc + code.len()
            &&& t.ram[0] == top
            &&& t.ram[top - 1] == unary_result(op, s.ram[top - 1])
            &&& forall|x: int| x != 13 && x != 15 && x != top - 1 ==> t.ram[x] == s.ram[x]
        }),
{
    lemma_loaded_unfold(symbols);
    lemma_exec_unfold();
    let head = seq![comment(start_comment(op))];
    let tail = seq![comment(end_comment(op))];
    let cell = scratch_right();
    let core = seq![
        assign(
            Dest::M,
            if op == ArithmeticOp::Neg {
                Comp::NegM
            } else {
                Comp::NotM
            },
        ),
    ];
    let x1 = head + pop_lines(cell);
    let x2 = x1 + address_lines(cell);
    let x3 = x2 + core;
    let x4 = x3 + push_lines(cell);
    let x5 = x4 + tail;
    assert(arithmetic_lines(op, 0) == x5);
    lemma_sequence(x4, tail, symbols, s);
    lemma_sequence(x3, push_lines(cell), symbols, s);
    lemma_sequence(x2, core, symbols, s);
    lemma_sequence(x1, address_lines(cell), symbols, s);
    lemma_sequence(head, pop_lines(cell), symbols, s);
    assert(loaded(head, symbols) =~= Seq::<Instruction>::empty());
    assert(loaded(tail, symbols) =~= Seq::<Instruction>::empty());
    lemma_pop(cell, symbols, s);
    let s1 = exec(loaded(pop_lines(cell), symbols), s);
    assert(exec(loaded(x1, symbols), s) == s1);
    lemma_address(cell, symbols, s1);
    let s2 = exec(loaded(address_lines(cell), symbols), s1);
    lemma_straight_loaded(core, symbols);
    lemma_exec_straight_pc(loaded(core, symbols), s2);
    let s3 = exec(loaded(core, symbols), s2);
    lemma_push(cell, symbols, s3);
    let s4 = exec(loaded(push_lines(cell), symbols), s3);
    assert(exec(loaded(x5, symbols), s) == s4);
}

/// Whether `symbols` gives each label that `lines` declare the address of
/// the instruction that follows the declaration, where the first line
/// stands at the address `origin` of program memory: the address that
/// the assembler gives the label.
pub open spec fn resolves(lines: Seq<LineView>, symbols: Map<Seq<char>, int>, origin: int) -> bool
    decreases lines.len(),
{
    if lines.len() == 0 {
        true
    } else {
        &&& resolves(lines.drop_last(), symbols, origin)
        &&& match lines.last() {
            LineView::Label(name) => symbols[name] == origin + loaded(
                lines.drop_last(),
                symbols,
            ).len(),
            _ => true,
        }
    }
}

/// The labels of lines with one more line.
pub proof fn lemma_resolves_unfold(symbols: Map<Seq<char>, int>)
    ensures
        forall|origin: int| #[trigger] resolves(Seq::empty(), symbols, origin),
        forall|lines: Seq<LineView>, line: LineView, origin: int| #[trigger]
            resolves(lines.push(line), symbols, origin) == (resolves(lines, symbols, origin)
                && match line {
                LineView::Label(name) => symbols[name] == origin + loaded(lines, symbols).len(),
                _ => true,
            }),
{
    assert forall|lines: Seq<LineView>, line: LineView, origin: int| #[trigger]
        resolves(lines.push(line), symbols, origin) == (resolves(lines, symbols, origin)
            && match line {
            LineView::Label(name) => symbols[name] == origin + loaded(lines, symbols).len(),
            _ => true,
        }) by {
        assert(lines.push(line).drop_last() =~= lines);
    }
}

/// The labels of two runs of lines in a row: those of the second run
/// stand after the instructions of the first.
pub proof fn lemma_resolves_add(
    first: Seq<LineView>,
    second: Seq<LineView>,
    symbols: Map<Seq<char>, int>,
    origin: int,
)
    ensures
        resolves(first + second, symbols, origin) == (resolves(first, symbols, origin)
            && resolves(second, symbols, origin + loaded(first, symbols).len())),
    decreases second.len(),
{
    if second.len() == 0 {
        assert(first + second =~= first);
    } else {
        assert((first + second).drop_last() =~= first + second.drop_last());
        assert((first + second).last() == second.last());
        lemma_resolves_add(first, second.drop_last(), symbols, origin);
        lemma_loaded_add(first, second.drop_last(), symbols);
    }
}

/// The number of instructions of the idioms.
pub proof fn lemma_code_lengths(symbols: Map<Seq<char>, int>)
    ensures
        forall|plan: AddressPlan| #[trigger]
            loaded(address_lines(plan), symbols).len() == (if plan is Indirect {
                4nat
            } else {
                1nat
            }),
        forall|plan: AddressPlan| #[trigger]
            loaded(value_lines(plan), symbols).len() == (if plan is Indirect {
                5nat
            } else {
                2nat
            }),
        forall|plan: AddressPlan| #[trigger]
            loaded(push_lines(plan), symbols).len() == loaded(value_lines(plan), symbols).len()
                + 5,
        forall|plan: AddressPlan| #[trigger]
            loaded(pop_lines(plan), symbols).len() == loaded(address_lines(plan), symbols).len()
                + 10,
        loaded(pop_operands_lines(), symbols).len() == 22,
{
    lemma_loaded_unfold(symbols);
    assert forall|plan: AddressPlan| #[trigger]
        loaded(push_lines(plan), symbols).len() == loaded(value_lines(plan), symbols).len()
            + 5 by {
        let head = seq![comment("start push"@)];
        lemma_loaded_add(head + value_lines(plan), push_tail_lines(), symbols);
        lemma_loaded_add(head, value_lines(plan), symbols);
    }
    assert forall|plan: AddressPlan| #[trigger]
        loaded(pop_lines(plan), symbols).len() == loaded(address_lines(plan), symbols).len()
            + 10 by {
        let head = seq![comment("start pop"@)];
        lemma_loaded_add(head + address_lines(plan), pop_tail_lines(), symbols);
        lemma_loaded_add(head, address_lines(plan), symbols);
    }
    lemma_loaded_add(pop_lines(scratch_right()), pop_lines(scratch_left()), symbols);
}

/// After the lines before the branch, the operands are popped and `D`
/// holds their difference.
pub proof fn lemma_difference(op: ArithmeticOp, symbols: Map<Seq<char>, int>, s: Machine)
    requires
        standard(symbols),
        18 <= s.ram[0] <= 65535,
    ensures
        ({
            let code = loaded(difference_lines(op), symbols);
            let t = exec(code, s);
            let top = s.ram[0];
            &&& straight(code)
            &&& code.len() == 26
            &&& t.pc == s.pc + 26
            &&& t.ram == operands_popped(s.ram)
            &&& t.d == wrap(s.ram[top - 2] - s.ram[top - 1])
        }),
{
    lemma_loaded_unfold(symbols);
    lemma_exec_unfold();
    lemma_code_lengths(symbols);
    let head = seq![comment(start_comment(op))];
    let pops = pop_operands_lines();
    let core = seq![assign(Dest::D, Comp::DMinusM)];
    let x1 = head + pops;
    let x2 = x1 + value_lines(scratch_left());
    let x3 = x2 + address_lines(scratch_right());
    let x4 = x3 + core;
    lemma_sequence(x3, core, symbols, s);
    lemma_sequence(x2, address_lines(scratch_right()), symbols, s);
    lemma_sequence(x1, value_lines(scratch_left()), symbols, s);
    lemma_sequence(head, pops, symbols, s);
    assert(loaded(head, symbols) =~= Seq::<Instruction>::empty());
    lemma_pop_operands(symbols, s);
    let s1 = exec(loaded(pops, symbols), s);
    assert(exec(loaded(x1, symbols), s) == s1);
    lemma_value(scratch_left(), symbols, s1);
    let s2 = exec(loaded(value_lines(scratch_left()), symbols), s1);
    lemma_address(scratch_right(), symbols, s2);
    let s3 = exec(loaded(address_lines(scratch_right()), symbols), s2);
    lemma_straight_loaded(core, symbols);
    lemma_exec_straight_pc(loaded(x4, symbols), s);
}

/// The word of a truth value.
pub open spec fn truth(holds: bool) -> int {
    if holds {
        word_true()
    } else {
        word_false()
    }
}

/// The number of instructions that the branch of a comparison runs: seven
/// where the comparison holds, nine where not.
pub open spec fn branch_steps(holds: bool) -> nat {
    if holds {
        7
    } else {
        9
    }
}

/// The branch of a comparison, entered with a difference in `D`, stores
/// in cell 13 the truth value of the condition on the difference, and
/// ends past its last instruction.
pub proof fn lemma_branch(
    rom: Seq<Instruction>,
    symbols: Map<Seq<char>, int>,
    s: Machine,
    jump: Jump,
    on_true: Seq<char>,
    on_false: Seq<char>,
    done: Seq<char>,
)
    requires
        placed(rom, s.pc, loaded(branch_lines(jump, on_true, on_false, done), symbols)),
        resolves(branch_lines(jump, on_true, on_false, done), symbols, s.pc),
    ensures
        ({
            let code = loaded(branch_lines(jump, on_true, on_false, done), symbols);
            let holds = jumps(jump, s.d);
            let t = run(rom, s, branch_steps(holds));
            &&& code.len() == 12
            &&& t.pc == s.pc + 12
            &&& t.ram == s.ram.insert(13, truth(holds))
        }),
{
    lemma_loaded_unfold(symbols);
    lemma_resolves_unfold(symbols);
    let code = loaded(branch_lines(jump, on_true, on_false, done), symbols);
    let p = s.pc;
    assert(code.len() == 12);
    assert(symbols[on_true] == p + 4);
    assert(symbols[on_false] == p + 7);
    assert(symbols[done] == p + 10);
    assert(rom[p + 0] == code[0]);
    assert(rom[p + 1] == code[1]);
    assert(rom[p + 2] == code[2]);
    assert(rom[p + 3] == code[3]);
    assert(rom[p + 4] == code[4]);
    assert(rom[p + 5] == code[5]);
    assert(rom[p + 6] == code[6]);
    assert(rom[p + 7] == code[7]);
    assert(rom[p + 8] == code[8]);
    assert(rom[p + 9] == code[9]);
    assert(rom[p + 10] == code[10]);
    assert(rom[p + 11] == code[11]);
    reveal_with_fuel(run, 10);
    let holds = jumps(jump, s.d);
    let t = run(rom, s, branch_steps(holds));
    assert(t.pc == p + 12);
    assert(t.ram =~= s.ram.insert(13, truth(holds)));
}

/// Pushing `D` moves the stack pointer up by one and stores `D` under it.
pub proof fn lemma_push_d(symbols: Map<Seq<char>, int>, s: Machine)
    requires
        standard(symbols),
        16 <= s.ram[0] < 65535,
    ensures
        ({
            let code = loaded(push_d_lines(), symbols);
            let t = exec(code, s);
            &&& straight(code)
            &&& code.len() == 4
            &&& t.ram == s.ram.insert(0, s.ram[0] + 1).insert(s.ram[0], s.d)
            &&& t.pc == s.pc + 4
        }),
{
    lemma_loaded_unfold(symbols);
    lemma_exec_unfold();
    lemma_straight_loaded(push_d_lines(), symbols);
    lemma_exec_straight_pc(loaded(push_d_lines(), symbols), s);
}

/// Saving a register pushes what its cell holds.
pub proof fn lemma_save(register: Seq<char>, symbols: Map<Seq<char>, int>, s: Machine)
    requires
        standard(symbols),
        16 <= s.ram[0] < 65535,
    ensures
        ({
            let code = loaded(save_lines(register), symbols);
            let t = exec(code, s);
            &&& straight(code)
            &&& code.len() == 6
            &&& t.ram == s.ram.insert(0, s.ram[0] + 1).insert(s.ram[0], s.ram[symbols[register]])
            &&& t.pc == s.pc + 6
        }),
{
    lemma_loaded_unfold(symbols);
    lemma_exec_unfold();
    let head = Seq::<LineView>::empty().push(at_symbol(register)).push(assign(Dest::D, Comp::M));
    lemma_sequence(head, push_d_lines(), symbols, s);
    lemma_straight_loaded(head, symbols);
    let s1 = exec(loaded(head, symbols), s);
    lemma_push_d(symbols, s1);
}

/// The memory after a call pushed its frame.
pub open spec fn frame_pushed(ram: Map<int, int>, return_address: int, n_args: nat) -> Map<
    int,
    int,
> {
    let top = ram[0];
    ram.insert(top, return_address).insert(top + 1, ram[1]).insert(top + 2, ram[2]).insert(
        top + 3,
        ram[3],
    ).insert(top + 4, ram[4]).insert(0, top + 5).insert(2, wrap(top - n_args)).insert(1, top + 5)
}

/// Setting the bases of the callee.
pub proof fn lemma_reposition(n_args: nat, symbols: Map<Seq<char>, int>, s: Machine)
    requires
        standard(symbols),
        5 <= s.ram[0] <= 65535,
    ensures
        ({
            let code = loaded(reposition_lines(n_args), symbols);
            let t = exec(code, s);
            &&& straight(code)
            &&& code.len() == 12
            &&& t.ram == s.ram.insert(2, wrap(s.ram[0] - 5 - n_args)).insert(1, s.ram[0])
            &&& t.pc == s.pc + 12
        }),
{
    lemma_loaded_unfold(symbols);
    lemma_exec_unfold();
    lemma_straight_loaded(reposition_lines(n_args), symbols);
    lemma_exec_straight_pc(loaded(reposition_lines(n_args), symbols), s);
    let t = exec(loaded(reposition_lines(n_args), symbols), s);
    let once = wrap(s.ram[0] - 5);
    assert(once == s.ram[0] - 5);
    assert(t.ram =~= s.ram.insert(2, wrap(s.ram[0] - 5 - n_args)).insert(1, s.ram[0]));
}

/// Pushing the frame of a call does what [`frame_pushed`] says.
pub proof fn lemma_frame_push(
    return_site: Seq<char>,
    n_args: nat,
    symbols: Map<Seq<char>, int>,
    s: Machine,
)
    requires
        standard(symbols),
        16 <= s.ram[0] <= 65530,
    ensures
        ({
            let code = loaded(frame_push_lines(return_site, n_args), symbols);
            let t = exec(code, s);
            &&& straight(code)
            &&& code.len() == 42
            &&& t.ram == frame_pushed(s.ram, symbols[return_site], n_args)
            &&& t.pc == s.pc + 42
        }),
{
    lemma_loaded_unfold(symbols);
    lemma_exec_unfold();
    let head = Seq::<LineView>::empty().push(comment("start call function"@)).push(
        at_symbol(return_site),
    ).push(assign(Dest::D, Comp::A));
    let x1 = head + push_d_lines();
    let x2 = x1 + save_lines("LCL"@);
    let x3 = x2 + save_lines("ARG"@);
    let x4 = x3 + save_lines("THIS"@);
    let x5 = x4 + save_lines("THAT"@);
    let x6 = x5 + reposition_lines(n_args);
    assert(frame_push_lines(return_site, n_args) == x6);
    lemma_sequence(x5, reposition_lines(n_args), symbols, s);
    lemma_sequence(x4, save_lines("THAT"@), symbols, s);
    lemma_sequence(x3, save_lines("THIS"@), symbols, s);
    lemma_sequence(x2, save_lines("ARG"@), symbols, s);
    lemma_sequence(x1, save_lines("LCL"@), symbols, s);
    lemma_sequence(head, push_d_lines(), symbols, s);
    lemma_straight_loaded(head, symbols);
    let s0 = exec(loaded(head, symbols), s);
    lemma_push_d(symbols, s0);
    let s1 = exec(loaded(push_d_lines(), symbols), s0);
    lemma_save("LCL"@, symbols, s1);
    let s2 = exec(loaded(save_lines("LCL"@), symbols), s1);
    lemma_save("ARG"@, symbols, s2);
    let s3 = exec(loaded(save_lines("ARG"@), symbols), s2);
    lemma_save("THIS"@, symbols, s3);
    let s4 = exec(loaded(save_lines("THIS"@), symbols), s3);
    lemma_save("THAT"@, symbols, s4);
    let s5 = exec(loaded(save_lines("THAT"@), symbols), s4);
    lemma_reposition(n_args, symbols, s5);
    let s6 = exec(loaded(reposition_lines(n_args), symbols), s5);
    assert(exec(loaded(x6, symbols), s) == s6);
    assert(s6.ram =~= frame_pushed(s.ram, symbols[return_site], n_args));
    lemma_exec_straight_pc(loaded(x6, symbols), s);
}

/// The two instructions of a jump go on at the address of the label.
pub proof fn lemma_goto(
    rom: Seq<Instruction>,
    symbols: Map<Seq<char>, int>,
    s: Machine,
    name: Seq<char>,
)
    requires
        placed(rom, s.pc, loaded(goto_lines(name), symbols)),
    ensures
        ({
            let code = loaded(goto_lines(name), symbols);
            let t = run(rom, s, 2);
            &&& code.len() == 2
            &&& t.pc == symbols[name]
            &&& t.ram == s.ram
        }),
{
    lemma_loaded_unfold(symbols);
    let code = loaded(goto_lines(name), symbols);
    assert(rom[s.pc + 0] == code[0]);
    assert(rom[s.pc + 1] == code[1]);
    reveal_with_fuel(run, 3);
}

/// Keeping the frame: cell 13 gets the base of `local` and cell 14 the
/// word five cells under it.
pub proof fn lemma_frame(symbols: Map<Seq<char>, int>, s: Machine)
    requires
        standard(symbols),
        21 <= s.ram[1] <= 65535,
    ensures
        ({
            let code = loaded(frame_lines(), symbols);
            let t = exec(code, s);
            &&& straight(code)
            &&& code.len() == 9
            &&& t.ram == s.ram.insert(13, s.ram[1]).insert(14, s.ram[s.ram[1] - 5])
            &&& t.pc == s.pc + 9
        }),
{
    lemma_loaded_unfold(symbols);
    lemma_exec_unfold();
    lemma_straight_loaded(frame_lines(), symbols);
    lemma_exec_straight_pc(loaded(frame_lines(), symbols), s);
}

/// Unwinding: the stack pointer gets the base of `argument` plus one.
pub proof fn lemma_unwind(symbols: Map<Seq<char>, int>, s: Machine)
    requires
        standard(symbols),
        0 <= s.ram[2] < 65535,
    ensures
        ({
            let code = loaded(unwind_lines(), symbols);
            let t = exec(code, s);
            &&& straight(code)
            &&& code.len() == 4
            &&& t.ram == s.ram.insert(0, s.ram[2] + 1)
            &&& t.pc == s.pc + 4
        }),
{
    lemma_loaded_unfold(symbols);
    lemma_exec_unfold();
    lemma_straight_loaded(unwind_lines(), symbols);
    lemma_exec_straight_pc(loaded(unwind_lines(), symbols), s);
}

/// Restoring a register: the frame in cell 13 steps down by one, and the
/// cell of the register gets what the frame then addresses.
pub proof fn lemma_restore(register: Seq<char>, symbols: Map<Seq<char>, int>, s: Machine)
    requires
        standard(symbols),
        17 <= s.ram[13] <= 65535,
    ensures
        ({
            let code = loaded(restore_lines(register), symbols);
            let t = exec(code, s);
            &&& straight(code)
            &&& code.len() == 6
            &&& t.ram == s.ram.insert(13, s.ram[13] - 1).insert(
                symbols[register],
                s.ram[s.ram[13] - 1],
            )
            &&& t.pc == s.pc + 6
        }),
{
    lemma_loaded_unfold(symbols);
    lemma_exec_unfold();
    lemma_straight_loaded(restore_lines(register), symbols);
    lemma_exec_straight_pc(loaded(restore_lines(register), symbols), s);
}

/// The memory after a return popped its frame: the return value, which
/// was on top of the stack, stands at the base of `argument`, the stack
/// pointer addresses the cell above it, and the four bases are those that
/// the frame held.
pub open spec fn frame_popped(ram: Map<int, int>) -> Map<int, int> {
    let frame = ram[1];
    let argument = ram[2];
    ram.insert(13, frame - 4).insert(14, ram[frame - 5]).insert(15, argument).insert(
        argument,
        ram[ram[0] - 1],
    ).insert(0, argument + 1).insert(4, ram[frame - 1]).insert(3, ram[frame - 2]).insert(
        2,
        ram[frame - 3],
    ).insert(1, ram[frame - 4])
}

/// Whether the state `s` is that of a function about to return: the stack
/// holds a word above the registers, the frame lies above the registers,
/// and the base of `argument` lies above the registers and under the five
/// saved words of the frame.
pub open spec fn returnable(s: Machine) -> bool {
    &&& 17 <= s.ram[0] <= 65535
    &&& 21 <= s.ram[1] <= 65535
    &&& 16 <= s.ram[2] <= s.ram[1] - 5
}

/// Popping the frame of a return does what [`frame_popped`] says.
pub proof fn lemma_frame_pop(symbols: Map<Seq<char>, int>, s: Machine)
    requires
        standard(symbols),
        returnable(s),
    ensures
        ({
            let code = loaded(frame_pop_lines(), symbols);
            let t = exec(code, s);
            &&& straight(code)
            &&& code.len() == 51
            &&& t.ram == frame_popped(s.ram)
            &&& t.pc == s.pc + 51
        }),
{
    lemma_comment_is_no_code("start return"@, symbols);
    lemma_code_lengths(symbols);
    let head = seq![comment("start return"@)];
    let pop = pop_lines(AddressPlan::Indirect { base: 2, offset: 0 });
    let x1 = head + frame_lines();
    let x2 = x1 + pop;
    let x3 = x2 + unwind_lines();
    let x4 = x3 + restore_lines("THAT"@);
    let x5 = x4 + restore_lines("THIS"@);
    let x6 = x5 + restore_lines("ARG"@);
    let x7 = x6 + restore_lines("LCL"@);
    assert(frame_pop_lines() == x7);
    lemma_sequence(x6, restore_lines("LCL"@), symbols, s);
    lemma_sequence(x5, restore_lines("ARG"@), symbols, s);
    lemma_sequence(x4, restore_lines("THIS"@), symbols, s);
    lemma_sequence(x3, restore_lines("THAT"@), symbols, s);
    lemma_sequence(x2, unwind_lines(), symbols, s);
    lemma_sequence(x1, pop, symbols, s);
    lemma_sequence(head, frame_lines(), symbols, s);
    assert(loaded(head, symbols) =~= Seq::<Instruction>::empty());
    lemma_frame(symbols, s);
    let s1 = exec(loaded(frame_lines(), symbols), s);
    assert(exec(loaded(x1, symbols), s) == s1);
    lemma_pop(AddressPlan::Indirect { base: 2, offset: 0 }, symbols, s1);
    let s2 = exec(loaded(pop, symbols), s1);
    lemma_unwind(symbols, s2);
    let s3 = exec(loaded(unwind_lines(), symbols), s2);
    lemma_restore("THAT"@, symbols, s3);
    let s4 = exec(loaded(restore_lines("THAT"@), symbols), s3);
    lemma_restore("THIS"@, symbols, s4);
    let s5 = exec(loaded(restore_lines("THIS"@), symbols), s4);
    lemma_restore("ARG"@, symbols, s5);
    let s6 = exec(loaded(restore_lines("ARG"@), symbols), s5);
    lemma_restore("LCL"@, symbols, s6);
    let s7 = exec(loaded(restore_lines("LCL"@), symbols), s6);
    assert(exec(loaded(x7, symbols), s) == s7);
    assert(s7.ram =~= frame_popped(s.ram));
    lemma_exec_straight_pc(loaded(x7, symbols), s);
}

/// The jump of a return goes on at the address that cell 14 holds.
pub proof fn lemma_return_jump(rom: Seq<Instruction>, symbols: Map<Seq<char>, int>, s: Machine)
    requires
        placed(rom, s.pc, loaded(return_jump_lines(), symbols)),
    ensures
        ({
            let code = loaded(return_jump_lines(), symbols);
            let t = run(rom, s, 3);
            &&& code.len() == 3
            &&& t.pc == s.ram[14]
            &&& t.ram == s.ram
        }),
{
    lemma_loaded_unfold(symbols);
    let code = loaded(return_jump_lines(), symbols);
    assert(rom[s.pc + 0] == code[0]);
    assert(rom[s.pc + 1] == code[1]);
    assert(rom[s.pc + 2] == code[2]);
    reveal_with_fuel(run, 4);
}

/// Setting the first `n` locals to zero leaves the stack pointer where it
/// was and changes no other cell but the scratch cell 15 and the free cell
/// that the stack pointer addresses.
pub proof fn lemma_locals(n: nat, symbols: Map<Seq<char>, int>, s: Machine)
    requires
        standard(symbols),
        n <= 32768,
        16 <= s.ram[0] < 65535,
        16 <= s.ram[1],
        s.ram[1] + n <= 65536,
    ensures
        ({
            let code = loaded(locals_lines(n), symbols);
            let t = exec(code, s);
            &&& straight(code)
            &&& t.pc == s.pc + code.len()
            &&& t.ram[0] == s.ram[0]
            &&& t.ram[1] == s.ram[1]
            &&& forall|x: int| s.ram[1] <= x < s.ram[1] + n ==> t.ram[x] == 0
            &&& forall|x: int|
                x != 15 && x != s.ram[0] && !(s.ram[1] <= x < s.ram[1] + n) ==> t.ram[x]
                    == s.ram[x]
        }),
    decreases n,
{
    lemma_loaded_unfold(symbols);
    lemma_exec_unfold();
    if n == 0 {
        assert(locals_lines(0) =~= Seq::<LineView>::empty());
        assert(straight(loaded(locals_lines(0), symbols)));
    } else {
        let before = locals_lines((n - 1) as nat);
        let zero = AddressPlan::Literal(0);
        let cell = AddressPlan::Indirect { base: 1, offset: (n - 1) as usize };
        let x1 = before + push_lines(zero);
        let x2 = x1 + pop_lines(cell);
        assert(locals_lines(n) == x2);
        lemma_sequence(x1, pop_lines(cell), symbols, s);
        lemma_sequence(before, push_lines(zero), symbols, s);
        lemma_locals((n - 1) as nat, symbols, s);
        let s1 = exec(loaded(before, symbols), s);
        lemma_push(zero, symbols, s1);
        let s2 = exec(loaded(push_lines(zero), symbols), s1);
        lemma_pop(cell, symbols, s2);
        let s3 = exec(loaded(pop_lines(cell), symbols), s2);
        assert(exec(loaded(x2, symbols), s) == s3);
        assert(address_of(cell, s2) == s.ram[1] + n - 1);
        lemma_exec_straight_pc(loaded(x2, symbols), s);
    }
}

/// The labels that `lines` declare, in order.
pub open spec fn declared(lines: Seq<LineView>) -> Seq<Seq<char>>
    decreases lines.len(),
{
    if lines.len() == 0 {
        Seq::empty()
    } else {
        match lines.last() {
            LineView::Label(name) => declared(lines.drop_last()).push(name),
            _ => declared(lines.drop_last()),
        }
    }
}

/// The labels of lines with one more line.
pub proof fn lemma_declared_unfold()
    ensures
        declared(Seq::empty()) == Seq::<Seq<char>>::empty(),
        forall|lines: Seq<LineView>, line: LineView| #[trigger]
            declared(lines.push(line)) == (match line {
                LineView::Label(name) => declared(lines).push(name),
                _ => declared(lines),
            }),
{
    assert forall|lines: Seq<LineView>, line: LineView| #[trigger]
        declared(lines.push(line)) == (match line {
            LineView::Label(name) => declared(lines).push(name),
            _ => declared(lines),
        }) by {
        assert(lines.push(line).drop_last() =~= lines);
    }
}

/// The labels of two runs of lines in a row.
pub proof fn lemma_declared_add(first: Seq<LineView>, second: Seq<LineView>)
    ensures
        declared(first + second) == declared(first) + declared(second),
    decreases second.len(),
{
    if second.len() == 0 {
        assert(first + second =~= first);
        assert(declared(first) + declared(second) =~= declared(first));
    } else {
        assert((first + second).drop_last() =~= first + second.drop_last());
        assert((first + second).last() == second.last());
        lemma_declared_add(first, second.drop_last());
        match second.last() {
            LineView::Label(name) => {
                assert(declared(first) + declared(second.drop_last()).push(name) =~= (declared(
                    first,
                ) + declared(second.drop_last())).push(name));
            },
            _ => {},
        }
    }
}

/// Pushes and pops declare no label.
pub proof fn lemma_declared_push_pop(plan: AddressPlan)
    ensures
        declared(address_lines(plan)) == Seq::<Seq<char>>::empty(),
        declared(value_lines(plan)) == Seq::<Seq<char>>::empty(),
        declared(push_lines(plan)) == Seq::<Seq<char>>::empty(),
        declared(pop_lines(plan)) == Seq::<Seq<char>>::empty(),
{
    lemma_declared_unfold();
    let none = Seq::<Seq<char>>::empty();
    assert(declared(address_lines(plan)) =~= none);
    assert(declared(value_lines(plan)) =~= none);
    lemma_declared_add(seq![comment("start push"@)] + value_lines(plan), push_tail_lines());
    lemma_declared_add(seq![comment("start push"@)], value_lines(plan));
    assert(declared(push_lines(plan)) =~= none);
    lemma_declared_add(seq![comment("start pop"@)] + address_lines(plan), pop_tail_lines());
    lemma_declared_add(seq![comment("start pop"@)], address_lines(plan));
    assert(declared(pop_lines(plan)) =~= none);
}

/// Setting locals to zero declares no label.
pub proof fn lemma_declared_locals(n: nat)
    ensures
        declared(locals_lines(n)) == Seq::<Seq<char>>::empty(),
    decreases n,
{
    lemma_declared_unfold();
    if n > 0 {
        let before = locals_lines((n - 1) as nat);
        let zero = AddressPlan::Literal(0);
        let cell = AddressPlan::Indirect { base: 1, offset: (n - 1) as usize };
        lemma_declared_locals((n - 1) as nat);
        lemma_declared_push_pop(zero);
        lemma_declared_push_pop(cell);
        lemma_declared_add(before + push_lines(zero), pop_lines(cell));
        lemma_declared_add(before, push_lines(zero));
        assert(declared(locals_lines(n)) =~= Seq::<Seq<char>>::empty());
    }
}

} // verus!
