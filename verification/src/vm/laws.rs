//! The laws of the translator: what the lines of the commands do to the
//! computer, proved over the machine model for every state.

use vstd::prelude::*;
use crate::assembler::symbol_table::predefined_symbols;
use crate::assembly::{Comp, Dest, LineView};
use crate::machine::{
    exec, jumps, lemma_placed_split, lemma_run_add, lemma_run_straight, placed, run, word_false,
    word_true, wrap, Instruction, Machine,
};
use crate::vm::command::{ArithmeticOp, CommandView, Segment};
use crate::vm::emission::{
    address_lines, arithmetic_lines, assign, at_symbol, branch_lines, call_lines, combine_lines,
    command_lines, comment, comparison_jump, difference_lines, end_comment, frame_lines,
    frame_pop_lines, frame_push_lines, function_label, function_lines, goto_lines, if_goto_lines,
    label, label_lines, labels_taken, locals_lines, pop_lines, pop_operands_lines, push_d_lines,
    push_lines, reposition_lines, restore_lines, return_jump_lines, return_lines, save_lines,
    scratch_left, scratch_right, start_comment, unwind_lines, value_lines,
};
use crate::vm::labels::{
    branch_label, law_internal_labels_have_their_form, law_labels_of_different_numbers_differ,
    law_return_labels_are_no_branch_labels, law_written_labels_are_no_internal_labels,
    lemma_internal_form_has_no_dot, return_label,
};
use crate::vm::resolver::{cell_plan_of, plan_of, AddressPlan};
use crate::vm::semantics::{
    address_of, binary_result, branch_steps, declared, lemma_binary, lemma_branch,
    lemma_code_lengths, lemma_declared_add, lemma_declared_locals, lemma_declared_push_pop,
    lemma_declared_unfold, lemma_difference, lemma_frame_pop, lemma_frame_push, lemma_goto,
    lemma_loaded_add, lemma_loaded_unfold, lemma_locals, lemma_pop, lemma_push, lemma_resolves_add,
    lemma_resolves_unfold, lemma_return_jump, lemma_sequence, lemma_unary, loaded, resolves,
    returnable, standard, truth, unary_result, value_of,
};

verus! {

/// A push stores the value of its place on the stack. Take the lines of
/// `push segment index`, placed at the program counter, and a stack
/// pointer above the sixteen registers with room for one word. After they
/// ran, the program counter is past them, the cell that the stack pointer
/// addressed holds the value, which for `constant` is the index itself
/// and for any other segment what the cell of the place held, the stack
/// pointer is one higher, and every other cell holds what it held.
pub proof fn law_push_stores_the_value(
    rom: Seq<Instruction>,
    symbols: Map<Seq<char>, int>,
    s: Machine,
    segment: Segment,
    index: nat,
)
    requires
        standard(symbols),
        plan_of(segment, index) is Ok,
        16 <= s.ram[0] < 65535,
        placed(rom, s.pc, loaded(push_lines(plan_of(segment, index)->Ok_0), symbols)),
    ensures
        ({
            let plan = plan_of(segment, index)->Ok_0;
            let code = loaded(push_lines(plan), symbols);
            let t = run(rom, s, code.len());
            &&& t.pc == s.pc + code.len()
            &&& t.ram[s.ram[0]] == value_of(plan, s)
            &&& t.ram[0] == s.ram[0] + 1
            &&& forall|x: int| x != 0 && x != s.ram[0] ==> t.ram[x] == s.ram[x]
        }),
{
    let plan = plan_of(segment, index)->Ok_0;
    lemma_push(plan, symbols, s);
    lemma_run_straight(rom, s, loaded(push_lines(plan), symbols));
}

/// A pop stores the top of the stack in its place. Take the lines of
/// `pop segment index`, placed at the program counter, and a stack of one
/// word or more above the sixteen registers. After they ran, the program
/// counter is past them, the stack pointer is one lower, the cell of the
/// place holds the word that was on top, unless that cell is the stack
/// pointer itself, and every other cell but the scratch cell 15 holds
/// what it held.
pub proof fn law_pop_stores_the_top(
    rom: Seq<Instruction>,
    symbols: Map<Seq<char>, int>,
    s: Machine,
    segment: Segment,
    index: nat,
)
    requires
        standard(symbols),
        cell_plan_of(segment, index) is Ok,
        17 <= s.ram[0] <= 65535,
        placed(rom, s.pc, loaded(pop_lines(cell_plan_of(segment, index)->Ok_0), symbols)),
    ensures
        ({
            let plan = cell_plan_of(segment, index)->Ok_0;
            let code = loaded(pop_lines(plan), symbols);
            let t = run(rom, s, code.len());
            let cell = address_of(plan, s);
            &&& t.pc == s.pc + code.len()
            &&& t.ram[cell] == s.ram[s.ram[0] - 1]
            &&& cell != 0 ==> t.ram[0] == s.ram[0] - 1
            &&& forall|x: int| x != 0 && x != 15 && x != cell ==> t.ram[x] == s.ram[x]
        }),
{
    let plan = cell_plan_of(segment, index)->Ok_0;
    lemma_pop(plan, symbols, s);
    lemma_run_straight(rom, s, loaded(pop_lines(plan), symbols));
}

/// A push and then a pop of one place change nothing that a program sees.
/// Take the lines of `push segment index` followed by those of
/// `pop segment index`, placed at the program counter, and a stack pointer
/// above the sixteen registers with room for one word. After they ran, the
/// program counter is past them, the stack pointer is where it was, and
/// every memory cell holds what it held, but for two that lie outside what
/// a program sees: the scratch cell 15 and the free cell that the stack
/// pointer addresses.
pub proof fn law_push_then_pop_restores(
    rom: Seq<Instruction>,
    symbols: Map<Seq<char>, int>,
    s: Machine,
    segment: Segment,
    index: nat,
)
    requires
        standard(symbols),
        cell_plan_of(segment, index) is Ok,
        16 <= s.ram[0] < 65535,
        placed(
            rom,
            s.pc,
            loaded(
                push_lines(plan_of(segment, index)->Ok_0) + pop_lines(
                    cell_plan_of(segment, index)->Ok_0,
                ),
                symbols,
            ),
        ),
    ensures
        ({
            let code = loaded(
                push_lines(plan_of(segment, index)->Ok_0) + pop_lines(
                    cell_plan_of(segment, index)->Ok_0,
                ),
                symbols,
            );
            let t = run(rom, s, code.len());
            &&& t.pc == s.pc + code.len()
            &&& t.ram[0] == s.ram[0]
            &&& forall|x: int| x != 15 && x != s.ram[0] ==> t.ram[x] == s.ram[x]
        }),
{
    let plan = plan_of(segment, index)->Ok_0;
    let code = loaded(push_lines(plan) + pop_lines(plan), symbols);
    lemma_sequence(push_lines(plan), pop_lines(plan), symbols, s);
    lemma_push(plan, symbols, s);
    let s1 = exec(loaded(push_lines(plan), symbols), s);
    lemma_pop(plan, symbols, s1);
    lemma_run_straight(rom, s, code);
    assert(address_of(plan, s1) == address_of(plan, s));
}

/// `push constant k` and then `pop local 0` set the first local to `k`,
/// whatever the stack held. Take the lines of the two commands, placed at
/// the program counter, a stack pointer above the sixteen registers with
/// room for one word, and a base of `local` above the registers. After
/// they ran, the cell that the base of `local` addresses holds `k`, and
/// the stack pointer is where it was.
pub proof fn law_push_constant_then_pop_local_sets_local(
    rom: Seq<Instruction>,
    symbols: Map<Seq<char>, int>,
    s: Machine,
    k: nat,
)
    requires
        standard(symbols),
        k <= 32767,
        16 <= s.ram[0] < 65535,
        16 <= s.ram[1] < 65536,
        placed(
            rom,
            s.pc,
            loaded(
                push_lines(plan_of(Segment::Constant, k)->Ok_0) + pop_lines(
                    cell_plan_of(Segment::Local, 0)->Ok_0,
                ),
                symbols,
            ),
        ),
    ensures
        ({
            let code = loaded(
                push_lines(plan_of(Segment::Constant, k)->Ok_0) + pop_lines(
                    cell_plan_of(Segment::Local, 0)->Ok_0,
                ),
                symbols,
            );
            let t = run(rom, s, code.len());
            &&& t.pc == s.pc + code.len()
            &&& t.ram[s.ram[1]] == k
            &&& t.ram[0] == s.ram[0]
        }),
{
    let constant = plan_of(Segment::Constant, k)->Ok_0;
    let local = cell_plan_of(Segment::Local, 0)->Ok_0;
    let code = loaded(push_lines(constant) + pop_lines(local), symbols);
    lemma_sequence(push_lines(constant), pop_lines(local), symbols, s);
    lemma_push(constant, symbols, s);
    let s1 = exec(loaded(push_lines(constant), symbols), s);
    lemma_pop(local, symbols, s1);
    lemma_run_straight(rom, s, code);
}

/// `add`, `sub`, `and` and `or` replace the two words on top of the stack
/// by one: the sum or the difference, left less right, truncated to
/// sixteen bits, so that arithmetic wraps around; or the bitwise and, or
/// the bitwise or. Take the lines of the command, placed at the program
/// counter, and a stack of two words or more above the sixteen registers.
/// After they ran, the program counter is past them, the stack pointer is
/// one lower, the cell under it holds the result, where the left operand
/// was, and every other cell but the scratch cells 13 to 15 holds what it
/// held.
pub proof fn law_binary_operation(
    rom: Seq<Instruction>,
    symbols: Map<Seq<char>, int>,
    s: Machine,
    op: ArithmeticOp,
    counter: nat,
)
    requires
        standard(symbols),
        op == ArithmeticOp::Add || op == ArithmeticOp::Sub || op == ArithmeticOp::And || op
            == ArithmeticOp::Or,
        18 <= s.ram[0] <= 65535,
        placed(rom, s.pc, loaded(arithmetic_lines(op, counter), symbols)),
    ensures
        ({
            let code = loaded(arithmetic_lines(op, counter), symbols);
            let t = run(rom, s, code.len());
            let top = s.ram[0];
            &&& t.pc == s.pc + code.len()
            &&& t.ram[0] == top - 1
            &&& t.ram[top - 2] == binary_result(op, s.ram[top - 2], s.ram[top - 1])
            &&& forall|x: int|
                x != 0 && x != 13 && x != 14 && x != 15 && x != top - 2 ==> t.ram[x] == s.ram[x]
        }),
{
    assert(arithmetic_lines(op, counter) == arithmetic_lines(op, 0));
    lemma_binary(op, symbols, s);
    lemma_run_straight(rom, s, loaded(arithmetic_lines(op, counter), symbols));
}

/// `neg` and `not` replace the word on top of the stack by its two's
/// complement negation or by its bitwise complement. Take the lines of
/// the command, placed at the program counter, and a stack of one word or
/// more above the sixteen registers. After they ran, the program counter
/// is past them, the stack pointer is where it was, the cell under it
/// holds the result, and every other cell but the scratch cells 13 and 15
/// holds what it held.
pub proof fn law_unary_operation(
    rom: Seq<Instruction>,
    symbols: Map<Seq<char>, int>,
    s: Machine,
    op: ArithmeticOp,
    counter: nat,
)
    requires
        standard(symbols),
        op.is_unary(),
        17 <= s.ram[0] <= 65535,
        placed(rom, s.pc, loaded(arithmetic_lines(op, counter), symbols)),
    ensures
        ({
            let code = loaded(arithmetic_lines(op, counter), symbols);
            let t = run(rom, s, code.len());
            let top = s.ram[0];
            &&& t.pc == s.pc + code.len()
            &&& t.ram[0] == top
            &&& t.ram[top - 1] == unary_result(op, s.ram[top - 1])
            &&& forall|x: int| x != 13 && x != 15 && x != top - 1 ==> t.ram[x] == s.ram[x]
        }),
{
    assert(arithmetic_lines(op, counter) == arithmetic_lines(op, 0));
    lemma_unary(op, symbols, s);
    lemma_run_straight(rom, s, loaded(arithmetic_lines(op, counter), symbols));
}

/// Whether a comparison holds of the operands `left` and `right`: the
/// difference, left less right, truncated to sixteen bits, is zero for
/// `eq`, positive for `gt` and negative for `lt`.
pub open spec fn comparison_holds(op: ArithmeticOp, left: int, right: int) -> bool {
    jumps(comparison_jump(op), wrap(left - right))
}

/// The number of instructions that the lines of a comparison run: forty
/// where it holds and forty-two where not.
pub open spec fn comparison_steps(holds: bool) -> nat {
    26 + branch_steps(holds) + 7
}

/// `eq`, `gt` and `lt` replace the two words on top of the stack by the
/// word for true, which has all bits set, or by the word for false, which
/// is zero, and by no other word: true where the comparison holds of the
/// left and the right operand, false where not. Take the lines of the
/// command, placed at the program counter with their three labels
/// resolved, and a stack of two words or more above the sixteen
/// registers. After they ran, the program counter is past them, the stack
/// pointer is one lower, the cell under it holds the truth value, and
/// every other cell but the scratch cells 13 to 15 holds what it held.
pub proof fn law_comparison_pushes_truth_value(
    rom: Seq<Instruction>,
    symbols: Map<Seq<char>, int>,
    s: Machine,
    op: ArithmeticOp,
    counter: nat,
)
    requires
        standard(symbols),
        op.is_comparison(),
        18 <= s.ram[0] <= 65535,
        placed(rom, s.pc, loaded(arithmetic_lines(op, counter), symbols)),
        resolves(arithmetic_lines(op, counter), symbols, s.pc),
    ensures
        ({
            let code = loaded(arithmetic_lines(op, counter), symbols);
            let top = s.ram[0];
            let holds = comparison_holds(op, s.ram[top - 2], s.ram[top - 1]);
            let t = run(rom, s, comparison_steps(holds));
            &&& t.pc == s.pc + code.len()
            &&& t.ram[0] == top - 1
            &&& t.ram[top - 2] == truth(holds)
            &&& (t.ram[top - 2] == word_true() || t.ram[top - 2] == word_false())
            &&& forall|x: int|
                x != 0 && x != 13 && x != 14 && x != 15 && x != top - 2 ==> t.ram[x] == s.ram[x]
        }),
{
    let top = s.ram[0];
    let holds = comparison_holds(op, s.ram[top - 2], s.ram[top - 1]);
    let first = difference_lines(op);
    let branch = branch_lines(
        comparison_jump(op),
        branch_label(counter),
        branch_label(counter + 1),
        branch_label(counter + 2),
    );
    let push = push_lines(scratch_right());
    let tail = seq![comment(end_comment(op))];
    let x1 = first + branch;
    let x2 = x1 + push;
    let x3 = x2 + tail;
    assert(arithmetic_lines(op, counter) == x3);
    lemma_loaded_unfold(symbols);
    lemma_code_lengths(symbols);
    assert(loaded(tail, symbols) =~= Seq::<Instruction>::empty());
    lemma_loaded_add(x2, tail, symbols);
    lemma_loaded_add(x1, push, symbols);
    lemma_loaded_add(first, branch, symbols);
    lemma_resolves_add(x2, tail, symbols, s.pc);
    lemma_resolves_add(x1, push, symbols, s.pc);
    lemma_resolves_add(first, branch, symbols, s.pc);
    let c1 = loaded(first, symbols);
    let c2 = loaded(branch, symbols);
    let c3 = loaded(push, symbols);
    assert(loaded(x3, symbols) =~= c1 + c2 + c3);
    lemma_placed_split(rom, s.pc, c1 + c2, c3);
    lemma_placed_split(rom, s.pc, c1, c2);
    lemma_difference(op, symbols, s);
    lemma_run_straight(rom, s, c1);
    let s1 = run(rom, s, 26);
    lemma_branch(
        rom,
        symbols,
        s1,
        comparison_jump(op),
        branch_label(counter),
        branch_label(counter + 1),
        branch_label(counter + 2),
    );
    let s2 = run(rom, s1, branch_steps(holds));
    lemma_push(scratch_right(), symbols, s2);
    lemma_run_straight(rom, s2, c3);
    let s3 = run(rom, s2, 7);
    lemma_run_add(rom, s, 26, branch_steps(holds));
    lemma_run_add(rom, s, 26 + branch_steps(holds), 7);
    assert(run(rom, s, comparison_steps(holds)) == s3);
}

/// A call pushes the frame and enters the function. Take the lines of
/// `call name n_args`, placed at the program counter with their return
/// label resolved, and a stack pointer above the sixteen registers with
/// room for five words. After they ran, the computer goes on at the label
/// of the function. The five cells from the old stack pointer on hold the
/// return address, which is the address after the lines of the call, and
/// the bases of `local`, `argument`, `this` and `that` as they were. The
/// stack pointer and the base of `local` address the cell above the five,
/// and the base of `argument` is the new stack pointer less five and less
/// `n_args`. Every other cell holds what it held.
pub proof fn law_call_pushes_frame(
    rom: Seq<Instruction>,
    symbols: Map<Seq<char>, int>,
    s: Machine,
    tag: Seq<char>,
    name: Seq<char>,
    n_args: nat,
    counter: nat,
)
    requires
        standard(symbols),
        16 <= s.ram[0] <= 65530,
        placed(rom, s.pc, loaded(call_lines(tag, name, n_args, counter), symbols)),
        resolves(call_lines(tag, name, n_args, counter), symbols, s.pc),
    ensures
        ({
            let code = loaded(call_lines(tag, name, n_args, counter), symbols);
            let t = run(rom, s, code.len());
            let top = s.ram[0];
            &&& code.len() == 44
            &&& t.pc == symbols[function_label(tag, name)]
            &&& t.ram[top] == s.pc + code.len()
            &&& t.ram[top + 1] == s.ram[1]
            &&& t.ram[top + 2] == s.ram[2]
            &&& t.ram[top + 3] == s.ram[3]
            &&& t.ram[top + 4] == s.ram[4]
            &&& t.ram[0] == top + 5
            &&& t.ram[1] == top + 5
            &&& t.ram[2] == wrap(t.ram[0] - 5 - n_args)
            &&& forall|x: int|
                x != 0 && x != 1 && x != 2 && !(top <= x < top + 5) ==> t.ram[x] == s.ram[x]
        }),
{
    let return_site = return_label(counter);
    let target = function_label(tag, name);
    let first = frame_push_lines(return_site, n_args);
    let tail = seq![comment("end call function"@)];
    let x1 = first + goto_lines(target);
    let x2 = x1 + label_lines(return_site);
    let x3 = x2 + tail;
    assert(call_lines(tag, name, n_args, counter) == x3);
    lemma_loaded_unfold(symbols);
    lemma_resolves_unfold(symbols);
    lemma_frame_push(return_site, n_args, symbols, s);
    lemma_loaded_add(x2, tail, symbols);
    lemma_loaded_add(x1, label_lines(return_site), symbols);
    lemma_loaded_add(first, goto_lines(target), symbols);
    lemma_resolves_add(x2, tail, symbols, s.pc);
    lemma_resolves_add(x1, label_lines(return_site), symbols, s.pc);
    let c1 = loaded(first, symbols);
    let c2 = loaded(goto_lines(target), symbols);
    assert(loaded(tail, symbols) =~= Seq::<Instruction>::empty());
    assert(loaded(label_lines(return_site), symbols) =~= Seq::<Instruction>::empty());
    assert(loaded(x3, symbols) =~= c1 + c2);
    assert(c2.len() == 2);
    assert(symbols[return_site] == s.pc + 44);
    lemma_placed_split(rom, s.pc, c1, c2);
    lemma_run_straight(rom, s, c1);
    let s1 = run(rom, s, 42);
    lemma_goto(rom, symbols, s1, target);
    lemma_run_add(rom, s, 42, 2);
}

/// A return pops the frame and goes back to the caller. Take the lines of
/// `return`, placed at the program counter, and the state of a function
/// about to return, as [`returnable`] says. After they ran, the computer
/// goes on at the return address, which the frame held five cells under
/// the base of `local`. The return value, which was on top of the stack,
/// stands where the base of `argument` pointed, and the stack pointer
/// addresses the cell above it. The bases of `that`, `this`, `argument`
/// and `local` are those that the frame held one, two, three and four
/// cells under the base of `local`. Every other cell above the registers
/// holds what it held. With no arguments the return value takes the cell
/// of the return address, which was read before.
pub proof fn law_return_restores_caller(
    rom: Seq<Instruction>,
    symbols: Map<Seq<char>, int>,
    s: Machine,
)
    requires
        standard(symbols),
        returnable(s),
        placed(rom, s.pc, loaded(return_lines(), symbols)),
    ensures
        ({
            let code = loaded(return_lines(), symbols);
            let t = run(rom, s, code.len());
            let frame = s.ram[1];
            let argument = s.ram[2];
            &&& code.len() == 54
            &&& t.pc == s.ram[frame - 5]
            &&& t.ram[argument] == s.ram[s.ram[0] - 1]
            &&& t.ram[0] == argument + 1
            &&& t.ram[4] == s.ram[frame - 1]
            &&& t.ram[3] == s.ram[frame - 2]
            &&& t.ram[2] == s.ram[frame - 3]
            &&& t.ram[1] == s.ram[frame - 4]
            &&& forall|x: int| x >= 16 && x != argument ==> t.ram[x] == s.ram[x]
        }),
{
    let first = frame_pop_lines();
    let last = return_jump_lines();
    assert(return_lines() == first + last);
    lemma_loaded_unfold(symbols);
    lemma_frame_pop(symbols, s);
    lemma_loaded_add(first, last, symbols);
    let c1 = loaded(first, symbols);
    let c2 = loaded(last, symbols);
    lemma_placed_split(rom, s.pc, c1, c2);
    lemma_run_straight(rom, s, c1);
    let s1 = run(rom, s, 51);
    lemma_return_jump(rom, symbols, s1);
    lemma_run_add(rom, s, 51, 3);
}

/// A call without arguments of a function without locals that returns at
/// once leaves the stack pointer where it was, plus one cell for the
/// return value. Take the lines of `call name 0`, placed at the program
/// counter with their return label resolved, the lines of
/// `function name 0` and `return`, placed anywhere with the label of the
/// function resolved, and a stack pointer above the sixteen registers with
/// room for five words. After the lines of the call and of the return
/// ran, the computer goes on after the lines of the call, the stack
/// pointer is one higher than it was, the bases of `local`, `argument`,
/// `this` and `that` are as they were, and so is every cell of the stack
/// under the old stack pointer.
pub proof fn law_call_and_return_leave_one_slot(
    rom: Seq<Instruction>,
    symbols: Map<Seq<char>, int>,
    s: Machine,
    tag: Seq<char>,
    name: Seq<char>,
    counter: nat,
    entry: int,
)
    requires
        standard(symbols),
        16 <= s.ram[0] <= 65530,
        placed(rom, s.pc, loaded(call_lines(tag, name, 0, counter), symbols)),
        resolves(call_lines(tag, name, 0, counter), symbols, s.pc),
        placed(rom, entry, loaded(function_lines(tag, name, 0) + return_lines(), symbols)),
        resolves(function_lines(tag, name, 0) + return_lines(), symbols, entry),
    ensures
        ({
            let call = loaded(call_lines(tag, name, 0, counter), symbols);
            let back = loaded(return_lines(), symbols);
            let t = run(rom, s, call.len() + back.len());
            &&& t.pc == s.pc + call.len()
            &&& t.ram[0] == s.ram[0] + 1
            &&& t.ram[1] == s.ram[1]
            &&& t.ram[2] == s.ram[2]
            &&& t.ram[3] == s.ram[3]
            &&& t.ram[4] == s.ram[4]
            &&& forall|x: int| 16 <= x < s.ram[0] ==> t.ram[x] == s.ram[x]
        }),
{
    let call = loaded(call_lines(tag, name, 0, counter), symbols);
    let back = loaded(return_lines(), symbols);
    let declared = function_lines(tag, name, 0);
    lemma_loaded_unfold(symbols);
    lemma_resolves_unfold(symbols);
    law_call_pushes_frame(rom, symbols, s, tag, name, 0, counter);
    let s1 = run(rom, s, call.len());
    let head = Seq::<LineView>::empty().push(comment("start function"@)).push(
        label(function_label(tag, name)),
    );
    let tail = seq![comment("end function"@)];
    assert(locals_lines(0) =~= Seq::<LineView>::empty());
    assert(declared =~= head + tail);
    lemma_loaded_add(head, tail, symbols);
    lemma_resolves_add(head, tail, symbols, entry);
    lemma_loaded_add(declared, return_lines(), symbols);
    lemma_resolves_add(declared, return_lines(), symbols, entry);
    assert(loaded(declared, symbols) =~= Seq::<Instruction>::empty());
    assert(loaded(declared + return_lines(), symbols) =~= back);
    assert(symbols[function_label(tag, name)] == entry);
    law_return_restores_caller(rom, symbols, s1);
    lemma_run_add(rom, s, call.len(), back.len());
}

/// `goto name` goes on at the label: after the two instructions of its
/// lines ran, the program counter is the address of `name`, and the
/// memory is as it was.
pub proof fn law_goto_jumps(
    rom: Seq<Instruction>,
    symbols: Map<Seq<char>, int>,
    s: Machine,
    name: Seq<char>,
)
    requires
        placed(rom, s.pc, loaded(goto_lines(name), symbols)),
    ensures
        ({
            let code = loaded(goto_lines(name), symbols);
            let t = run(rom, s, code.len());
            &&& t.pc == symbols[name]
            &&& t.ram == s.ram
        }),
{
    lemma_goto(rom, symbols, s, name);
}

/// `if-goto name` pops the top of the stack in any case, and goes on at
/// the label where the popped word is not zero, else after its lines.
/// Take the lines of the command, placed at the program counter, and a
/// stack of one word or more above the sixteen registers. After they ran,
/// the stack pointer is one lower and no other cell has changed.
pub proof fn law_if_goto_pops_then_jumps(
    rom: Seq<Instruction>,
    symbols: Map<Seq<char>, int>,
    s: Machine,
    name: Seq<char>,
)
    requires
        standard(symbols),
        17 <= s.ram[0] <= 65535,
        placed(rom, s.pc, loaded(if_goto_lines(name), symbols)),
    ensures
        ({
            let code = loaded(if_goto_lines(name), symbols);
            let t = run(rom, s, code.len());
            let top = s.ram[0];
            &&& t.ram == s.ram.insert(0, top - 1)
            &&& t.pc == (if s.ram[top - 1] != 0 {
                symbols[name]
            } else {
                s.pc + code.len()
            })
        }),
{
    lemma_loaded_unfold(symbols);
    let code = loaded(if_goto_lines(name), symbols);
    assert(code.len() == 6);
    assert(rom[s.pc + 0] == code[0]);
    assert(rom[s.pc + 1] == code[1]);
    assert(rom[s.pc + 2] == code[2]);
    assert(rom[s.pc + 3] == code[3]);
    assert(rom[s.pc + 4] == code[4]);
    assert(rom[s.pc + 5] == code[5]);
    reveal_with_fuel(run, 7);
    let t = run(rom, s, 6);
    assert(t.ram =~= s.ram.insert(0, s.ram[0] - 1));
}

/// `label name` takes no instruction and names the address of what
/// follows: where the lines of the command stand at the address `origin`
/// with their label resolved, `name` has the address `origin`.
pub proof fn law_label_names_the_next_instruction(
    symbols: Map<Seq<char>, int>,
    name: Seq<char>,
    origin: int,
)
    requires
        resolves(label_lines(name), symbols, origin),
    ensures
        loaded(label_lines(name), symbols).len() == 0,
        symbols[name] == origin,
{
    lemma_loaded_unfold(symbols);
    lemma_resolves_unfold(symbols);
}

/// `function name n_locals` sets its locals to zero and leaves the stack
/// pointer where it was. Take the lines of the command, placed at the
/// program counter, a stack pointer above the sixteen registers with room
/// for one word, and a base of `local` above the registers with
/// `n_locals` cells from it on. After they ran, the program counter is
/// past them, each of the `n_locals` cells from the base of `local` on
/// holds zero, the stack pointer is where it was, and every other cell
/// holds what it held, but for the scratch cell 15 and the free cell that
/// the stack pointer addresses.
pub proof fn law_function_clears_locals(
    rom: Seq<Instruction>,
    symbols: Map<Seq<char>, int>,
    s: Machine,
    tag: Seq<char>,
    name: Seq<char>,
    n_locals: nat,
)
    requires
        standard(symbols),
        n_locals <= 32768,
        16 <= s.ram[0] < 65535,
        16 <= s.ram[1],
        s.ram[1] + n_locals <= 65536,
        placed(rom, s.pc, loaded(function_lines(tag, name, n_locals), symbols)),
    ensures
        ({
            let code = loaded(function_lines(tag, name, n_locals), symbols);
            let t = run(rom, s, code.len());
            &&& t.pc == s.pc + code.len()
            &&& t.ram[0] == s.ram[0]
            &&& forall|x: int| s.ram[1] <= x < s.ram[1] + n_locals ==> t.ram[x] == 0
            &&& forall|x: int|
                x != 15 && x != s.ram[0] && !(s.ram[1] <= x < s.ram[1] + n_locals) ==> t.ram[x]
                    == s.ram[x]
        }),
{
    let head = Seq::<LineView>::empty().push(comment("start function"@)).push(
        label(function_label(tag, name)),
    );
    let tail = seq![comment("end function"@)];
    let x1 = head + locals_lines(n_locals);
    let x2 = x1 + tail;
    assert(function_lines(tag, name, n_locals) =~= x2);
    lemma_loaded_unfold(symbols);
    lemma_loaded_add(x1, tail, symbols);
    lemma_loaded_add(head, locals_lines(n_locals), symbols);
    assert(loaded(head, symbols) =~= Seq::<Instruction>::empty());
    assert(loaded(tail, symbols) =~= Seq::<Instruction>::empty());
    assert(loaded(x2, symbols) =~= loaded(locals_lines(n_locals), symbols));
    lemma_locals(n_locals, symbols, s);
    lemma_run_straight(rom, s, loaded(locals_lines(n_locals), symbols));
}

/// Whatever a function does between its call and its return, the return
/// undoes the call, provided the function kept its frame. Let `s` be the
/// state before the lines of `call name n_args` with `n_args` words on the
/// stack, and `u` a later state in which the lines of `return` stand at
/// the program counter, the bases of `local` and `argument` are those
/// that the call set, the five words that the call pushed are in their
/// cells, and the stack holds a word above the registers. After the lines
/// of the return ran from `u`, the computer goes on after the lines of
/// the call, the bases of `local`, `argument`, `this` and `that` are
/// those of `s`, the `n_args` arguments are replaced by the return value,
/// which was on top of the stack in `u`, and the stack pointer addresses
/// the cell above it. So calls nest: a caller finds its segments where
/// it left them, however deep the calls below it went.
pub proof fn law_return_undoes_call(
    rom: Seq<Instruction>,
    symbols: Map<Seq<char>, int>,
    s: Machine,
    u: Machine,
    tag: Seq<char>,
    name: Seq<char>,
    n_args: nat,
    counter: nat,
)
    requires
        standard(symbols),
        16 + n_args <= s.ram[0] <= 65530,
        placed(rom, s.pc, loaded(call_lines(tag, name, n_args, counter), symbols)),
        resolves(call_lines(tag, name, n_args, counter), symbols, s.pc),
        placed(rom, u.pc, loaded(return_lines(), symbols)),
        17 <= u.ram[0] <= 65535,
        u.ram[1] == s.ram[0] + 5,
        u.ram[2] == s.ram[0] - n_args,
        u.ram[s.ram[0]] == s.pc + loaded(call_lines(tag, name, n_args, counter), symbols).len(),
        u.ram[s.ram[0] + 1] == s.ram[1],
        u.ram[s.ram[0] + 2] == s.ram[2],
        u.ram[s.ram[0] + 3] == s.ram[3],
        u.ram[s.ram[0] + 4] == s.ram[4],
    ensures
        ({
            let call = loaded(call_lines(tag, name, n_args, counter), symbols);
            let after_call = run(rom, s, call.len());
            let t = run(rom, u, loaded(return_lines(), symbols).len());
            &&& after_call.ram[1] == u.ram[1]
            &&& after_call.ram[2] == u.ram[2]
            &&& t.pc == s.pc + call.len()
            &&& t.ram[1] == s.ram[1]
            &&& t.ram[2] == s.ram[2]
            &&& t.ram[3] == s.ram[3]
            &&& t.ram[4] == s.ram[4]
            &&& t.ram[0] == s.ram[0] - n_args + 1
            &&& t.ram[s.ram[0] - n_args] == u.ram[u.ram[0] - 1]
            &&& forall|x: int| x >= 16 && x != s.ram[0] - n_args ==> t.ram[x] == u.ram[x]
        }),
{
    law_call_pushes_frame(rom, symbols, s, tag, name, n_args, counter);
    law_return_restores_caller(rom, symbols, u);
}

/// The labels that the lines of a command declare: a comparison its three
/// branch labels, numbered from the counter; a call its return label,
/// numbered by the counter; `label` its name as written; `function` its
/// name after the tag of the unit and a dot; any other command none.
pub open spec fn labels_of(command: CommandView, tag: Seq<char>, counter: nat) -> Seq<Seq<char>> {
    match command {
        CommandView::Arithmetic { op } => if op.is_comparison() {
            Seq::<Seq<char>>::empty().push(branch_label(counter)).push(
                branch_label(counter + 1),
            ).push(branch_label(counter + 2))
        } else {
            Seq::empty()
        },
        CommandView::Label { name } => seq![name],
        CommandView::Function { name, .. } => seq![function_label(tag, name)],
        CommandView::Call { .. } => seq![return_label(counter)],
        _ => Seq::empty(),
    }
}

/// The lines of a command declare the labels that [`labels_of`] lists,
/// and no other.
pub proof fn law_declared_labels(command: CommandView, tag: Seq<char>, counter: nat)
    requires
        command_lines(command, tag, counter) is Ok,
    ensures
        declared(command_lines(command, tag, counter)->Ok_0) == labels_of(command, tag, counter),
{
    let lines = command_lines(command, tag, counter)->Ok_0;
    let none = Seq::<Seq<char>>::empty();
    lemma_declared_unfold();
    lemma_declared_push_pop(scratch_right());
    lemma_declared_push_pop(scratch_left());
    lemma_declared_add(pop_lines(scratch_right()), pop_lines(scratch_left()));
    match command {
        CommandView::Push { segment, index } => {
            lemma_declared_push_pop(plan_of(segment, index)->Ok_0);
        },
        CommandView::Pop { segment, index } => {
            lemma_declared_push_pop(cell_plan_of(segment, index)->Ok_0);
        },
        CommandView::Arithmetic { op } => {
            let head = seq![comment(start_comment(op))];
            let tail = seq![comment(end_comment(op))];
            let pops = pop_operands_lines();
            if op.is_comparison() {
                let branch = branch_lines(
                    comparison_jump(op),
                    branch_label(counter),
                    branch_label(counter + 1),
                    branch_label(counter + 2),
                );
                let x1 = head + pops;
                let x2 = x1 + value_lines(scratch_left());
                let x3 = x2 + address_lines(scratch_right());
                let x4 = x3 + seq![assign(Dest::D, Comp::DMinusM)];
                let x5 = x4 + branch;
                let x6 = x5 + push_lines(scratch_right());
                lemma_declared_add(x6, tail);
                lemma_declared_add(x5, push_lines(scratch_right()));
                lemma_declared_add(x4, branch);
                lemma_declared_add(x3, seq![assign(Dest::D, Comp::DMinusM)]);
                lemma_declared_add(x2, address_lines(scratch_right()));
                lemma_declared_add(x1, value_lines(scratch_left()));
                lemma_declared_add(head, pops);
                assert(declared(branch) =~= labels_of(command, tag, counter));
                assert(declared(lines) =~= labels_of(command, tag, counter));
            } else if op.is_unary() {
                let core = seq![
                    assign(
                        Dest::M,
                        if op == ArithmeticOp::Neg {
                            Comp::NegM
                        } else {
                            Comp::NotM
                        },
                    ),
                ];
                let x1 = head + pop_lines(scratch_right());
                let x2 = x1 + address_lines(scratch_right());
                let x3 = x2 + core;
                let x4 = x3 + push_lines(scratch_right());
                lemma_declared_add(x4, tail);
                lemma_declared_add(x3, push_lines(scratch_right()));
                lemma_declared_add(x2, core);
                lemma_declared_add(x1, address_lines(scratch_right()));
                lemma_declared_add(head, pop_lines(scratch_right()));
                assert(declared(lines) =~= none);
            } else {
                let first = if op == ArithmeticOp::Add {
                    scratch_right()
                } else {
                    scratch_left()
                };
                let second = if op == ArithmeticOp::Add {
                    scratch_left()
                } else {
                    scratch_right()
                };
                let core = if op == ArithmeticOp::Add {
                    seq![assign(Dest::M, Comp::DPlusM)]
                } else {
                    combine_lines(op)
                };
                let x1 = head + pops;
                let x2 = x1 + value_lines(first);
                let x3 = x2 + address_lines(second);
                let x4 = x3 + core;
                let x5 = x4 + push_lines(second);
                lemma_declared_add(x5, tail);
                lemma_declared_add(x4, push_lines(second));
                lemma_declared_add(x3, core);
                lemma_declared_add(x2, address_lines(second));
                lemma_declared_add(x1, value_lines(first));
                lemma_declared_add(head, pops);
                assert(declared(core) =~= none);
                assert(declared(lines) =~= none);
            }
        },
        CommandView::Label { name } => {
            assert(declared(lines) =~= seq![name]);
        },
        CommandView::Goto { name } => {
            assert(declared(lines) =~= none);
        },
        CommandView::IfGoto { name } => {
            assert(declared(lines) =~= none);
        },
        CommandView::Function { name, n_locals } => {
            let head = Seq::<LineView>::empty().push(comment("start function"@)).push(
                label(function_label(tag, name)),
            );
            let tail = seq![comment("end function"@)];
            lemma_declared_locals(n_locals);
            lemma_declared_add(head + locals_lines(n_locals), tail);
            lemma_declared_add(head, locals_lines(n_locals));
            assert(declared(lines) =~= seq![function_label(tag, name)]);
        },
        CommandView::Call { name, n_args } => {
            let return_site = return_label(counter);
            let head = Seq::<LineView>::empty().push(comment("start call function"@)).push(
                at_symbol(return_site),
            ).push(assign(Dest::D, Comp::A));
            let x1 = head + push_d_lines();
            let x2 = x1 + save_lines("LCL"@);
            let x3 = x2 + save_lines("ARG"@);
            let x4 = x3 + save_lines("THIS"@);
            let x5 = x4 + save_lines("THAT"@);
            let x6 = x5 + reposition_lines(n_args);
            let x7 = x6 + goto_lines(function_label(tag, name));
            let x8 = x7 + label_lines(return_site);
            let tail = seq![comment("end call function"@)];
            lemma_declared_add(x8, tail);
            lemma_declared_add(x7, label_lines(return_site));
            lemma_declared_add(x6, goto_lines(function_label(tag, name)));
            lemma_declared_add(x5, reposition_lines(n_args));
            lemma_declared_add(x4, save_lines("THAT"@));
            lemma_declared_add(x3, save_lines("THIS"@));
            lemma_declared_add(x2, save_lines("ARG"@));
            lemma_declared_add(x1, save_lines("LCL"@));
            lemma_declared_add(head, push_d_lines());
            assert forall|register: Seq<char>| #[trigger]
                declared(save_lines(register)) =~= none by {
                lemma_declared_add(
                    Seq::<LineView>::empty().push(at_symbol(register)).push(
                        assign(Dest::D, Comp::M),
                    ),
                    push_d_lines(),
                );
            }
            assert(declared(label_lines(return_site)) =~= seq![return_site]);
            assert(declared(lines) =~= seq![return_site]);
        },
        CommandView::Return => {
            let pop = pop_lines(AddressPlan::Indirect { base: 2, offset: 0 });
            lemma_declared_push_pop(AddressPlan::Indirect { base: 2, offset: 0 });
            let head = seq![comment("start return"@)];
            let x1 = head + frame_lines();
            let x2 = x1 + pop;
            let x3 = x2 + unwind_lines();
            let x4 = x3 + restore_lines("THAT"@);
            let x5 = x4 + restore_lines("THIS"@);
            let x6 = x5 + restore_lines("ARG"@);
            let x7 = x6 + restore_lines("LCL"@);
            lemma_declared_add(x7, return_jump_lines());
            lemma_declared_add(x6, restore_lines("LCL"@));
            lemma_declared_add(x5, restore_lines("ARG"@));
            lemma_declared_add(x4, restore_lines("THIS"@));
            lemma_declared_add(x3, restore_lines("THAT"@));
            lemma_declared_add(x2, unwind_lines());
            lemma_declared_add(x1, pop);
            lemma_declared_add(head, frame_lines());
            assert(declared(lines) =~= none);
        },
    }
}

/// Every call site has a return label of its own. Two calls that one run
/// lowers take two numbers from the label counter, whatever they call and
/// wherever they stand, also where one function is called twice in a row.
/// So the label that the lines of the one declare is not the label that
/// the lines of the other declare.
pub proof fn law_call_sites_have_their_own_return_labels(
    tag1: Seq<char>,
    name1: Seq<char>,
    n_args1: nat,
    counter1: nat,
    tag2: Seq<char>,
    name2: Seq<char>,
    n_args2: nat,
    counter2: nat,
)
    requires
        counter1 != counter2,
    ensures
        declared(call_lines(tag1, name1, n_args1, counter1)) == seq![return_label(counter1)],
        declared(call_lines(tag2, name2, n_args2, counter2)) == seq![return_label(counter2)],
        return_label(counter1) != return_label(counter2),
{
    law_declared_labels(
        CommandView::Call { name: name1, n_args: if n_args1 <= 32767 { n_args1 } else { 0 } },
        tag1,
        counter1,
    );
    law_declared_labels(
        CommandView::Call { name: name2, n_args: if n_args2 <= 32767 { n_args2 } else { 0 } },
        tag2,
        counter2,
    );
    law_labels_of_different_numbers_differ(counter1, counter2);
    lemma_call_labels_ignore_arguments(tag1, name1, n_args1, counter1);
    lemma_call_labels_ignore_arguments(tag2, name2, n_args2, counter2);
}

proof fn lemma_call_labels_ignore_arguments(
    tag: Seq<char>,
    name: Seq<char>,
    n_args: nat,
    counter: nat,
)
    ensures
        declared(call_lines(tag, name, n_args, counter)) == declared(
            call_lines(tag, name, 0, counter),
        ),
{
    lemma_declared_unfold();
    let return_site = return_label(counter);
    let head = Seq::<LineView>::empty().push(comment("start call function"@)).push(
        at_symbol(return_site),
    ).push(assign(Dest::D, Comp::A));
    let x5 = head + push_d_lines() + save_lines("LCL"@) + save_lines("ARG"@) + save_lines(
        "THIS"@,
    ) + save_lines("THAT"@);
    let rest = goto_lines(function_label(tag, name)) + label_lines(return_site) + seq![
        comment("end call function"@),
    ];
    assert(call_lines(tag, name, n_args, counter) =~= x5 + reposition_lines(n_args) + rest);
    assert(call_lines(tag, name, 0, counter) =~= x5 + reposition_lines(0) + rest);
    lemma_declared_add(x5 + reposition_lines(n_args), rest);
    lemma_declared_add(x5, reposition_lines(n_args));
    lemma_declared_add(x5 + reposition_lines(0), rest);
    lemma_declared_add(x5, reposition_lines(0));
    assert(declared(reposition_lines(n_args)) =~= Seq::<Seq<char>>::empty());
    assert(declared(reposition_lines(0)) =~= Seq::<Seq<char>>::empty());
}

/// Labels are declared as written: two `label` commands declare one label
/// where their names are the same, in whatever functions they stand, and
/// two labels where their names differ.
pub proof fn law_labels_collide_only_by_name(first: Seq<char>, second: Seq<char>)
    ensures
        declared(label_lines(first)) == seq![first],
        declared(label_lines(second)) == seq![second],
        declared(label_lines(first)) == declared(label_lines(second)) <==> first == second,
{
    lemma_declared_unfold();
    assert(declared(label_lines(first)) =~= seq![first]);
    assert(declared(label_lines(second)) =~= seq![second]);
    if declared(label_lines(first)) == declared(label_lines(second)) {
        assert(seq![first][0] == seq![second][0]);
    }
}

/// Function labels keep functions apart: in one unit two functions have
/// one label only where they have one name, and a function name that two
/// units declare has one label only where the units have one tag.
pub proof fn law_function_labels_differ(
    tag1: Seq<char>,
    name1: Seq<char>,
    tag2: Seq<char>,
    name2: Seq<char>,
)
    requires
        function_label(tag1, name1) == function_label(tag2, name2),
    ensures
        tag1 == tag2 ==> name1 == name2,
        name1 == name2 ==> tag1 == tag2,
{
    let dot = "."@;
    let one = function_label(tag1, name1);
    let two = function_label(tag2, name2);
    if tag1 == tag2 {
        assert(name1 =~= one.skip((tag1.len() + dot.len()) as int));
        assert(name2 =~= two.skip((tag2.len() + dot.len()) as int));
    }
    if name1 == name2 {
        assert(one.len() == tag1.len() + dot.len() + name1.len());
        assert(two.len() == tag2.len() + dot.len() + name2.len());
        assert(tag1 =~= one.take(tag1.len() as int));
        assert(tag2 =~= two.take(tag2.len() as int));
    }
}

/// No label that a program declares collides with an internal label.
/// Where `label name` can be lowered, its lines declare `name` and
/// nothing else, and `name` is no branch label and no return label,
/// whatever their numbers: a name of the form of the internal labels is
/// refused.
pub proof fn law_written_labels_never_collide(
    name: Seq<char>,
    tag: Seq<char>,
    counter: nat,
    n: nat,
)
    requires
        command_lines(CommandView::Label { name }, tag, counter) is Ok,
    ensures
        declared(command_lines(CommandView::Label { name }, tag, counter)->Ok_0) == seq![name],
        name != branch_label(n),
        name != return_label(n),
{
    law_declared_labels(CommandView::Label { name }, tag, counter);
    law_written_labels_are_no_internal_labels(name, n);
}

/// No label of a function collides with an internal label: the label of
/// a function has a `.` after the tag of its unit, and no internal label
/// has one.
pub proof fn law_function_labels_are_no_internal_labels(
    tag: Seq<char>,
    name: Seq<char>,
    n: nat,
)
    ensures
        function_label(tag, name) != branch_label(n),
        function_label(tag, name) != return_label(n),
{
    reveal_strlit(".");
    let full = function_label(tag, name);
    assert(full[tag.len() as int] == '.');
    law_internal_labels_have_their_form(n);
    lemma_internal_form_has_no_dot(branch_label(n));
    lemma_internal_form_has_no_dot(return_label(n));
}

/// The symbols of an assembler's table, as the integers that the machine
/// model loads.
pub open spec fn as_addresses(symbols: Map<Seq<char>, usize>) -> Map<Seq<char>, int> {
    Map::new(|name: Seq<char>| symbols.contains_key(name), |name: Seq<char>| symbols[name] as int)
}

/// The symbols that the assembler of this library predefines are
/// [`standard`]: the laws hold of what it assembles.
pub proof fn law_predefined_symbols_are_standard()
    ensures
        standard(as_addresses(predefined_symbols())),
{
    reveal_strlit("SP");
    reveal_strlit("LCL");
    reveal_strlit("ARG");
    reveal_strlit("THIS");
    reveal_strlit("THAT");
    reveal_strlit("SCREEN");
    reveal_strlit("KBD");
    let table = predefined_symbols();
    assert("SP"@.len() == 2 && "LCL"@.len() == 3 && "ARG"@.len() == 3 && "KBD"@.len() == 3);
    assert("THIS"@.len() == 4 && "THAT"@.len() == 4 && "SCREEN"@.len() == 6);
    assert("LCL"@[0] == 'L' && "ARG"@[0] == 'A' && "KBD"@[0] == 'K');
    assert("THIS"@[2] == 'I' && "THAT"@[2] == 'A');
    assert(table["THAT"@] == 4);
    assert(table["THIS"@] == 3);
    assert(table["ARG"@] == 2);
    assert(table["LCL"@] == 1);
    assert(table["SP"@] == 0);
}

/// The internal labels that the lines of a command declare: those of
/// [`labels_of`] for a comparison and for a call, none for any other
/// command, whose labels are written by the program.
pub open spec fn internal_labels_of(command: CommandView, counter: nat) -> Seq<Seq<char>> {
    match command {
        CommandView::Arithmetic { .. } => labels_of(command, Seq::empty(), counter),
        CommandView::Call { .. } => labels_of(command, Seq::empty(), counter),
        _ => Seq::empty(),
    }
}

/// The internal labels of a run that lowers `commands` in order, with
/// `counter` labels issued before: those of each command, each command
/// at the counter that the commands before it left.
pub open spec fn internal_labels(commands: Seq<CommandView>, counter: nat) -> Seq<Seq<char>>
    decreases commands.len(),
{
    if commands.len() == 0 {
        Seq::empty()
    } else {
        internal_labels_of(commands[0], counter) + internal_labels(
            commands.skip(1),
            counter + labels_taken(commands[0]),
        )
    }
}

proof fn lemma_internal_labels_are_numbered(commands: Seq<CommandView>, counter: nat, k: int)
    requires
        0 <= k < internal_labels(commands, counter).len(),
    ensures
        internal_labels(commands, counter)[k] == branch_label((counter + k) as nat)
            || internal_labels(commands, counter)[k] == return_label((counter + k) as nat),
    decreases commands.len(),
{
    let first = internal_labels_of(commands[0], counter);
    assert(first.len() == labels_taken(commands[0]));
    if k >= first.len() {
        lemma_internal_labels_are_numbered(
            commands.skip(1),
            counter + labels_taken(commands[0]),
            k - first.len(),
        );
    }
}

/// No two internal labels of a run collide: the comparison branches and
/// the return sites of all commands of all units get labels that differ
/// from one another, since the labels of a run take the numbers of one
/// counter in turn.
pub proof fn law_internal_labels_never_repeat(
    commands: Seq<CommandView>,
    counter: nat,
    i: int,
    j: int,
)
    requires
        0 <= i < j < internal_labels(commands, counter).len(),
    ensures
        internal_labels(commands, counter)[i] != internal_labels(commands, counter)[j],
{
    lemma_internal_labels_are_numbered(commands, counter, i);
    lemma_internal_labels_are_numbered(commands, counter, j);
    let a = (counter + i) as nat;
    let b = (counter + j) as nat;
    law_labels_of_different_numbers_differ(a, b);
    law_return_labels_are_no_branch_labels(a, b);
    law_return_labels_are_no_branch_labels(b, a);
}

} // verus!
