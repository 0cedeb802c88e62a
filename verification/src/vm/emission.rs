//! What each command lowers to: the assembly lines of every idiom, as
//! sequences that the code writer appends and the machine model runs.

use vstd::prelude::*;
use crate::assembly::{Comp, Dest, Jump, LineView, OperandView, MAX_ADDRESS};
use crate::vm::command::{ArithmeticOp, CommandView};
use crate::vm::labels::{branch_label, has_internal_form, return_label};
use crate::vm::resolver::{cell_plan_of, plan_of, AddressPlan, ResolverError};

verus! {

/// The comment line `//text`.
pub open spec fn comment(text: Seq<char>) -> LineView {
    LineView::Comment(text)
}

/// The label declaration `(name)`.
pub open spec fn label(name: Seq<char>) -> LineView {
    LineView::Label(name)
}

/// The address instruction `@n`.
pub open spec fn at(n: nat) -> LineView {
    LineView::At(OperandView::Number(n))
}

/// The address instruction `@name`.
pub open spec fn at_symbol(name: Seq<char>) -> LineView {
    LineView::At(OperandView::Name(name))
}

/// The compute instruction `dest=comp`.
pub open spec fn assign(dest: Dest, comp: Comp) -> LineView {
    LineView::Compute { dest, comp, jump: Jump::Null }
}

/// The compute instruction `comp;jump`.
pub open spec fn jump_on(comp: Comp, jump: Jump) -> LineView {
    LineView::Compute { dest: Dest::Null, comp, jump }
}

/// The scratch cell that holds the right operand and the result.
pub open spec fn scratch_right() -> AddressPlan {
    AddressPlan::Fixed(13)
}

/// The scratch cell that holds the left operand.
pub open spec fn scratch_left() -> AddressPlan {
    AddressPlan::Fixed(14)
}

/// Lines after which `A` holds the address of the planned cell. For a
/// literal, `A` holds the number.
pub open spec fn address_lines(plan: AddressPlan) -> Seq<LineView> {
    match plan {
        AddressPlan::Literal(k) => seq![at(k as nat)],
        AddressPlan::Fixed(a) => seq![at(a as nat)],
        AddressPlan::Indirect { base, offset } => Seq::<LineView>::empty()
            .push(comment("start load_m_from_dynamic_index_value"@))
            .push(at(base as nat))
            .push(assign(Dest::D, Comp::M))
            .push(at(offset as nat))
            .push(assign(Dest::A, Comp::DPlusA))
            .push(comment("end load_m_from_dynamic_index_value"@)),
    }
}

/// Lines after which `D` holds the planned value: the number of a literal,
/// else what the planned cell holds.
pub open spec fn value_lines(plan: AddressPlan) -> Seq<LineView> {
    match plan {
        AddressPlan::Literal(k) => Seq::<LineView>::empty()
            .push(at(k as nat))
            .push(assign(Dest::D, Comp::A)),
        _ => address_lines(plan).push(assign(Dest::D, Comp::M)),
    }
}

/// Lines that push `D`: store it at the stack pointer, then move the
/// pointer up by one.
pub open spec fn push_tail_lines() -> Seq<LineView> {
    Seq::<LineView>::empty()
        .push(at_symbol("SP"@))
        .push(assign(Dest::A, Comp::M))
        .push(assign(Dest::M, Comp::D))
        .push(at_symbol("SP"@))
        .push(assign(Dest::M, Comp::MPlusOne))
        .push(comment("end push"@))
}

/// Lines that push the planned value.
pub open spec fn push_lines(plan: AddressPlan) -> Seq<LineView> {
    seq![comment("start push"@)] + value_lines(plan) + push_tail_lines()
}

/// Lines that, with `A` holding the address of a cell, pop the top of the
/// stack into it: keep the address in the scratch cell 15, move the stack
/// pointer down by one, then copy.
pub open spec fn pop_tail_lines() -> Seq<LineView> {
    Seq::<LineView>::empty()
        .push(assign(Dest::D, Comp::A))
        .push(at(15))
        .push(assign(Dest::M, Comp::D))
        .push(at_symbol("SP"@))
        .push(assign(Dest::M, Comp::MMinusOne))
        .push(assign(Dest::A, Comp::M))
        .push(assign(Dest::D, Comp::M))
        .push(at(15))
        .push(assign(Dest::A, Comp::M))
        .push(assign(Dest::M, Comp::D))
        .push(comment("end pop"@))
}

/// Lines that pop the top of the stack into the planned cell.
pub open spec fn pop_lines(plan: AddressPlan) -> Seq<LineView> {
    seq![comment("start pop"@)] + address_lines(plan) + pop_tail_lines()
}

/// Lines that push `D`, moving the stack pointer first.
pub open spec fn push_d_lines() -> Seq<LineView> {
    Seq::<LineView>::empty()
        .push(comment("start push_from_d"@))
        .push(at_symbol("SP"@))
        .push(assign(Dest::M, Comp::MPlusOne))
        .push(assign(Dest::A, Comp::MMinusOne))
        .push(assign(Dest::M, Comp::D))
        .push(comment("end push_from_d"@))
}

/// The name of an operation in the comments around its lines.
pub open spec fn start_comment(op: ArithmeticOp) -> Seq<char> {
    match op {
        ArithmeticOp::Add => "start add"@,
        ArithmeticOp::Sub => "start sub"@,
        ArithmeticOp::Neg => "start neg"@,
        ArithmeticOp::Eq => "start eq"@,
        ArithmeticOp::Gt => "start gt"@,
        ArithmeticOp::Lt => "start lt"@,
        ArithmeticOp::And => "start and"@,
        ArithmeticOp::Or => "start or"@,
        ArithmeticOp::Not => "start not"@,
    }
}

/// The comment that closes the lines of an operation.
pub open spec fn end_comment(op: ArithmeticOp) -> Seq<char> {
    match op {
        ArithmeticOp::Add => "end add"@,
        ArithmeticOp::Sub => "end sub"@,
        ArithmeticOp::Neg => "end neg"@,
        ArithmeticOp::Eq => "end eq"@,
        ArithmeticOp::Gt => "end gt"@,
        ArithmeticOp::Lt => "end lt"@,
        ArithmeticOp::And => "end and"@,
        ArithmeticOp::Or => "end or"@,
        ArithmeticOp::Not => "end not"@,
    }
}

/// Lines that pop the right operand into the scratch cell 13 and the left
/// operand into the scratch cell 14.
pub open spec fn pop_operands_lines() -> Seq<LineView> {
    pop_lines(scratch_right()) + pop_lines(scratch_left())
}

/// Lines of `add`: the sum is formed in the cell of the left operand and
/// pushed from there.
pub open spec fn add_lines() -> Seq<LineView> {
    seq![comment("start add"@)] + pop_operands_lines() + value_lines(scratch_right())
        + address_lines(scratch_left()) + seq![assign(Dest::M, Comp::DPlusM)] + push_lines(
        scratch_left(),
    ) + seq![comment("end add"@)]
}

/// What a binary operation other than `add` stores, with the left operand
/// in `D` and the right operand in `M`.
pub open spec fn combine_lines(op: ArithmeticOp) -> Seq<LineView> {
    match op {
        ArithmeticOp::Sub => seq![assign(Dest::M, Comp::DMinusM)],
        ArithmeticOp::And => Seq::<LineView>::empty()
            .push(assign(Dest::D, Comp::DAndM))
            .push(assign(Dest::M, Comp::D)),
        _ => Seq::<LineView>::empty()
            .push(assign(Dest::D, Comp::DOrM))
            .push(assign(Dest::M, Comp::D)),
    }
}

/// Lines of `sub`, `and` and `or`: left operand, operation, right operand;
/// the result is formed in the cell of the right operand.
pub open spec fn binary_lines(op: ArithmeticOp) -> Seq<LineView> {
    seq![comment(start_comment(op))] + pop_operands_lines() + value_lines(scratch_left())
        + address_lines(scratch_right()) + combine_lines(op) + push_lines(scratch_right()) + seq![
        comment(end_comment(op)),
    ]
}

/// Lines of `neg` and `not`: the operand is replaced in the scratch cell.
pub open spec fn unary_lines(op: ArithmeticOp) -> Seq<LineView> {
    seq![comment(start_comment(op))] + pop_lines(scratch_right()) + address_lines(
        scratch_right(),
    ) + seq![
        assign(
            Dest::M,
            if op == ArithmeticOp::Neg {
                Comp::NegM
            } else {
                Comp::NotM
            },
        ),
    ] + push_lines(scratch_right()) + seq![comment(end_comment(op))]
}

/// The condition on left minus right under which a comparison holds.
pub open spec fn comparison_jump(op: ArithmeticOp) -> Jump {
    match op {
        ArithmeticOp::Eq => Jump::JEQ,
        ArithmeticOp::Gt => Jump::JGT,
        _ => Jump::JLT,
    }
}

/// The three-way branch of a comparison, entered with left minus right in
/// `D`: to `on_true` where the comparison holds and to `on_false` where
/// not; each sets `D` to the truth value and goes on to `done`, where it
/// is stored in the scratch cell 13.
pub open spec fn branch_lines(
    jump: Jump,
    on_true: Seq<char>,
    on_false: Seq<char>,
    done: Seq<char>,
) -> Seq<LineView> {
    Seq::<LineView>::empty()
        .push(at_symbol(on_true))
        .push(jump_on(Comp::D, jump))
        .push(at_symbol(on_false))
        .push(jump_on(Comp::Zero, Jump::JMP))
        .push(label(on_true))
        .push(assign(Dest::D, Comp::MinusOne))
        .push(at_symbol(done))
        .push(jump_on(Comp::Zero, Jump::JMP))
        .push(label(on_false))
        .push(assign(Dest::D, Comp::Zero))
        .push(at_symbol(done))
        .push(jump_on(Comp::Zero, Jump::JMP))
        .push(label(done))
        .push(at(13))
        .push(assign(Dest::M, Comp::D))
}

/// The lines of a comparison before its branch: the operands are popped
/// and `D` holds the left one less the right one.
pub open spec fn difference_lines(op: ArithmeticOp) -> Seq<LineView> {
    seq![comment(start_comment(op))] + pop_operands_lines() + value_lines(scratch_left())
        + address_lines(scratch_right()) + seq![assign(Dest::D, Comp::DMinusM)]
}

/// Lines of `eq`, `gt` and `lt`, with the three branch labels numbered
/// from `counter`.
pub open spec fn comparison_lines(op: ArithmeticOp, counter: nat) -> Seq<LineView> {
    difference_lines(op) + branch_lines(
        comparison_jump(op),
        branch_label(counter),
        branch_label(counter + 1),
        branch_label(counter + 2),
    ) + push_lines(scratch_right()) + seq![comment(end_comment(op))]
}

/// Lines of an arithmetic, logical or comparison command.
pub open spec fn arithmetic_lines(op: ArithmeticOp, counter: nat) -> Seq<LineView> {
    match op {
        ArithmeticOp::Add => add_lines(),
        ArithmeticOp::Sub => binary_lines(op),
        ArithmeticOp::And => binary_lines(op),
        ArithmeticOp::Or => binary_lines(op),
        ArithmeticOp::Neg => unary_lines(op),
        ArithmeticOp::Not => unary_lines(op),
        ArithmeticOp::Eq => comparison_lines(op, counter),
        ArithmeticOp::Gt => comparison_lines(op, counter),
        ArithmeticOp::Lt => comparison_lines(op, counter),
    }
}

/// Lines of `label name`: the name itself is declared. A name of the form
/// of the internal labels is refused before: see [`command_lines`].
pub open spec fn label_lines(name: Seq<char>) -> Seq<LineView> {
    Seq::<LineView>::empty()
        .push(comment("start label"@))
        .push(label(name))
        .push(comment("end label"@))
}

/// Lines of `goto name`.
pub open spec fn goto_lines(name: Seq<char>) -> Seq<LineView> {
    Seq::<LineView>::empty()
        .push(comment("start goto"@))
        .push(at_symbol(name))
        .push(jump_on(Comp::Zero, Jump::JMP))
        .push(comment("end goto"@))
}

/// Lines of `if-goto name`: the top of the stack is popped in any case,
/// and the jump is taken where it is not zero.
pub open spec fn if_goto_lines(name: Seq<char>) -> Seq<LineView> {
    Seq::<LineView>::empty()
        .push(comment("start if-goto"@))
        .push(at_symbol("SP"@))
        .push(assign(Dest::M, Comp::MMinusOne))
        .push(assign(Dest::A, Comp::M))
        .push(assign(Dest::D, Comp::M))
        .push(at_symbol(name))
        .push(jump_on(Comp::D, Jump::JNE))
        .push(comment("end if-goto"@))
}

/// The label of the function `name` in the unit whose tag is `tag`.
pub open spec fn function_label(tag: Seq<char>, name: Seq<char>) -> Seq<char> {
    tag + "."@ + name
}

/// Lines that set the first `n` locals to zero, one push and one pop each.
pub open spec fn locals_lines(n: nat) -> Seq<LineView>
    decreases n,
{
    if n == 0 {
        Seq::empty()
    } else {
        locals_lines((n - 1) as nat) + push_lines(AddressPlan::Literal(0)) + pop_lines(
            AddressPlan::Indirect { base: 1, offset: (n - 1) as usize },
        )
    }
}

/// Lines of `function name n_locals`.
pub open spec fn function_lines(tag: Seq<char>, name: Seq<char>, n_locals: nat) -> Seq<LineView> {
    Seq::<LineView>::empty()
        .push(comment("start function"@))
        .push(label(function_label(tag, name))) + locals_lines(n_locals)
        + seq![comment("end function"@)]
}

/// Lines that push what the cell named `register` holds.
pub open spec fn save_lines(register: Seq<char>) -> Seq<LineView> {
    Seq::<LineView>::empty()
        .push(at_symbol(register))
        .push(assign(Dest::D, Comp::M)) + push_d_lines()
}

/// Lines that set the base of `argument` to the stack pointer less five
/// and less `n_args`, and the base of `local` to the stack pointer.
pub open spec fn reposition_lines(n_args: nat) -> Seq<LineView> {
    Seq::<LineView>::empty()
        .push(at_symbol("SP"@))
        .push(assign(Dest::D, Comp::M))
        .push(at(5))
        .push(assign(Dest::D, Comp::DMinusA))
        .push(at(n_args))
        .push(assign(Dest::D, Comp::DMinusA))
        .push(at_symbol("ARG"@))
        .push(assign(Dest::M, Comp::D))
        .push(at_symbol("SP"@))
        .push(assign(Dest::D, Comp::M))
        .push(at_symbol("LCL"@))
        .push(assign(Dest::M, Comp::D))
}

/// The lines of a call before its jump: the return address, which is the
/// address of the return label, and the four bases are pushed, the base of
/// `argument` is set to the stack pointer less five and less `n_args`,
/// and the base of `local` to the stack pointer.
pub open spec fn frame_push_lines(return_site: Seq<char>, n_args: nat) -> Seq<LineView> {
    Seq::<LineView>::empty()
        .push(comment("start call function"@))
        .push(at_symbol(return_site))
        .push(assign(Dest::D, Comp::A)) + push_d_lines() + save_lines("LCL"@) + save_lines(
        "ARG"@,
    ) + save_lines("THIS"@) + save_lines("THAT"@) + reposition_lines(n_args)
}

/// Lines of `call name n_args`, with the return label numbered `counter`:
/// the frame is pushed, the function is entered, and the return label is
/// declared after the jump.
pub open spec fn call_lines(
    tag: Seq<char>,
    name: Seq<char>,
    n_args: nat,
    counter: nat,
) -> Seq<LineView> {
    frame_push_lines(return_label(counter), n_args) + goto_lines(function_label(tag, name))
        + label_lines(return_label(counter)) + seq![comment("end call function"@)]
}

/// Lines that keep the frame, which is the base of `local`, in the scratch
/// cell 13 and the return address, five cells below the frame, in the
/// scratch cell 14.
pub open spec fn frame_lines() -> Seq<LineView> {
    Seq::<LineView>::empty()
        .push(at_symbol("LCL"@))
        .push(assign(Dest::D, Comp::M))
        .push(at(13))
        .push(assign(Dest::M, Comp::D))
        .push(at(5))
        .push(assign(Dest::A, Comp::DMinusA))
        .push(assign(Dest::D, Comp::M))
        .push(at(14))
        .push(assign(Dest::M, Comp::D))
}

/// Lines that set the stack pointer to one above the base of `argument`.
pub open spec fn unwind_lines() -> Seq<LineView> {
    Seq::<LineView>::empty()
        .push(at_symbol("ARG"@))
        .push(assign(Dest::D, Comp::MPlusOne))
        .push(at_symbol("SP"@))
        .push(assign(Dest::M, Comp::D))
}

/// Lines that step the frame in the scratch cell 13 down by one and copy
/// what it then addresses to the cell named `register`.
pub open spec fn restore_lines(register: Seq<char>) -> Seq<LineView> {
    Seq::<LineView>::empty()
        .push(at(13))
        .push(assign(Dest::M, Comp::MMinusOne))
        .push(assign(Dest::A, Comp::M))
        .push(assign(Dest::D, Comp::M))
        .push(at_symbol(register))
        .push(assign(Dest::M, Comp::D))
}

/// The lines of a return before its jump: the frame and the return
/// address are kept, the return value is moved to the base of `argument`,
/// the stack pointer is set above it, and the four bases are restored.
pub open spec fn frame_pop_lines() -> Seq<LineView> {
    seq![comment("start return"@)] + frame_lines() + pop_lines(
        AddressPlan::Indirect { base: 2, offset: 0 },
    ) + unwind_lines() + restore_lines("THAT"@) + restore_lines("THIS"@) + restore_lines("ARG"@)
        + restore_lines("LCL"@)
}

/// The last lines of a return: the jump to the return address.
pub open spec fn return_jump_lines() -> Seq<LineView> {
    Seq::<LineView>::empty()
        .push(at(14))
        .push(assign(Dest::A, Comp::M))
        .push(jump_on(Comp::Zero, Jump::JMP))
        .push(comment("end return"@))
}

/// Lines of `return`. The return address is read before the return value
/// is moved, since with no arguments both have one cell.
pub open spec fn return_lines() -> Seq<LineView> {
    frame_pop_lines() + return_jump_lines()
}

/// The lines that a command lowers to, in the unit whose tag is `tag` and
/// with `counter` internal labels issued before; or the reason why the
/// command cannot be lowered.
pub open spec fn command_lines(command: CommandView, tag: Seq<char>, counter: nat) -> Result<
    Seq<LineView>,
    ResolverError,
> {
    match command {
        CommandView::Push { segment, index } => match plan_of(segment, index) {
            Ok(plan) => Ok(push_lines(plan)),
            Err(e) => Err(e),
        },
        CommandView::Pop { segment, index } => match cell_plan_of(segment, index) {
            Ok(plan) => Ok(pop_lines(plan)),
            Err(e) => Err(e),
        },
        CommandView::Arithmetic { op } => Ok(arithmetic_lines(op, counter)),
        CommandView::Label { name } => if has_internal_form(name) {
            Err(ResolverError::ReservedLabel)
        } else {
            Ok(label_lines(name))
        },
        CommandView::Goto { name } => Ok(goto_lines(name)),
        CommandView::IfGoto { name } => Ok(if_goto_lines(name)),
        CommandView::Function { name, n_locals } => if n_locals <= MAX_ADDRESS + 1 {
            Ok(function_lines(tag, name, n_locals))
        } else {
            Err(ResolverError::OutOfRange)
        },
        CommandView::Call { name, n_args } => if n_args <= MAX_ADDRESS {
            Ok(call_lines(tag, name, n_args, counter))
        } else {
            Err(ResolverError::OutOfRange)
        },
        CommandView::Return => Ok(return_lines()),
    }
}

/// The number of internal labels that lowering a command takes: three for
/// a comparison, one for a call, none for any other.
pub open spec fn labels_taken(command: CommandView) -> nat {
    match command {
        CommandView::Arithmetic { op } => if op.is_comparison() {
            3
        } else {
            0
        },
        CommandView::Call { .. } => 1,
        _ => 0,
    }
}

} // verus!
