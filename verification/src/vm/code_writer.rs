//! The code writer: lowers commands to assembly lines, appended to one
//! output in the order in which the commands come.

use vstd::prelude::*;
use vstd::string::*;
use crate::assembly::{
    lines_view, render_lines, Comp, Dest, Jump, Line, LineView, Operand, MAX_ADDRESS,
};
use crate::text::{base_name, base_name_of, decimal, decimal_string};
use crate::vm::command::{ArithmeticOp, Command, CommandType, CommandView, Segment};
use crate::vm::emission::{
    add_lines, address_lines, arithmetic_lines, assign, at, at_symbol, binary_lines, branch_lines,
    call_lines, combine_lines, command_lines, comment, comparison_lines, end_comment, frame_lines,
    function_label, function_lines, goto_lines, if_goto_lines, jump_on, label, label_lines,
    labels_taken, locals_lines, pop_lines, pop_operands_lines, push_d_lines, push_lines,
    reposition_lines, restore_lines, return_lines, save_lines, start_comment, unary_lines,
    unwind_lines, value_lines,
};
use crate::vm::labels::{is_internal_label, LabelAllocator};
use crate::vm::resolver::{resolve, resolve_cell, AddressPlan, ResolverError, VmAddress};

verus! {

/// The text of the comment that records a command: its kind, its first
/// argument and its second argument, zero where it has none.
pub open spec fn command_note(command: CommandView) -> Seq<char> {
    " "@ + command.kind().name() + ", "@ + command.arg1() + ", "@ + decimal(
        match command.arg2() {
            Some(n) => n,
            None => 0,
        },
    )
}

/// The writer of the assembly of one translation run. It holds the lines
/// written so far, the tag of the unit being translated, and the label
/// allocator of the run.
pub struct CodeWriter {
    lines: Vec<Line>,
    base_name: String,
    labels: LabelAllocator,
}

impl CodeWriter {
    /// The lines written so far.
    pub closed spec fn output(&self) -> Seq<LineView> {
        lines_view(self.lines@)
    }

    /// The tag that qualifies the function labels of the current unit.
    pub closed spec fn tag(&self) -> Seq<char> {
        self.base_name@
    }

    /// The number of internal labels issued so far.
    pub closed spec fn issued(&self) -> nat {
        self.labels.issued()
    }

    /// Every label issued came with a line written, so the counter of the
    /// labels cannot run out before the output does.
    pub closed spec fn wf(&self) -> bool {
        self.labels.issued() <= self.lines@.len()
    }

    /// Whether the writer is `before` with `lines` appended, and nothing
    /// else changed.
    pub open spec fn extends(&self, before: &CodeWriter, lines: Seq<LineView>) -> bool {
        &&& self.wf()
        &&& self.output() == before.output() + lines
        &&& self.tag() == before.tag()
        &&& self.issued() == before.issued()
    }

    /// Whether the writer is `before` after the lowering of `command` with
    /// the outcome `r`: where the command can be lowered, its lines are
    /// appended and its labels are taken; where not, the reason is handed
    /// back and nothing is written. The tag is as before in either case.
    pub open spec fn lowers(
        &self,
        before: &CodeWriter,
        command: CommandView,
        r: Result<(), ResolverError>,
    ) -> bool {
        &&& self.wf()
        &&& self.tag() == before.tag()
        &&& match command_lines(command, before.tag(), before.issued()) {
            Ok(lines) => {
                &&& r is Ok
                &&& self.output() == before.output() + lines
                &&& self.issued() == before.issued() + labels_taken(command)
            },
            Err(e) => {
                &&& r == Err::<(), ResolverError>(e)
                &&& self.output() == before.output()
                &&& self.issued() == before.issued()
            },
        }
    }

    /// A writer with no output, an empty tag and no label issued.
    pub fn new() -> (writer: Self)
        ensures
            writer.wf(),
            writer.output() == Seq::<LineView>::empty(),
            writer.tag() == Seq::<char>::empty(),
            writer.issued() == 0,
    {
        let writer = CodeWriter {
            lines: Vec::new(),
            base_name: String::new(),
            labels: LabelAllocator::new(),
        };
        assert(writer.output() =~= Seq::<LineView>::empty());
        writer
    }

    /// Sets the tag of the current unit to the base name of the file that
    /// `file_path` leads to: the name of the file without its directories
    /// and without its extension.
    pub fn set_base_name(&mut self, file_path: &str)
        ensures
            final(self).tag() == base_name(file_path@),
            final(self).output() == old(self).output(),
            final(self).issued() == old(self).issued(),
            old(self).wf() ==> final(self).wf(),
    {
        self.base_name = base_name_of(file_path);
    }

    /// The tag of the current unit.
    pub fn base_name(&self) -> (name: String)
        ensures
            name@ == self.tag(),
    {
        self.base_name.clone()
    }

    /// The lines written so far.
    pub fn lines(&self) -> (lines: &Vec<Line>)
        ensures
            lines_view(lines@) == self.output(),
    {
        &self.lines
    }

    /// Ends the run and hands out the lines written.
    pub fn into_lines(self) -> (lines: Vec<Line>)
        ensures
            lines_view(lines@) == self.output(),
    {
        self.lines
    }

    /// The text of the lines written so far, one string for each line.
    pub fn render(&self) -> (out: Vec<String>)
        ensures
            out@.len() == self.output().len(),
            forall|i: int|
                0 <= i < out@.len() ==> (#[trigger] out@[i])@ == self.output()[i].text(),
    {
        render_lines(&self.lines)
    }

    fn write(&mut self, line: Line)
        requires
            old(self).wf(),
        ensures
            final(self).extends(old(self), seq![line@]),
    {
        self.lines.push(line);
        assert(self.output() =~= old(self).output() + seq![line@]);
    }

    /// Writes the comment `//comment`.
    pub fn write_simple_comment(&mut self, comment: &str)
        requires
            old(self).wf(),
        ensures
            final(self).extends(old(self), seq![LineView::Comment(comment@)]),
    {
        self.write(Line::Comment(String::from_str(comment)));
    }

    /// Writes the comment that records `command`.
    pub fn write_comment(&mut self, command: &Command)
        requires
            old(self).wf(),
        ensures
            final(self).extends(old(self), seq![LineView::Comment(command_note(command@))]),
    {
        let mut note = String::from_str(" ");
        note.append(command.command_type().text());
        note.append(", ");
        let arg1 = command.arg1();
        note.append(arg1.as_str());
        note.append(", ");
        let arg2: usize = match command.arg2() {
            Some(n) => n,
            None => 0,
        };
        let digits = decimal_string(arg2);
        note.append(digits.as_str());
        self.write(Line::Comment(note));
    }

    fn load_symbol(&mut self, name: &str)
        requires
            old(self).wf(),
        ensures
            final(self).extends(old(self), seq![at_symbol(name@)]),
    {
        self.write(Line::At(Operand::Name(String::from_str(name))));
    }

    fn load_number(&mut self, n: usize)
        requires
            old(self).wf(),
        ensures
            final(self).extends(old(self), seq![at(n as nat)]),
    {
        self.write(Line::At(Operand::Number(n)));
    }

    fn load_a(&mut self, comp: Comp)
        requires
            old(self).wf(),
        ensures
            final(self).extends(old(self), seq![assign(Dest::A, comp)]),
    {
        self.write(Line::Compute { dest: Dest::A, comp, jump: Jump::Null });
    }

    fn load_m(&mut self, comp: Comp)
        requires
            old(self).wf(),
        ensures
            final(self).extends(old(self), seq![assign(Dest::M, comp)]),
    {
        self.write(Line::Compute { dest: Dest::M, comp, jump: Jump::Null });
    }

    fn load_d(&mut self, comp: Comp)
        requires
            old(self).wf(),
        ensures
            final(self).extends(old(self), seq![assign(Dest::D, comp)]),
    {
        self.write(Line::Compute { dest: Dest::D, comp, jump: Jump::Null });
    }

    fn write_jump(&mut self, comp: Comp, jump: Jump)
        requires
            old(self).wf(),
        ensures
            final(self).extends(old(self), seq![jump_on(comp, jump)]),
    {
        self.write(Line::Compute { dest: Dest::Null, comp, jump });
    }

    fn declare(&mut self, name: &str)
        requires
            old(self).wf(),
        ensures
            final(self).extends(old(self), seq![label(name@)]),
    {
        self.write(Line::Label(String::from_str(name)));
    }

    fn load_m_from_dynamic_index_value(&mut self, base_address: usize, offset: usize)
        requires
            old(self).wf(),
        ensures
            final(self).extends(
                old(self),
                address_lines(AddressPlan::Indirect { base: base_address, offset }),
            ),
    {
        self.write_simple_comment("start load_m_from_dynamic_index_value");
        self.load_number(base_address);
        self.load_d(Comp::M);
        self.load_number(offset);
        self.load_a(Comp::DPlusA);
        self.write_simple_comment("end load_m_from_dynamic_index_value");
        assert(self.output() =~= old(self).output() + address_lines(
            AddressPlan::Indirect { base: base_address, offset },
        ));
    }

    fn load_d_from_dynamic_index_value(&mut self, base_address: usize, offset: usize)
        requires
            old(self).wf(),
        ensures
            final(self).extends(
                old(self),
                value_lines(AddressPlan::Indirect { base: base_address, offset }),
            ),
    {
        self.load_m_from_dynamic_index_value(base_address, offset);
        self.load_d(Comp::M);
        assert(self.output() =~= old(self).output() + value_lines(
            AddressPlan::Indirect { base: base_address, offset },
        ));
    }

    fn load_m_from_static_index_value(&mut self, address: usize)
        requires
            old(self).wf(),
        ensures
            final(self).extends(old(self), address_lines(AddressPlan::Fixed(address))),
    {
        self.load_number(address);
    }

    fn load_d_from_static_index_value(&mut self, address: usize)
        requires
            old(self).wf(),
        ensures
            final(self).extends(old(self), value_lines(AddressPlan::Fixed(address))),
    {
        self.load_m_from_static_index_value(address);
        self.load_d(Comp::M);
        assert(self.output() =~= old(self).output() + value_lines(AddressPlan::Fixed(address)));
    }

    fn load_m_from_args(&mut self, plan: AddressPlan)
        requires
            old(self).wf(),
        ensures
            final(self).extends(old(self), address_lines(plan)),
    {
        match plan {
            AddressPlan::Literal(k) => self.load_number(k),
            AddressPlan::Fixed(address) => self.load_m_from_static_index_value(address),
            AddressPlan::Indirect { base, offset } => self.load_m_from_dynamic_index_value(
                base,
                offset,
            ),
        }
    }

    fn load_d_from_args(&mut self, plan: AddressPlan)
        requires
            old(self).wf(),
        ensures
            final(self).extends(old(self), value_lines(plan)),
    {
        match plan {
            AddressPlan::Literal(k) => {
                self.load_number(k);
                self.load_d(Comp::A);
                assert(self.output() =~= old(self).output() + value_lines(plan));
            },
            AddressPlan::Fixed(address) => self.load_d_from_static_index_value(address),
            AddressPlan::Indirect { base, offset } => self.load_d_from_dynamic_index_value(
                base,
                offset,
            ),
        }
    }

    fn lower_push(&mut self, plan: AddressPlan)
        requires
            old(self).wf(),
        ensures
            final(self).extends(old(self), push_lines(plan)),
    {
        self.write_simple_comment("start push");
        self.load_d_from_args(plan);
        self.load_symbol("SP");
        self.load_a(Comp::M);
        self.load_m(Comp::D);
        self.load_symbol("SP");
        self.load_m(Comp::MPlusOne);
        self.write_simple_comment("end push");
        assert(self.output() =~= old(self).output() + push_lines(plan));
    }

    fn lower_pop(&mut self, plan: AddressPlan)
        requires
            old(self).wf(),
        ensures
            final(self).extends(old(self), pop_lines(plan)),
    {
        self.write_simple_comment("start pop");
        self.load_m_from_args(plan);
        self.load_d(Comp::A);
        self.load_number(VmAddress::R15.as_usize());
        self.load_m(Comp::D);
        self.load_symbol("SP");
        self.load_m(Comp::MMinusOne);
        self.load_a(Comp::M);
        self.load_d(Comp::M);
        self.load_number(VmAddress::R15.as_usize());
        self.load_a(Comp::M);
        self.load_m(Comp::D);
        self.write_simple_comment("end pop");
        assert(self.output() =~= old(self).output() + pop_lines(plan));
    }

    fn write_push_from_d(&mut self)
        requires
            old(self).wf(),
        ensures
            final(self).extends(old(self), push_d_lines()),
    {
        self.write_simple_comment("start push_from_d");
        self.load_symbol("SP");
        self.load_m(Comp::MPlusOne);
        self.load_a(Comp::MMinusOne);
        self.load_m(Comp::D);
        self.write_simple_comment("end push_from_d");
        assert(self.output() =~= old(self).output() + push_d_lines());
    }

    fn pop_operands(&mut self)
        requires
            old(self).wf(),
        ensures
            final(self).extends(old(self), pop_operands_lines()),
    {
        self.lower_pop(AddressPlan::Fixed(VmAddress::R13.as_usize()));
        self.lower_pop(AddressPlan::Fixed(VmAddress::R14.as_usize()));
        assert(self.output() =~= old(self).output() + pop_operands_lines());
    }

    /// Writes the lines of `add`.
    pub fn write_add(&mut self)
        requires
            old(self).wf(),
        ensures
            final(self).extends(old(self), add_lines()),
    {
        let right = AddressPlan::Fixed(VmAddress::R13.as_usize());
        let left = AddressPlan::Fixed(VmAddress::R14.as_usize());
        self.write_simple_comment("start add");
        self.pop_operands();
        self.load_d_from_args(right);
        self.load_m_from_args(left);
        self.load_m(Comp::DPlusM);
        self.lower_push(left);
        self.write_simple_comment("end add");
        assert(self.output() =~= old(self).output() + add_lines());
    }

    fn write_binary(&mut self, op: ArithmeticOp)
        requires
            old(self).wf(),
            op == ArithmeticOp::Sub || op == ArithmeticOp::And || op == ArithmeticOp::Or,
        ensures
            final(self).extends(old(self), binary_lines(op)),
    {
        let right = AddressPlan::Fixed(VmAddress::R13.as_usize());
        let left = AddressPlan::Fixed(VmAddress::R14.as_usize());
        self.write_simple_comment(start_text(op));
        self.pop_operands();
        self.load_d_from_args(left);
        self.load_m_from_args(right);
        let ghost before = *self;
        match op {
            ArithmeticOp::Sub => {
                self.load_m(Comp::DMinusM);
            },
            ArithmeticOp::And => {
                self.load_d(Comp::DAndM);
                self.load_m(Comp::D);
            },
            _ => {
                self.load_d(Comp::DOrM);
                self.load_m(Comp::D);
            },
        }
        assert(self.output() =~= before.output() + combine_lines(op));
        self.lower_push(right);
        self.write_simple_comment(end_text(op));
        assert(self.output() =~= old(self).output() + binary_lines(op));
    }

    /// Writes the lines of `sub`: left operand less right operand.
    pub fn write_sub(&mut self)
        requires
            old(self).wf(),
        ensures
            final(self).extends(old(self), binary_lines(ArithmeticOp::Sub)),
    {
        self.write_binary(ArithmeticOp::Sub);
    }

    /// Writes the lines of `and`.
    pub fn write_and(&mut self)
        requires
            old(self).wf(),
        ensures
            final(self).extends(old(self), binary_lines(ArithmeticOp::And)),
    {
        self.write_binary(ArithmeticOp::And);
    }

    /// Writes the lines of `or`.
    pub fn write_or(&mut self)
        requires
            old(self).wf(),
        ensures
            final(self).extends(old(self), binary_lines(ArithmeticOp::Or)),
    {
        self.write_binary(ArithmeticOp::Or);
    }

    fn write_unary(&mut self, op: ArithmeticOp)
        requires
            old(self).wf(),
            op.is_unary(),
        ensures
            final(self).extends(old(self), unary_lines(op)),
    {
        let cell = AddressPlan::Fixed(VmAddress::R13.as_usize());
        self.write_simple_comment(start_text(op));
        self.lower_pop(cell);
        self.load_m_from_args(cell);
        match op {
            ArithmeticOp::Neg => self.load_m(Comp::NegM),
            _ => self.load_m(Comp::NotM),
        }
        self.lower_push(cell);
        self.write_simple_comment(end_text(op));
        assert(self.output() =~= old(self).output() + unary_lines(op));
    }

    /// Writes the lines of `neg`.
    pub fn write_neg(&mut self)
        requires
            old(self).wf(),
        ensures
            final(self).extends(old(self), unary_lines(ArithmeticOp::Neg)),
    {
        self.write_unary(ArithmeticOp::Neg);
    }

    /// Writes the lines of `not`.
    pub fn write_not(&mut self)
        requires
            old(self).wf(),
        ensures
            final(self).extends(old(self), unary_lines(ArithmeticOp::Not)),
    {
        self.write_unary(ArithmeticOp::Not);
    }

    fn write_branch(&mut self, jump: Jump, on_true: &str, on_false: &str, done: &str)
        requires
            old(self).wf(),
        ensures
            final(self).extends(old(self), branch_lines(jump, on_true@, on_false@, done@)),
    {
        self.load_symbol(on_true);
        self.write_jump(Comp::D, jump);
        self.load_symbol(on_false);
        self.write_jump(Comp::Zero, Jump::JMP);
        self.declare(on_true);
        self.load_d(Comp::MinusOne);
        self.load_symbol(done);
        self.write_jump(Comp::Zero, Jump::JMP);
        self.declare(on_false);
        self.load_d(Comp::Zero);
        self.load_symbol(done);
        self.write_jump(Comp::Zero, Jump::JMP);
        self.declare(done);
        self.load_number(VmAddress::R13.as_usize());
        self.load_m(Comp::D);
        assert(self.output() =~= old(self).output() + branch_lines(
            jump,
            on_true@,
            on_false@,
            done@,
        ));
    }

    fn write_comparison(&mut self, op: ArithmeticOp)
        requires
            old(self).wf(),
            op.is_comparison(),
        ensures
            final(self).wf(),
            final(self).output() == old(self).output() + comparison_lines(
                op,
                old(self).issued(),
            ),
            final(self).tag() == old(self).tag(),
            final(self).issued() == old(self).issued() + 3,
    {
        let right = AddressPlan::Fixed(VmAddress::R13.as_usize());
        let left = AddressPlan::Fixed(VmAddress::R14.as_usize());
        self.write_simple_comment(start_text(op));
        self.pop_operands();
        self.load_d_from_args(left);
        let ghost shorter = self.output().len();
        self.load_m_from_args(right);
        self.load_d(Comp::DMinusM);
        let written: usize = self.lines.len();
        assert(written == self.output().len());
        assert(self.output().len() == shorter + 2);
        assert(shorter >= old(self).output().len() + 1);
        assert(written >= self.labels.issued() + 3);
        let on_true = self.labels.next_label();
        let on_false = self.labels.next_label();
        let done = self.labels.next_label();
        let jump = match op {
            ArithmeticOp::Eq => Jump::JEQ,
            ArithmeticOp::Gt => Jump::JGT,
            _ => Jump::JLT,
        };
        self.write_branch(jump, on_true.as_str(), on_false.as_str(), done.as_str());
        self.lower_push(right);
        self.write_simple_comment(end_text(op));
        assert(self.output() =~= old(self).output() + comparison_lines(op, old(self).issued()));
    }

    /// Writes the lines of `eq`, with three fresh branch labels.
    pub fn write_eq(&mut self)
        requires
            old(self).wf(),
        ensures
            final(self).wf(),
            final(self).output() == old(self).output() + comparison_lines(
                ArithmeticOp::Eq,
                old(self).issued(),
            ),
            final(self).tag() == old(self).tag(),
            final(self).issued() == old(self).issued() + 3,
    {
        self.write_comparison(ArithmeticOp::Eq);
    }

    /// Writes the lines of `gt`, with three fresh branch labels.
    pub fn write_gt(&mut self)
        requires
            old(self).wf(),
        ensures
            final(self).wf(),
            final(self).output() == old(self).output() + comparison_lines(
                ArithmeticOp::Gt,
                old(self).issued(),
            ),
            final(self).tag() == old(self).tag(),
            final(self).issued() == old(self).issued() + 3,
    {
        self.write_comparison(ArithmeticOp::Gt);
    }

    /// Writes the lines of `lt`, with three fresh branch labels.
    pub fn write_lt(&mut self)
        requires
            old(self).wf(),
        ensures
            final(self).wf(),
            final(self).output() == old(self).output() + comparison_lines(
                ArithmeticOp::Lt,
                old(self).issued(),
            ),
            final(self).tag() == old(self).tag(),
            final(self).issued() == old(self).issued() + 3,
    {
        self.write_comparison(ArithmeticOp::Lt);
    }

    /// Writes the lines of the arithmetic, logical or comparison command
    /// `op`. A comparison takes three fresh branch labels.
    pub fn write_arithmetic(&mut self, op: ArithmeticOp)
        requires
            old(self).wf(),
        ensures
            final(self).wf(),
            final(self).output() == old(self).output() + arithmetic_lines(
                op,
                old(self).issued(),
            ),
            final(self).tag() == old(self).tag(),
            final(self).issued() == old(self).issued() + labels_taken(
                CommandView::Arithmetic { op },
            ),
    {
        match op {
            ArithmeticOp::Add => self.write_add(),
            ArithmeticOp::Sub => self.write_sub(),
            ArithmeticOp::Neg => self.write_neg(),
            ArithmeticOp::And => self.write_and(),
            ArithmeticOp::Or => self.write_or(),
            ArithmeticOp::Not => self.write_not(),
            ArithmeticOp::Eq => self.write_eq(),
            ArithmeticOp::Lt => self.write_lt(),
            ArithmeticOp::Gt => self.write_gt(),
        }
    }

    /// Writes the lines of `push segment index`, or nothing and the reason
    /// why the segment and the index name nothing that can be pushed.
    pub fn write_push(&mut self, segment: Segment, index: usize) -> (r: Result<(), ResolverError>)
        requires
            old(self).wf(),
        ensures
            final(self).lowers(
                old(self),
                CommandView::Push { segment, index: index as nat },
                r,
            ),
    {
        match resolve(segment, index) {
            Ok(plan) => {
                self.lower_push(plan);
                Ok(())
            },
            Err(e) => Err(e),
        }
    }

    /// Writes the lines of `pop segment index`, or nothing and the reason
    /// why the segment and the index name no cell.
    pub fn write_pop(&mut self, segment: Segment, index: usize) -> (r: Result<(), ResolverError>)
        requires
            old(self).wf(),
        ensures
            final(self).lowers(old(self), CommandView::Pop { segment, index: index as nat }, r),
    {
        match resolve_cell(segment, index) {
            Ok(plan) => {
                self.lower_pop(plan);
                Ok(())
            },
            Err(e) => Err(e),
        }
    }

    /// Writes the lines of a push where `command` is `C_PUSH` and of a pop
    /// where it is `C_POP`, as [`CodeWriter::write_push`] and
    /// [`CodeWriter::write_pop`] do. For any other kind nothing is written
    /// and the result is `NotPushOrPop`.
    pub fn write_push_pop(&mut self, command: CommandType, segment: Segment, index: usize) -> (r:
        Result<(), ResolverError>)
        requires
            old(self).wf(),
        ensures
            command == CommandType::C_PUSH ==> final(self).lowers(
                old(self),
                CommandView::Push { segment, index: index as nat },
                r,
            ),
            command == CommandType::C_POP ==> final(self).lowers(
                old(self),
                CommandView::Pop { segment, index: index as nat },
                r,
            ),
            command != CommandType::C_PUSH && command != CommandType::C_POP ==> {
                &&& r == Err::<(), ResolverError>(ResolverError::NotPushOrPop)
                &&& final(self).extends(old(self), Seq::empty())
            },
    {
        match command {
            CommandType::C_PUSH => self.write_push(segment, index),
            CommandType::C_POP => self.write_pop(segment, index),
            _ => {
                assert(self.output() + Seq::<LineView>::empty() =~= self.output());
                Err(ResolverError::NotPushOrPop)
            },
        }
    }

    /// Writes the lines of `label name`, or nothing and `ReservedLabel`
    /// where the name has the form of the internal labels.
    pub fn write_label(&mut self, name: &str) -> (r: Result<(), ResolverError>)
        requires
            old(self).wf(),
        ensures
            final(self).lowers(old(self), CommandView::Label { name: name@ }, r),
    {
        if is_internal_label(name) {
            return Err(ResolverError::ReservedLabel);
        }
        self.lower_label(name);
        Ok(())
    }

    /// Writes the lines of `function name n_locals`, or nothing and
    /// `OutOfRange` where the index of a local is more than an address
    /// instruction can load.
    pub fn write_function(&mut self, name: &str, n_locals: usize) -> (r: Result<
        (),
        ResolverError,
    >)
        requires
            old(self).wf(),
        ensures
            final(self).lowers(
                old(self),
                CommandView::Function { name: name@, n_locals: n_locals as nat },
                r,
            ),
    {
        if n_locals > MAX_ADDRESS + 1 {
            return Err(ResolverError::OutOfRange);
        }
        self.lower_function(name, n_locals);
        Ok(())
    }

    /// Writes the lines of `call name n_args`, with a fresh return label,
    /// or nothing and `OutOfRange` where the number of arguments is more
    /// than an address instruction can load.
    pub fn write_call(&mut self, name: &str, n_args: usize) -> (r: Result<(), ResolverError>)
        requires
            old(self).wf(),
        ensures
            final(self).lowers(
                old(self),
                CommandView::Call { name: name@, n_args: n_args as nat },
                r,
            ),
    {
        if n_args > MAX_ADDRESS {
            return Err(ResolverError::OutOfRange);
        }
        self.lower_call(name, n_args);
        Ok(())
    }

    fn lower_label(&mut self, name: &str)
        requires
            old(self).wf(),
        ensures
            final(self).extends(old(self), label_lines(name@)),
    {
        self.write_simple_comment("start label");
        self.declare(name);
        self.write_simple_comment("end label");
        assert(self.output() =~= old(self).output() + label_lines(name@));
    }

    /// Writes the lines of `goto name`.
    pub fn write_goto(&mut self, name: &str)
        requires
            old(self).wf(),
        ensures
            final(self).extends(old(self), goto_lines(name@)),
    {
        self.write_simple_comment("start goto");
        self.load_symbol(name);
        self.write_jump(Comp::Zero, Jump::JMP);
        self.write_simple_comment("end goto");
        assert(self.output() =~= old(self).output() + goto_lines(name@));
    }

    /// Writes the lines of `if-goto name`.
    pub fn write_if_goto(&mut self, name: &str)
        requires
            old(self).wf(),
        ensures
            final(self).extends(old(self), if_goto_lines(name@)),
    {
        self.write_simple_comment("start if-goto");
        self.load_symbol("SP");
        self.load_m(Comp::MMinusOne);
        self.load_a(Comp::M);
        self.load_d(Comp::M);
        self.load_symbol(name);
        self.write_jump(Comp::D, Jump::JNE);
        self.write_simple_comment("end if-goto");
        assert(self.output() =~= old(self).output() + if_goto_lines(name@));
    }

    fn qualified(&self, name: &str) -> (full: String)
        ensures
            full@ == function_label(self.tag(), name@),
    {
        let mut full = self.base_name.clone();
        full.append(".");
        full.append(name);
        full
    }

    fn lower_function(&mut self, name: &str, n_locals: usize)
        requires
            old(self).wf(),
            n_locals <= MAX_ADDRESS + 1,
        ensures
            final(self).extends(
                old(self),
                function_lines(old(self).tag(), name@, n_locals as nat),
            ),
    {
        self.write_simple_comment("start function");
        let entry = self.qualified(name);
        self.declare(entry.as_str());
        let ghost head = self.output();
        let mut i: usize = 0;
        assert(self.output() =~= head + locals_lines(0));
        while i < n_locals
            invariant
                i <= n_locals <= MAX_ADDRESS + 1,
                self.wf(),
                self.tag() == old(self).tag(),
                self.issued() == old(self).issued(),
                self.output() == head + locals_lines(i as nat),
            decreases n_locals - i,
        {
            self.lower_push(AddressPlan::Literal(0));
            self.lower_pop(AddressPlan::Indirect { base: VmAddress::LCL.as_usize(), offset: i });
            i += 1;
            assert(self.output() =~= head + locals_lines(i as nat));
        }
        self.write_simple_comment("end function");
        assert(self.output() =~= old(self).output() + function_lines(
            old(self).tag(),
            name@,
            n_locals as nat,
        ));
    }

    fn save(&mut self, register: &str)
        requires
            old(self).wf(),
        ensures
            final(self).extends(old(self), save_lines(register@)),
    {
        self.load_symbol(register);
        self.load_d(Comp::M);
        self.write_push_from_d();
        assert(self.output() =~= old(self).output() + save_lines(register@));
    }

    fn reposition(&mut self, n_args: usize)
        requires
            old(self).wf(),
        ensures
            final(self).extends(old(self), reposition_lines(n_args as nat)),
    {
        self.load_symbol("SP");
        self.load_d(Comp::M);
        self.load_number(5);
        self.load_d(Comp::DMinusA);
        self.load_number(n_args);
        self.load_d(Comp::DMinusA);
        self.load_symbol("ARG");
        self.load_m(Comp::D);
        self.load_symbol("SP");
        self.load_d(Comp::M);
        self.load_symbol("LCL");
        self.load_m(Comp::D);
        assert(self.output() =~= old(self).output() + reposition_lines(n_args as nat));
    }

    fn lower_call(&mut self, name: &str, n_args: usize)
        requires
            old(self).wf(),
            n_args <= MAX_ADDRESS,
        ensures
            final(self).wf(),
            final(self).output() == old(self).output() + call_lines(
                old(self).tag(),
                name@,
                n_args as nat,
                old(self).issued(),
            ),
            final(self).tag() == old(self).tag(),
            final(self).issued() == old(self).issued() + 1,
    {
        self.write_simple_comment("start call function");
        let written: usize = self.lines.len();
        assert(written == self.output().len());
        assert(written >= self.labels.issued() + 1);
        let return_site = self.labels.next_return_label();
        self.load_symbol(return_site.as_str());
        self.load_d(Comp::A);
        self.write_push_from_d();
        self.save("LCL");
        self.save("ARG");
        self.save("THIS");
        self.save("THAT");
        self.reposition(n_args);
        let target = self.qualified(name);
        self.write_goto(target.as_str());
        self.lower_label(return_site.as_str());
        self.write_simple_comment("end call function");
        assert(self.output() =~= old(self).output() + call_lines(
            old(self).tag(),
            name@,
            n_args as nat,
            old(self).issued(),
        ));
    }

    fn restore(&mut self, register: &str)
        requires
            old(self).wf(),
        ensures
            final(self).extends(old(self), restore_lines(register@)),
    {
        self.load_number(VmAddress::R13.as_usize());
        self.load_m(Comp::MMinusOne);
        self.load_a(Comp::M);
        self.load_d(Comp::M);
        self.load_symbol(register);
        self.load_m(Comp::D);
        assert(self.output() =~= old(self).output() + restore_lines(register@));
    }

    fn keep_frame(&mut self)
        requires
            old(self).wf(),
        ensures
            final(self).extends(old(self), frame_lines()),
    {
        self.load_symbol("LCL");
        self.load_d(Comp::M);
        self.load_number(VmAddress::R13.as_usize());
        self.load_m(Comp::D);
        self.load_number(5);
        self.load_a(Comp::DMinusA);
        self.load_d(Comp::M);
        self.load_number(VmAddress::R14.as_usize());
        self.load_m(Comp::D);
        assert(self.output() =~= old(self).output() + frame_lines());
    }

    fn unwind(&mut self)
        requires
            old(self).wf(),
        ensures
            final(self).extends(old(self), unwind_lines()),
    {
        self.load_symbol("ARG");
        self.load_d(Comp::MPlusOne);
        self.load_symbol("SP");
        self.load_m(Comp::D);
        assert(self.output() =~= old(self).output() + unwind_lines());
    }

    /// Writes the lines of `return`.
    pub fn write_return(&mut self)
        requires
            old(self).wf(),
        ensures
            final(self).extends(old(self), return_lines()),
    {
        self.write_simple_comment("start return");
        self.keep_frame();
        self.lower_pop(AddressPlan::Indirect { base: VmAddress::ARG.as_usize(), offset: 0 });
        self.unwind();
        self.restore("THAT");
        self.restore("THIS");
        self.restore("ARG");
        self.restore("LCL");
        self.load_number(VmAddress::R14.as_usize());
        self.load_a(Comp::M);
        self.write_jump(Comp::Zero, Jump::JMP);
        self.write_simple_comment("end return");
        assert(self.output() =~= old(self).output() + return_lines());
    }

    /// Lowers `command`: appends its lines to the output, in the unit of
    /// the current tag and with labels from the allocator of the run. Where
    /// the command cannot be lowered, nothing is written and the reason is
    /// returned.
    pub fn write_code(&mut self, command: &Command) -> (r: Result<(), ResolverError>)
        requires
            old(self).wf(),
        ensures
            final(self).lowers(old(self), command@, r),
    {
        match command {
            Command::Push { segment, index } => self.write_push(*segment, *index),
            Command::Pop { segment, index } => self.write_pop(*segment, *index),
            Command::Arithmetic { op } => {
                self.write_arithmetic(*op);
                Ok(())
            },
            Command::Label { name } => self.write_label(name.as_str()),
            Command::Goto { name } => {
                self.write_goto(name.as_str());
                Ok(())
            },
            Command::IfGoto { name } => {
                self.write_if_goto(name.as_str());
                Ok(())
            },
            Command::Function { name, n_locals } => self.write_function(name.as_str(), *n_locals),
            Command::Call { name, n_args } => self.write_call(name.as_str(), *n_args),
            Command::Return => {
                self.write_return();
                Ok(())
            },
        }
    }
}

fn start_text(op: ArithmeticOp) -> (t: &'static str)
    ensures
        t@ == start_comment(op),
{
    match op {
        ArithmeticOp::Add => "start add",
        ArithmeticOp::Sub => "start sub",
        ArithmeticOp::Neg => "start neg",
        ArithmeticOp::Eq => "start eq",
        ArithmeticOp::Gt => "start gt",
        ArithmeticOp::Lt => "start lt",
        ArithmeticOp::And => "start and",
        ArithmeticOp::Or => "start or",
        ArithmeticOp::Not => "start not",
    }
}

fn end_text(op: ArithmeticOp) -> (t: &'static str)
    ensures
        t@ == end_comment(op),
{
    match op {
        ArithmeticOp::Add => "end add",
        ArithmeticOp::Sub => "end sub",
        ArithmeticOp::Neg => "end neg",
        ArithmeticOp::Eq => "end eq",
        ArithmeticOp::Gt => "end gt",
        ArithmeticOp::Lt => "end lt",
        ArithmeticOp::And => "end and",
        ArithmeticOp::Or => "end or",
        ArithmeticOp::Not => "end not",
    }
}

} // verus!
