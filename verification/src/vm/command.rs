//! The commands of the virtual machine language.

use vstd::prelude::*;
use vstd::string::*;
use crate::text::same_text;

verus! {

/// A named region of the memory that a virtual machine program sees.
#[derive(Clone, Copy, Debug, PartialEq, Eq, Structural)]
pub enum Segment {
    Argument,
    Local,
    Static,
    Constant,
    This,
    That,
    Pointer,
    Temp,
}

/// An arithmetic, logical or comparison command.
#[derive(Clone, Copy, Debug, PartialEq, Eq, Structural)]
pub enum ArithmeticOp {
    Add,
    Sub,
    Neg,
    Eq,
    Gt,
    Lt,
    And,
    Or,
    Not,
}

/// The kind of a command. `C_INIT` is the kind of no command: what a reader
/// holds before its first command and after its last.
#[derive(Clone, Copy, Debug, PartialEq, Eq, Structural)]
#[allow(non_camel_case_types)]
pub enum CommandType {
    C_INIT,
    C_ARITHETIC,
    C_PUSH,
    C_POP,
    C_LABEL,
    C_GOTO,
    C_IF,
    C_FUNCTION,
    C_RETURN,
    C_CALL,
}

/// One command of a virtual machine program.
#[derive(Clone, Debug)]
pub enum Command {
    Push { segment: Segment, index: usize },
    Pop { segment: Segment, index: usize },
    Arithmetic { op: ArithmeticOp },
    Label { name: String },
    Goto { name: String },
    IfGoto { name: String },
    Function { name: String, n_locals: usize },
    Call { name: String, n_args: usize },
    Return,
}

/// The mathematical value of a [`Command`].
pub enum CommandView {
    Push { segment: Segment, index: nat },
    Pop { segment: Segment, index: nat },
    Arithmetic { op: ArithmeticOp },
    Label { name: Seq<char> },
    Goto { name: Seq<char> },
    IfGoto { name: Seq<char> },
    Function { name: Seq<char>, n_locals: nat },
    Call { name: Seq<char>, n_args: nat },
    Return,
}

impl View for Command {
    type V = CommandView;

    open spec fn view(&self) -> CommandView {
        match self {
            Command::Push { segment, index } => CommandView::Push {
                segment: *segment,
                index: *index as nat,
            },
            Command::Pop { segment, index } => CommandView::Pop {
                segment: *segment,
                index: *index as nat,
            },
            Command::Arithmetic { op } => CommandView::Arithmetic { op: *op },
            Command::Label { name } => CommandView::Label { name: name@ },
            Command::Goto { name } => CommandView::Goto { name: name@ },
            Command::IfGoto { name } => CommandView::IfGoto { name: name@ },
            Command::Function { name, n_locals } => CommandView::Function {
                name: name@,
                n_locals: *n_locals as nat,
            },
            Command::Call { name, n_args } => CommandView::Call {
                name: name@,
                n_args: *n_args as nat,
            },
            Command::Return => CommandView::Return,
        }
    }
}

impl Segment {
    /// The name of the segment in the language.
    pub open spec fn name(self) -> Seq<char> {
        match self {
            Segment::Argument => "argument"@,
            Segment::Local => "local"@,
            Segment::Static => "static"@,
            Segment::Constant => "constant"@,
            Segment::This => "this"@,
            Segment::That => "that"@,
            Segment::Pointer => "pointer"@,
            Segment::Temp => "temp"@,
        }
    }

    /// The name of the segment as text.
    pub fn text(self) -> (t: &'static str)
        ensures
            t@ == self.name(),
    {
        match self {
            Segment::Argument => "argument",
            Segment::Local => "local",
            Segment::Static => "static",
            Segment::Constant => "constant",
            Segment::This => "this",
            Segment::That => "that",
            Segment::Pointer => "pointer",
            Segment::Temp => "temp",
        }
    }
}

/// The segment that `word` names, if it names one.
pub open spec fn segment_named(word: Seq<char>) -> Option<Segment> {
    if word == "argument"@ {
        Some(Segment::Argument)
    } else if word == "local"@ {
        Some(Segment::Local)
    } else if word == "static"@ {
        Some(Segment::Static)
    } else if word == "constant"@ {
        Some(Segment::Constant)
    } else if word == "this"@ {
        Some(Segment::This)
    } else if word == "that"@ {
        Some(Segment::That)
    } else if word == "pointer"@ {
        Some(Segment::Pointer)
    } else if word == "temp"@ {
        Some(Segment::Temp)
    } else {
        None
    }
}

/// Reads `word` as the name of a segment.
pub fn parse_segment(word: &str) -> (segment: Option<Segment>)
    ensures
        segment == segment_named(word@),
{
    if same_text(word, "argument") {
        Some(Segment::Argument)
    } else if same_text(word, "local") {
        Some(Segment::Local)
    } else if same_text(word, "static") {
        Some(Segment::Static)
    } else if same_text(word, "constant") {
        Some(Segment::Constant)
    } else if same_text(word, "this") {
        Some(Segment::This)
    } else if same_text(word, "that") {
        Some(Segment::That)
    } else if same_text(word, "pointer") {
        Some(Segment::Pointer)
    } else if same_text(word, "temp") {
        Some(Segment::Temp)
    } else {
        None
    }
}

impl ArithmeticOp {
    /// The name of the operation in the language.
    pub open spec fn name(self) -> Seq<char> {
        match self {
            ArithmeticOp::Add => "add"@,
            ArithmeticOp::Sub => "sub"@,
            ArithmeticOp::Neg => "neg"@,
            ArithmeticOp::Eq => "eq"@,
            ArithmeticOp::Gt => "gt"@,
            ArithmeticOp::Lt => "lt"@,
            ArithmeticOp::And => "and"@,
            ArithmeticOp::Or => "or"@,
            ArithmeticOp::Not => "not"@,
        }
    }

    /// The name of the operation as text.
    pub fn text(self) -> (t: &'static str)
        ensures
            t@ == self.name(),
    {
        match self {
            ArithmeticOp::Add => "add",
            ArithmeticOp::Sub => "sub",
            ArithmeticOp::Neg => "neg",
            ArithmeticOp::Eq => "eq",
            ArithmeticOp::Gt => "gt",
            ArithmeticOp::Lt => "lt",
            ArithmeticOp::And => "and",
            ArithmeticOp::Or => "or",
            ArithmeticOp::Not => "not",
        }
    }

    /// Whether the operation compares its two operands.
    pub open spec fn is_comparison(self) -> bool {
        self == ArithmeticOp::Eq || self == ArithmeticOp::Gt || self == ArithmeticOp::Lt
    }

    /// Whether the operation takes one operand.
    pub open spec fn is_unary(self) -> bool {
        self == ArithmeticOp::Neg || self == ArithmeticOp::Not
    }
}

/// The operation that `word` names, if it names one.
pub open spec fn arithmetic_named(word: Seq<char>) -> Option<ArithmeticOp> {
    if word == "add"@ {
        Some(ArithmeticOp::Add)
    } else if word == "sub"@ {
        Some(ArithmeticOp::Sub)
    } else if word == "neg"@ {
        Some(ArithmeticOp::Neg)
    } else if word == "eq"@ {
        Some(ArithmeticOp::Eq)
    } else if word == "gt"@ {
        Some(ArithmeticOp::Gt)
    } else if word == "lt"@ {
        Some(ArithmeticOp::Lt)
    } else if word == "and"@ {
        Some(ArithmeticOp::And)
    } else if word == "or"@ {
        Some(ArithmeticOp::Or)
    } else if word == "not"@ {
        Some(ArithmeticOp::Not)
    } else {
        None
    }
}

/// Reads `word` as the name of an arithmetic, logical or comparison command.
pub fn parse_arithmetic(word: &str) -> (op: Option<ArithmeticOp>)
    ensures
        op == arithmetic_named(word@),
{
    if same_text(word, "add") {
        Some(ArithmeticOp::Add)
    } else if same_text(word, "sub") {
        Some(ArithmeticOp::Sub)
    } else if same_text(word, "neg") {
        Some(ArithmeticOp::Neg)
    } else if same_text(word, "eq") {
        Some(ArithmeticOp::Eq)
    } else if same_text(word, "gt") {
        Some(ArithmeticOp::Gt)
    } else if same_text(word, "lt") {
        Some(ArithmeticOp::Lt)
    } else if same_text(word, "and") {
        Some(ArithmeticOp::And)
    } else if same_text(word, "or") {
        Some(ArithmeticOp::Or)
    } else if same_text(word, "not") {
        Some(ArithmeticOp::Not)
    } else {
        None
    }
}

impl CommandType {
    /// The name of the kind.
    pub open spec fn name(self) -> Seq<char> {
        match self {
            CommandType::C_INIT => "C_INIT"@,
            CommandType::C_ARITHETIC => "C_ARITHETIC"@,
            CommandType::C_PUSH => "C_PUSH"@,
            CommandType::C_POP => "C_POP"@,
            CommandType::C_LABEL => "C_LABEL"@,
            CommandType::C_GOTO => "C_GOTO"@,
            CommandType::C_IF => "C_IF"@,
            CommandType::C_FUNCTION => "C_FUNCTION"@,
            CommandType::C_RETURN => "C_RETURN"@,
            CommandType::C_CALL => "C_CALL"@,
        }
    }

    /// The name of the kind as text.
    pub fn text(self) -> (t: &'static str)
        ensures
            t@ == self.name(),
    {
        match self {
            CommandType::C_INIT => "C_INIT",
            CommandType::C_ARITHETIC => "C_ARITHETIC",
            CommandType::C_PUSH => "C_PUSH",
            CommandType::C_POP => "C_POP",
            CommandType::C_LABEL => "C_LABEL",
            CommandType::C_GOTO => "C_GOTO",
            CommandType::C_IF => "C_IF",
            CommandType::C_FUNCTION => "C_FUNCTION",
            CommandType::C_RETURN => "C_RETURN",
            CommandType::C_CALL => "C_CALL",
        }
    }
}

impl CommandView {
    /// The kind of the command.
    pub open spec fn kind(self) -> CommandType {
        match self {
            CommandView::Push { .. } => CommandType::C_PUSH,
            CommandView::Pop { .. } => CommandType::C_POP,
            CommandView::Arithmetic { .. } => CommandType::C_ARITHETIC,
            CommandView::Label { .. } => CommandType::C_LABEL,
            CommandView::Goto { .. } => CommandType::C_GOTO,
            CommandView::IfGoto { .. } => CommandType::C_IF,
            CommandView::Function { .. } => CommandType::C_FUNCTION,
            CommandView::Call { .. } => CommandType::C_CALL,
            CommandView::Return => CommandType::C_RETURN,
        }
    }

    /// The first argument of the command: the segment of a push or pop, the
    /// name of a label, jump, function or call, and for an arithmetic
    /// command the command itself. `return` has none: the empty text.
    pub open spec fn arg1(self) -> Seq<char> {
        match self {
            CommandView::Push { segment, .. } => segment.name(),
            CommandView::Pop { segment, .. } => segment.name(),
            CommandView::Arithmetic { op } => op.name(),
            CommandView::Label { name } => name,
            CommandView::Goto { name } => name,
            CommandView::IfGoto { name } => name,
            CommandView::Function { name, .. } => name,
            CommandView::Call { name, .. } => name,
            CommandView::Return => Seq::empty(),
        }
    }

    /// The second argument of the command: the index of a push or pop, the
    /// number of locals of a function, the number of arguments of a call.
    pub open spec fn arg2(self) -> Option<nat> {
        match self {
            CommandView::Push { index, .. } => Some(index),
            CommandView::Pop { index, .. } => Some(index),
            CommandView::Function { n_locals, .. } => Some(n_locals),
            CommandView::Call { n_args, .. } => Some(n_args),
            _ => None,
        }
    }
}

impl Command {
    /// The kind of the command.
    pub fn command_type(&self) -> (kind: CommandType)
        ensures
            kind == self@.kind(),
    {
        match self {
            Command::Push { .. } => CommandType::C_PUSH,
            Command::Pop { .. } => CommandType::C_POP,
            Command::Arithmetic { .. } => CommandType::C_ARITHETIC,
            Command::Label { .. } => CommandType::C_LABEL,
            Command::Goto { .. } => CommandType::C_GOTO,
            Command::IfGoto { .. } => CommandType::C_IF,
            Command::Function { .. } => CommandType::C_FUNCTION,
            Command::Call { .. } => CommandType::C_CALL,
            Command::Return => CommandType::C_RETURN,
        }
    }

    /// The first argument of the command.
    pub fn arg1(&self) -> (arg: String)
        ensures
            arg@ == self@.arg1(),
    {
        match self {
            Command::Push { segment, .. } => String::from_str(segment.text()),
            Command::Pop { segment, .. } => String::from_str(segment.text()),
            Command::Arithmetic { op } => String::from_str(op.text()),
            Command::Label { name } => name.clone(),
            Command::Goto { name } => name.clone(),
            Command::IfGoto { name } => name.clone(),
            Command::Function { name, .. } => name.clone(),
            Command::Call { name, .. } => name.clone(),
            Command::Return => String::new(),
        }
    }

    /// The second argument of the command.
    pub fn arg2(&self) -> (arg: Option<usize>)
        ensures
            match arg {
                Some(n) => self@.arg2() == Some(n as nat),
                None => self@.arg2() is None,
            },
    {
        match self {
            Command::Push { index, .. } => Some(*index),
            Command::Pop { index, .. } => Some(*index),
            Command::Function { n_locals, .. } => Some(*n_locals),
            Command::Call { n_args, .. } => Some(*n_args),
            _ => None,
        }
    }
}

} // verus!
