//! The model of one line of Hack assembly: comments, label declarations,
//! address instructions and compute instructions, with their text form.

use vstd::prelude::*;
use vstd::string::*;
use crate::text::{decimal, decimal_string};

verus! {

/// The largest number that an address instruction can load, which is the
/// largest address of a cell and of an instruction: fifteen bits.
pub const MAX_ADDRESS: usize = 32767;

/// Where a compute instruction stores its result.
#[derive(Clone, Copy, Debug, PartialEq, Eq, Structural)]
pub enum Dest {
    Null,
    M,
    D,
    DM,
    A,
    AM,
    AD,
    ADM,
}

/// What a compute instruction computes from the registers `A` and `D` and
/// from `M`, the memory cell that `A` addresses.
#[derive(Clone, Copy, Debug, PartialEq, Eq, Structural)]
pub enum Comp {
    Zero,
    One,
    MinusOne,
    D,
    A,
    M,
    NotD,
    NotA,
    NotM,
    NegD,
    NegA,
    NegM,
    DPlusOne,
    APlusOne,
    MPlusOne,
    DMinusOne,
    AMinusOne,
    MMinusOne,
    DPlusA,
    DPlusM,
    DMinusA,
    DMinusM,
    AMinusD,
    MMinusD,
    DAndA,
    DAndM,
    DOrA,
    DOrM,
}

/// The condition on the computed value under which the machine jumps to the
/// instruction that `A` addresses.
#[derive(Clone, Copy, Debug, PartialEq, Eq, Structural)]
pub enum Jump {
    Null,
    JGT,
    JEQ,
    JGE,
    JLT,
    JNE,
    JLE,
    JMP,
}

/// What an address instruction loads: a number, or a symbol that the
/// assembler resolves.
#[derive(Clone, Debug)]
pub enum Operand {
    Number(usize),
    Name(String),
}

/// One line of assembly text.
#[derive(Clone, Debug)]
pub enum Line {
    /// `//` followed by the text.
    Comment(String),
    /// `(name)`: names the address of the next instruction.
    Label(String),
    /// `@operand`: loads the operand into `A`.
    At(Operand),
    /// `dest=comp;jump`, the fields `dest=` and `;jump` left out when null.
    Compute { dest: Dest, comp: Comp, jump: Jump },
}

/// The mathematical value of an [`Operand`].
pub enum OperandView {
    Number(nat),
    Name(Seq<char>),
}

/// The mathematical value of a [`Line`].
pub enum LineView {
    Comment(Seq<char>),
    Label(Seq<char>),
    At(OperandView),
    Compute { dest: Dest, comp: Comp, jump: Jump },
}

impl View for Operand {
    type V = OperandView;

    open spec fn view(&self) -> OperandView {
        match self {
            Operand::Number(n) => OperandView::Number(*n as nat),
            Operand::Name(s) => OperandView::Name(s@),
        }
    }
}

impl View for Line {
    type V = LineView;

    open spec fn view(&self) -> LineView {
        match self {
            Line::Comment(s) => LineView::Comment(s@),
            Line::Label(s) => LineView::Label(s@),
            Line::At(op) => LineView::At(op@),
            Line::Compute { dest, comp, jump } => LineView::Compute {
                dest: *dest,
                comp: *comp,
                jump: *jump,
            },
        }
    }
}

/// The values of a sequence of lines, one for one.
pub open spec fn lines_view(lines: Seq<Line>) -> Seq<LineView> {
    lines.map_values(|l: Line| l@)
}

impl Dest {
    /// The mnemonic of the destination, empty for `Null`.
    pub open spec fn mnemonic(self) -> Seq<char> {
        match self {
            Dest::Null => Seq::empty(),
            Dest::M => "M"@,
            Dest::D => "D"@,
            Dest::DM => "DM"@,
            Dest::A => "A"@,
            Dest::AM => "AM"@,
            Dest::AD => "AD"@,
            Dest::ADM => "ADM"@,
        }
    }

    pub open spec fn writes_a(self) -> bool {
        self == Dest::A || self == Dest::AM || self == Dest::AD || self == Dest::ADM
    }

    pub open spec fn writes_d(self) -> bool {
        self == Dest::D || self == Dest::DM || self == Dest::AD || self == Dest::ADM
    }

    pub open spec fn writes_m(self) -> bool {
        self == Dest::M || self == Dest::DM || self == Dest::AM || self == Dest::ADM
    }

    /// The mnemonic as text.
    pub fn text(self) -> (t: &'static str)
        ensures
            t@ == self.mnemonic(),
    {
        match self {
            Dest::Null => {
                proof {
                    reveal_strlit("");
                }
                assert(""@ =~= Seq::<char>::empty());
                ""
            },
            Dest::M => "M",
            Dest::D => "D",
            Dest::DM => "DM",
            Dest::A => "A",
            Dest::AM => "AM",
            Dest::AD => "AD",
            Dest::ADM => "ADM",
        }
    }
}

impl Comp {
    /// The mnemonic of the computation.
    pub open spec fn mnemonic(self) -> Seq<char> {
        match self {
            Comp::Zero => "0"@,
            Comp::One => "1"@,
            Comp::MinusOne => "-1"@,
            Comp::D => "D"@,
            Comp::A => "A"@,
            Comp::M => "M"@,
            Comp::NotD => "!D"@,
            Comp::NotA => "!A"@,
            Comp::NotM => "!M"@,
            Comp::NegD => "-D"@,
            Comp::NegA => "-A"@,
            Comp::NegM => "-M"@,
            Comp::DPlusOne => "D+1"@,
            Comp::APlusOne => "A+1"@,
            Comp::MPlusOne => "M+1"@,
            Comp::DMinusOne => "D-1"@,
            Comp::AMinusOne => "A-1"@,
            Comp::MMinusOne => "M-1"@,
            Comp::DPlusA => "D+A"@,
            Comp::DPlusM => "D+M"@,
            Comp::DMinusA => "D-A"@,
            Comp::DMinusM => "D-M"@,
            Comp::AMinusD => "A-D"@,
            Comp::MMinusD => "M-D"@,
            Comp::DAndA => "D&A"@,
            Comp::DAndM => "D&M"@,
            Comp::DOrA => "D|A"@,
            Comp::DOrM => "D|M"@,
        }
    }

    /// The mnemonic as text.
    pub fn text(self) -> (t: &'static str)
        ensures
            t@ == self.mnemonic(),
    {
        match self {
            Comp::Zero => "0",
            Comp::One => "1",
            Comp::MinusOne => "-1",
            Comp::D => "D",
            Comp::A => "A",
            Comp::M => "M",
            Comp::NotD => "!D",
            Comp::NotA => "!A",
            Comp::NotM => "!M",
            Comp::NegD => "-D",
            Comp::NegA => "-A",
            Comp::NegM => "-M",
            Comp::DPlusOne => "D+1",
            Comp::APlusOne => "A+1",
            Comp::MPlusOne => "M+1",
            Comp::DMinusOne => "D-1",
            Comp::AMinusOne => "A-1",
            Comp::MMinusOne => "M-1",
            Comp::DPlusA => "D+A",
            Comp::DPlusM => "D+M",
            Comp::DMinusA => "D-A",
            Comp::DMinusM => "D-M",
            Comp::AMinusD => "A-D",
            Comp::MMinusD => "M-D",
            Comp::DAndA => "D&A",
            Comp::DAndM => "D&M",
            Comp::DOrA => "D|A",
            Comp::DOrM => "D|M",
        }
    }
}

impl Jump {
    /// The mnemonic of the jump, empty for `Null`.
    pub open spec fn mnemonic(self) -> Seq<char> {
        match self {
            Jump::Null => Seq::empty(),
            Jump::JGT => "JGT"@,
            Jump::JEQ => "JEQ"@,
            Jump::JGE => "JGE"@,
            Jump::JLT => "JLT"@,
            Jump::JNE => "JNE"@,
            Jump::JLE => "JLE"@,
            Jump::JMP => "JMP"@,
        }
    }

    /// The mnemonic as text.
    pub fn text(self) -> (t: &'static str)
        ensures
            t@ == self.mnemonic(),
    {
        match self {
            Jump::Null => {
                proof {
                    reveal_strlit("");
                }
                assert(""@ =~= Seq::<char>::empty());
                ""
            },
            Jump::JGT => "JGT",
            Jump::JEQ => "JEQ",
            Jump::JGE => "JGE",
            Jump::JLT => "JLT",
            Jump::JNE => "JNE",
            Jump::JLE => "JLE",
            Jump::JMP => "JMP",
        }
    }
}

impl OperandView {
    /// The operand as written after `@`.
    pub open spec fn text(self) -> Seq<char> {
        match self {
            OperandView::Number(n) => decimal(n),
            OperandView::Name(s) => s,
        }
    }
}

impl LineView {
    /// The line as assembly text, without a line break.
    pub open spec fn text(self) -> Seq<char> {
        match self {
            LineView::Comment(s) => "//"@ + s,
            LineView::Label(s) => "("@ + s + ")"@,
            LineView::At(op) => "@"@ + op.text(),
            LineView::Compute { dest, comp, jump } => {
                let head = if dest == Dest::Null {
                    Seq::<char>::empty()
                } else {
                    dest.mnemonic() + "="@
                };
                let tail = if jump == Jump::Null {
                    Seq::<char>::empty()
                } else {
                    ";"@ + jump.mnemonic()
                };
                head + comp.mnemonic() + tail
            },
        }
    }

    /// Whether the line is an instruction, which takes an address in
    /// program memory; comments and label declarations take none.
    pub open spec fn is_instruction(self) -> bool {
        self is At || self is Compute
    }
}

impl Line {
    /// Writes the line as assembly text, without a line break.
    pub fn render(&self) -> (t: String)
        ensures
            t@ == self@.text(),
    {
        match self {
            Line::Comment(s) => {
                let mut t = String::from_str("//");
                t.append(s.as_str());
                t
            },
            Line::Label(s) => {
                let mut t = String::from_str("(");
                t.append(s.as_str());
                t.append(")");
                t
            },
            Line::At(op) => {
                let mut t = String::from_str("@");
                match op {
                    Operand::Number(n) => {
                        let digits = decimal_string(*n);
                        t.append(digits.as_str());
                    },
                    Operand::Name(s) => {
                        t.append(s.as_str());
                    },
                }
                t
            },
            Line::Compute { dest, comp, jump } => {
                let mut t = String::new();
                match dest {
                    Dest::Null => {},
                    _ => {
                        t.append(dest.text());
                        t.append("=");
                    },
                }
                t.append(comp.text());
                match jump {
                    Jump::Null => {},
                    _ => {
                        t.append(";");
                        t.append(jump.text());
                    },
                }
                assert(t@ =~= self@.text());
                t
            },
        }
    }
}

/// Writes every line as assembly text, in order.
pub fn render_lines(lines: &Vec<Line>) -> (out: Vec<String>)
    ensures
        out@.len() == lines@.len(),
        forall|i: int| 0 <= i < lines@.len() ==> (#[trigger] out@[i])@ == lines@[i]@.text(),
{
    let mut out: Vec<String> = Vec::new();
    let mut i: usize = 0;
    while i < lines.len()
        invariant
            i <= lines@.len(),
            out@.len() == i,
            forall|k: int| 0 <= k < i ==> (#[trigger] out@[k])@ == lines@[k]@.text(),
        decreases lines@.len() - i,
    {
        let t = lines[i].render();
        out.push(t);
        i += 1;
    }
    out
}

} // verus!
