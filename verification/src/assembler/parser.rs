//! The assembly parser: from the lines of a program to its instructions,
//! one at a time.

use vstd::prelude::*;
use vstd::string::*;
use crate::text::{
    chars_of, find_char, find_comment, index_of, lemma_comment_start_bounds, split, split_on,
    strings_view, strip_comment, trim, trimmed,
};

verus! {

/// The three kinds of instruction: `@symbol`, `dest=comp;jump` and
/// `(symbol)`.
#[derive(Debug, Clone, Copy, PartialEq, Eq, Structural)]
#[allow(non_camel_case_types)]
pub enum InstructionType {
    A_INSTRUCTION,
    C_INSTRUCTION,
    L_INSTRUCTION,
}

/// Why a program cannot be assembled.
#[derive(Debug, Clone, Copy, PartialEq, Eq, Structural)]
pub enum AsmError {
    /// The pattern of a label declaration could not be prepared.
    Pattern,
    /// A line starts with `(` and is no label declaration.
    MalformedLabel,
    /// An address instruction has no symbol.
    MissingSymbol,
    /// An address instruction starts with a digit and is no number.
    InvalidNumber,
    /// A number or an address does not fit the fifteen bits of an address
    /// instruction.
    AddressOutOfRange,
    /// A symbol is neither declared nor the name of a variable.
    UndefinedSymbol,
    /// The destination of a compute instruction is no mnemonic.
    UnknownDest,
    /// The computation of a compute instruction is no mnemonic.
    UnknownComp,
    /// The jump of a compute instruction is no mnemonic.
    UnknownJump,
}

/// One instruction, as the text of its fields.
pub enum InstructionView {
    A { symbol: Seq<char> },
    C { dest: Seq<char>, comp: Seq<char>, jump: Seq<char> },
    L { symbol: Seq<char> },
}

/// The error of `regex::Regex::new`, which verified code hands on without
/// looking into it.
#[verifier::external_type_specification]
#[verifier::external_body]
pub struct ExRegexError(regex::Error);

/// Whether `regex::Regex::new` accepts `pattern` as a regular expression.
pub uninterp spec fn pattern_compiles(pattern: Seq<char>) -> bool;

/// What the group named `group` holds in the leftmost match of the regular
/// expression `pattern` in `text`, as `regex::Regex::captures` finds it:
/// `None` where the expression does not match, has no such group, or
/// matched without it.
pub uninterp spec fn captured_group(
    pattern: Seq<char>,
    group: Seq<char>,
    text: Seq<char>,
) -> Option<Seq<char>>;

/// Calls `regex::Regex::new` on `pattern`, then `Regex::captures` on
/// `text`, `Captures::name` on `group` and `Match::as_str`. The contract
/// claims that whether the pattern compiles is a function of the pattern
/// alone, named [`pattern_compiles`], and that, where it compiles, the
/// text handed back is a function of the three arguments alone, named
/// [`captured_group`]. It claims nothing of which patterns compile, nor
/// of what a pattern matches.
#[verifier::external_body]
fn capture_group(pattern: &str, group: &str, text: &str) -> (found: Result<
    Option<String>,
    regex::Error,
>)
    ensures
        found is Ok <==> pattern_compiles(pattern@),
        found matches Ok(Some(s)) ==> captured_group(pattern@, group@, text@) == Some(s@),
        found matches Ok(None) ==> captured_group(pattern@, group@, text@) is None,
{
    let re = regex::Regex::new(pattern)?;
    Ok(re.captures(text).and_then(|c| c.name(group)).map(|m| m.as_str().to_string()))
}

/// The pattern of a label declaration: `(`, a symbol without separators
/// or brackets, which is the group `target`, and `)`, and nothing else.
pub open spec fn label_pattern() -> Seq<char> {
    "^\\((?P<target>[^\\s()]+)\\)$"@
}

/// The symbol that the label declaration `code` declares, if it is one.
pub open spec fn declared_symbol(code: Seq<char>) -> Option<Seq<char>> {
    captured_group(label_pattern(), "target"@, code)
}

/// The symbol of a label declaration, from what the search for the pattern
/// found: the symbol where it matched, and an error where it did not or
/// where the pattern could not be prepared.
pub fn symbol_from_capture(found: Result<Option<String>, regex::Error>) -> (r: Result<
    String,
    AsmError,
>)
    ensures
        match found {
            Ok(Some(symbol)) => r is Ok && r->Ok_0@ == symbol@,
            Ok(None) => r == Err::<String, AsmError>(AsmError::MalformedLabel),
            Err(_) => r == Err::<String, AsmError>(AsmError::Pattern),
        },
{
    match found {
        Ok(Some(symbol)) => Ok(symbol),
        Ok(None) => Err(AsmError::MalformedLabel),
        Err(_) => Err(AsmError::Pattern),
    }
}

/// The code of a line: the line without its comment and without the
/// separators at its ends.
pub open spec fn code_of(line: Seq<char>) -> Seq<char> {
    trim(strip_comment(line))
}

/// The destination of the compute instruction `code`: what stands before
/// its first `=`, and `null` where it has none.
pub open spec fn dest_of(code: Seq<char>) -> Seq<char> {
    if index_of(code, '=') < code.len() {
        trim(code.take(index_of(code, '=')))
    } else {
        "null"@
    }
}

/// The compute instruction `code` after its destination.
pub open spec fn after_dest(code: Seq<char>) -> Seq<char> {
    if index_of(code, '=') < code.len() {
        code.skip(index_of(code, '=') + 1)
    } else {
        code
    }
}

/// The computation of the compute instruction `code`: what stands between
/// its destination and its first `;`.
pub open spec fn comp_of(code: Seq<char>) -> Seq<char> {
    let rest = after_dest(code);
    trim(rest.take(index_of(rest, ';')))
}

/// The jump of the compute instruction `code`: what stands after the first
/// `;` that follows the destination, and `null` where there is none.
pub open spec fn jump_of(code: Seq<char>) -> Seq<char> {
    let rest = after_dest(code);
    if index_of(rest, ';') < rest.len() {
        trim(rest.skip(index_of(rest, ';') + 1))
    } else {
        "null"@
    }
}

/// The instruction that the code `code` writes, which is not empty.
pub open spec fn instruction_of(code: Seq<char>) -> Result<InstructionView, AsmError> {
    if code.len() > 0 && code[0] == '(' {
        if !pattern_compiles(label_pattern()) {
            Err(AsmError::Pattern)
        } else {
            match declared_symbol(code) {
                Some(symbol) => Ok(InstructionView::L { symbol }),
                None => Err(AsmError::MalformedLabel),
            }
        }
    } else if code.len() > 0 && code[0] == '@' {
        Ok(InstructionView::A { symbol: code.skip(1) })
    } else {
        Ok(InstructionView::C { dest: dest_of(code), comp: comp_of(code), jump: jump_of(code) })
    }
}

/// The index of the first line at or after `from` whose code is not empty;
/// the number of lines where there is none.
pub open spec fn next_code_at(codes: Seq<Seq<char>>, from: int) -> int
    decreases codes.len() - from,
{
    if from < 0 || from >= codes.len() {
        codes.len() as int
    } else if code_of(codes[from]).len() == 0 {
        next_code_at(codes, from + 1)
    } else {
        from
    }
}

/// The next line with code is not before `from`, nor after the last line.
pub proof fn lemma_next_code_at_bounds(codes: Seq<Seq<char>>, from: int)
    requires
        0 <= from <= codes.len(),
    ensures
        from <= next_code_at(codes, from) <= codes.len(),
        next_code_at(codes, from) < codes.len() ==> code_of(
            codes[next_code_at(codes, from)],
        ).len() > 0,
    decreases codes.len() - from,
{
    if from < codes.len() && code_of(codes[from]).len() == 0 {
        lemma_next_code_at_bounds(codes, from + 1);
    }
}

/// A reader of the instructions of an assembly program. It holds the
/// lines of the program, the number of lines passed, and the fields of the
/// instruction read last.
#[derive(Debug, Clone)]
pub struct Parser {
    pub codes: Vec<String>,
    pub lineno: usize,
    pub dest: String,
    pub comp: String,
    pub jump: String,
    pub symbol: String,
    pub instruction_type: InstructionType,
}

fn code_text(line: &str) -> (code: String)
    ensures
        code@ == code_of(line@),
{
    let chars = chars_of(line);
    let end: usize = find_comment(&chars);
    proof {
        lemma_comment_start_bounds(line@);
    }
    trimmed(line.substring_char(0, end))
}

fn piece(code: &str, from: usize, to: usize) -> (t: String)
    requires
        from <= to <= code@.len(),
    ensures
        t@ == trim(code@.subrange(from as int, to as int)),
{
    trimmed(code.substring_char(from, to))
}

impl Parser {
    /// The lines of the program.
    pub open spec fn source(&self) -> Seq<Seq<char>> {
        strings_view(self.codes@)
    }

    /// Whether the reader holds the instruction `instruction`. The fields
    /// that the kind of the instruction does not use are those of `before`.
    pub open spec fn holds(&self, instruction: InstructionView, before: &Parser) -> bool {
        match instruction {
            InstructionView::A { symbol } => {
                &&& self.instruction_type == InstructionType::A_INSTRUCTION
                &&& self.symbol@ == symbol
                &&& self.dest@ == before.dest@
                &&& self.comp@ == before.comp@
                &&& self.jump@ == before.jump@
            },
            InstructionView::L { symbol } => {
                &&& self.instruction_type == InstructionType::L_INSTRUCTION
                &&& self.symbol@ == symbol
                &&& self.dest@ == before.dest@
                &&& self.comp@ == before.comp@
                &&& self.jump@ == before.jump@
            },
            InstructionView::C { dest, comp, jump } => {
                &&& self.instruction_type == InstructionType::C_INSTRUCTION
                &&& self.symbol@ == before.symbol@
                &&& self.dest@ == dest
                &&& self.comp@ == comp
                &&& self.jump@ == jump
            },
        }
    }

    /// Whether the fields of the instruction read last are those of
    /// `before`.
    pub open spec fn same_fields(&self, before: &Parser) -> bool {
        &&& self.instruction_type == before.instruction_type
        &&& self.symbol@ == before.symbol@
        &&& self.dest@ == before.dest@
        &&& self.comp@ == before.comp@
        &&& self.jump@ == before.jump@
    }

    /// A reader at the start of the program `contents`, whose lines end at
    /// each line break.
    pub fn new(contents: &str) -> (parser: Self)
        ensures
            parser.source() == split_on(contents@, '\n'),
            parser.lineno == 0,
            parser.instruction_type == InstructionType::A_INSTRUCTION,
            parser.symbol@.len() == 0,
            parser.dest@.len() == 0,
            parser.comp@.len() == 0,
            parser.jump@.len() == 0,
    {
        Parser::from_lines(split(contents, '\n'))
    }

    /// A reader at the start of the program with the lines `codes`.
    pub fn from_lines(codes: Vec<String>) -> (parser: Self)
        ensures
            parser.source() == strings_view(codes@),
            parser.lineno == 0,
            parser.instruction_type == InstructionType::A_INSTRUCTION,
            parser.symbol@.len() == 0,
            parser.dest@.len() == 0,
            parser.comp@.len() == 0,
            parser.jump@.len() == 0,
    {
        Parser {
            codes,
            lineno: 0,
            dest: String::new(),
            comp: String::new(),
            jump: String::new(),
            symbol: String::new(),
            instruction_type: InstructionType::A_INSTRUCTION,
        }
    }

    /// Whether the reader has lines left to pass.
    pub fn has_more_lines(&self) -> (more: bool)
        ensures
            more == (self.lineno < self.codes@.len()),
    {
        self.lineno < self.codes.len()
    }

    fn is_valid(&self) -> (valid: bool)
        requires
            self.lineno < self.codes@.len(),
        ensures
            valid == (code_of(self.source()[self.lineno as int]).len() > 0),
    {
        let code = code_text(self.codes[self.lineno].as_str());
        code.as_str().unicode_len() > 0
    }

    /// Passes lines without code, then reads the next line as the current
    /// instruction. `Ok(true)`: an instruction was read and the reader is
    /// past its line. `Ok(false)`: the program has no further instruction
    /// and the reader is at its end. `Err`: the next line with code is no
    /// instruction; the reader stays at that line.
    pub fn advance(&mut self) -> (r: Result<bool, AsmError>)
        ensures
            final(self).source() == old(self).source(),
            ({
                let codes = old(self).source();
                let k = next_code_at(codes, old(self).lineno as int);
                if k >= codes.len() {
                    &&& r == Ok::<bool, AsmError>(false)
                    &&& final(self).lineno == (if old(self).lineno <= codes.len() {
                        codes.len()
                    } else {
                        old(self).lineno as nat
                    })
                    &&& final(self).same_fields(old(self))
                } else {
                    match instruction_of(code_of(codes[k])) {
                        Ok(instruction) => {
                            &&& r == Ok::<bool, AsmError>(true)
                            &&& final(self).lineno == k + 1
                            &&& final(self).holds(instruction, old(self))
                        },
                        Err(e) => {
                            &&& r == Err::<bool, AsmError>(e)
                            &&& final(self).lineno == k
                            &&& final(self).same_fields(old(self))
                        },
                    }
                }
            }),
    {
        while self.lineno < self.codes.len() && !self.is_valid()
            invariant
                self.codes == old(self).codes,
                self.same_fields(old(self)),
                self.dest == old(self).dest,
                self.comp == old(self).comp,
                self.jump == old(self).jump,
                self.symbol == old(self).symbol,
                old(self).lineno <= self.lineno,
                self.lineno <= self.codes@.len() || self.lineno == old(self).lineno,
                next_code_at(self.source(), self.lineno as int) == next_code_at(
                    old(self).source(),
                    old(self).lineno as int,
                ),
            decreases self.codes@.len() - self.lineno,
        {
            self.lineno += 1;
        }
        if self.lineno >= self.codes.len() {
            return Ok(false);
        }
        let code = code_text(self.codes[self.lineno].as_str());
        let chars = chars_of(code.as_str());
        if chars[0] == '(' {
            let found = capture_group("^\\((?P<target>[^\\s()]+)\\)$", "target", code.as_str());
            match symbol_from_capture(found) {
                Ok(symbol) => {
                    self.instruction_type = InstructionType::L_INSTRUCTION;
                    self.symbol = symbol;
                },
                Err(e) => {
                    return Err(e);
                },
            }
        } else if chars[0] == '@' {
            self.instruction_type = InstructionType::A_INSTRUCTION;
            self.symbol = String::from_str(code.as_str().substring_char(1, chars.len()));
            assert(code@.skip(1) =~= code@.subrange(1, code@.len() as int));
        } else {
            let n: usize = chars.len();
            let eq: usize = find_char(&chars, '=');
            let start: usize = if eq < n {
                eq + 1
            } else {
                0
            };
            let rest = code.as_str().substring_char(start, n);
            let rest_chars = chars_of(rest);
            let semi: usize = find_char(&rest_chars, ';');
            proof {
                assert(after_dest(code@) =~= code@.subrange(start as int, n as int));
                assert(code@.take(eq as int) =~= code@.subrange(0, eq as int));
                assert(rest@.take(semi as int) =~= rest@.subrange(0, semi as int));
                if semi < rest@.len() {
                    assert(rest@.skip(semi + 1) =~= rest@.subrange(
                        semi + 1,
                        rest@.len() as int,
                    ));
                }
            }
            self.instruction_type = InstructionType::C_INSTRUCTION;
            self.dest = if eq < n {
                piece(code.as_str(), 0, eq)
            } else {
                String::from_str("null")
            };
            self.comp = piece(rest, 0, semi);
            self.jump = if semi < rest_chars.len() {
                piece(rest, semi + 1, rest_chars.len())
            } else {
                String::from_str("null")
            };
        }
        self.lineno += 1;
        Ok(true)
    }

    /// The symbol of the address instruction or label declaration read last.
    pub fn get_symbol(&self) -> (symbol: String)
        ensures
            symbol@ == self.symbol@,
    {
        self.symbol.clone()
    }

    /// The destination of the current instruction, a compute instruction.
    pub fn get_dest(&self) -> (dest: String)
        requires
            self.instruction_type == InstructionType::C_INSTRUCTION,
        ensures
            dest@ == self.dest@,
    {
        self.dest.clone()
    }

    /// The computation of the current instruction, a compute instruction.
    pub fn get_comp(&self) -> (comp: String)
        requires
            self.instruction_type == InstructionType::C_INSTRUCTION,
        ensures
            comp@ == self.comp@,
    {
        self.comp.clone()
    }

    /// The jump of the current instruction, a compute instruction.
    pub fn get_jump(&self) -> (jump: String)
        requires
            self.instruction_type == InstructionType::C_INSTRUCTION,
        ensures
            jump@ == self.jump@,
    {
        self.jump.clone()
    }

    /// The kind of the current instruction.
    pub fn get_instruction_type(&self) -> (kind: InstructionType)
        ensures
            kind == self.instruction_type,
    {
        self.instruction_type
    }
}

} // verus!
