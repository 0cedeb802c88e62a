//! The command parser: from one source line to a command.

use vstd::prelude::*;
use vstd::string::*;
use crate::text::{
    machine_number, parse_number, same_text, strings_view, strip_comment, tokenize, tokens, trim,
    trimmed,
};
use crate::vm::command::{
    arithmetic_named, parse_arithmetic, parse_segment, segment_named, Command, CommandType,
    CommandView,
};

verus! {

/// Why a line is no command.
#[derive(Clone, Copy, Debug, PartialEq, Eq, Structural)]
pub enum ParseError {
    /// The first word is no command of the language.
    UnknownCommand,
    /// The command has too few or too many arguments.
    Arity,
    /// The first argument of a push or pop names no segment.
    UnknownSegment,
    /// A numeric argument is no decimal numeral, or does not fit.
    InvalidIndex,
}

/// The command with a segment and an index that `words` write, `push`
/// where `is_push` holds and `pop` where not.
pub open spec fn parse_push_pop(words: Seq<Seq<char>>, is_push: bool) -> Result<
    Option<CommandView>,
    ParseError,
> {
    if words.len() != 3 {
        Err(ParseError::Arity)
    } else {
        match segment_named(words[1]) {
            None => Err(ParseError::UnknownSegment),
            Some(segment) => match machine_number(words[2]) {
                None => Err(ParseError::InvalidIndex),
                Some(index) => Ok(
                    Some(
                        if is_push {
                            CommandView::Push { segment, index: index as nat }
                        } else {
                            CommandView::Pop { segment, index: index as nat }
                        },
                    ),
                ),
            },
        }
    }
}

/// The command with a name and a count that `words` write, `function`
/// where `is_function` holds and `call` where not.
pub open spec fn parse_function_call(words: Seq<Seq<char>>, is_function: bool) -> Result<
    Option<CommandView>,
    ParseError,
> {
    if words.len() != 3 {
        Err(ParseError::Arity)
    } else {
        match machine_number(words[2]) {
            None => Err(ParseError::InvalidIndex),
            Some(count) => Ok(
                Some(
                    if is_function {
                        CommandView::Function { name: words[1], n_locals: count as nat }
                    } else {
                        CommandView::Call { name: words[1], n_args: count as nat }
                    },
                ),
            ),
        }
    }
}

/// The command that the words of a line write: none where there is no word,
/// and an error where the words are no command.
pub open spec fn parse_words(words: Seq<Seq<char>>) -> Result<Option<CommandView>, ParseError> {
    if words.len() == 0 {
        Ok(None)
    } else if words[0] == "push"@ {
        parse_push_pop(words, true)
    } else if words[0] == "pop"@ {
        parse_push_pop(words, false)
    } else if arithmetic_named(words[0]) is Some {
        if words.len() != 1 {
            Err(ParseError::Arity)
        } else {
            Ok(Some(CommandView::Arithmetic { op: arithmetic_named(words[0])->0 }))
        }
    } else if words[0] == "label"@ {
        if words.len() != 2 {
            Err(ParseError::Arity)
        } else {
            Ok(Some(CommandView::Label { name: words[1] }))
        }
    } else if words[0] == "goto"@ {
        if words.len() != 2 {
            Err(ParseError::Arity)
        } else {
            Ok(Some(CommandView::Goto { name: words[1] }))
        }
    } else if words[0] == "if-goto"@ {
        if words.len() != 2 {
            Err(ParseError::Arity)
        } else {
            Ok(Some(CommandView::IfGoto { name: words[1] }))
        }
    } else if words[0] == "function"@ {
        parse_function_call(words, true)
    } else if words[0] == "call"@ {
        parse_function_call(words, false)
    } else if words[0] == "return"@ {
        if words.len() != 1 {
            Err(ParseError::Arity)
        } else {
            Ok(Some(CommandView::Return))
        }
    } else {
        Err(ParseError::UnknownCommand)
    }
}

/// The command that a source line writes. The comment of the line, from
/// `//` on, is no part of it; a line without words writes no command.
pub open spec fn parse(line: Seq<char>) -> Result<Option<CommandView>, ParseError> {
    parse_words(tokens(strip_comment(line)))
}

/// The mathematical value of what [`parse_line`] returns.
pub open spec fn parsed_view(r: Result<Option<Command>, ParseError>) -> Result<
    Option<CommandView>,
    ParseError,
> {
    match r {
        Ok(Some(command)) => Ok(Some(command@)),
        Ok(None) => Ok(None),
        Err(e) => Err(e),
    }
}

fn read_push_pop(words: &Vec<String>, is_push: bool) -> (r: Result<Option<Command>, ParseError>)
    requires
        words@.len() > 0,
    ensures
        parsed_view(r) == parse_push_pop(strings_view(words@), is_push),
{
    if words.len() != 3 {
        return Err(ParseError::Arity);
    }
    let segment = match parse_segment(words[1].as_str()) {
        Some(segment) => segment,
        None => {
            return Err(ParseError::UnknownSegment);
        },
    };
    let index = match parse_number(words[2].as_str()) {
        Some(index) => index,
        None => {
            return Err(ParseError::InvalidIndex);
        },
    };
    if is_push {
        Ok(Some(Command::Push { segment, index }))
    } else {
        Ok(Some(Command::Pop { segment, index }))
    }
}

fn read_function_call(words: &Vec<String>, is_function: bool) -> (r: Result<
    Option<Command>,
    ParseError,
>)
    requires
        words@.len() > 0,
    ensures
        parsed_view(r) == parse_function_call(strings_view(words@), is_function),
{
    if words.len() != 3 {
        return Err(ParseError::Arity);
    }
    let count = match parse_number(words[2].as_str()) {
        Some(count) => count,
        None => {
            return Err(ParseError::InvalidIndex);
        },
    };
    let name = words[1].clone();
    if is_function {
        Ok(Some(Command::Function { name, n_locals: count }))
    } else {
        Ok(Some(Command::Call { name, n_args: count }))
    }
}

/// Reads the words of a line as a command.
pub fn classify(words: &Vec<String>) -> (r: Result<Option<Command>, ParseError>)
    ensures
        parsed_view(r) == parse_words(strings_view(words@)),
{
    if words.len() == 0 {
        return Ok(None);
    }
    let head = words[0].as_str();
    if same_text(head, "push") {
        return read_push_pop(words, true);
    }
    if same_text(head, "pop") {
        return read_push_pop(words, false);
    }
    match parse_arithmetic(head) {
        Some(op) => {
            if words.len() != 1 {
                return Err(ParseError::Arity);
            }
            return Ok(Some(Command::Arithmetic { op }));
        },
        None => {},
    }
    if same_text(head, "label") {
        if words.len() != 2 {
            return Err(ParseError::Arity);
        }
        return Ok(Some(Command::Label { name: words[1].clone() }));
    }
    if same_text(head, "goto") {
        if words.len() != 2 {
            return Err(ParseError::Arity);
        }
        return Ok(Some(Command::Goto { name: words[1].clone() }));
    }
    if same_text(head, "if-goto") {
        if words.len() != 2 {
            return Err(ParseError::Arity);
        }
        return Ok(Some(Command::IfGoto { name: words[1].clone() }));
    }
    if same_text(head, "function") {
        return read_function_call(words, true);
    }
    if same_text(head, "call") {
        return read_function_call(words, false);
    }
    if same_text(head, "return") {
        if words.len() != 1 {
            return Err(ParseError::Arity);
        }
        return Ok(Some(Command::Return));
    }
    Err(ParseError::UnknownCommand)
}

/// Reads one source line: a command, or none where the line is empty or
/// only a comment, or the reason why the line is no command.
pub fn parse_line(line: &str) -> (r: Result<Option<Command>, ParseError>)
    ensures
        parsed_view(r) == parse(line@),
{
    let words = tokenize(line);
    classify(&words)
}

/// The index of the first line at or after `from` that writes a command or
/// is in error; the number of lines where there is none.
pub open spec fn next_command_at(source: Seq<Seq<char>>, from: int) -> int
    decreases source.len() - from,
{
    if from < 0 || from >= source.len() {
        source.len() as int
    } else if parse(source[from]) == Ok::<Option<CommandView>, ParseError>(None) {
        next_command_at(source, from + 1)
    } else {
        from
    }
}

/// The next command or error is not before `from`, nor after the last line.
pub proof fn lemma_next_command_at_bounds(source: Seq<Seq<char>>, from: int)
    requires
        0 <= from <= source.len(),
    ensures
        from <= next_command_at(source, from) <= source.len(),
    decreases source.len() - from,
{
    if from < source.len() && parse(source[from]) == Ok::<Option<CommandView>, ParseError>(None) {
        lemma_next_command_at_bounds(source, from + 1);
    }
}

/// A reader of the commands of one source unit, line by line.
pub struct Parser<'a> {
    lines: &'a Vec<String>,
    cursor: usize,
    current: Option<Command>,
}

impl<'a> Parser<'a> {
    /// The lines of the unit.
    pub closed spec fn source(&self) -> Seq<Seq<char>> {
        strings_view(self.lines@)
    }

    /// The number of lines that the reader has passed.
    pub closed spec fn position(&self) -> nat {
        self.cursor as nat
    }

    /// The command that the reader holds, if it holds one.
    pub closed spec fn current(&self) -> Option<CommandView> {
        match self.current {
            Some(command) => Some(command@),
            None => None,
        }
    }

    /// The reader has not passed more lines than the unit has.
    pub closed spec fn wf(&self) -> bool {
        self.cursor <= self.lines@.len()
    }

    /// A reader at the start of `lines`, holding no command.
    pub fn new(lines: &'a Vec<String>) -> (parser: Self)
        ensures
            parser.wf(),
            parser.source() == strings_view(lines@),
            parser.position() == 0,
            parser.current() is None,
    {
        Parser { lines, cursor: 0, current: None }
    }

    /// Whether the reader has lines left to pass.
    pub fn has_more_lines(&self) -> (more: bool)
        ensures
            more == (self.position() < self.source().len()),
    {
        self.cursor < self.lines.len()
    }

    /// Passes empty lines and comments, then reads the next line as the
    /// current command. `Ok(true)`: a command was read and the reader is
    /// past its line. `Ok(false)`: the unit has no further command; the
    /// reader is at its end and holds none. `Err`: the next line that is
    /// neither empty nor a comment is no command; the reader stays at that
    /// line and holds none.
    pub fn advance(&mut self) -> (r: Result<bool, ParseError>)
        requires
            old(self).wf(),
        ensures
            final(self).wf(),
            final(self).source() == old(self).source(),
            ({
                let source = old(self).source();
                let k = next_command_at(source, old(self).position() as int);
                if k >= source.len() {
                    &&& r == Ok::<bool, ParseError>(false)
                    &&& final(self).position() == source.len()
                    &&& final(self).current() is None
                } else {
                    match parse(source[k]) {
                        Ok(found) => {
                            &&& r == Ok::<bool, ParseError>(true)
                            &&& final(self).position() == k + 1
                            &&& final(self).current() == found
                            &&& found is Some
                        },
                        Err(e) => {
                            &&& r == Err::<bool, ParseError>(e)
                            &&& final(self).position() == k
                            &&& final(self).current() is None
                        },
                    }
                }
            }),
    {
        self.current = None;
        while self.cursor < self.lines.len()
            invariant
                self.wf(),
                self.lines == old(self).lines,
                self.current is None,
                old(self).cursor <= self.cursor,
                next_command_at(self.source(), self.cursor as int) == next_command_at(
                    old(self).source(),
                    old(self).cursor as int,
                ),
            decreases self.lines@.len() - self.cursor,
        {
            match parse_line(self.lines[self.cursor].as_str()) {
                Ok(Some(command)) => {
                    self.current = Some(command);
                    self.cursor += 1;
                    return Ok(true);
                },
                Ok(None) => {
                    self.cursor += 1;
                },
                Err(e) => {
                    return Err(e);
                },
            }
        }
        Ok(false)
    }

    /// Reads the next command as [`Parser::advance`] does, and returns the
    /// text of its line without the separators at its ends; the empty text
    /// where the unit has no further command.
    pub fn next_line(&mut self) -> (r: Result<String, ParseError>)
        requires
            old(self).wf(),
        ensures
            final(self).wf(),
            final(self).source() == old(self).source(),
            ({
                let source = old(self).source();
                let k = next_command_at(source, old(self).position() as int);
                if k >= source.len() {
                    &&& r is Ok
                    &&& r->Ok_0@ == Seq::<char>::empty()
                    &&& final(self).position() == source.len()
                    &&& final(self).current() is None
                } else {
                    match parse(source[k]) {
                        Ok(found) => {
                            &&& r is Ok
                            &&& r->Ok_0@ == trim(source[k])
                            &&& final(self).position() == k + 1
                            &&& final(self).current() == found
                            &&& found is Some
                        },
                        Err(e) => {
                            &&& r == Err::<String, ParseError>(e)
                            &&& final(self).position() == k
                            &&& final(self).current() is None
                        },
                    }
                }
            }),
    {
        proof {
            lemma_next_command_at_bounds(self.source(), self.cursor as int);
        }
        match self.advance() {
            Ok(true) => Ok(trimmed(self.lines[self.cursor - 1].as_str())),
            Ok(false) => Ok(String::new()),
            Err(e) => Err(e),
        }
    }

    /// The command that the reader holds.
    pub fn command(&self) -> (command: &Option<Command>)
        ensures
            parsed_view(Ok(*command)) == Ok::<Option<CommandView>, ParseError>(self.current()),
    {
        &self.current
    }

    /// The kind of the current command; `C_INIT` where the reader holds none.
    pub fn command_type(&self) -> (kind: CommandType)
        ensures
            kind == (match self.current() {
                Some(command) => command.kind(),
                None => CommandType::C_INIT,
            }),
    {
        match &self.current {
            Some(command) => command.command_type(),
            None => CommandType::C_INIT,
        }
    }

    /// The first argument of the current command; the empty text where the
    /// reader holds none.
    pub fn arg1(&self) -> (arg: String)
        ensures
            arg@ == (match self.current() {
                Some(command) => command.arg1(),
                None => Seq::empty(),
            }),
    {
        match &self.current {
            Some(command) => command.arg1(),
            None => String::new(),
        }
    }

    /// The second argument of the current command, if it has one.
    pub fn arg2(&self) -> (arg: Option<usize>)
        ensures
            match arg {
                Some(n) => self.current() is Some && self.current()->0.arg2() == Some(n as nat),
                None => self.current() is None || self.current()->0.arg2() is None,
            },
    {
        match &self.current {
            Some(command) => command.arg2(),
            None => None,
        }
    }

    /// The number of lines that the reader has passed.
    pub fn line_number(&self) -> (n: usize)
        ensures
            n == self.position(),
    {
        self.cursor
    }
}

} // verus!
