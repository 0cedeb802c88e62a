//! The translation driver: lowers the commands of every unit, unit by
//! unit and line by line, into one output.

use vstd::prelude::*;
use vstd::string::*;
use crate::assembly::{lines_view, Line, LineView};
use crate::text::{base_name, strings_view};
use crate::vm::code_writer::{command_note, CodeWriter};
use crate::vm::command::CommandView;
use crate::vm::emission::{command_lines, labels_taken};
use crate::vm::parser::{lemma_next_command_at_bounds, next_command_at, parse, ParseError, Parser};
use crate::vm::resolver::ResolverError;

verus! {

/// One input of a translation run: the lines of a source file and the path
/// of the file, whose base name tags the function labels of the unit.
#[derive(Debug)]
pub struct SourceUnit {
    pub name: String,
    pub lines: Vec<String>,
}

/// The mathematical value of a [`SourceUnit`].
pub struct SourceUnitView {
    pub name: Seq<char>,
    pub lines: Seq<Seq<char>>,
}

impl View for SourceUnit {
    type V = SourceUnitView;

    open spec fn view(&self) -> SourceUnitView {
        SourceUnitView { name: self.name@, lines: strings_view(self.lines@) }
    }
}

/// The values of a sequence of units, one for one.
pub open spec fn units_view(units: Seq<SourceUnit>) -> Seq<SourceUnitView> {
    units.map_values(|u: SourceUnit| u@)
}

/// What is wrong with a line.
#[derive(Clone, Copy, Debug, PartialEq, Eq, Structural)]
pub enum ErrorCause {
    /// The line is no command.
    Parse(ParseError),
    /// The command of the line cannot be lowered.
    Resolve(ResolverError),
}

/// The first error of a translation run, with its place.
#[derive(Clone, Copy, Debug, PartialEq, Eq, Structural)]
pub struct TranslateError {
    /// The index of the unit among the units of the run, from zero.
    pub unit: usize,
    /// The number of the line among the lines of the unit, from one.
    pub line: usize,
    pub cause: ErrorCause,
}

/// The output for the lines of a unit from the line with index `from` on,
/// with `counter` internal labels issued before, together with the number
/// of labels issued after; or the number of the first line in error, from
/// one, with the cause. Each command gives a comment that records it,
/// then its lines.
pub open spec fn unit_translation(
    lines: Seq<Seq<char>>,
    from: int,
    tag: Seq<char>,
    counter: nat,
) -> Result<(Seq<LineView>, nat), (int, ErrorCause)>
    decreases lines.len() - from,
{
    if from < 0 || from >= lines.len() {
        Ok((Seq::empty(), counter))
    } else {
        match parse(lines[from]) {
            Err(e) => Err((from + 1, ErrorCause::Parse(e))),
            Ok(None) => unit_translation(lines, from + 1, tag, counter),
            Ok(Some(command)) => match command_lines(command, tag, counter) {
                Err(e) => Err((from + 1, ErrorCause::Resolve(e))),
                Ok(lowered) => match unit_translation(
                    lines,
                    from + 1,
                    tag,
                    counter + labels_taken(command),
                ) {
                    Err(e) => Err(e),
                    Ok((rest, last)) => Ok(
                        (seq![LineView::Comment(command_note(command))] + lowered + rest, last),
                    ),
                },
            },
        }
    }
}

/// The output for the units from the unit with index `from` on, with
/// `counter` internal labels issued before; or the first error.
pub open spec fn units_translation(units: Seq<SourceUnitView>, from: int, counter: nat) -> Result<
    Seq<LineView>,
    TranslateError,
>
    decreases units.len() - from,
{
    if from < 0 || from >= units.len() {
        Ok(Seq::empty())
    } else {
        match unit_translation(units[from].lines, 0, base_name(units[from].name), counter) {
            Err((line, cause)) => Err(
                TranslateError { unit: from as usize, line: line as usize, cause },
            ),
            Ok((lines, last)) => match units_translation(units, from + 1, last) {
                Err(e) => Err(e),
                Ok(rest) => Ok(lines + rest),
            },
        }
    }
}

/// The output of a translation run over `units`: the units in the order
/// given, the lines of each unit in their order, one label counter for the
/// whole run; or the first error, where there is one.
pub open spec fn translation(units: Seq<SourceUnitView>) -> Result<Seq<LineView>, TranslateError> {
    units_translation(units, 0, 0)
}

/// What is left to translate, added to what is written: the state of a run
/// that stands before line `line` of unit `unit`.
pub open spec fn pending(
    units: Seq<SourceUnitView>,
    unit: int,
    line: int,
    written: Seq<LineView>,
    counter: nat,
) -> Result<Seq<LineView>, TranslateError> {
    match unit_translation(units[unit].lines, line, base_name(units[unit].name), counter) {
        Err((number, cause)) => Err(
            TranslateError { unit: unit as usize, line: number as usize, cause },
        ),
        Ok((lines, last)) => match units_translation(units, unit + 1, last) {
            Err(e) => Err(e),
            Ok(rest) => Ok(written + lines + rest),
        },
    }
}

/// What is left with the units from `unit` on, added to what is written.
pub open spec fn pending_units(
    units: Seq<SourceUnitView>,
    unit: int,
    written: Seq<LineView>,
    counter: nat,
) -> Result<Seq<LineView>, TranslateError> {
    match units_translation(units, unit, counter) {
        Err(e) => Err(e),
        Ok(rest) => Ok(written + rest),
    }
}

proof fn lemma_pending_first_line(
    units: Seq<SourceUnitView>,
    unit: int,
    written: Seq<LineView>,
    counter: nat,
)
    requires
        0 <= unit < units.len(),
    ensures
        pending_units(units, unit, written, counter) == pending(units, unit, 0, written, counter),
{
    let tag = base_name(units[unit].name);
    match unit_translation(units[unit].lines, 0, tag, counter) {
        Ok((lines, last)) => match units_translation(units, unit + 1, last) {
            Ok(rest) => {
                assert(written + lines + rest =~= written + (lines + rest));
            },
            Err(_) => {},
        },
        Err(_) => {},
    }
}

proof fn lemma_pending_last_line(
    units: Seq<SourceUnitView>,
    unit: int,
    written: Seq<LineView>,
    counter: nat,
)
    requires
        0 <= unit < units.len(),
    ensures
        pending(units, unit, units[unit].lines.len() as int, written, counter) == pending_units(
            units,
            unit + 1,
            written,
            counter,
        ),
{
    match units_translation(units, unit + 1, counter) {
        Ok(rest) => {
            assert(written + Seq::<LineView>::empty() + rest =~= written + rest);
        },
        Err(_) => {},
    }
}

proof fn lemma_pending_step(
    units: Seq<SourceUnitView>,
    unit: int,
    line: int,
    written: Seq<LineView>,
    counter: nat,
)
    requires
        0 <= unit < units.len(),
        0 <= line < units[unit].lines.len(),
    ensures
        pending(units, unit, line, written, counter) == (match parse(units[unit].lines[line]) {
            Err(e) => Err::<Seq<LineView>, TranslateError>(
                TranslateError {
                    unit: unit as usize,
                    line: (line + 1) as usize,
                    cause: ErrorCause::Parse(e),
                },
            ),
            Ok(None) => pending(units, unit, line + 1, written, counter),
            Ok(Some(command)) => match command_lines(
                command,
                base_name(units[unit].name),
                counter,
            ) {
                Err(e) => Err::<Seq<LineView>, TranslateError>(
                    TranslateError {
                        unit: unit as usize,
                        line: (line + 1) as usize,
                        cause: ErrorCause::Resolve(e),
                    },
                ),
                Ok(lowered) => pending(
                    units,
                    unit,
                    line + 1,
                    written + seq![LineView::Comment(command_note(command))] + lowered,
                    counter + labels_taken(command),
                ),
            },
        }),
{
    let tag = base_name(units[unit].name);
    let source = units[unit].lines;
    match parse(source[line]) {
        Ok(Some(command)) => match command_lines(command, tag, counter) {
            Ok(lowered) => {
                let note = seq![LineView::Comment(command_note(command))];
                match unit_translation(source, line + 1, tag, counter + labels_taken(command)) {
                    Ok((rest, last)) => match units_translation(units, unit + 1, last) {
                        Ok(more) => {
                            assert(written + (note + lowered + rest) + more =~= written + note
                                + lowered + rest + more);
                        },
                        Err(_) => {},
                    },
                    Err(_) => {},
                }
            },
            Err(_) => {},
        },
        _ => {},
    }
}

proof fn lemma_pending_skip(
    units: Seq<SourceUnitView>,
    unit: int,
    line: int,
    written: Seq<LineView>,
    counter: nat,
)
    requires
        0 <= unit < units.len(),
        0 <= line <= units[unit].lines.len(),
    ensures
        pending(units, unit, line, written, counter) == pending(
            units,
            unit,
            next_command_at(units[unit].lines, line),
            written,
            counter,
        ),
    decreases units[unit].lines.len() - line,
{
    let source = units[unit].lines;
    if line < source.len() && parse(source[line]) == Ok::<Option<CommandView>, ParseError>(None) {
        lemma_pending_skip(units, unit, line + 1, written, counter);
    }
}

/// Translates the units of a run into one sequence of assembly lines, or
/// stops at the first line in error.
pub fn translate(units: &Vec<SourceUnit>) -> (r: Result<Vec<Line>, TranslateError>)
    ensures
        match r {
            Ok(lines) => translation(units_view(units@)) == Ok::<Seq<LineView>, TranslateError>(
                lines_view(lines@),
            ),
            Err(e) => translation(units_view(units@)) == Err::<Seq<LineView>, TranslateError>(e),
        },
{
    let ghost all = units_view(units@);
    let ghost goal = translation(all);
    let mut writer = CodeWriter::new();
    let mut u: usize = 0;
    proof {
        match units_translation(all, 0, 0) {
            Ok(rest) => {
                assert(writer.output() + rest =~= rest);
            },
            Err(_) => {},
        }
    }
    while u < units.len()
        invariant
            u <= units@.len(),
            all == units_view(units@),
            goal == translation(all),
            writer.wf(),
            goal == pending_units(all, u as int, writer.output(), writer.issued()),
        decreases units@.len() - u,
    {
        let unit = &units[u];
        writer.set_base_name(unit.name.as_str());
        let mut parser = Parser::new(&unit.lines);
        let count: usize = unit.lines.len();
        let ghost source = all[u as int].lines;
        proof {
            lemma_pending_first_line(all, u as int, writer.output(), writer.issued());
        }
        while parser.has_more_lines()
            invariant
                u < units@.len(),
                all == units_view(units@),
                goal == translation(all),
                source == all[u as int].lines,
                source.len() == count,
                parser.wf(),
                parser.source() == source,
                parser.position() <= source.len(),
                writer.wf(),
                writer.tag() == base_name(all[u as int].name),
                goal == pending(
                    all,
                    u as int,
                    parser.position() as int,
                    writer.output(),
                    writer.issued(),
                ),
            decreases source.len() - parser.position(),
        {
            proof {
                let from = parser.position() as int;
                lemma_next_command_at_bounds(source, from);
                lemma_pending_skip(all, u as int, from, writer.output(), writer.issued());
                let k = next_command_at(source, from);
                if k < source.len() {
                    lemma_pending_step(all, u as int, k, writer.output(), writer.issued());
                }
            }
            match parser.advance() {
                Err(e) => {
                    return Err(
                        TranslateError {
                            unit: u,
                            line: parser.line_number() + 1,
                            cause: ErrorCause::Parse(e),
                        },
                    );
                },
                Ok(false) => {},
                Ok(true) => {
                    match parser.command() {
                        Some(command) => {
                            writer.write_comment(command);
                            match writer.write_code(command) {
                                Err(e) => {
                                    return Err(
                                        TranslateError {
                                            unit: u,
                                            line: parser.line_number(),
                                            cause: ErrorCause::Resolve(e),
                                        },
                                    );
                                },
                                Ok(()) => {},
                            }
                        },
                        None => {
                            assert(false);
                        },
                    }
                },
            }
        }
        proof {
            lemma_pending_last_line(all, u as int, writer.output(), writer.issued());
        }
        u += 1;
    }
    proof {
        assert(writer.output() + Seq::<LineView>::empty() =~= writer.output());
    }
    Ok(writer.into_lines())
}

} // verus!
