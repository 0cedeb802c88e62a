//! The two stages together: what the assembler makes of lines of assembly
//! such as the translator writes. The law of this module says that the
//! words that the assembler writes for the lines do to the computer what
//! the machine model says of the lines, and that the symbols of its table
//! are the addresses that the laws of the translator take as given.

use vstd::prelude::*;
use crate::assembler::decode::{
    dest_field, jump_field, law_address_word_loads, law_compute_word_computes,
    law_words_have_sixteen_bits, word_step,
};
use crate::assembler::parser::{
    code_of, declared_symbol, instruction_of, label_pattern, pattern_compiles, AsmError,
    InstructionView,
};
use crate::assembler::program::{
    address_word, assembled, compute_word, encoded, labelled, resolved, FIRST_VARIABLE,
};
use crate::assembler::round_trip::{
    is_plain, is_plain_char, law_comment_is_passed, law_compute_is_read_back,
    law_label_is_read_back, law_name_is_read_back, law_number_is_read_back,
};
use crate::assembler::symbol_table::predefined_symbols;
use crate::assembly::{Comp, Dest, LineView, OperandView, MAX_ADDRESS};
use crate::machine::{encodable, law_step_keeps_words, run, step, Instruction, Machine};
use crate::text::{decimal, is_digit, lemma_decimal_value};
use crate::vm::command::{ArithmeticOp, CommandView, Segment};
use crate::vm::emission::{
    address_lines, assign, at_symbol, branch_lines, combine_lines, command_lines, comment,
    comparison_jump, end_comment, frame_lines, function_label, goto_lines, label, label_lines,
    locals_lines, pop_lines, pop_operands_lines, pop_tail_lines, push_d_lines, push_lines,
    push_tail_lines, reposition_lines, restore_lines, return_jump_lines, save_lines, scratch_left,
    scratch_right, start_comment, unwind_lines, value_lines,
};
use crate::vm::labels::{branch_label, return_label};
use crate::vm::laws::as_addresses;
use crate::vm::resolver::{cell_plan_of, plan_of, AddressPlan};
use crate::vm::semantics::{lemma_loaded_add, lemma_loaded_unfold, loaded, resolves};

verus! {

/// The texts of lines, one for one: the program that the assembler reads.
pub open spec fn texts(lines: Seq<LineView>) -> Seq<Seq<char>> {
    lines.map_values(|line: LineView| line.text())
}

/// The number of instructions among `lines`.
pub open spec fn instruction_count(lines: Seq<LineView>) -> nat
    decreases lines.len(),
{
    if lines.len() == 0 {
        0
    } else {
        instruction_count(lines.drop_last()) + (if lines.last().is_instruction() {
            1nat
        } else {
            0nat
        })
    }
}

/// Whether the assembler can read the line. The name of a label and of an
/// address is made of plain characters, and the name of an address does
/// not start with a digit. The number of an address fits fifteen bits. The
/// search for the pattern of a label declaration finds the name of a
/// label in the text of its line.
pub open spec fn readable(line: LineView) -> bool {
    match line {
        LineView::Comment(_) => true,
        LineView::Label(name) => is_plain(name) && declared_symbol(line.text()) == Some(name),
        LineView::At(OperandView::Number(n)) => n <= MAX_ADDRESS,
        LineView::At(OperandView::Name(name)) => is_plain(name) && !is_digit(name[0]),
        LineView::Compute { .. } => true,
    }
}

/// Whether `lines` declare the label `name`.
pub open spec fn declares(lines: Seq<LineView>, name: Seq<char>) -> bool {
    exists|i: int| 0 <= i < lines.len() && #[trigger] lines[i] == LineView::Label(name)
}

/// Whether `lines` are a program that the assembler can assemble: it can
/// read every line, no label is declared twice, every name that an
/// address instruction loads is predefined or declared, and the
/// instructions have addresses of fifteen bits.
pub open spec fn assemblable(lines: Seq<LineView>) -> bool {
    &&& pattern_compiles(label_pattern())
    &&& forall|i: int| 0 <= i < lines.len() ==> readable(#[trigger] lines[i])
    &&& forall|i: int, j: int|
        0 <= i < j < lines.len() && (#[trigger] lines[i]) is Label && (#[trigger] lines[j]) is Label
            ==> lines[i] != lines[j]
    &&& forall|i: int|
        0 <= i < lines.len() ==> match #[trigger] lines[i] {
            LineView::At(OperandView::Name(name)) => predefined_symbols().contains_key(name)
                || declares(lines, name),
            _ => true,
        }
    &&& instruction_count(lines) <= MAX_ADDRESS
}

/// What the assembler reads in a line: nothing in a comment, and the
/// instruction of any other line.
pub open spec fn read(line: LineView) -> Option<InstructionView> {
    match line {
        LineView::Comment(_) => None,
        LineView::Label(name) => Some(InstructionView::L { symbol: name }),
        LineView::At(operand) => Some(InstructionView::A { symbol: operand.text() }),
        LineView::Compute { dest, comp, jump } => Some(
            InstructionView::C {
                dest: dest_field(dest),
                comp: comp.mnemonic(),
                jump: jump_field(jump),
            },
        ),
    }
}

/// The assembler reads in the text of a readable line what [`read`] says.
pub proof fn lemma_read_back(line: LineView)
    requires
        readable(line),
        pattern_compiles(label_pattern()),
    ensures
        match read(line) {
            None => code_of(line.text()).len() == 0,
            Some(instruction) => code_of(line.text()).len() > 0 && instruction_of(
                code_of(line.text()),
            ) == Ok::<InstructionView, AsmError>(instruction),
        },
{
    match line {
        LineView::Comment(text) => law_comment_is_passed(text),
        LineView::Label(name) => law_label_is_read_back(name),
        LineView::At(OperandView::Number(n)) => law_number_is_read_back(n, Map::empty(), 0),
        LineView::At(OperandView::Name(name)) => law_name_is_read_back(name),
        LineView::Compute { dest, comp, jump } => law_compute_is_read_back(dest, comp, jump),
    }
}

/// The instructions of lines are as many as [`instruction_count`] says,
/// whatever the symbols.
pub proof fn lemma_count_is_loaded_len(lines: Seq<LineView>, symbols: Map<Seq<char>, int>)
    ensures
        loaded(lines, symbols).len() == instruction_count(lines),
    decreases lines.len(),
{
    if lines.len() > 0 {
        lemma_count_is_loaded_len(lines.drop_last(), symbols);
    }
}

/// One more line is one more instruction, or none.
pub proof fn lemma_count_step(lines: Seq<LineView>, i: int)
    requires
        0 <= i < lines.len(),
    ensures
        instruction_count(lines.take(i + 1)) == instruction_count(lines.take(i)) + (if lines[i]
            .is_instruction() {
            1nat
        } else {
            0nat
        }),
{
    assert(lines.take(i + 1).drop_last() =~= lines.take(i));
    assert(lines.take(i + 1).last() == lines[i]);
}

/// The first lines of a program have no more instructions than the
/// program.
pub proof fn lemma_count_grows(lines: Seq<LineView>, i: int)
    requires
        0 <= i <= lines.len(),
    ensures
        instruction_count(lines.take(i)) <= instruction_count(lines),
    decreases lines.len() - i,
{
    if i < lines.len() {
        lemma_count_step(lines, i);
        lemma_count_grows(lines, i + 1);
    } else {
        assert(lines.take(i) =~= lines);
    }
}

/// Whether `lines` declare the label `name` at the line `from` or after
/// it.
pub open spec fn declares_from(lines: Seq<LineView>, from: int, name: Seq<char>) -> bool {
    exists|i: int| from <= i < lines.len() && #[trigger] lines[i] == LineView::Label(name)
}

/// A label is declared from a line on where the line declares it or a
/// later line does.
pub proof fn lemma_declares_from_step(lines: Seq<LineView>, from: int, name: Seq<char>)
    requires
        0 <= from < lines.len(),
    ensures
        declares_from(lines, from, name) == (lines[from] == LineView::Label(name)
            || declares_from(lines, from + 1, name)),
{
    if declares_from(lines, from, name) {
        let i = choose|i: int|
            from <= i < lines.len() && #[trigger] lines[i] == LineView::Label(name);
        if i != from {
            assert(from + 1 <= i < lines.len() && lines[i] == LineView::Label(name));
        }
    }
    if declares_from(lines, from + 1, name) {
        let i = choose|i: int|
            from + 1 <= i < lines.len() && #[trigger] lines[i] == LineView::Label(name);
        assert(from <= i < lines.len() && lines[i] == LineView::Label(name));
    }
    if lines[from] == LineView::Label(name) {
        assert(from <= from < lines.len() && lines[from] == LineView::Label(name));
    }
}

/// Whether `after` has every symbol that is not declared from the line
/// `from` on as `before` has it.
pub open spec fn keeps_others(
    lines: Seq<LineView>,
    from: int,
    after: Map<Seq<char>, usize>,
    before: Map<Seq<char>, usize>,
) -> bool {
    forall|name: Seq<char>|
        !declares_from(lines, from, name) ==> {
            &&& #[trigger] after.contains_key(name) == before.contains_key(name)
            &&& after[name] == before[name]
        }
}

/// The first pass over an assemblable program gives every label that is
/// declared from the line `from` on the number of instructions before its
/// declaration, and leaves every other symbol as the table had it.
pub proof fn lemma_first_pass(lines: Seq<LineView>, from: int, table: Map<Seq<char>, usize>)
    requires
        assemblable(lines),
        0 <= from <= lines.len(),
    ensures
        ({
            let r = labelled(texts(lines), from, instruction_count(lines.take(from)), table);
            &&& r is Ok
            &&& forall|i: int|
                from <= i < lines.len() && (#[trigger] lines[i]) is Label ==> {
                    &&& r->Ok_0.contains_key(lines[i]->Label_0)
                    &&& r->Ok_0[lines[i]->Label_0] == instruction_count(lines.take(i))
                }
            &&& keeps_others(lines, from, r->Ok_0, table)
        }),
    decreases lines.len() - from,
{
    let codes = texts(lines);
    let address = instruction_count(lines.take(from));
    if from < lines.len() {
        let line = lines[from];
        assert(codes[from] == line.text());
        lemma_read_back(line);
        lemma_count_step(lines, from);
        lemma_count_grows(lines, from);
        match line {
            LineView::Label(name) => {
                let next = table.insert(name, address as usize);
                lemma_first_pass(lines, from + 1, next);
                let after = labelled(codes, from + 1, address, next)->Ok_0;
                assert(!declares_from(lines, from + 1, name)) by {
                    if declares_from(lines, from + 1, name) {
                        let i = choose|i: int|
                            from + 1 <= i < lines.len() && #[trigger] lines[i]
                                == LineView::Label(name);
                        assert(lines[from] is Label && lines[i] is Label);
                    }
                }
                assert(after.contains_key(name) == next.contains_key(name));
                assert(keeps_others(lines, from, after, table)) by {
                    if !keeps_others(lines, from, after, table) {
                        let other = choose|other: Seq<char>|
                            !declares_from(lines, from, other) && !(after.contains_key(other)
                                == table.contains_key(other) && after[other] == table[other]);
                        lemma_declares_from_step(lines, from, other);
                        assert(after.contains_key(other) == next.contains_key(other));
                    }
                }
            },
            _ => {
                lemma_first_pass(lines, from + 1, table);
                let after = labelled(
                    codes,
                    from + 1,
                    instruction_count(lines.take(from + 1)),
                    table,
                )->Ok_0;
                assert(keeps_others(lines, from, after, table)) by {
                    if !keeps_others(lines, from, after, table) {
                        let other = choose|other: Seq<char>|
                            !declares_from(lines, from, other) && !(after.contains_key(other)
                                == table.contains_key(other) && after[other] == table[other]);
                        lemma_declares_from_step(lines, from, other);
                        assert(after.contains_key(other) == table.contains_key(other));
                    }
                }
            },
        }
    } else {
        assert(codes.len() == lines.len());
    }
}

/// Symbols that give every label the number of instructions before its
/// declaration resolve the labels.
pub proof fn lemma_resolves_by_index(
    lines: Seq<LineView>,
    symbols: Map<Seq<char>, int>,
    all: Seq<LineView>,
)
    requires
        lines.len() <= all.len(),
        lines == all.take(lines.len() as int),
        forall|i: int|
            0 <= i < all.len() && (#[trigger] all[i]) is Label ==> symbols[all[i]->Label_0]
                == instruction_count(all.take(i)),
    ensures
        resolves(lines, symbols, 0),
    decreases lines.len(),
{
    if lines.len() > 0 {
        let front = lines.drop_last();
        let k = lines.len() - 1;
        assert(front =~= all.take(k));
        lemma_resolves_by_index(front, symbols, all);
        lemma_count_is_loaded_len(front, symbols);
        assert(lines.last() == all[k]);
    }
}

/// The second pass over readable lines whose names the table holds writes
/// one word for each instruction, and each word does to the computer what
/// the machine model says of the instruction.
pub proof fn lemma_second_pass(
    lines: Seq<LineView>,
    from: int,
    table: Map<Seq<char>, usize>,
    next_variable: nat,
)
    requires
        pattern_compiles(label_pattern()),
        forall|i: int| 0 <= i < lines.len() ==> readable(#[trigger] lines[i]),
        forall|i: int|
            0 <= i < lines.len() ==> match #[trigger] lines[i] {
                LineView::At(OperandView::Name(name)) => table.contains_key(name) && table[name]
                    <= MAX_ADDRESS,
                _ => true,
            },
        0 <= from <= lines.len(),
    ensures
        ({
            let r = encoded(texts(lines), from, table, next_variable);
            let code = loaded(lines.skip(from), as_addresses(table));
            &&& r is Ok
            &&& r->Ok_0.len() == code.len()
            &&& forall|k: int, s: Machine|
                0 <= k < code.len() && s.holds_words() ==> #[trigger] word_step(r->Ok_0[k], s)
                    == step(code[k], s)
        }),
    decreases lines.len() - from,
{
    let codes = texts(lines);
    let symbols = as_addresses(table);
    lemma_loaded_unfold(symbols);
    if from >= lines.len() {
        assert(lines.skip(from) =~= Seq::<LineView>::empty());
    } else {
        let line = lines[from];
        assert(codes[from] == line.text());
        lemma_read_back(line);
        lemma_second_pass(lines, from + 1, table, next_variable);
        let rest = encoded(codes, from + 1, table, next_variable)->Ok_0;
        let rest_code = loaded(lines.skip(from + 1), symbols);
        let one = seq![line];
        assert(lines.skip(from) =~= one + lines.skip(from + 1));
        lemma_loaded_add(one, lines.skip(from + 1), symbols);
        let code = loaded(lines.skip(from), symbols);
        match line {
            LineView::Comment(_) => {
                assert(code =~= rest_code);
            },
            LineView::Label(_) => {
                assert(code =~= rest_code);
            },
            LineView::At(operand) => {
                let loads: nat = match operand {
                    OperandView::Number(n) => n,
                    OperandView::Name(name) => table[name] as nat,
                };
                match operand {
                    OperandView::Number(n) => {
                        law_number_is_read_back(n, table, next_variable);
                    },
                    OperandView::Name(name) => {
                        assert(symbols[name] == table[name] as int);
                    },
                }
                assert(resolved(operand.text(), table, next_variable) == Ok::<
                    (nat, Map<Seq<char>, usize>, nat),
                    AsmError,
                >((loads, table, next_variable)));
                let word = address_word(loads);
                let words = encoded(codes, from, table, next_variable)->Ok_0;
                assert(words =~= seq![word] + rest);
                assert(code =~= seq![Instruction::Load(loads as int)] + rest_code);
                assert forall|k: int, s: Machine|
                    0 <= k < code.len() && s.holds_words() implies #[trigger] word_step(
                    words[k],
                    s,
                ) == step(code[k], s) by {
                    if k == 0 {
                        law_address_word_loads(loads, s);
                    } else {
                        assert(words[k] == rest[k - 1]);
                        assert(code[k] == rest_code[k - 1]);
                    }
                }
            },
            LineView::Compute { dest, comp, jump } => {
                let fields = read(line)->0;
                let word = compute_word(fields->C_dest, fields->C_comp, fields->C_jump)->Ok_0;
                law_words_have_sixteen_bits(dest, comp, jump, 0);
                let words = encoded(codes, from, table, next_variable)->Ok_0;
                assert(words =~= seq![word] + rest);
                assert(code =~= seq![Instruction::Compute { dest, comp, jump }] + rest_code);
                assert forall|k: int, s: Machine|
                    0 <= k < code.len() && s.holds_words() implies #[trigger] word_step(
                    words[k],
                    s,
                ) == step(code[k], s) by {
                    if k == 0 {
                        law_compute_word_computes(dest, comp, jump, s);
                    } else {
                        assert(words[k] == rest[k - 1]);
                        assert(code[k] == rest_code[k - 1]);
                    }
                }
            },
        }
    }
}

/// Lines whose numbers and whose symbols fit fifteen bits stand for
/// instructions that a program can hold.
pub proof fn lemma_loaded_is_encodable(lines: Seq<LineView>, symbols: Map<Seq<char>, int>)
    requires
        forall|i: int|
            0 <= i < lines.len() ==> match #[trigger] lines[i] {
                LineView::At(OperandView::Number(n)) => n <= MAX_ADDRESS,
                LineView::At(OperandView::Name(name)) => 0 <= symbols[name] <= MAX_ADDRESS,
                _ => true,
            },
    ensures
        forall|k: int|
            0 <= k < loaded(lines, symbols).len() ==> encodable(
                #[trigger] loaded(lines, symbols)[k],
            ),
    decreases lines.len(),
{
    if lines.len() > 0 {
        let front = lines.drop_last();
        assert forall|i: int| 0 <= i < front.len() implies match #[trigger] front[i] {
            LineView::At(OperandView::Number(n)) => n <= MAX_ADDRESS,
            LineView::At(OperandView::Name(name)) => 0 <= symbols[name] <= MAX_ADDRESS,
            _ => true,
        } by {
            assert(front[i] == lines[i]);
        }
        lemma_loaded_is_encodable(front, symbols);
        let code = loaded(lines, symbols);
        let last = lines[lines.len() - 1];
        assert forall|k: int| 0 <= k < code.len() implies encodable(#[trigger] code[k]) by {
            if k < loaded(front, symbols).len() {
                assert(code[k] == loaded(front, symbols)[k]);
            }
        }
    }
}

/// No predefined symbol has an address of more than fifteen bits.
pub proof fn lemma_predefined_fit(name: Seq<char>)
    requires
        predefined_symbols().contains_key(name),
    ensures
        predefined_symbols()[name] <= MAX_ADDRESS,
{
}

/// The toolchain is sound for every assemblable program, such as the
/// translator writes. The assembler accepts the texts of the lines. Its
/// table gives every label the address of the instruction that follows
/// the declaration of the label: the symbols resolve the lines, as the
/// laws of the translator ask. It writes one word for each instruction of
/// the lines, and each word does to the computer what the machine model
/// says of the instruction, wherever the registers and the memory hold
/// words.
pub proof fn law_assembled_lines_run_as_modelled(lines: Seq<LineView>)
    requires
        assemblable(lines),
    ensures
        ({
            let table = labelled(texts(lines), 0, 0, predefined_symbols());
            let symbols = as_addresses(table->Ok_0);
            let words = assembled(texts(lines));
            let code = loaded(lines, symbols);
            &&& table is Ok
            &&& words is Ok
            &&& resolves(lines, symbols, 0)
            &&& words->Ok_0.len() == code.len()
            &&& forall|k: int| 0 <= k < code.len() ==> encodable(#[trigger] code[k])
            &&& forall|k: int, s: Machine|
                0 <= k < code.len() && s.holds_words() ==> #[trigger] word_step(
                    words->Ok_0[k],
                    s,
                ) == step(code[k], s)
        }),
{
    let start = predefined_symbols();
    assert(lines.take(0) =~= Seq::<LineView>::empty());
    lemma_first_pass(lines, 0, start);
    let table = labelled(texts(lines), 0, 0, start)->Ok_0;
    let symbols = as_addresses(table);
    assert forall|i: int|
        0 <= i < lines.len() && (#[trigger] lines[i]) is Label implies symbols[lines[i]->Label_0]
        == instruction_count(lines.take(i)) by {
        lemma_count_grows(lines, i);
    }
    assert(lines.take(lines.len() as int) =~= lines);
    lemma_resolves_by_index(lines, symbols, lines);
    assert forall|i: int| 0 <= i < lines.len() implies match #[trigger] lines[i] {
        LineView::At(OperandView::Name(name)) => table.contains_key(name) && table[name]
            <= MAX_ADDRESS,
        _ => true,
    } by {
        match lines[i] {
            LineView::At(OperandView::Name(name)) => {
                if declares(lines, name) {
                    let j = choose|j: int|
                        0 <= j < lines.len() && #[trigger] lines[j] == LineView::Label(name);
                    assert(lines[j] is Label);
                    lemma_count_grows(lines, j);
                } else {
                    assert(!declares_from(lines, 0, name)) by {
                        if declares_from(lines, 0, name) {
                            let j = choose|j: int|
                                0 <= j < lines.len() && #[trigger] lines[j] == LineView::Label(
                                    name,
                                );
                            assert(declares(lines, name));
                        }
                    }
                    assert(table.contains_key(name) == start.contains_key(name));
                    lemma_predefined_fit(name);
                }
            },
            _ => {},
        }
    }
    lemma_second_pass(lines, 0, table, FIRST_VARIABLE as nat);
    assert(lines.skip(0) =~= lines);
    assert forall|i: int| 0 <= i < lines.len() implies match #[trigger] lines[i] {
        LineView::At(OperandView::Number(n)) => n <= MAX_ADDRESS,
        LineView::At(OperandView::Name(name)) => 0 <= symbols[name] <= MAX_ADDRESS,
        _ => true,
    } by {
        assert(readable(lines[i]));
    }
    lemma_loaded_is_encodable(lines, symbols);
}

/// The state after `steps` words of the program `words` ran from the
/// state `s`. Where the program counter leaves the program, the computer
/// stays as it is.
pub open spec fn run_words(words: Seq<Seq<char>>, s: Machine, steps: nat) -> Machine
    decreases steps,
{
    if steps == 0 || s.pc < 0 || s.pc >= words.len() {
        s
    } else {
        run_words(words, word_step(words[s.pc], s), (steps - 1) as nat)
    }
}

/// The words that the assembler writes for an assemblable program run as
/// the machine model runs the lines: from every state whose registers and
/// memory hold words, and for every number of steps, the computer that
/// runs the words reaches the state that the model reaches on the
/// instructions of the lines, and that state holds words again. So what
/// the laws of the translator say of the lines of a command holds of the
/// machine words of the command.
pub proof fn law_assembled_program_runs_as_modelled(lines: Seq<LineView>, s: Machine, steps: nat)
    requires
        assemblable(lines),
        s.holds_words(),
    ensures
        ({
            let table = labelled(texts(lines), 0, 0, predefined_symbols());
            let symbols = as_addresses(table->Ok_0);
            let words = assembled(texts(lines))->Ok_0;
            &&& run_words(words, s, steps) == run(loaded(lines, symbols), s, steps)
            &&& run(loaded(lines, symbols), s, steps).holds_words()
        }),
    decreases steps,
{
    let table = labelled(texts(lines), 0, 0, predefined_symbols());
    let symbols = as_addresses(table->Ok_0);
    let words = assembled(texts(lines))->Ok_0;
    let code = loaded(lines, symbols);
    law_assembled_lines_run_as_modelled(lines);
    if steps > 0 && 0 <= s.pc < code.len() {
        let next = step(code[s.pc], s);
        assert(word_step(words[s.pc], s) == next);
        law_step_keeps_words(code[s.pc], s);
        law_assembled_program_runs_as_modelled(lines, next, (steps - 1) as nat);
    }
}

/// Whether the line is written as the assembler reads lines, but for what
/// the search for the pattern of a label declaration finds in it: as
/// [`readable`] says of every line that declares no label.
pub open spec fn well_written(line: LineView) -> bool {
    match line {
        LineView::Comment(_) => true,
        LineView::Label(name) => is_plain(name),
        LineView::At(OperandView::Number(n)) => n <= MAX_ADDRESS,
        LineView::At(OperandView::Name(name)) => is_plain(name) && !is_digit(name[0]),
        LineView::Compute { .. } => true,
    }
}

/// Whether every line of `lines` is well written.
pub open spec fn all_well_written(lines: Seq<LineView>) -> bool {
    forall|i: int| 0 <= i < lines.len() ==> well_written(#[trigger] lines[i])
}

/// Whether `name` can be the name of a label or of a function, or the tag
/// of a unit: made of plain characters, the first of them no digit.
pub open spec fn is_symbol(name: Seq<char>) -> bool {
    is_plain(name) && !is_digit(name[0])
}

/// Whether the names that a command writes can be symbols: the name of a
/// label or of a jump, and the name of a function or of a call together
/// with the tag of the unit.
pub open spec fn writes_symbols(command: CommandView, tag: Seq<char>) -> bool {
    match command {
        CommandView::Label { name } => is_symbol(name),
        CommandView::Goto { name } => is_symbol(name),
        CommandView::IfGoto { name } => is_symbol(name),
        CommandView::Function { name, .. } => is_symbol(tag) && is_plain(name),
        CommandView::Call { name, .. } => is_symbol(tag) && is_plain(name),
        _ => true,
    }
}

/// Whether the numbers of a plan fit fifteen bits.
pub open spec fn plan_fits(plan: AddressPlan) -> bool {
    match plan {
        AddressPlan::Literal(k) => k <= MAX_ADDRESS,
        AddressPlan::Fixed(a) => a <= MAX_ADDRESS,
        AddressPlan::Indirect { base, offset } => base <= MAX_ADDRESS && offset <= MAX_ADDRESS,
    }
}

/// Two runs of well written lines in a row are well written.
pub proof fn lemma_well_written_add(first: Seq<LineView>, second: Seq<LineView>)
    requires
        all_well_written(first),
        all_well_written(second),
    ensures
        all_well_written(first + second),
{
    assert forall|i: int| 0 <= i < (first + second).len() implies well_written(
        #[trigger] (first + second)[i],
    ) by {
        if i < first.len() {
            assert((first + second)[i] == first[i]);
        } else {
            assert((first + second)[i] == second[i - first.len()]);
        }
    }
}

/// The names of the five pointers are symbols.
pub proof fn lemma_pointer_names()
    ensures
        is_symbol("SP"@),
        is_symbol("LCL"@),
        is_symbol("ARG"@),
        is_symbol("THIS"@),
        is_symbol("THAT"@),
{
    reveal_strlit("SP");
    reveal_strlit("LCL");
    reveal_strlit("ARG");
    reveal_strlit("THIS");
    reveal_strlit("THAT");
    assert("SP"@[0] == 'S' && "SP"@[1] == 'P');
    assert("LCL"@[0] == 'L' && "LCL"@[1] == 'C' && "LCL"@[2] == 'L');
    assert("ARG"@[0] == 'A' && "ARG"@[1] == 'R' && "ARG"@[2] == 'G');
    assert("THIS"@[0] == 'T' && "THIS"@[1] == 'H' && "THIS"@[2] == 'I' && "THIS"@[3] == 'S');
    assert("THAT"@[0] == 'T' && "THAT"@[1] == 'H' && "THAT"@[2] == 'A' && "THAT"@[3] == 'T');
}

/// The internal labels are symbols.
pub proof fn lemma_internal_labels_are_symbols(n: nat)
    ensures
        is_symbol(branch_label(n)),
        is_symbol(return_label(n)),
{
    reveal_strlit("L");
    reveal_strlit("__RETURN__");
    lemma_decimal_value(n);
    let digits = decimal(n);
    let branch = branch_label(n);
    let back = return_label(n);
    let head = "__RETURN__"@;
    assert(head[0] == '_' && head[1] == '_' && head[2] == 'R' && head[3] == 'E' && head[4] == 'T'
        && head[5] == 'U' && head[6] == 'R' && head[7] == 'N' && head[8] == '_' && head[9]
        == '_');
    assert forall|i: int| 0 <= i < branch.len() implies is_plain_char(#[trigger] branch[i]) by {
        if i > 0 {
            assert(branch[i] == digits[i - 1]);
            assert(is_digit(digits[i - 1]));
        }
    }
    assert forall|i: int| 0 <= i < back.len() implies is_plain_char(#[trigger] back[i]) by {
        if i >= 10 {
            assert(back[i] == branch[i - 10]);
            assert(is_plain_char(branch[i - 10]));
        } else {
            assert(back[i] == head[i]);
        }
    }
    assert(back[0] == head[0]);
}

/// The label of a function is a symbol where the tag of its unit is one
/// and its name is plain.
pub proof fn lemma_function_label_is_symbol(tag: Seq<char>, name: Seq<char>)
    requires
        is_symbol(tag),
        is_plain(name),
    ensures
        is_symbol(function_label(tag, name)),
{
    reveal_strlit(".");
    let full = function_label(tag, name);
    assert forall|i: int| 0 <= i < full.len() implies is_plain_char(#[trigger] full[i]) by {
        if i < tag.len() {
            assert(full[i] == tag[i]);
        } else if i == tag.len() {
            assert(full[i] == '.');
        } else {
            assert(full[i] == name[i - tag.len() - 1]);
        }
    }
    assert(full[0] == tag[0]);
}

/// The lines of pushes and pops are well written where the numbers of
/// the plan fit.
pub proof fn lemma_push_pop_well_written(plan: AddressPlan)
    requires
        plan_fits(plan),
    ensures
        all_well_written(address_lines(plan)),
        all_well_written(value_lines(plan)),
        all_well_written(push_lines(plan)),
        all_well_written(pop_lines(plan)),
        all_well_written(push_d_lines()),
{
    lemma_pointer_names();
    assert(all_well_written(address_lines(plan)));
    assert(all_well_written(value_lines(plan)));
    assert(all_well_written(push_tail_lines()));
    assert(all_well_written(pop_tail_lines()));
    let push_head = seq![comment("start push"@)];
    let pop_head = seq![comment("start pop"@)];
    lemma_well_written_add(push_head, value_lines(plan));
    lemma_well_written_add(push_head + value_lines(plan), push_tail_lines());
    lemma_well_written_add(pop_head, address_lines(plan));
    lemma_well_written_add(pop_head + address_lines(plan), pop_tail_lines());
}

/// The lines that set locals to zero are well written.
pub proof fn lemma_locals_well_written(n: nat)
    requires
        n <= MAX_ADDRESS + 1,
    ensures
        all_well_written(locals_lines(n)),
    decreases n,
{
    if n > 0 {
        let zero = AddressPlan::Literal(0);
        let cell = AddressPlan::Indirect { base: 1, offset: (n - 1) as usize };
        lemma_locals_well_written((n - 1) as nat);
        lemma_push_pop_well_written(zero);
        lemma_push_pop_well_written(cell);
        lemma_well_written_add(locals_lines((n - 1) as nat), push_lines(zero));
        lemma_well_written_add(locals_lines((n - 1) as nat) + push_lines(zero), pop_lines(cell));
    }
}

/// The plans of the resolver fit.
pub proof fn lemma_plans_fit(segment: Segment, index: nat)
    ensures
        plan_of(segment, index) is Ok ==> plan_fits(plan_of(segment, index)->Ok_0),
{
}

/// What the translator writes, the assembler can read. Where a command
/// can be lowered and the names that it writes can be symbols, every line
/// that it lowers to is well written: every number fits fifteen bits, and
/// every name of a label or of an address is made of plain characters, the
/// first of them no digit.
pub proof fn law_lowered_lines_are_well_written(
    command: CommandView,
    tag: Seq<char>,
    counter: nat,
)
    requires
        command_lines(command, tag, counter) is Ok,
        writes_symbols(command, tag),
    ensures
        all_well_written(command_lines(command, tag, counter)->Ok_0),
{
    let lines = command_lines(command, tag, counter)->Ok_0;
    let right = scratch_right();
    let left = scratch_left();
    lemma_pointer_names();
    lemma_push_pop_well_written(right);
    lemma_push_pop_well_written(left);
    lemma_well_written_add(pop_lines(right), pop_lines(left));
    match command {
        CommandView::Push { segment, index } => {
            lemma_plans_fit(segment, index);
            lemma_push_pop_well_written(plan_of(segment, index)->Ok_0);
        },
        CommandView::Pop { segment, index } => {
            lemma_plans_fit(segment, index);
            lemma_push_pop_well_written(cell_plan_of(segment, index)->Ok_0);
        },
        CommandView::Arithmetic { op } => {
            let head = seq![comment(start_comment(op))];
            let tail = seq![comment(end_comment(op))];
            let pops = pop_operands_lines();
            if op.is_comparison() {
                lemma_internal_labels_are_symbols(counter);
                lemma_internal_labels_are_symbols(counter + 1);
                lemma_internal_labels_are_symbols(counter + 2);
                let branch = branch_lines(
                    comparison_jump(op),
                    branch_label(counter),
                    branch_label(counter + 1),
                    branch_label(counter + 2),
                );
                assert(all_well_written(branch));
                let core = seq![assign(Dest::D, Comp::DMinusM)];
                let x1 = head + pops;
                let x2 = x1 + value_lines(left);
                let x3 = x2 + address_lines(right);
                let x4 = x3 + core;
                let x5 = x4 + branch;
                let x6 = x5 + push_lines(right);
                lemma_well_written_add(head, pops);
                lemma_well_written_add(x1, value_lines(left));
                lemma_well_written_add(x2, address_lines(right));
                lemma_well_written_add(x3, core);
                lemma_well_written_add(x4, branch);
                lemma_well_written_add(x5, push_lines(right));
                lemma_well_written_add(x6, tail);
                assert(lines =~= x6 + tail);
            } else if op.is_unary() {
                let core = seq![
                    assign(
                        Dest::M,
                        if op == ArithmeticOp::Neg {
                            Comp::NegM
                        } else {
                            Comp::NotM
                        },
                    ),
                ];
                let x1 = head + pop_lines(right);
                let x2 = x1 + address_lines(right);
                let x3 = x2 + core;
                let x4 = x3 + push_lines(right);
                lemma_well_written_add(head, pop_lines(right));
                lemma_well_written_add(x1, address_lines(right));
                lemma_well_written_add(x2, core);
                lemma_well_written_add(x3, push_lines(right));
                lemma_well_written_add(x4, tail);
                assert(lines =~= x4 + tail);
            } else {
                let first = if op == ArithmeticOp::Add {
                    right
                } else {
                    left
                };
                let second = if op == ArithmeticOp::Add {
                    left
                } else {
                    right
                };
                let core = if op == ArithmeticOp::Add {
                    seq![assign(Dest::M, Comp::DPlusM)]
                } else {
                    combine_lines(op)
                };
                assert(all_well_written(core));
                let x1 = head + pops;
                let x2 = x1 + value_lines(first);
                let x3 = x2 + address_lines(second);
                let x4 = x3 + core;
                let x5 = x4 + push_lines(second);
                lemma_well_written_add(head, pops);
                lemma_well_written_add(x1, value_lines(first));
                lemma_well_written_add(x2, address_lines(second));
                lemma_well_written_add(x3, core);
                lemma_well_written_add(x4, push_lines(second));
                lemma_well_written_add(x5, tail);
                assert(lines =~= x5 + tail);
            }
        },
        CommandView::Label { name } => {},
        CommandView::Goto { name } => {},
        CommandView::IfGoto { name } => {},
        CommandView::Function { name, n_locals } => {
            lemma_function_label_is_symbol(tag, name);
            lemma_locals_well_written(n_locals);
            let head = Seq::<LineView>::empty().push(comment("start function"@)).push(
                label(function_label(tag, name)),
            );
            let tail = seq![comment("end function"@)];
            lemma_well_written_add(head, locals_lines(n_locals));
            lemma_well_written_add(head + locals_lines(n_locals), tail);
        },
        CommandView::Call { name, n_args } => {
            lemma_function_label_is_symbol(tag, name);
            lemma_internal_labels_are_symbols(counter);
            let back = return_label(counter);
            let head = Seq::<LineView>::empty().push(comment("start call function"@)).push(
                at_symbol(back),
            ).push(assign(Dest::D, Comp::A));
            let tail = seq![comment("end call function"@)];
            assert forall|register: Seq<char>| is_symbol(register) implies all_well_written(
                #[trigger] save_lines(register),
            ) by {
                let load = Seq::<LineView>::empty().push(at_symbol(register)).push(
                    assign(Dest::D, Comp::M),
                );
                lemma_well_written_add(load, push_d_lines());
            }
            assert(all_well_written(reposition_lines(n_args)));
            let x1 = head + push_d_lines();
            let x2 = x1 + save_lines("LCL"@);
            let x3 = x2 + save_lines("ARG"@);
            let x4 = x3 + save_lines("THIS"@);
            let x5 = x4 + save_lines("THAT"@);
            let x6 = x5 + reposition_lines(n_args);
            let x7 = x6 + goto_lines(function_label(tag, name));
            let x8 = x7 + label_lines(back);
            lemma_well_written_add(head, push_d_lines());
            lemma_well_written_add(x1, save_lines("LCL"@));
            lemma_well_written_add(x2, save_lines("ARG"@));
            lemma_well_written_add(x3, save_lines("THIS"@));
            lemma_well_written_add(x4, save_lines("THAT"@));
            lemma_well_written_add(x5, reposition_lines(n_args));
            lemma_well_written_add(x6, goto_lines(function_label(tag, name)));
            lemma_well_written_add(x7, label_lines(back));
            lemma_well_written_add(x8, tail);
            assert(lines =~= x8 + tail);
        },
        CommandView::Return => {
            let plan = AddressPlan::Indirect { base: 2, offset: 0 };
            lemma_push_pop_well_written(plan);
            let head = seq![comment("start return"@)];
            assert forall|register: Seq<char>| is_symbol(register) implies all_well_written(
                #[trigger] restore_lines(register),
            ) by {}
            assert(all_well_written(frame_lines()));
            assert(all_well_written(unwind_lines()));
            assert(all_well_written(return_jump_lines()));
            let x1 = head + frame_lines();
            let x2 = x1 + pop_lines(plan);
            let x3 = x2 + unwind_lines();
            let x4 = x3 + restore_lines("THAT"@);
            let x5 = x4 + restore_lines("THIS"@);
            let x6 = x5 + restore_lines("ARG"@);
            let x7 = x6 + restore_lines("LCL"@);
            lemma_well_written_add(head, frame_lines());
            lemma_well_written_add(x1, pop_lines(plan));
            lemma_well_written_add(x2, unwind_lines());
            lemma_well_written_add(x3, restore_lines("THAT"@));
            lemma_well_written_add(x4, restore_lines("THIS"@));
            lemma_well_written_add(x5, restore_lines("ARG"@));
            lemma_well_written_add(x6, restore_lines("LCL"@));
            lemma_well_written_add(x7, return_jump_lines());
            assert(lines =~= x7 + return_jump_lines());
        },
    }
}

} // verus!
