//! The text of a line read back: what the assembler reads in the text
//! that a line of assembly renders to. With the laws of the tables, the
//! laws of this module carry a line from its model to its machine word.

use vstd::prelude::*;
use crate::assembler::decode::{
    dest_field, jump_field, law_address_word_loads, law_compute_word_computes, lemma_comp_mnemonics,
    lemma_field_mnemonics, word_step,
};
use crate::assembler::parser::{
    after_dest, code_of, comp_of, declared_symbol, dest_of, instruction_of, jump_of, label_pattern,
    pattern_compiles, AsmError, InstructionView,
};
use crate::assembler::program::{address_word, compute_word, resolved};
use crate::assembly::{Comp, Dest, Jump, LineView, OperandView, MAX_ADDRESS};
use crate::machine::{step, Instruction, Machine};
use crate::text::{
    decimal, index_of, is_digit, is_space, lacks, law_number_round_trip, lemma_decimal_value,
    lemma_index_of_absent, lemma_index_of_add, lemma_no_comment, lemma_trim_of_trimmed,
    strip_comment, trim,
};

verus! {

/// Whether `c` may stand in a field of an instruction: no separator and
/// none of the characters that start a comment, end a field or start
/// another kind of line.
pub open spec fn is_plain_char(c: char) -> bool {
    !is_space(c) && c != '/' && c != '=' && c != ';' && c != '(' && c != '@'
}

/// Whether `s` is not empty and made of plain characters.
pub open spec fn is_plain(s: Seq<char>) -> bool {
    &&& s.len() > 0
    &&& forall|i: int| 0 <= i < s.len() ==> is_plain_char(#[trigger] s[i])
}

/// The mnemonics of the computations are plain.
pub proof fn lemma_comp_is_plain(comp: Comp)
    ensures
        is_plain(comp.mnemonic()),
{
    lemma_comp_mnemonics();
}

/// The mnemonics of the destinations are plain.
pub proof fn lemma_dest_is_plain(dest: Dest)
    requires
        dest != Dest::Null,
    ensures
        is_plain(dest.mnemonic()),
{
    lemma_field_mnemonics();
}

/// The mnemonics of the jumps are plain.
pub proof fn lemma_jump_is_plain(jump: Jump)
    requires
        jump != Jump::Null,
    ensures
        is_plain(jump.mnemonic()),
{
    lemma_field_mnemonics();
}

/// A plain text is its own code: it has no comment and nothing to trim.
pub proof fn lemma_plain_code(s: Seq<char>)
    requires
        s.len() > 0,
        lacks(s, '/'),
        !is_space(s[0]),
        !is_space(s.last()),
    ensures
        code_of(s) == s,
{
    lemma_no_comment(s);
    lemma_trim_of_trimmed(s);
}

/// The text of a comment line has no code: the assembler passes it.
pub proof fn law_comment_is_passed(text: Seq<char>)
    ensures
        code_of(LineView::Comment(text).text()).len() == 0,
{
    reveal_strlit("//");
    let line = "//"@ + text;
    assert(line[0] == '/' && line[1] == '/');
    assert(strip_comment(line) =~= Seq::<char>::empty());
}

/// The text of a compute line is read back as its three fields: the
/// assembler reads in it the mnemonics of the destination, of the
/// computation and of the jump that the line holds, and `null` for a
/// field that the line lacks.
pub proof fn law_compute_is_read_back(dest: Dest, comp: Comp, jump: Jump)
    ensures
        code_of(LineView::Compute { dest, comp, jump }.text()).len() > 0,
        instruction_of(code_of(LineView::Compute { dest, comp, jump }.text())) == Ok::<
            InstructionView,
            AsmError,
        >(
            InstructionView::C {
                dest: dest_field(dest),
                comp: comp.mnemonic(),
                jump: jump_field(jump),
            },
        ),
{
    reveal_strlit("=");
    reveal_strlit(";");
    let text = LineView::Compute { dest, comp, jump }.text();
    let c = comp.mnemonic();
    lemma_comp_is_plain(comp);
    let head = if dest == Dest::Null {
        Seq::<char>::empty()
    } else {
        dest.mnemonic() + "="@
    };
    let tail = if jump == Jump::Null {
        Seq::<char>::empty()
    } else {
        ";"@ + jump.mnemonic()
    };
    let rest = c + tail;
    assert(text =~= head + rest);
    if dest != Dest::Null {
        lemma_dest_is_plain(dest);
    }
    if jump != Jump::Null {
        lemma_jump_is_plain(jump);
    }
    assert(lacks(text, '/'));
    assert(!is_space(text[0]));
    assert(!is_space(text.last()));
    lemma_plain_code(text);
    assert(text[0] != '(' && text[0] != '@');
    // The destination.
    if dest != Dest::Null {
        let d = dest.mnemonic();
        assert(text =~= d + ("="@ + rest));
        assert(lacks(d, '='));
        lemma_index_of_add(d, "="@ + rest, '=');
        assert(index_of("="@ + rest, '=') == 0);
        assert(text.take(d.len() as int) =~= d);
        lemma_trim_of_trimmed(d);
        assert(text.skip(d.len() as int + 1) =~= rest);
    } else {
        assert(lacks(text, '='));
        lemma_index_of_absent(text, '=');
        assert(text =~= rest);
    }
    assert(after_dest(text) == rest);
    // The computation and the jump.
    assert(lacks(c, ';'));
    if jump != Jump::Null {
        let j = jump.mnemonic();
        lemma_index_of_add(c, tail, ';');
        assert(index_of(tail, ';') == 0);
        assert(rest.take(c.len() as int) =~= c);
        assert(rest.skip(c.len() as int + 1) =~= j);
        lemma_trim_of_trimmed(j);
    } else {
        assert(rest =~= c);
        lemma_index_of_absent(c, ';');
        assert(c.take(c.len() as int) =~= c);
    }
    lemma_trim_of_trimmed(c);
    assert(dest_of(text) == dest_field(dest));
    assert(comp_of(text) == c);
    assert(jump_of(text) == jump_field(jump));
}

/// The text of an address line with a number is read back as the number:
/// the assembler reads in it the numeral, and resolves the numeral to the
/// number, where an address instruction can load it.
pub proof fn law_number_is_read_back(n: nat, symbols: Map<Seq<char>, usize>, next_variable: nat)
    requires
        n <= MAX_ADDRESS,
    ensures
        code_of(LineView::At(OperandView::Number(n)).text()).len() > 0,
        instruction_of(code_of(LineView::At(OperandView::Number(n)).text())) == Ok::<
            InstructionView,
            AsmError,
        >(InstructionView::A { symbol: decimal(n) }),
        resolved(decimal(n), symbols, next_variable) == Ok::<
            (nat, Map<Seq<char>, usize>, nat),
            AsmError,
        >((n, symbols, next_variable)),
{
    reveal_strlit("@");
    let numeral = decimal(n);
    let text = "@"@ + numeral;
    lemma_decimal_value(n);
    assert(LineView::At(OperandView::Number(n)).text() == text);
    assert forall|i: int| 0 <= i < text.len() implies #[trigger] text[i] != '/' by {
        if i > 0 {
            assert(text[i] == numeral[i - 1]);
            assert(is_digit(numeral[i - 1]));
        }
    }
    assert(text.last() == numeral.last());
    assert(is_digit(numeral[numeral.len() - 1]));
    lemma_plain_code(text);
    assert(text.skip(1) =~= numeral);
    law_number_round_trip(n);
    assert(is_digit(numeral[0]));
}

/// The text of an address line with a name is read back as the name,
/// where the name is made of plain characters.
pub proof fn law_name_is_read_back(name: Seq<char>)
    requires
        is_plain(name),
    ensures
        code_of(LineView::At(OperandView::Name(name)).text()).len() > 0,
        instruction_of(code_of(LineView::At(OperandView::Name(name)).text())) == Ok::<
            InstructionView,
            AsmError,
        >(InstructionView::A { symbol: name }),
{
    reveal_strlit("@");
    let text = "@"@ + name;
    assert(LineView::At(OperandView::Name(name)).text() == text);
    assert forall|i: int| 0 <= i < text.len() implies #[trigger] text[i] != '/' by {
        if i > 0 {
            assert(text[i] == name[i - 1]);
            assert(is_plain_char(name[i - 1]));
        }
    }
    assert(text.last() == name.last());
    assert(is_plain_char(name[name.len() - 1]));
    lemma_plain_code(text);
    assert(text.skip(1) =~= name);
}

/// The text of a label line is read back as the declaration of its
/// name, where the name is made of plain characters and the search for
/// the pattern of a label declaration finds the name in the text.
pub proof fn law_label_is_read_back(name: Seq<char>)
    requires
        is_plain(name),
        pattern_compiles(label_pattern()),
        declared_symbol(LineView::Label(name).text()) == Some(name),
    ensures
        code_of(LineView::Label(name).text()).len() > 0,
        instruction_of(code_of(LineView::Label(name).text())) == Ok::<InstructionView, AsmError>(
            InstructionView::L { symbol: name },
        ),
{
    reveal_strlit("(");
    reveal_strlit(")");
    let text = "("@ + name + ")"@;
    assert(LineView::Label(name).text() == text);
    assert forall|i: int| 0 <= i < text.len() implies #[trigger] text[i] != '/' by {
        if 0 < i <= name.len() {
            assert(text[i] == name[i - 1]);
            assert(is_plain_char(name[i - 1]));
        }
    }
    lemma_plain_code(text);
}

/// From a compute line to the computer. The assembler reads the text of
/// the line as a compute instruction, finds its three fields in the
/// tables, and writes a word that does to the computer what the machine
/// model says of the instruction of the line, wherever the registers and
/// the memory hold words.
pub proof fn law_compute_line_runs(dest: Dest, comp: Comp, jump: Jump, s: Machine)
    requires
        s.holds_words(),
    ensures
        match instruction_of(code_of(LineView::Compute { dest, comp, jump }.text())) {
            Ok(InstructionView::C { dest: d, comp: c, jump: j }) => {
                &&& compute_word(d, c, j) is Ok
                &&& word_step(compute_word(d, c, j)->Ok_0, s) == step(
                    Instruction::Compute { dest, comp, jump },
                    s,
                )
            },
            _ => false,
        },
{
    law_compute_is_read_back(dest, comp, jump);
    law_compute_word_computes(dest, comp, jump, s);
}

/// From an address line with a number to the computer. The assembler
/// reads the text of the line as an address instruction, resolves its
/// numeral to the number, and writes a word that loads the number, as the
/// machine model says of the instruction of the line.
pub proof fn law_number_line_runs(
    n: nat,
    symbols: Map<Seq<char>, usize>,
    next_variable: nat,
    s: Machine,
)
    requires
        n <= MAX_ADDRESS,
    ensures
        match instruction_of(code_of(LineView::At(OperandView::Number(n)).text())) {
            Ok(InstructionView::A { symbol }) => match resolved(symbol, symbols, next_variable) {
                Ok((address, _, _)) => word_step(address_word(address), s) == step(
                    Instruction::Load(n as int),
                    s,
                ),
                Err(_) => false,
            },
            _ => false,
        },
{
    law_number_is_read_back(n, symbols, next_variable);
    law_address_word_loads(n, s);
}

} // verus!
