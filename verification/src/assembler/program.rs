//! The assembly of a whole program: one pass over its lines for the
//! addresses of its labels, and one for its machine words.

use vstd::prelude::*;
use vstd::string::*;
use crate::assembler::code::{a_bit, comp_bits, dest_bits, jump_bits, CodeGen};
use crate::assembler::parser::{
    code_of, instruction_of, lemma_next_code_at_bounds, next_code_at, AsmError, InstructionType,
    InstructionView, Parser,
};
use crate::assembler::symbol_table::{predefined_symbols, SymbolTable};
use crate::assembly::MAX_ADDRESS;
use crate::text::{
    bits, bits_string, chars_of, is_digit, machine_number, parse_number, split, split_on,
    strings_view,
};

verus! {

/// The first address that a variable gets.
pub const FIRST_VARIABLE: usize = 16;

/// Whether `c` is a small letter of the Latin alphabet.
pub open spec fn is_lower(c: char) -> bool {
    'a' <= c <= 'z'
}

/// The symbols of a program after its lines from `from` on have been read
/// for their label declarations: each label gets the number of
/// instructions before it, which is the address of the instruction that
/// follows it; `address` is that number at line `from`.
pub open spec fn labelled(
    codes: Seq<Seq<char>>,
    from: int,
    address: nat,
    symbols: Map<Seq<char>, usize>,
) -> Result<Map<Seq<char>, usize>, AsmError>
    decreases codes.len() - from,
{
    if from < 0 || from >= codes.len() {
        Ok(symbols)
    } else if code_of(codes[from]).len() == 0 {
        labelled(codes, from + 1, address, symbols)
    } else {
        match instruction_of(code_of(codes[from])) {
            Err(e) => Err(e),
            Ok(InstructionView::L { symbol }) => labelled(
                codes,
                from + 1,
                address,
                symbols.insert(symbol, address as usize),
            ),
            Ok(_) => labelled(codes, from + 1, address + 1, symbols),
        }
    }
}

/// What an address instruction with the symbol `symbol` loads, and the
/// symbols and the next free variable address after it. A number stands
/// for itself. A symbol that the table holds stands for its address. Any
/// other symbol that starts with a small letter is a new variable and
/// gets the next free address.
pub open spec fn resolved(
    symbol: Seq<char>,
    symbols: Map<Seq<char>, usize>,
    next_variable: nat,
) -> Result<(nat, Map<Seq<char>, usize>, nat), AsmError> {
    if symbol.len() == 0 {
        Err(AsmError::MissingSymbol)
    } else if is_digit(symbol[0]) {
        match machine_number(symbol) {
            None => Err(AsmError::InvalidNumber),
            Some(n) => if n <= MAX_ADDRESS {
                Ok((n as nat, symbols, next_variable))
            } else {
                Err(AsmError::AddressOutOfRange)
            },
        }
    } else if symbols.contains_key(symbol) {
        if symbols[symbol] <= MAX_ADDRESS {
            Ok((symbols[symbol] as nat, symbols, next_variable))
        } else {
            Err(AsmError::AddressOutOfRange)
        }
    } else if is_lower(symbol[0]) {
        if next_variable <= MAX_ADDRESS {
            Ok((next_variable, symbols.insert(symbol, next_variable as usize), next_variable + 1))
        } else {
            Err(AsmError::AddressOutOfRange)
        }
    } else {
        Err(AsmError::UndefinedSymbol)
    }
}

/// The word of an address instruction that loads `address`: a zero, then
/// the address in fifteen bits.
pub open spec fn address_word(address: nat) -> Seq<char> {
    "0"@ + bits(address, 15)
}

/// The word of the compute instruction with the fields `dest`, `comp` and
/// `jump`: three ones, the `a` bit, the bits of the computation, of the
/// destination and of the jump.
pub open spec fn compute_word(dest: Seq<char>, comp: Seq<char>, jump: Seq<char>) -> Result<
    Seq<char>,
    AsmError,
> {
    if dest_bits(dest) is None {
        Err(AsmError::UnknownDest)
    } else if comp_bits(comp) is None {
        Err(AsmError::UnknownComp)
    } else if jump_bits(jump) is None {
        Err(AsmError::UnknownJump)
    } else {
        Ok("111"@ + a_bit(comp) + comp_bits(comp)->0 + dest_bits(dest)->0 + jump_bits(jump)->0)
    }
}

/// The words of the lines of a program from `from` on, one for each
/// address and compute instruction, in order.
pub open spec fn encoded(
    codes: Seq<Seq<char>>,
    from: int,
    symbols: Map<Seq<char>, usize>,
    next_variable: nat,
) -> Result<Seq<Seq<char>>, AsmError>
    decreases codes.len() - from,
{
    if from < 0 || from >= codes.len() {
        Ok(Seq::empty())
    } else if code_of(codes[from]).len() == 0 {
        encoded(codes, from + 1, symbols, next_variable)
    } else {
        match instruction_of(code_of(codes[from])) {
            Err(e) => Err(e),
            Ok(InstructionView::L { .. }) => encoded(codes, from + 1, symbols, next_variable),
            Ok(InstructionView::A { symbol }) => match resolved(symbol, symbols, next_variable) {
                Err(e) => Err(e),
                Ok((address, symbols2, next2)) => match encoded(codes, from + 1, symbols2, next2) {
                    Err(e) => Err(e),
                    Ok(rest) => Ok(seq![address_word(address)] + rest),
                },
            },
            Ok(InstructionView::C { dest, comp, jump }) => match compute_word(dest, comp, jump) {
                Err(e) => Err(e),
                Ok(word) => match encoded(codes, from + 1, symbols, next_variable) {
                    Err(e) => Err(e),
                    Ok(rest) => Ok(seq![word] + rest),
                },
            },
        }
    }
}

/// The machine words of the program with the lines `codes`: labels first,
/// over the predefined symbols, then the words, with variables from
/// address 16 on.
pub open spec fn assembled(codes: Seq<Seq<char>>) -> Result<Seq<Seq<char>>, AsmError> {
    match labelled(codes, 0, 0, predefined_symbols()) {
        Err(e) => Err(e),
        Ok(symbols) => encoded(codes, 0, symbols, FIRST_VARIABLE as nat),
    }
}

/// Resolves the symbol of an address instruction, entering it into the
/// table where it is a new variable.
pub fn resolve_symbol(symbol: &String, table: &mut SymbolTable, next_variable: &mut usize) -> (r:
    Result<usize, AsmError>)
    ensures
        match resolved(symbol@, old(table)@, *old(next_variable) as nat) {
            Ok((address, symbols, next)) => {
                &&& r == Ok::<usize, AsmError>(address as usize)
                &&& address <= MAX_ADDRESS
                &&& final(table)@ == symbols
                &&& *final(next_variable) == next
            },
            Err(e) => {
                &&& r == Err::<usize, AsmError>(e)
                &&& final(table)@ == old(table)@
                &&& *final(next_variable) == *old(next_variable)
            },
        },
{
    let chars = chars_of(symbol.as_str());
    if chars.len() == 0 {
        return Err(AsmError::MissingSymbol);
    }
    let first = chars[0];
    if first >= '0' && first <= '9' {
        return match parse_number(symbol.as_str()) {
            None => Err(AsmError::InvalidNumber),
            Some(n) => if n <= MAX_ADDRESS {
                Ok(n)
            } else {
                Err(AsmError::AddressOutOfRange)
            },
        };
    }
    match table.lookup(symbol) {
        Some(address) => {
            if address <= MAX_ADDRESS {
                Ok(address)
            } else {
                Err(AsmError::AddressOutOfRange)
            }
        },
        None => {
            if first >= 'a' && first <= 'z' {
                if *next_variable <= MAX_ADDRESS {
                    let address = *next_variable;
                    table.add_entry(symbol.clone(), address);
                    *next_variable = address + 1;
                    Ok(address)
                } else {
                    Err(AsmError::AddressOutOfRange)
                }
            } else {
                Err(AsmError::UndefinedSymbol)
            }
        },
    }
}

/// Encodes a compute instruction from the text of its three fields.
pub fn encode_compute(codegen: &CodeGen, dest: &String, comp: &String, jump: &String) -> (r: Result<
    String,
    AsmError,
>)
    requires
        codegen.wf(),
    ensures
        match compute_word(dest@, comp@, jump@) {
            Ok(word) => r is Ok && r->Ok_0@ == word,
            Err(e) => r == Err::<String, AsmError>(e),
        },
{
    if codegen.find_dest(dest).is_none() {
        return Err(AsmError::UnknownDest);
    }
    if codegen.find_comp(comp).is_none() {
        return Err(AsmError::UnknownComp);
    }
    if codegen.find_jump(jump).is_none() {
        return Err(AsmError::UnknownJump);
    }
    let mut word = String::from_str("111");
    let abit = codegen.gen_abit(comp);
    word.append(abit.as_str());
    let comp_code = codegen.gen_comp(comp);
    word.append(comp_code.as_str());
    let dest_code = codegen.gen_dest(dest);
    word.append(dest_code.as_str());
    let jump_code = codegen.gen_jump(jump);
    word.append(jump_code.as_str());
    Ok(word)
}

/// Encodes an address instruction that loads `address`.
pub fn encode_address(address: usize) -> (word: String)
    ensures
        word@ == address_word(address as nat),
{
    let mut word = String::from_str("0");
    let low = bits_string(address, 15);
    word.append(low.as_str());
    word
}

proof fn lemma_labelled_step(
    codes: Seq<Seq<char>>,
    from: int,
    address: nat,
    symbols: Map<Seq<char>, usize>,
)
    requires
        0 <= from <= codes.len(),
    ensures
        ({
            let k = next_code_at(codes, from);
            labelled(codes, from, address, symbols) == labelled(codes, k, address, symbols)
        }),
    decreases codes.len() - from,
{
    if from < codes.len() && code_of(codes[from]).len() == 0 {
        lemma_labelled_step(codes, from + 1, address, symbols);
    }
}

proof fn lemma_encoded_step(
    codes: Seq<Seq<char>>,
    from: int,
    symbols: Map<Seq<char>, usize>,
    next_variable: nat,
)
    requires
        0 <= from <= codes.len(),
    ensures
        ({
            let k = next_code_at(codes, from);
            encoded(codes, from, symbols, next_variable) == encoded(
                codes,
                k,
                symbols,
                next_variable,
            )
        }),
    decreases codes.len() - from,
{
    if from < codes.len() && code_of(codes[from]).len() == 0 {
        lemma_encoded_step(codes, from + 1, symbols, next_variable);
    }
}

/// What is left to encode from line `from` on, added to the words `done`.
pub open spec fn pending_words(
    codes: Seq<Seq<char>>,
    from: int,
    symbols: Map<Seq<char>, usize>,
    next_variable: nat,
    done: Seq<Seq<char>>,
) -> Result<Seq<Seq<char>>, AsmError> {
    match encoded(codes, from, symbols, next_variable) {
        Err(e) => Err(e),
        Ok(rest) => Ok(done + rest),
    }
}

/// Reads the label declarations of the program into `table`.
fn first_pass(parser: &mut Parser, table: &mut SymbolTable) -> (r: Result<(), AsmError>)
    requires
        old(parser).lineno == 0,
    ensures
        final(parser).source() == old(parser).source(),
        match labelled(old(parser).source(), 0, 0, old(table)@) {
            Ok(symbols) => r is Ok && final(table)@ == symbols,
            Err(e) => r == Err::<(), AsmError>(e),
        },
{
    let ghost codes = parser.source();
    let ghost goal = labelled(codes, 0, 0, table@);
    let mut address: usize = 0;
    while parser.has_more_lines()
        invariant
            parser.source() == codes,
            codes == old(parser).source(),
            goal == labelled(codes, 0, 0, old(table)@),
            parser.lineno <= codes.len(),
            address <= parser.lineno,
            goal == labelled(codes, parser.lineno as int, address as nat, table@),
        decreases codes.len() - parser.lineno,
    {
        proof {
            lemma_labelled_step(codes, parser.lineno as int, address as nat, table@);
            lemma_next_code_at_bounds(codes, parser.lineno as int);
        }
        match parser.advance() {
            Err(e) => {
                return Err(e);
            },
            Ok(false) => {},
            Ok(true) => {
                match parser.instruction_type {
                    InstructionType::L_INSTRUCTION => {
                        table.add_entry(parser.symbol.clone(), address);
                    },
                    _ => {
                        address += 1;
                    },
                }
            },
        }
    }
    Ok(())
}

/// Encodes the instructions of the program, with the labels in `table`.
fn second_pass(parser: &mut Parser, table: &mut SymbolTable, codegen: &CodeGen) -> (r: Result<
    Vec<String>,
    AsmError,
>)
    requires
        old(parser).lineno == 0,
        codegen.wf(),
    ensures
        final(parser).source() == old(parser).source(),
        match encoded(old(parser).source(), 0, old(table)@, FIRST_VARIABLE as nat) {
            Ok(words) => r is Ok && strings_view(r->Ok_0@) == words,
            Err(e) => r == Err::<Vec<String>, AsmError>(e),
        },
{
    let ghost codes = parser.source();
    let ghost goal = encoded(codes, 0, table@, FIRST_VARIABLE as nat);
    let mut words: Vec<String> = Vec::new();
    let mut next_variable: usize = FIRST_VARIABLE;
    proof {
        assert(strings_view(words@) =~= Seq::<Seq<char>>::empty());
        match goal {
            Ok(rest) => {
                assert(strings_view(words@) + rest =~= rest);
            },
            Err(_) => {},
        }
    }
    while parser.has_more_lines()
        invariant
            codegen.wf(),
            parser.source() == codes,
            codes == old(parser).source(),
            goal == encoded(codes, 0, old(table)@, FIRST_VARIABLE as nat),
            parser.lineno <= codes.len(),
            goal == pending_words(
                codes,
                parser.lineno as int,
                table@,
                next_variable as nat,
                strings_view(words@),
            ),
        decreases codes.len() - parser.lineno,
    {
        proof {
            lemma_encoded_step(codes, parser.lineno as int, table@, next_variable as nat);
            lemma_next_code_at_bounds(codes, parser.lineno as int);
        }
        let ghost k = next_code_at(codes, parser.lineno as int);
        let ghost done = strings_view(words@);
        match parser.advance() {
            Err(e) => {
                return Err(e);
            },
            Ok(false) => {},
            Ok(true) => {
                match parser.instruction_type {
                    InstructionType::L_INSTRUCTION => {},
                    InstructionType::A_INSTRUCTION => {
                        let address = match resolve_symbol(
                            &parser.symbol,
                            table,
                            &mut next_variable,
                        ) {
                            Ok(address) => address,
                            Err(e) => {
                                return Err(e);
                            },
                        };
                        let word = encode_address(address);
                        proof {
                            assert(strings_view(words@.push(word)) =~= done + seq![word@]);
                            match encoded(codes, k + 1, table@, next_variable as nat) {
                                Ok(rest) => {
                                    assert(done + (seq![word@] + rest) =~= done + seq![word@]
                                        + rest);
                                },
                                Err(_) => {},
                            }
                        }
                        words.push(word);
                    },
                    InstructionType::C_INSTRUCTION => {
                        let word = match encode_compute(
                            codegen,
                            &parser.dest,
                            &parser.comp,
                            &parser.jump,
                        ) {
                            Ok(word) => word,
                            Err(e) => {
                                return Err(e);
                            },
                        };
                        proof {
                            assert(strings_view(words@.push(word)) =~= done + seq![word@]);
                            match encoded(codes, k + 1, table@, next_variable as nat) {
                                Ok(rest) => {
                                    assert(done + (seq![word@] + rest) =~= done + seq![word@]
                                        + rest);
                                },
                                Err(_) => {},
                            }
                        }
                        words.push(word);
                    },
                }
            },
        }
    }
    proof {
        assert(strings_view(words@) + Seq::<Seq<char>>::empty() =~= strings_view(words@));
    }
    Ok(words)
}

/// Assembles the program with the lines `codes` into machine words of
/// sixteen binary digits each, or stops at the first error.
pub fn assemble_lines(codes: Vec<String>) -> (r: Result<Vec<String>, AsmError>)
    ensures
        match assembled(strings_view(codes@)) {
            Ok(words) => r is Ok && strings_view(r->Ok_0@) == words,
            Err(e) => r == Err::<Vec<String>, AsmError>(e),
        },
{
    let codegen = CodeGen::new();
    let mut table = SymbolTable::new();
    let mut parser = Parser::from_lines(codes);
    match first_pass(&mut parser, &mut table) {
        Err(e) => {
            return Err(e);
        },
        Ok(()) => {},
    }
    parser.lineno = 0;
    second_pass(&mut parser, &mut table, &codegen)
}

/// Assembles the program `contents`, whose lines end at each line break,
/// into machine words of sixteen binary digits each, or stops at the
/// first error.
pub fn assemble(contents: &str) -> (r: Result<Vec<String>, AsmError>)
    ensures
        match assembled(split_on(contents@, '\n')) {
            Ok(words) => r is Ok && strings_view(r->Ok_0@) == words,
            Err(e) => r == Err::<Vec<String>, AsmError>(e),
        },
{
    assemble_lines(split(contents, '\n'))
}

} // verus!
