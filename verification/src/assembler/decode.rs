//! What the bits of the instruction tables mean to the computer: the
//! arithmetic unit that the six bits of a computation drive, the registers
//! that the three bits of a destination select, and the conditions that the
//! three bits of a jump select. The laws of this module hold the tables of
//! the assembler to the machine model.

use vstd::prelude::*;
use crate::assembler::code::{
    a_bit, comp_bits, comp_table, dest_bits, dest_table, jump_bits, jump_table, lookup,
};
use crate::assembler::program::{address_word, compute_word};
use crate::assembly::{Comp, Dest, Jump};
use crate::machine::{
    computed, is_negative, is_word, jumps, step, word_and, word_not, word_or, wrap, Instruction,
    Machine,
};
use crate::text::bits;

verus! {

/// Whether the binary digit `c` is a one.
pub open spec fn is_one(c: char) -> bool {
    c == '1'
}

/// What the arithmetic unit puts out for the inputs `x` and `y` under the
/// six control bits `bits`: the first zeroes `x` and the second negates it
/// bit by bit; the third and the fourth do so to `y`; the fifth chooses the
/// sum of the two over their bitwise and; the sixth negates the output bit
/// by bit.
pub open spec fn alu(bits: Seq<char>, x: int, y: int) -> int {
    let x1 = if is_one(bits[0]) {
        0
    } else {
        x
    };
    let x2 = if is_one(bits[1]) {
        word_not(x1)
    } else {
        x1
    };
    let y1 = if is_one(bits[2]) {
        0
    } else {
        y
    };
    let y2 = if is_one(bits[3]) {
        word_not(y1)
    } else {
        y1
    };
    let out = if is_one(bits[4]) {
        wrap(x2 + y2)
    } else {
        word_and(x2, y2)
    };
    if is_one(bits[5]) {
        word_not(out)
    } else {
        out
    }
}

/// Whether the computer jumps on the computed word `value` under the three
/// jump bits `bits`: the first selects negative words, the second zero and
/// the third positive words.
pub open spec fn jump_unit(bits: Seq<char>, value: int) -> bool {
    ||| is_one(bits[0]) && is_negative(value)
    ||| is_one(bits[1]) && value == 0
    ||| is_one(bits[2]) && value != 0 && !is_negative(value)
}

/// The destination field that the assembler reads for `dest`: its
/// mnemonic, and `null` where there is no destination.
pub open spec fn dest_field(dest: Dest) -> Seq<char> {
    if dest == Dest::Null {
        "null"@
    } else {
        dest.mnemonic()
    }
}

/// The jump field that the assembler reads for `jump`: its mnemonic, and
/// `null` where there is no jump.
pub open spec fn jump_field(jump: Jump) -> Seq<char> {
    if jump == Jump::Null {
        "null"@
    } else {
        jump.mnemonic()
    }
}

/// Whether the table holds the computation `comp` and its bits drive the
/// arithmetic unit to what the machine model says that `comp` computes
/// from the registers `a` and `d` and the memory word `m`. The `a` bit
/// chooses between `a` and `m` for the second input.
pub open spec fn computes(comp: Comp, a: int, d: int, m: int) -> bool {
    let mnemonic = comp.mnemonic();
    &&& comp_bits(mnemonic) is Some
    &&& comp_bits(mnemonic)->0.len() == 6
    &&& a_bit(mnemonic).len() == 1
    &&& alu(
        comp_bits(mnemonic)->0,
        d,
        if is_one(a_bit(mnemonic)[0]) {
            m
        } else {
            a
        },
    ) == computed(comp, a, d, m)
}

/// Whether the table holds the destination `dest` and its three bits
/// select the registers that the machine model says that `dest` stores
/// into: the first `A`, the second `D`, the third `M`.
pub open spec fn stores(dest: Dest) -> bool {
    let bits = dest_bits(dest_field(dest));
    &&& bits is Some
    &&& bits->0.len() == 3
    &&& is_one(bits->0[0]) == dest.writes_a()
    &&& is_one(bits->0[1]) == dest.writes_d()
    &&& is_one(bits->0[2]) == dest.writes_m()
}

/// Whether the table holds the jump `jump` and its three bits make the
/// computer jump on the word `value` just where the machine model says
/// that `jump` is taken.
pub open spec fn decides(jump: Jump, value: int) -> bool {
    let bits = jump_bits(jump_field(jump));
    &&& bits is Some
    &&& bits->0.len() == 3
    &&& jump_unit(bits->0, value) == jumps(jump, value)
}

/// Whether the text `s` is written with these one character.
pub open spec fn spells1(s: Seq<char>, c0: char) -> bool {
    &&& s.len() == 1
    &&& s[0] == c0
}

/// Whether the text `s` is written with these two characters.
pub open spec fn spells2(s: Seq<char>, c0: char, c1: char) -> bool {
    &&& s.len() == 2
    &&& s[0] == c0
    &&& s[1] == c1
}

/// Whether the text `s` is written with these three characters.
pub open spec fn spells3(s: Seq<char>, c0: char, c1: char, c2: char) -> bool {
    &&& s.len() == 3
    &&& s[0] == c0
    &&& s[1] == c1
    &&& s[2] == c2
}

/// Whether the text `s` is written with these four characters.
pub open spec fn spells4(s: Seq<char>, c0: char, c1: char, c2: char, c3: char) -> bool {
    &&& s.len() == 4
    &&& s[0] == c0
    &&& s[1] == c1
    &&& s[2] == c2
    &&& s[3] == c3
}

/// Whether the text `s` is written with these six characters.
pub open spec fn spells6(
    s: Seq<char>,
    c0: char,
    c1: char,
    c2: char,
    c3: char,
    c4: char,
    c5: char,
) -> bool {
    &&& s.len() == 6
    &&& s[0] == c0
    &&& s[1] == c1
    &&& s[2] == c2
    &&& s[3] == c3
    &&& s[4] == c4
    &&& s[5] == c5
}

/// Where an entry of a table is the first for its key, the table gives the
/// bits of the entry for the key.
pub proof fn lemma_lookup_at(table: Seq<(Seq<char>, Seq<char>)>, key: Seq<char>, i: int)
    requires
        0 <= i < table.len(),
        table[i].0 == key,
        forall|j: int| 0 <= j < i ==> (#[trigger] table[j]).0 != key,
    ensures
        lookup(table, key) == Some(table[i].1),
    decreases i,
{
    if i > 0 {
        let rest = table.skip(1);
        assert(rest[i - 1] == table[i]);
        assert forall|j: int| 0 <= j < i - 1 implies (#[trigger] rest[j]).0 != key by {
            assert(rest[j] == table[j + 1]);
        }
        lemma_lookup_at(rest, key, i - 1);
    }
}

/// All bits of a word and all ones are the word; by De Morgan, the bits
/// that `x` or `y` has are those that not both lack.
proof fn lemma_word_bits(x: int, y: int)
    requires
        is_word(x),
        is_word(y),
    ensures
        word_and(x, 65535) == x,
        word_and(65535, y) == y,
        word_not(word_and(word_not(x), word_not(y))) == word_or(x, y),
        is_word(word_and(x, y)),
{
    let a = x as u16;
    let b = y as u16;
    let c = !a & !b;
    assert(a & 65535u16 == a) by (bit_vector);
    assert(65535u16 & b == b) by (bit_vector);
    assert(!a == (65535u16 - a) as u16) by (bit_vector);
    assert(!b == (65535u16 - b) as u16) by (bit_vector);
    assert(!c == (65535u16 - c) as u16) by (bit_vector);
    assert(!(!a & !b) == a | b) by (bit_vector);
}

/// How the mnemonics of the computations are written.
pub proof fn lemma_comp_mnemonics()
    ensures
        spells1("M"@, 'M'),
        spells2("!M"@, '!', 'M'),
        spells2("-M"@, '-', 'M'),
        spells3("M+1"@, 'M', '+', '1'),
        spells3("M-1"@, 'M', '-', '1'),
        spells3("D+M"@, 'D', '+', 'M'),
        spells3("D-M"@, 'D', '-', 'M'),
        spells3("M-D"@, 'M', '-', 'D'),
        spells3("D&M"@, 'D', '&', 'M'),
        spells3("D|M"@, 'D', '|', 'M'),
        spells1("0"@, '0'),
        spells1("1"@, '1'),
        spells2("-1"@, '-', '1'),
        spells1("D"@, 'D'),
        spells1("A"@, 'A'),
        spells2("!D"@, '!', 'D'),
        spells2("!A"@, '!', 'A'),
        spells2("-D"@, '-', 'D'),
        spells2("-A"@, '-', 'A'),
        spells3("D+1"@, 'D', '+', '1'),
        spells3("A+1"@, 'A', '+', '1'),
        spells3("D-1"@, 'D', '-', '1'),
        spells3("A-1"@, 'A', '-', '1'),
        spells3("D+A"@, 'D', '+', 'A'),
        spells3("D-A"@, 'D', '-', 'A'),
        spells3("A-D"@, 'A', '-', 'D'),
        spells3("D&A"@, 'D', '&', 'A'),
        spells3("D|A"@, 'D', '|', 'A'),
{
    reveal_strlit("M");
    reveal_strlit("!M");
    reveal_strlit("-M");
    reveal_strlit("M+1");
    reveal_strlit("M-1");
    reveal_strlit("D+M");
    reveal_strlit("D-M");
    reveal_strlit("M-D");
    reveal_strlit("D&M");
    reveal_strlit("D|M");
    reveal_strlit("0");
    reveal_strlit("1");
    reveal_strlit("-1");
    reveal_strlit("D");
    reveal_strlit("A");
    reveal_strlit("!D");
    reveal_strlit("!A");
    reveal_strlit("-D");
    reveal_strlit("-A");
    reveal_strlit("D+1");
    reveal_strlit("A+1");
    reveal_strlit("D-1");
    reveal_strlit("A-1");
    reveal_strlit("D+A");
    reveal_strlit("D-A");
    reveal_strlit("A-D");
    reveal_strlit("D&A");
    reveal_strlit("D|A");
}

/// How the bits of the computations and of the `a` bit are written.
pub proof fn lemma_comp_bits()
    ensures
        spells6("110000"@, '1', '1', '0', '0', '0', '0'),
        spells6("110001"@, '1', '1', '0', '0', '0', '1'),
        spells6("110011"@, '1', '1', '0', '0', '1', '1'),
        spells6("110111"@, '1', '1', '0', '1', '1', '1'),
        spells6("110010"@, '1', '1', '0', '0', '1', '0'),
        spells6("000010"@, '0', '0', '0', '0', '1', '0'),
        spells6("010011"@, '0', '1', '0', '0', '1', '1'),
        spells6("000111"@, '0', '0', '0', '1', '1', '1'),
        spells6("000000"@, '0', '0', '0', '0', '0', '0'),
        spells6("010101"@, '0', '1', '0', '1', '0', '1'),
        spells6("101010"@, '1', '0', '1', '0', '1', '0'),
        spells6("111111"@, '1', '1', '1', '1', '1', '1'),
        spells6("111010"@, '1', '1', '1', '0', '1', '0'),
        spells6("001100"@, '0', '0', '1', '1', '0', '0'),
        spells6("001101"@, '0', '0', '1', '1', '0', '1'),
        spells6("001111"@, '0', '0', '1', '1', '1', '1'),
        spells6("011111"@, '0', '1', '1', '1', '1', '1'),
        spells6("001110"@, '0', '0', '1', '1', '1', '0'),
        spells1("0"@, '0'),
        spells1("1"@, '1'),
{
    reveal_strlit("110000");
    reveal_strlit("110001");
    reveal_strlit("110011");
    reveal_strlit("110111");
    reveal_strlit("110010");
    reveal_strlit("000010");
    reveal_strlit("010011");
    reveal_strlit("000111");
    reveal_strlit("000000");
    reveal_strlit("010101");
    reveal_strlit("101010");
    reveal_strlit("111111");
    reveal_strlit("111010");
    reveal_strlit("001100");
    reveal_strlit("001101");
    reveal_strlit("001111");
    reveal_strlit("011111");
    reveal_strlit("001110");
    reveal_strlit("0");
    reveal_strlit("1");
}

/// How the mnemonics of the destinations and of the jumps are written.
pub proof fn lemma_field_mnemonics()
    ensures
        spells4("null"@, 'n', 'u', 'l', 'l'),
        spells1("M"@, 'M'),
        spells1("D"@, 'D'),
        spells2("DM"@, 'D', 'M'),
        spells2("MD"@, 'M', 'D'),
        spells1("A"@, 'A'),
        spells2("AM"@, 'A', 'M'),
        spells2("AD"@, 'A', 'D'),
        spells3("ADM"@, 'A', 'D', 'M'),
        spells3("JGT"@, 'J', 'G', 'T'),
        spells3("JEQ"@, 'J', 'E', 'Q'),
        spells3("JGE"@, 'J', 'G', 'E'),
        spells3("JLT"@, 'J', 'L', 'T'),
        spells3("JNE"@, 'J', 'N', 'E'),
        spells3("JLE"@, 'J', 'L', 'E'),
        spells3("JMP"@, 'J', 'M', 'P'),
{
    reveal_strlit("null");
    reveal_strlit("M");
    reveal_strlit("D");
    reveal_strlit("DM");
    reveal_strlit("MD");
    reveal_strlit("A");
    reveal_strlit("AM");
    reveal_strlit("AD");
    reveal_strlit("ADM");
    reveal_strlit("JGT");
    reveal_strlit("JEQ");
    reveal_strlit("JGE");
    reveal_strlit("JLT");
    reveal_strlit("JNE");
    reveal_strlit("JLE");
    reveal_strlit("JMP");
}

/// How the bits of the destinations and of the jumps are written.
pub proof fn lemma_field_bits()
    ensures
        spells3("000"@, '0', '0', '0'),
        spells3("001"@, '0', '0', '1'),
        spells3("010"@, '0', '1', '0'),
        spells3("011"@, '0', '1', '1'),
        spells3("100"@, '1', '0', '0'),
        spells3("101"@, '1', '0', '1'),
        spells3("110"@, '1', '1', '0'),
        spells3("111"@, '1', '1', '1'),
{
    reveal_strlit("000");
    reveal_strlit("001");
    reveal_strlit("010");
    reveal_strlit("011");
    reveal_strlit("100");
    reveal_strlit("101");
    reveal_strlit("110");
    reveal_strlit("111");
}

/// The constants: zero, one and minus one.
proof fn lemma_constants(comp: Comp, a: int, d: int, m: int)
    requires
        is_word(a),
        is_word(d),
        is_word(m),
        comp == Comp::Zero || comp == Comp::One || comp == Comp::MinusOne,
    ensures
        computes(comp, a, d, m),
{
    lemma_comp_mnemonics();
    lemma_comp_bits();
    lemma_word_bits(d, a);
    lemma_word_bits(d, m);
    let table = comp_table();
    match comp {
        Comp::Zero => lemma_lookup_at(table, "0"@, 10),
        Comp::One => lemma_lookup_at(table, "1"@, 11),
        Comp::MinusOne => lemma_lookup_at(table, "-1"@, 12),
        _ => {},
    }
}

/// The copies of a register or of the memory word.
proof fn lemma_copies(comp: Comp, a: int, d: int, m: int)
    requires
        is_word(a),
        is_word(d),
        is_word(m),
        comp == Comp::D || comp == Comp::A || comp == Comp::M,
    ensures
        computes(comp, a, d, m),
{
    lemma_comp_mnemonics();
    lemma_comp_bits();
    lemma_word_bits(d, a);
    lemma_word_bits(d, m);
    let table = comp_table();
    match comp {
        Comp::D => lemma_lookup_at(table, "D"@, 13),
        Comp::A => lemma_lookup_at(table, "A"@, 14),
        Comp::M => lemma_lookup_at(table, "M"@, 0),
        _ => {},
    }
}

/// The bitwise complements.
proof fn lemma_complements(comp: Comp, a: int, d: int, m: int)
    requires
        is_word(a),
        is_word(d),
        is_word(m),
        comp == Comp::NotD || comp == Comp::NotA || comp == Comp::NotM,
    ensures
        computes(comp, a, d, m),
{
    lemma_comp_mnemonics();
    lemma_comp_bits();
    lemma_word_bits(d, a);
    lemma_word_bits(d, m);
    let table = comp_table();
    match comp {
        Comp::NotD => lemma_lookup_at(table, "!D"@, 15),
        Comp::NotA => lemma_lookup_at(table, "!A"@, 16),
        Comp::NotM => lemma_lookup_at(table, "!M"@, 1),
        _ => {},
    }
}

/// The negations in two's complement.
proof fn lemma_negations(comp: Comp, a: int, d: int, m: int)
    requires
        is_word(a),
        is_word(d),
        is_word(m),
        comp == Comp::NegD || comp == Comp::NegA || comp == Comp::NegM,
    ensures
        computes(comp, a, d, m),
{
    lemma_comp_mnemonics();
    lemma_comp_bits();
    lemma_word_bits(d, a);
    lemma_word_bits(d, m);
    let table = comp_table();
    match comp {
        Comp::NegD => lemma_lookup_at(table, "-D"@, 17),
        Comp::NegA => lemma_lookup_at(table, "-A"@, 18),
        Comp::NegM => lemma_lookup_at(table, "-M"@, 2),
        _ => {},
    }
}

/// The increments.
proof fn lemma_increments(comp: Comp, a: int, d: int, m: int)
    requires
        is_word(a),
        is_word(d),
        is_word(m),
        comp == Comp::DPlusOne || comp == Comp::APlusOne || comp == Comp::MPlusOne,
    ensures
        computes(comp, a, d, m),
{
    lemma_comp_mnemonics();
    lemma_comp_bits();
    lemma_word_bits(d, a);
    lemma_word_bits(d, m);
    let table = comp_table();
    match comp {
        Comp::DPlusOne => lemma_lookup_at(table, "D+1"@, 19),
        Comp::APlusOne => lemma_lookup_at(table, "A+1"@, 20),
        Comp::MPlusOne => lemma_lookup_at(table, "M+1"@, 3),
        _ => {},
    }
}

/// The decrements.
proof fn lemma_decrements(comp: Comp, a: int, d: int, m: int)
    requires
        is_word(a),
        is_word(d),
        is_word(m),
        comp == Comp::DMinusOne || comp == Comp::AMinusOne || comp == Comp::MMinusOne,
    ensures
        computes(comp, a, d, m),
{
    lemma_comp_mnemonics();
    lemma_comp_bits();
    lemma_word_bits(d, a);
    lemma_word_bits(d, m);
    let table = comp_table();
    match comp {
        Comp::DMinusOne => lemma_lookup_at(table, "D-1"@, 21),
        Comp::AMinusOne => lemma_lookup_at(table, "A-1"@, 22),
        Comp::MMinusOne => lemma_lookup_at(table, "M-1"@, 4),
        _ => {},
    }
}

/// The sums.
proof fn lemma_sums(comp: Comp, a: int, d: int, m: int)
    requires
        is_word(a),
        is_word(d),
        is_word(m),
        comp == Comp::DPlusA || comp == Comp::DPlusM,
    ensures
        computes(comp, a, d, m),
{
    lemma_comp_mnemonics();
    lemma_comp_bits();
    lemma_word_bits(d, a);
    lemma_word_bits(d, m);
    let table = comp_table();
    match comp {
        Comp::DPlusA => lemma_lookup_at(table, "D+A"@, 23),
        Comp::DPlusM => lemma_lookup_at(table, "D+M"@, 5),
        _ => {},
    }
}

/// The differences.
proof fn lemma_differences(comp: Comp, a: int, d: int, m: int)
    requires
        is_word(a),
        is_word(d),
        is_word(m),
        comp == Comp::DMinusA || comp == Comp::DMinusM || comp == Comp::AMinusD || comp
            == Comp::MMinusD,
    ensures
        computes(comp, a, d, m),
{
    lemma_comp_mnemonics();
    lemma_comp_bits();
    lemma_word_bits(d, a);
    lemma_word_bits(d, m);
    let table = comp_table();
    match comp {
        Comp::DMinusA => lemma_lookup_at(table, "D-A"@, 24),
        Comp::DMinusM => lemma_lookup_at(table, "D-M"@, 6),
        Comp::AMinusD => lemma_lookup_at(table, "A-D"@, 25),
        Comp::MMinusD => lemma_lookup_at(table, "M-D"@, 7),
        _ => {},
    }
}

/// The bitwise ands and ors.
proof fn lemma_conjunctions(comp: Comp, a: int, d: int, m: int)
    requires
        is_word(a),
        is_word(d),
        is_word(m),
        comp == Comp::DAndA || comp == Comp::DAndM || comp == Comp::DOrA || comp == Comp::DOrM,
    ensures
        computes(comp, a, d, m),
{
    lemma_comp_mnemonics();
    lemma_comp_bits();
    lemma_word_bits(d, a);
    lemma_word_bits(d, m);
    let table = comp_table();
    match comp {
        Comp::DAndA => lemma_lookup_at(table, "D&A"@, 26),
        Comp::DAndM => lemma_lookup_at(table, "D&M"@, 8),
        Comp::DOrA => lemma_lookup_at(table, "D|A"@, 27),
        Comp::DOrM => lemma_lookup_at(table, "D|M"@, 9),
        _ => {},
    }
}

/// The table of computations is that of the computer: for every
/// computation that a line can hold and all words in the registers and
/// the memory, the bits that the assembler writes for its mnemonic make
/// the arithmetic unit compute what the machine model says.
pub proof fn law_comp_bits_compute(comp: Comp, a: int, d: int, m: int)
    requires
        is_word(a),
        is_word(d),
        is_word(m),
    ensures
        computes(comp, a, d, m),
{
    match comp {
        Comp::Zero => lemma_constants(comp, a, d, m),
        Comp::One => lemma_constants(comp, a, d, m),
        Comp::MinusOne => lemma_constants(comp, a, d, m),
        Comp::D => lemma_copies(comp, a, d, m),
        Comp::A => lemma_copies(comp, a, d, m),
        Comp::M => lemma_copies(comp, a, d, m),
        Comp::NotD => lemma_complements(comp, a, d, m),
        Comp::NotA => lemma_complements(comp, a, d, m),
        Comp::NotM => lemma_complements(comp, a, d, m),
        Comp::NegD => lemma_negations(comp, a, d, m),
        Comp::NegA => lemma_negations(comp, a, d, m),
        Comp::NegM => lemma_negations(comp, a, d, m),
        Comp::DPlusOne => lemma_increments(comp, a, d, m),
        Comp::APlusOne => lemma_increments(comp, a, d, m),
        Comp::MPlusOne => lemma_increments(comp, a, d, m),
        Comp::DMinusOne => lemma_decrements(comp, a, d, m),
        Comp::AMinusOne => lemma_decrements(comp, a, d, m),
        Comp::MMinusOne => lemma_decrements(comp, a, d, m),
        Comp::DPlusA => lemma_sums(comp, a, d, m),
        Comp::DPlusM => lemma_sums(comp, a, d, m),
        Comp::DMinusA => lemma_differences(comp, a, d, m),
        Comp::DMinusM => lemma_differences(comp, a, d, m),
        Comp::AMinusD => lemma_differences(comp, a, d, m),
        Comp::MMinusD => lemma_differences(comp, a, d, m),
        Comp::DAndA => lemma_conjunctions(comp, a, d, m),
        Comp::DAndM => lemma_conjunctions(comp, a, d, m),
        Comp::DOrA => lemma_conjunctions(comp, a, d, m),
        Comp::DOrM => lemma_conjunctions(comp, a, d, m),
    }
}

/// The table of destinations is that of the computer: for every
/// destination that a line can hold, the bits that the assembler writes
/// for its field select the registers that the machine model stores into.
pub proof fn law_dest_bits_store(dest: Dest)
    ensures
        stores(dest),
{
    lemma_field_mnemonics();
    lemma_field_bits();
    let table = dest_table();
    match dest {
        Dest::Null => lemma_lookup_at(table, "null"@, 0),
        Dest::M => lemma_lookup_at(table, "M"@, 1),
        Dest::D => lemma_lookup_at(table, "D"@, 2),
        Dest::DM => lemma_lookup_at(table, "DM"@, 3),
        Dest::A => lemma_lookup_at(table, "A"@, 5),
        Dest::AM => lemma_lookup_at(table, "AM"@, 6),
        Dest::AD => lemma_lookup_at(table, "AD"@, 7),
        Dest::ADM => lemma_lookup_at(table, "ADM"@, 8),
    }
}

/// The table of jumps is that of the computer: for every jump that a line
/// can hold and every computed word, the bits that the assembler writes
/// for its field make the computer jump just where the machine model
/// jumps.
pub proof fn law_jump_bits_decide(jump: Jump, value: int)
    ensures
        decides(jump, value),
{
    lemma_field_mnemonics();
    lemma_field_bits();
    let table = jump_table();
    match jump {
        Jump::Null => lemma_lookup_at(table, "null"@, 0),
        Jump::JGT => lemma_lookup_at(table, "JGT"@, 1),
        Jump::JEQ => lemma_lookup_at(table, "JEQ"@, 2),
        Jump::JGE => lemma_lookup_at(table, "JGE"@, 3),
        Jump::JLT => lemma_lookup_at(table, "JLT"@, 4),
        Jump::JNE => lemma_lookup_at(table, "JNE"@, 5),
        Jump::JLE => lemma_lookup_at(table, "JLE"@, 6),
        Jump::JMP => lemma_lookup_at(table, "JMP"@, 7),
    }
}

/// A numeral of `width` binary digits has `width` characters.
pub proof fn lemma_bits_len(n: nat, width: nat)
    ensures
        bits(n, width).len() == width,
    decreases width,
{
    if width > 0 {
        lemma_bits_len(n / 2, (width - 1) as nat);
    }
}

/// Every instruction that a line can hold has a word of sixteen binary
/// digits: the assembler finds the fields of every compute instruction in
/// its tables, and writes sixteen digits for it and for every address
/// instruction.
pub proof fn law_words_have_sixteen_bits(dest: Dest, comp: Comp, jump: Jump, address: nat)
    ensures
        compute_word(dest_field(dest), comp.mnemonic(), jump_field(jump)) is Ok,
        compute_word(dest_field(dest), comp.mnemonic(), jump_field(jump))->Ok_0.len() == 16,
        address_word(address).len() == 16,
{
    law_comp_bits_compute(comp, 0, 0, 0);
    law_dest_bits_store(dest);
    law_jump_bits_decide(jump, 0);
    lemma_bits_len(address, 15);
    reveal_strlit("111");
    reveal_strlit("0");
}

/// The number that the binary digits `s` write, the most significant
/// first.
pub open spec fn binary_value(s: Seq<char>) -> nat
    decreases s.len(),
{
    if s.len() == 0 {
        0
    } else {
        2 * binary_value(s.drop_last()) + (if is_one(s.last()) {
            1nat
        } else {
            0nat
        })
    }
}

/// Two to the power `n`.
pub open spec fn two_to(n: nat) -> nat
    decreases n,
{
    if n == 0 {
        1
    } else {
        2 * two_to((n - 1) as nat)
    }
}

/// The binary digits of a number that fits them write the number.
pub proof fn lemma_bits_value(n: nat, width: nat)
    requires
        n < two_to(width),
    ensures
        binary_value(bits(n, width)) == n,
    decreases width,
{
    if width == 0 {
    } else {
        lemma_bits_value(n / 2, (width - 1) as nat);
        let digits = bits(n, width);
        assert(digits.drop_last() =~= bits(n / 2, (width - 1) as nat));
    }
}

/// What a machine word does to the computer. A word that starts with a
/// zero loads the number of its other fifteen bits into `A`. A word that
/// starts with a one computes: its fourth bit chooses `M` over `A` for the
/// second input of the arithmetic unit, the next six bits drive the unit,
/// the next three select the registers that take the output, and the last
/// three the conditions under which the computer jumps to the instruction
/// that `A` addresses.
pub open spec fn word_step(word: Seq<char>, s: Machine) -> Machine {
    if !is_one(word[0]) {
        Machine { a: binary_value(word.subrange(1, 16)) as int, d: s.d, pc: s.pc + 1, ram: s.ram }
    } else {
        let second = if is_one(word[3]) {
            s.ram[s.a]
        } else {
            s.a
        };
        let value = alu(word.subrange(4, 10), s.d, second);
        Machine {
            a: if is_one(word[10]) {
                value
            } else {
                s.a
            },
            d: if is_one(word[11]) {
                value
            } else {
                s.d
            },
            pc: if jump_unit(word.subrange(13, 16), value) {
                s.a
            } else {
                s.pc + 1
            },
            ram: if is_one(word[12]) {
                s.ram.insert(s.a, value)
            } else {
                s.ram
            },
        }
    }
}

/// The word of an address instruction loads its number: what the
/// assembler writes for `@n` does to the computer what the machine model
/// says of the instruction.
pub proof fn law_address_word_loads(n: nat, s: Machine)
    requires
        n <= 32767,
    ensures
        word_step(address_word(n), s) == step(Instruction::Load(n as int), s),
{
    reveal_strlit("0");
    lemma_bits_len(n, 15);
    let word = address_word(n);
    assert(word.subrange(1, 16) =~= bits(n, 15));
    assert(two_to(15) == 32768) by {
        reveal_with_fuel(two_to, 16);
    }
    lemma_bits_value(n, 15);
}

/// The word of a compute instruction computes, stores and jumps as the
/// instruction does: what the assembler writes for the fields of a line
/// does to the computer what the machine model says of the instruction,
/// wherever the registers and the memory hold words.
pub proof fn law_compute_word_computes(dest: Dest, comp: Comp, jump: Jump, s: Machine)
    requires
        s.holds_words(),
    ensures
        compute_word(dest_field(dest), comp.mnemonic(), jump_field(jump)) is Ok,
        word_step(compute_word(dest_field(dest), comp.mnemonic(), jump_field(jump))->Ok_0, s)
            == step(Instruction::Compute { dest, comp, jump }, s),
{
    let memory = s.ram[s.a];
    assert(is_word(memory));
    law_comp_bits_compute(comp, s.a, s.d, memory);
    law_dest_bits_store(dest);
    reveal_strlit("111");
    let abit = a_bit(comp.mnemonic());
    let cbits = comp_bits(comp.mnemonic())->0;
    let dbits = dest_bits(dest_field(dest))->0;
    let jbits = jump_bits(jump_field(jump))->0;
    law_jump_bits_decide(jump, computed(comp, s.a, s.d, memory));
    let word = compute_word(dest_field(dest), comp.mnemonic(), jump_field(jump))->Ok_0;
    assert(word == "111"@ + abit + cbits + dbits + jbits);
    assert(word[0] == '1');
    assert(word[3] == abit[0]);
    assert(word.subrange(4, 10) =~= cbits);
    assert(word[10] == dbits[0]);
    assert(word[11] == dbits[1]);
    assert(word[12] == dbits[2]);
    assert(word.subrange(13, 16) =~= jbits);
}

} // verus!
