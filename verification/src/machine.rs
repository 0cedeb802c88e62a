//! A model of the Hack computer: two registers, a program counter and a
//! memory of 16-bit words, and what one instruction does to them. The
//! model is mathematical: it is what the translator's laws speak of, and
//! no code of the library runs it.

use vstd::prelude::*;
use crate::assembly::{Comp, Dest, Jump};

verus! {

/// The word that the integer `x` is truncated to: two's complement
/// arithmetic wraps around.
pub open spec fn wrap(x: int) -> int {
    x % 65536
}

/// The word with the bits that both `x` and `y` have.
pub open spec fn word_and(x: int, y: int) -> int {
    ((x as u16) & (y as u16)) as int
}

/// The word with the bits that `x` or `y` has.
pub open spec fn word_or(x: int, y: int) -> int {
    ((x as u16) | (y as u16)) as int
}

/// The word with the bits that `x` has not.
pub open spec fn word_not(x: int) -> int {
    65535 - x
}

/// Whether the word `x` is negative in two's complement.
pub open spec fn is_negative(x: int) -> bool {
    x >= 32768
}

/// The word that stands for true: all bits set, minus one in two's
/// complement.
pub open spec fn word_true() -> int {
    65535
}

/// The word that stands for false.
pub open spec fn word_false() -> int {
    0
}

/// One instruction in program memory, with its symbol resolved.
pub enum Instruction {
    /// Loads the number into `A`.
    Load(int),
    /// Computes, stores and jumps.
    Compute { dest: Dest, comp: Comp, jump: Jump },
}

/// The state of the computer.
pub struct Machine {
    /// The address register.
    pub a: int,
    /// The data register.
    pub d: int,
    /// The address of the next instruction.
    pub pc: int,
    /// The data memory, from addresses to words.
    pub ram: Map<int, int>,
}

/// What `comp` computes from the registers `a` and `d` and the memory
/// word `m`.
pub open spec fn computed(comp: Comp, a: int, d: int, m: int) -> int {
    match comp {
        Comp::Zero => 0,
        Comp::One => 1,
        Comp::MinusOne => 65535,
        Comp::D => d,
        Comp::A => a,
        Comp::M => m,
        Comp::NotD => word_not(d),
        Comp::NotA => word_not(a),
        Comp::NotM => word_not(m),
        Comp::NegD => wrap(-d),
        Comp::NegA => wrap(-a),
        Comp::NegM => wrap(-m),
        Comp::DPlusOne => wrap(d + 1),
        Comp::APlusOne => wrap(a + 1),
        Comp::MPlusOne => wrap(m + 1),
        Comp::DMinusOne => wrap(d - 1),
        Comp::AMinusOne => wrap(a - 1),
        Comp::MMinusOne => wrap(m - 1),
        Comp::DPlusA => wrap(d + a),
        Comp::DPlusM => wrap(d + m),
        Comp::DMinusA => wrap(d - a),
        Comp::DMinusM => wrap(d - m),
        Comp::AMinusD => wrap(a - d),
        Comp::MMinusD => wrap(m - d),
        Comp::DAndA => word_and(d, a),
        Comp::DAndM => word_and(d, m),
        Comp::DOrA => word_or(d, a),
        Comp::DOrM => word_or(d, m),
    }
}

/// Whether the jump `jump` is taken on the computed word `value`.
pub open spec fn jumps(jump: Jump, value: int) -> bool {
    match jump {
        Jump::Null => false,
        Jump::JGT => value != 0 && !is_negative(value),
        Jump::JEQ => value == 0,
        Jump::JGE => !is_negative(value),
        Jump::JLT => is_negative(value),
        Jump::JNE => value != 0,
        Jump::JLE => value == 0 || is_negative(value),
        Jump::JMP => true,
    }
}

/// The state after the instruction `instruction` ran in the state `s`. A
/// compute instruction reads `M` at the address in `A`, stores the word
/// it computes wherever its destination says, the memory cell being the
/// one that `A` addressed before, and goes on at that address where its
/// jump is taken, else at the next instruction.
pub open spec fn step(instruction: Instruction, s: Machine) -> Machine {
    match instruction {
        Instruction::Load(n) => Machine { a: n, d: s.d, pc: s.pc + 1, ram: s.ram },
        Instruction::Compute { dest, comp, jump } => {
            let value = computed(comp, s.a, s.d, s.ram[s.a]);
            Machine {
                a: if dest.writes_a() {
                    value
                } else {
                    s.a
                },
                d: if dest.writes_d() {
                    value
                } else {
                    s.d
                },
                pc: if jumps(jump, value) {
                    s.a
                } else {
                    s.pc + 1
                },
                ram: if dest.writes_m() {
                    s.ram.insert(s.a, value)
                } else {
                    s.ram
                },
            }
        },
    }
}

/// The state after `steps` instructions of the program `rom` ran from the
/// state `s`. Where the program counter leaves the program, the computer
/// stays as it is.
pub open spec fn run(rom: Seq<Instruction>, s: Machine, steps: nat) -> Machine
    decreases steps,
{
    if steps == 0 || s.pc < 0 || s.pc >= rom.len() {
        s
    } else {
        run(rom, step(rom[s.pc], s), (steps - 1) as nat)
    }
}

/// The state after the instructions of `code` ran one after the other from
/// the state `s`, whatever the program counter says.
pub open spec fn exec(code: Seq<Instruction>, s: Machine) -> Machine
    decreases code.len(),
{
    if code.len() == 0 {
        s
    } else {
        step(code.last(), exec(code.drop_last(), s))
    }
}

/// Whether the instruction never jumps.
pub open spec fn falls_through(instruction: Instruction) -> bool {
    match instruction {
        Instruction::Load(_) => true,
        Instruction::Compute { jump, .. } => jump == Jump::Null,
    }
}

/// Whether no instruction of `code` jumps.
pub open spec fn straight(code: Seq<Instruction>) -> bool {
    forall|k: int| 0 <= k < code.len() ==> falls_through(#[trigger] code[k])
}

/// Whether the program `rom` holds the instructions of `code` from the
/// address `at` on.
pub open spec fn placed(rom: Seq<Instruction>, at: int, code: Seq<Instruction>) -> bool {
    &&& 0 <= at
    &&& at + code.len() <= rom.len()
    &&& forall|k: int| 0 <= k < code.len() ==> rom[at + k] == #[trigger] code[k]
}

/// Running `m + n` steps is running `m` steps and then `n`.
pub proof fn lemma_run_add(rom: Seq<Instruction>, s: Machine, m: nat, n: nat)
    ensures
        run(rom, s, m + n) == run(rom, run(rom, s, m), n),
    decreases m,
{
    if m == 0 {
    } else if s.pc < 0 || s.pc >= rom.len() {
        lemma_run_stuck(rom, s, n);
    } else {
        lemma_run_add(rom, step(rom[s.pc], s), (m - 1) as nat, n);
    }
}

/// Outside the program the computer stays as it is.
pub proof fn lemma_run_stuck(rom: Seq<Instruction>, s: Machine, n: nat)
    requires
        s.pc < 0 || s.pc >= rom.len(),
    ensures
        run(rom, s, n) == s,
{
}

/// One step runs the instruction at the program counter.
pub proof fn lemma_run_one(rom: Seq<Instruction>, s: Machine)
    requires
        0 <= s.pc < rom.len(),
    ensures
        run(rom, s, 1) == step(rom[s.pc], s),
{
    assert(run(rom, step(rom[s.pc], s), 0) == step(rom[s.pc], s));
}

/// Instructions that run one after the other and never jump move the
/// program counter by their number.
pub proof fn lemma_exec_straight_pc(code: Seq<Instruction>, s: Machine)
    requires
        straight(code),
    ensures
        exec(code, s).pc == s.pc + code.len(),
    decreases code.len(),
{
    if code.len() > 0 {
        let front = code.drop_last();
        assert forall|k: int| 0 <= k < front.len() implies falls_through(#[trigger] front[k]) by {
            assert(front[k] == code[k]);
        }
        lemma_exec_straight_pc(front, s);
        assert(falls_through(code[code.len() - 1]));
    }
}

/// Where the program holds straight code at the program counter, running
/// as many steps as the code has instructions runs the code.
pub proof fn lemma_run_straight(rom: Seq<Instruction>, s: Machine, code: Seq<Instruction>)
    requires
        placed(rom, s.pc, code),
        straight(code),
    ensures
        run(rom, s, code.len()) == exec(code, s),
    decreases code.len(),
{
    if code.len() > 0 {
        let front = code.drop_last();
        let n = front.len();
        assert forall|k: int| 0 <= k < front.len() implies falls_through(#[trigger] front[k]) by {
            assert(front[k] == code[k]);
        }
        assert forall|k: int| 0 <= k < front.len() implies rom[s.pc + k] == #[trigger] front[k] by {
            assert(front[k] == code[k]);
        }
        lemma_run_straight(rom, s, front);
        lemma_exec_straight_pc(front, s);
        let mid = exec(front, s);
        lemma_run_add(rom, s, n, 1);
        assert(rom[s.pc + n] == code[n as int]);
        lemma_run_one(rom, mid);
    }
}

/// Running one piece of code and then another is running both.
pub proof fn lemma_exec_add(first: Seq<Instruction>, second: Seq<Instruction>, s: Machine)
    ensures
        exec(first + second, s) == exec(second, exec(first, s)),
    decreases second.len(),
{
    if second.len() == 0 {
        assert(first + second =~= first);
    } else {
        assert((first + second).drop_last() =~= first + second.drop_last());
        assert((first + second).last() == second.last());
        lemma_exec_add(first, second.drop_last(), s);
    }
}

/// Two pieces of straight code make straight code.
pub proof fn lemma_straight_add(first: Seq<Instruction>, second: Seq<Instruction>)
    requires
        straight(first),
        straight(second),
    ensures
        straight(first + second),
{
    assert forall|k: int| 0 <= k < (first + second).len() implies falls_through(
        #[trigger] (first + second)[k],
    ) by {
        if k < first.len() {
            assert((first + second)[k] == first[k]);
        } else {
            assert((first + second)[k] == second[k - first.len()]);
        }
    }
}

/// A program that holds two pieces of code in a row holds each.
pub proof fn lemma_placed_split(
    rom: Seq<Instruction>,
    at: int,
    first: Seq<Instruction>,
    second: Seq<Instruction>,
)
    requires
        placed(rom, at, first + second),
    ensures
        placed(rom, at, first),
        placed(rom, at + first.len(), second),
{
    let both = first + second;
    assert forall|k: int| 0 <= k < first.len() implies rom[at + k] == #[trigger] first[k] by {
        assert(both[k] == first[k]);
    }
    assert forall|k: int| 0 <= k < second.len() implies rom[at + first.len() + k]
        == #[trigger] second[k] by {
        assert(both[first.len() + k] == second[k]);
    }
}

/// Whether `x` is a word: an integer of sixteen bits.
pub open spec fn is_word(x: int) -> bool {
    0 <= x < 65536
}

/// The integer that the word `x` stands for in two's complement.
pub open spec fn signed(x: int) -> int {
    if is_negative(x) {
        x - 65536
    } else {
        x
    }
}

impl Machine {
    /// Whether the registers and all memory cells hold words.
    pub open spec fn holds_words(self) -> bool {
        &&& is_word(self.a)
        &&& is_word(self.d)
        &&& forall|x: int| is_word(#[trigger] self.ram[x])
    }
}

/// Whether the instruction loads a number of fifteen bits, if it loads
/// one.
pub open spec fn encodable(instruction: Instruction) -> bool {
    match instruction {
        Instruction::Load(n) => 0 <= n < 32768,
        Instruction::Compute { .. } => true,
    }
}

/// The model is closed under its instructions: where the registers and
/// the memory hold words, they hold words after any instruction that a
/// program can hold.
pub proof fn law_step_keeps_words(instruction: Instruction, s: Machine)
    requires
        s.holds_words(),
        encodable(instruction),
    ensures
        step(instruction, s).holds_words(),
{
    let t = step(instruction, s);
    match instruction {
        Instruction::Load(n) => {},
        Instruction::Compute { dest, comp, jump } => {
            let value = computed(comp, s.a, s.d, s.ram[s.a]);
            assert(is_word(s.ram[s.a]));
            assert(is_word(value));
            assert forall|x: int| is_word(#[trigger] t.ram[x]) by {
                if dest.writes_m() && x == s.a {
                } else {
                    assert(t.ram[x] == s.ram[x]);
                }
            }
        },
    }
}

/// What the conditions of the comparisons mean for words. The difference
/// of two words is zero just where they are one word. Where the
/// difference of the two integers that they stand for fits sixteen bits,
/// the truncated difference is positive just where the left integer is
/// the larger and negative just where it is the smaller.
pub proof fn law_difference_compares(left: int, right: int)
    requires
        is_word(left),
        is_word(right),
    ensures
        jumps(Jump::JEQ, wrap(left - right)) <==> left == right,
        -32768 <= signed(left) - signed(right) <= 32767 ==> (jumps(
            Jump::JGT,
            wrap(left - right),
        ) <==> signed(left) > signed(right)),
        -32768 <= signed(left) - signed(right) <= 32767 ==> (jumps(
            Jump::JLT,
            wrap(left - right),
        ) <==> signed(left) < signed(right)),
{
}

} // verus!
