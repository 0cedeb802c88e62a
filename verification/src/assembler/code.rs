//! The instruction tables of the assembler: from the mnemonics of a compute
//! instruction's three fields to their bits.

use vstd::prelude::*;
use vstd::string::*;

verus! {

/// The value of a table: pairs of a mnemonic and its bits.
pub open spec fn table_view(table: Seq<(String, String)>) -> Seq<(Seq<char>, Seq<char>)> {
    table.map_values(|e: (String, String)| (e.0@, e.1@))
}

/// The bits that the first entry for `key` holds, if there is one.
pub open spec fn lookup(table: Seq<(Seq<char>, Seq<char>)>, key: Seq<char>) -> Option<Seq<char>>
    decreases table.len(),
{
    if table.len() == 0 {
        None
    } else if table[0].0 == key {
        Some(table[0].1)
    } else {
        lookup(table.skip(1), key)
    }
}

/// The computations and their six bits `c1..c6`. A mnemonic that reads `M`
/// has the bits of the one that reads `A` in its place.
pub open spec fn comp_table() -> Seq<(Seq<char>, Seq<char>)> {
    seq![
        ("M"@, "110000"@),
        ("!M"@, "110001"@),
        ("-M"@, "110011"@),
        ("M+1"@, "110111"@),
        ("M-1"@, "110010"@),
        ("D+M"@, "000010"@),
        ("D-M"@, "010011"@),
        ("M-D"@, "000111"@),
        ("D&M"@, "000000"@),
        ("D|M"@, "010101"@),
        ("0"@, "101010"@),
        ("1"@, "111111"@),
        ("-1"@, "111010"@),
        ("D"@, "001100"@),
        ("A"@, "110000"@),
        ("!D"@, "001101"@),
        ("!A"@, "110001"@),
        ("-D"@, "001111"@),
        ("-A"@, "110011"@),
        ("D+1"@, "011111"@),
        ("A+1"@, "110111"@),
        ("D-1"@, "001110"@),
        ("A-1"@, "110010"@),
        ("D+A"@, "000010"@),
        ("D-A"@, "010011"@),
        ("A-D"@, "000111"@),
        ("D&A"@, "000000"@),
        ("D|A"@, "010101"@),
    ]
}

/// The destinations and their three bits `d1 d2 d3`.
pub open spec fn dest_table() -> Seq<(Seq<char>, Seq<char>)> {
    seq![
        ("null"@, "000"@),
        ("M"@, "001"@),
        ("D"@, "010"@),
        ("DM"@, "011"@),
        ("MD"@, "011"@),
        ("A"@, "100"@),
        ("AM"@, "101"@),
        ("AD"@, "110"@),
        ("ADM"@, "111"@),
    ]
}

/// The jumps and their three bits `j1 j2 j3`.
pub open spec fn jump_table() -> Seq<(Seq<char>, Seq<char>)> {
    seq![
        ("null"@, "000"@),
        ("JGT"@, "001"@),
        ("JEQ"@, "010"@),
        ("JGE"@, "011"@),
        ("JLT"@, "100"@),
        ("JNE"@, "101"@),
        ("JLE"@, "110"@),
        ("JMP"@, "111"@),
    ]
}

/// The six bits of the computation `mnemonic`, if it is one.
pub open spec fn comp_bits(mnemonic: Seq<char>) -> Option<Seq<char>> {
    lookup(comp_table(), mnemonic)
}

/// The three bits of the destination `mnemonic`, if it is one.
pub open spec fn dest_bits(mnemonic: Seq<char>) -> Option<Seq<char>> {
    lookup(dest_table(), mnemonic)
}

/// The three bits of the jump `mnemonic`, if it is one.
pub open spec fn jump_bits(mnemonic: Seq<char>) -> Option<Seq<char>> {
    lookup(jump_table(), mnemonic)
}

/// The `a` bit of a computation: `1` where it reads `M`, else `0`.
pub open spec fn a_bit(mnemonic: Seq<char>) -> Seq<char> {
    if mnemonic.contains('M') {
        "1"@
    } else {
        "0"@
    }
}

/// The mnemonic tables of the Hack instruction set.
#[derive(Debug, Clone)]
pub struct CodeGen {
    comp: Vec<(String, String)>,
    jump: Vec<(String, String)>,
    dest: Vec<(String, String)>,
}

fn entry(mnemonic: &str, bits: &str) -> (e: (String, String))
    ensures
        e.0@ == mnemonic@,
        e.1@ == bits@,
{
    (String::from_str(mnemonic), String::from_str(bits))
}

fn find(table: &Vec<(String, String)>, key: &String) -> (found: Option<String>)
    ensures
        match found {
            Some(bits) => lookup(table_view(table@), key@) == Some(bits@),
            None => lookup(table_view(table@), key@) is None,
        },
{
    let ghost tv = table_view(table@);
    let mut i: usize = 0;
    assert(tv.skip(0) =~= tv);
    while i < table.len()
        invariant
            i <= table@.len(),
            tv == table_view(table@),
            lookup(tv, key@) == lookup(tv.skip(i as int), key@),
        decreases table@.len() - i,
    {
        proof {
            assert(tv.skip(i as int)[0] == tv[i as int]);
            assert(tv.skip(i as int).skip(1) =~= tv.skip(i as int + 1));
        }
        if table[i].0 == *key {
            return Some(table[i].1.clone());
        }
        i += 1;
    }
    None
}

impl CodeGen {
    /// Whether the three tables are those of the Hack instruction set.
    pub closed spec fn wf(&self) -> bool {
        &&& table_view(self.comp@) == comp_table()
        &&& table_view(self.dest@) == dest_table()
        &&& table_view(self.jump@) == jump_table()
    }

    /// The tables of the Hack instruction set.
    pub fn new() -> (code: Self)
        ensures
            code.wf(),
    {
        let mut comp: Vec<(String, String)> = Vec::new();
        comp.push(entry("M", "110000"));
        comp.push(entry("!M", "110001"));
        comp.push(entry("-M", "110011"));
        comp.push(entry("M+1", "110111"));
        comp.push(entry("M-1", "110010"));
        comp.push(entry("D+M", "000010"));
        comp.push(entry("D-M", "010011"));
        comp.push(entry("M-D", "000111"));
        comp.push(entry("D&M", "000000"));
        comp.push(entry("D|M", "010101"));
        comp.push(entry("0", "101010"));
        comp.push(entry("1", "111111"));
        comp.push(entry("-1", "111010"));
        comp.push(entry("D", "001100"));
        comp.push(entry("A", "110000"));
        comp.push(entry("!D", "001101"));
        comp.push(entry("!A", "110001"));
        comp.push(entry("-D", "001111"));
        comp.push(entry("-A", "110011"));
        comp.push(entry("D+1", "011111"));
        comp.push(entry("A+1", "110111"));
        comp.push(entry("D-1", "001110"));
        comp.push(entry("A-1", "110010"));
        comp.push(entry("D+A", "000010"));
        comp.push(entry("D-A", "010011"));
        comp.push(entry("A-D", "000111"));
        comp.push(entry("D&A", "000000"));
        comp.push(entry("D|A", "010101"));
        assert(table_view(comp@) =~= comp_table());

        let mut dest: Vec<(String, String)> = Vec::new();
        dest.push(entry("null", "000"));
        dest.push(entry("M", "001"));
        dest.push(entry("D", "010"));
        dest.push(entry("DM", "011"));
        dest.push(entry("MD", "011"));
        dest.push(entry("A", "100"));
        dest.push(entry("AM", "101"));
        dest.push(entry("AD", "110"));
        dest.push(entry("ADM", "111"));
        assert(table_view(dest@) =~= dest_table());

        let mut jump: Vec<(String, String)> = Vec::new();
        jump.push(entry("null", "000"));
        jump.push(entry("JGT", "001"));
        jump.push(entry("JEQ", "010"));
        jump.push(entry("JGE", "011"));
        jump.push(entry("JLT", "100"));
        jump.push(entry("JNE", "101"));
        jump.push(entry("JLE", "110"));
        jump.push(entry("JMP", "111"));
        assert(table_view(jump@) =~= jump_table());

        CodeGen { comp, jump, dest }
    }

    /// The bits of the computation `code`, if the table holds it.
    pub fn find_comp(&self, code: &String) -> (found: Option<String>)
        requires
            self.wf(),
        ensures
            match found {
                Some(bits) => comp_bits(code@) == Some(bits@),
                None => comp_bits(code@) is None,
            },
    {
        find(&self.comp, code)
    }

    /// The bits of the destination `code`, if the table holds it.
    pub fn find_dest(&self, code: &String) -> (found: Option<String>)
        requires
            self.wf(),
        ensures
            match found {
                Some(bits) => dest_bits(code@) == Some(bits@),
                None => dest_bits(code@) is None,
            },
    {
        find(&self.dest, code)
    }

    /// The bits of the jump `code`, if the table holds it.
    pub fn find_jump(&self, code: &String) -> (found: Option<String>)
        requires
            self.wf(),
        ensures
            match found {
                Some(bits) => jump_bits(code@) == Some(bits@),
                None => jump_bits(code@) is None,
            },
    {
        find(&self.jump, code)
    }

    /// The six bits of the computation `code`, which the table must hold.
    pub fn gen_comp(&self, code: &String) -> (bits: String)
        requires
            self.wf(),
            comp_bits(code@) is Some,
        ensures
            comp_bits(code@) == Some(bits@),
    {
        match self.find_comp(code) {
            Some(bits) => bits,
            None => String::new(),
        }
    }

    /// The three bits of the destination `code`, which the table must hold.
    pub fn gen_dest(&self, code: &String) -> (bits: String)
        requires
            self.wf(),
            dest_bits(code@) is Some,
        ensures
            dest_bits(code@) == Some(bits@),
    {
        match self.find_dest(code) {
            Some(bits) => bits,
            None => String::new(),
        }
    }

    /// The three bits of the jump `code`, which the table must hold.
    pub fn gen_jump(&self, code: &String) -> (bits: String)
        requires
            self.wf(),
            jump_bits(code@) is Some,
        ensures
            jump_bits(code@) == Some(bits@),
    {
        match self.find_jump(code) {
            Some(bits) => bits,
            None => String::new(),
        }
    }

    /// The `a` bit of the computation `code`: `1` where it reads `M`.
    pub fn gen_abit(&self, code: &String) -> (bit: String)
        ensures
            bit@ == a_bit(code@),
    {
        let s = code.as_str();
        let n: usize = s.unicode_len();
        let mut i: usize = 0;
        while i < n
            invariant
                n == s@.len(),
                s@ == code@,
                i <= n,
                forall|k: int| 0 <= k < i ==> code@[k] != 'M',
            decreases n - i,
        {
            if s.get_char(i) == 'M' {
                assert(code@.contains('M'));
                return String::from_str("1");
            }
            i += 1;
        }
        assert(!code@.contains('M'));
        String::from_str("0")
    }
}

} // verus!
