//! The symbol table of the assembler: from symbols to addresses.

use vstd::prelude::*;
use vstd::string::*;

verus! {

/// The map that a list of entries stands for: a later entry for a symbol
/// wins over those before it.
pub open spec fn entries_map(entries: Seq<(String, usize)>) -> Map<Seq<char>, usize>
    decreases entries.len(),
{
    if entries.len() == 0 {
        Map::empty()
    } else {
        entries_map(entries.drop_last()).insert(entries.last().0@, entries.last().1)
    }
}

/// The symbols that every program may use without declaring them.
pub open spec fn predefined_symbols() -> Map<Seq<char>, usize> {
    Map::<Seq<char>, usize>::empty().insert("R0"@, 0).insert("R1"@, 1).insert("R2"@, 2).insert(
        "R3"@,
        3,
    ).insert("R4"@, 4).insert("R5"@, 5).insert("R6"@, 6).insert("R7"@, 7).insert("R8"@, 8).insert(
        "R9"@,
        9,
    ).insert("R10"@, 10).insert("R11"@, 11).insert("R12"@, 12).insert("R13"@, 13).insert(
        "R14"@,
        14,
    ).insert("R15"@, 15).insert("SP"@, 0).insert("LCL"@, 1).insert("ARG"@, 2).insert(
        "THIS"@,
        3,
    ).insert("THAT"@, 4).insert("SCREEN"@, 16384).insert("KBD"@, 24576)
}

/// A table from symbols to addresses.
#[derive(Debug, Clone)]
pub struct SymbolTable {
    symbols: Vec<(String, usize)>,
}

impl View for SymbolTable {
    type V = Map<Seq<char>, usize>;

    closed spec fn view(&self) -> Map<Seq<char>, usize> {
        entries_map(self.symbols@)
    }
}

impl SymbolTable {
    /// A table that holds the predefined symbols.
    pub fn new() -> (table: Self)
        ensures
            table@ == predefined_symbols(),
    {
        let mut table = SymbolTable { symbols: Vec::new() };
        table.add_entry(String::from_str("R0"), 0);
        table.add_entry(String::from_str("R1"), 1);
        table.add_entry(String::from_str("R2"), 2);
        table.add_entry(String::from_str("R3"), 3);
        table.add_entry(String::from_str("R4"), 4);
        table.add_entry(String::from_str("R5"), 5);
        table.add_entry(String::from_str("R6"), 6);
        table.add_entry(String::from_str("R7"), 7);
        table.add_entry(String::from_str("R8"), 8);
        table.add_entry(String::from_str("R9"), 9);
        table.add_entry(String::from_str("R10"), 10);
        table.add_entry(String::from_str("R11"), 11);
        table.add_entry(String::from_str("R12"), 12);
        table.add_entry(String::from_str("R13"), 13);
        table.add_entry(String::from_str("R14"), 14);
        table.add_entry(String::from_str("R15"), 15);
        table.add_entry(String::from_str("SP"), 0);
        table.add_entry(String::from_str("LCL"), 1);
        table.add_entry(String::from_str("ARG"), 2);
        table.add_entry(String::from_str("THIS"), 3);
        table.add_entry(String::from_str("THAT"), 4);
        table.add_entry(String::from_str("SCREEN"), 16384);
        table.add_entry(String::from_str("KBD"), 24576);
        table
    }

    /// Gives `symbol_name` the address `address`, in place of any it had.
    pub fn add_entry(&mut self, symbol_name: String, address: usize)
        ensures
            final(self)@ == old(self)@.insert(symbol_name@, address),
    {
        let ghost name = symbol_name@;
        self.symbols.push((symbol_name, address));
        assert(self.symbols@.drop_last() =~= old(self).symbols@);
    }

    /// The address of `symbol_name`, if the table holds it.
    pub fn lookup(&self, symbol_name: &String) -> (found: Option<usize>)
        ensures
            found == (if self@.contains_key(symbol_name@) {
                Some(self@[symbol_name@])
            } else {
                None
            }),
    {
        let mut i: usize = self.symbols.len();
        assert(self.symbols@.take(i as int) =~= self.symbols@);
        while i > 0
            invariant
                i <= self.symbols@.len(),
                self@.contains_key(symbol_name@) == entries_map(
                    self.symbols@.take(i as int),
                ).contains_key(symbol_name@),
                self@.contains_key(symbol_name@) ==> self@[symbol_name@] == entries_map(
                    self.symbols@.take(i as int),
                )[symbol_name@],
            decreases i,
        {
            i -= 1;
            proof {
                let prefix = self.symbols@.take(i as int + 1);
                assert(prefix.drop_last() =~= self.symbols@.take(i as int));
                assert(prefix.last() == self.symbols@[i as int]);
            }
            if self.symbols[i].0 == *symbol_name {
                return Some(self.symbols[i].1);
            }
        }
        None
    }

    /// Whether the table holds `symbol_name`.
    pub fn contains(&self, symbol_name: &String) -> (held: bool)
        ensures
            held == self@.contains_key(symbol_name@),
    {
        self.lookup(symbol_name).is_some()
    }

    /// The address of `symbol_name`, which the table must hold.
    pub fn get_address(&self, symbol_name: &String) -> (address: usize)
        requires
            self@.contains_key(symbol_name@),
        ensures
            address == self@[symbol_name@],
    {
        match self.lookup(symbol_name) {
            Some(address) => address,
            None => 0,
        }
    }
}

} // verus!
