use crate::text::{parse_u16, str_eq, u16_literal};
use vstd::prelude::*;

verus! {

/// The addresses that a list of bindings denotes: a later binding of a name replaces an
/// earlier one.
pub open spec fn bindings_map(s: Seq<(String, u16)>) -> Map<Seq<char>, u16>
    decreases s.len(),
{
    if s.len() == 0 {
        Map::empty()
    } else {
        bindings_map(s.drop_last()).insert(s.last().0@, s.last().1)
    }
}

/// The architectural names that every fresh table starts with.
pub open spec fn predefined_symbols() -> Map<Seq<char>, u16> {
    Map::empty().insert("R0"@, 0u16).insert("R1"@, 1u16).insert("R2"@, 2u16).insert(
        "R3"@,
        3u16,
    ).insert("R4"@, 4u16).insert("R5"@, 5u16).insert("R6"@, 6u16).insert("R7"@, 7u16).insert(
        "R8"@,
        8u16,
    ).insert("R9"@, 9u16).insert("R10"@, 10u16).insert("R11"@, 11u16).insert(
        "R12"@,
        12u16,
    ).insert("R13"@, 13u16).insert("R14"@, 14u16).insert("R15"@, 15u16).insert(
        "SCREEN"@,
        16384u16,
    ).insert("KBD"@, 24576u16).insert("SP"@, 0u16).insert("LCL"@, 1u16).insert(
        "ARG"@,
        2u16,
    ).insert("THIS"@, 3u16).insert("THAT"@, 4u16)
}

/// The address of a symbol, if it is bound.
pub open spec fn symbol_lookup(m: Map<Seq<char>, u16>, name: Seq<char>) -> Option<u16> {
    if m.contains_key(name) {
        Some(m[name])
    } else {
        None
    }
}

/// The table and the variable cursor after `name` is seen as an address operand: a bound name
/// stays as it is; a number is bound to its own value; any other name is bound to the cursor,
/// which then moves on by one.
pub open spec fn bind_operand(m: Map<Seq<char>, u16>, cursor: u16, name: Seq<char>) -> (Map<
    Seq<char>,
    u16,
>, u16) {
    if m.contains_key(name) {
        (m, cursor)
    } else {
        match u16_literal(name) {
            Some(v) => (m.insert(name, v), cursor),
            None => (m.insert(name, cursor), (cursor + 1) as u16),
        }
    }
}

/// Maps symbolic names (labels, variables, predefined registers) to 16-bit addresses, with the
/// next free address for a new variable.
#[derive(Debug)]
pub struct SymbolTable {
    pub table: Vec<(String, u16)>,
    pub current_variable: u16,
}

impl View for SymbolTable {
    type V = Map<Seq<char>, u16>;

    open spec fn view(&self) -> Map<Seq<char>, u16> {
        bindings_map(self.table@)
    }
}

proof fn lemma_later_bindings_miss(s: Seq<(String, u16)>, i: int, k: Seq<char>)
    requires
        0 <= i <= s.len(),
        forall|j: int| i <= j < s.len() ==> (#[trigger] s[j]).0@ != k,
    ensures
        symbol_lookup(bindings_map(s), k) == symbol_lookup(bindings_map(s.take(i)), k),
    decreases s.len(),
{
    if s.len() == i {
        assert(s.take(i) =~= s);
    } else {
        let p = s.drop_last();
        assert(p.take(i) =~= s.take(i));
        assert forall|j: int| i <= j < p.len() implies (#[trigger] p[j]).0@ != k by {
            assert(p[j] == s[j]);
        }
        lemma_later_bindings_miss(p, i, k);
        assert(s[s.len() - 1].0@ != k);
    }
}

impl SymbolTable {
    /// A table holding the predefined symbols, with variables to be allocated from 16.
    pub fn new() -> (r: SymbolTable)
        ensures
            r@ == predefined_symbols(),
            r.current_variable == 16,
    {
        let mut t = SymbolTable { table: Vec::new(), current_variable: 16 };
        proof {
            assert(t@ =~= Map::empty());
        }
        t.insert("R0".to_owned(), 0);
        t.insert("R1".to_owned(), 1);
        t.insert("R2".to_owned(), 2);
        t.insert("R3".to_owned(), 3);
        t.insert("R4".to_owned(), 4);
        t.insert("R5".to_owned(), 5);
        t.insert("R6".to_owned(), 6);
        t.insert("R7".to_owned(), 7);
        t.insert("R8".to_owned(), 8);
        t.insert("R9".to_owned(), 9);
        t.insert("R10".to_owned(), 10);
        t.insert("R11".to_owned(), 11);
        t.insert("R12".to_owned(), 12);
        t.insert("R13".to_owned(), 13);
        t.insert("R14".to_owned(), 14);
        t.insert("R15".to_owned(), 15);
        t.insert("SCREEN".to_owned(), 16384);
        t.insert("KBD".to_owned(), 24576);
        t.insert("SP".to_owned(), 0);
        t.insert("LCL".to_owned(), 1);
        t.insert("ARG".to_owned(), 2);
        t.insert("THIS".to_owned(), 3);
        t.insert("THAT".to_owned(), 4);
        t
    }

    /// Binds `name` to `address`, replacing any earlier binding of it.
    pub fn insert(&mut self, name: String, address: u16)
        ensures
            final(self)@ == old(self)@.insert(name@, address),
            final(self).current_variable == old(self).current_variable,
    {
        let ghost s0 = self.table@;
        self.table.push((name, address));
        proof {
            assert(self.table@.drop_last() =~= s0);
        }
    }

    /// The address bound to `name`, if any.
    pub fn lookup(&self, name: &str) -> (r: Option<u16>)
        ensures
            r == symbol_lookup(self@, name@),
    {
        let mut i: usize = self.table.len();
        while i > 0
            invariant
                i <= self.table@.len(),
                forall|j: int| i <= j < self.table@.len() ==> (#[trigger] self.table@[j]).0@ != name@,
            decreases i,
        {
            let e = &self.table[i - 1];
            if str_eq(e.0.as_str(), name) {
                proof {
                    let s = self.table@;
                    lemma_later_bindings_miss(s, i as int, name@);
                    let t = s.take(i as int);
                    assert(t.drop_last() =~= s.take(i - 1));
                    assert(t.last() == s[i - 1]);
                }
                return Some(e.1);
            }
            i -= 1;
        }
        proof {
            lemma_later_bindings_miss(self.table@, 0, name@);
            assert(self.table@.take(0) =~= Seq::<(String, u16)>::empty());
        }
        None
    }

    /// Whether `name` is bound.
    pub fn contains(&self, name: &str) -> (r: bool)
        ensures
            r == self@.contains_key(name@),
    {
        self.lookup(name).is_some()
    }

    /// Records `name` as seen in an address operand: if it is not bound yet, it is bound to its
    /// own value when it reads as an unsigned 16-bit number, and otherwise to the next free
    /// variable address.
    pub fn insert_if_absent(&mut self, name: &str)
        requires
            old(self).current_variable < u16::MAX,
        ensures
            (final(self)@, final(self).current_variable) == bind_operand(
                old(self)@,
                old(self).current_variable,
                name@,
            ),
    {
        if self.contains(name) {
            return;
        }
        match parse_u16(name) {
            Some(v) => {
                self.insert(name.to_owned(), v);
            },
            None => {
                let c = self.current_variable;
                self.insert(name.to_owned(), c);
                self.current_variable = c + 1;
            },
        }
    }
}

} // verus!
