//! The symbol table: a mapping from symbol name to numeric address, viewed
//! as a `Map<Seq<char>, nat>`, pre-seeded with the 23 architecture-reserved
//! names and carrying the allocation cursor for variable slots.

use vstd::prelude::*;
use vstd::string::*;

use crate::text::str_eq;

verus! {

/// One name-to-address binding.
pub struct Binding {
    pub key: String,
    pub addr: usize,
}

/// The mapping that a sequence of bindings denotes; a later binding for
/// the same name overrides an earlier one.
pub open spec fn map_of(s: Seq<Binding>) -> Map<Seq<char>, nat>
    decreases s.len(),
{
    if s.len() == 0 {
        Map::empty()
    } else {
        map_of(s.drop_last()).insert(s.last().key@, s.last().addr as nat)
    }
}

/// A name is in the mapping exactly when some binding carries it.
proof fn lemma_map_of_contains(s: Seq<Binding>, k: Seq<char>)
    ensures
        map_of(s).contains_key(k) <==> exists|i: int| 0 <= i < s.len() && s[i].key@ == k,
    decreases s.len(),
{
    if s.len() > 0 {
        lemma_map_of_contains(s.drop_last(), k);
        if s.last().key@ == k {
            assert(s[s.len() - 1].key@ == k);
        } else if exists|i: int| 0 <= i < s.len() && s[i].key@ == k {
            let i = choose|i: int| 0 <= i < s.len() && s[i].key@ == k;
            assert(s.drop_last()[i].key@ == k);
        }
    }
}

/// With no name bound twice, the mapping returns the address of the one
/// binding that carries the name.
proof fn lemma_map_of_get(s: Seq<Binding>, i: int)
    requires
        forall|i1: int, i2: int| 0 <= i1 < i2 < s.len() ==> s[i1].key@ != s[i2].key@,
        0 <= i < s.len(),
    ensures
        map_of(s).contains_key(s[i].key@),
        map_of(s)[s[i].key@] == s[i].addr as nat,
    decreases s.len(),
{
    lemma_map_of_contains(s, s[i].key@);
    if i < s.len() - 1 {
        lemma_map_of_get(s.drop_last(), i);
        assert(s.drop_last()[i] == s[i]);
        assert(s.last().key@ != s[i].key@);
    }
}

/// Overwriting the address of the one binding that carries a name acts on
/// the mapping as an insert for that name.
proof fn lemma_map_of_update(s: Seq<Binding>, i: int, b: Binding)
    requires
        forall|i1: int, i2: int| 0 <= i1 < i2 < s.len() ==> s[i1].key@ != s[i2].key@,
        0 <= i < s.len(),
        b.key@ == s[i].key@,
    ensures
        map_of(s.update(i, b)) == map_of(s).insert(b.key@, b.addr as nat),
    decreases s.len(),
{
    let t = s.update(i, b);
    if i == s.len() - 1 {
        assert(t.drop_last() =~= s.drop_last());
        assert(t.last() == b);
        assert(map_of(t) == map_of(s.drop_last()).insert(b.key@, b.addr as nat));
        assert(map_of(s.drop_last()).insert(s.last().key@, s.last().addr as nat).insert(
            b.key@,
            b.addr as nat,
        ) =~= map_of(s.drop_last()).insert(b.key@, b.addr as nat));
    } else {
        lemma_map_of_update(s.drop_last(), i, b);
        assert(t.drop_last() =~= s.drop_last().update(i, b));
        assert(t.last() == s.last());
        assert(s.drop_last()[i] == s[i]);
        assert(s.last().key@ != b.key@);
        assert(map_of(s.drop_last()).insert(b.key@, b.addr as nat).insert(
            s.last().key@,
            s.last().addr as nat,
        ) =~= map_of(s.drop_last()).insert(s.last().key@, s.last().addr as nat).insert(
            b.key@,
            b.addr as nat,
        ));
    }
}

/// The 23 architecture-reserved bindings: `R0`..`R15`, the five pointer
/// registers, the screen and the keyboard.
pub open spec fn spec_initial_table() -> Map<Seq<char>, nat> {
    Map::empty().insert("R0"@, 0).insert("R1"@, 1).insert("R2"@, 2).insert("R3"@, 3).insert(
        "R4"@,
        4,
    ).insert("R5"@, 5).insert("R6"@, 6).insert("R7"@, 7).insert("R8"@, 8).insert("R9"@, 9).insert(
        "R10"@,
        10,
    ).insert("R11"@, 11).insert("R12"@, 12).insert("R13"@, 13).insert("R14"@, 14).insert(
        "R15"@,
        15,
    ).insert("SP"@, 0).insert("LCL"@, 1).insert("ARG"@, 2).insert("THIS"@, 3).insert(
        "THAT"@,
        4,
    ).insert("SCREEN"@, 16384).insert("KBD"@, 24576)
}

/// A mapping from symbol names to non-negative addresses, together with
/// the cursor for the next free variable slot.
pub struct SymbolTable {
    pub table: Vec<Binding>,
    pub alloc_pos: usize,
}

impl View for SymbolTable {
    type V = Map<Seq<char>, nat>;

    open spec fn view(&self) -> Map<Seq<char>, nat> {
        map_of(self.table@)
    }
}

impl SymbolTable {
    /// No symbol name is bound twice.
    pub open spec fn wf(&self) -> bool {
        forall|i1: int, i2: int|
            0 <= i1 < i2 < self.table@.len() ==> self.table@[i1].key@ != self.table@[i2].key@
    }

    /// The index of the binding that carries `k`, if any.
    fn index_of(&self, k: &str) -> (r: Option<usize>)
        ensures
            match r {
                Some(i) => i < self.table@.len() && self.table@[i as int].key@ == k@,
                None => forall|i: int| 0 <= i < self.table@.len() ==> self.table@[i].key@ != k@,
            },
    {
        let mut i: usize = 0;
        while i < self.table.len()
            invariant
                i <= self.table@.len(),
                forall|j: int| 0 <= j < i ==> self.table@[j].key@ != k@,
            decreases self.table@.len() - i,
        {
            if str_eq(self.table[i].key.as_str(), k) {
                return Some(i);
            }
            i = i + 1;
        }
        None
    }

    /// A table holding the 23 architecture-reserved bindings, with the
    /// allocation cursor at the first free RAM slot.
    pub fn new() -> (t: SymbolTable)
        ensures
            t@ == spec_initial_table(),
            t.alloc_pos == 16,
            t.wf(),
    {
        let mut t = SymbolTable { table: Vec::new(), alloc_pos: 16 };
        proof {
            assert(t@ =~= Map::<Seq<char>, nat>::empty());
        }
        t.add_entry("R0", 0);
        t.add_entry("R1", 1);
        t.add_entry("R2", 2);
        t.add_entry("R3", 3);
        t.add_entry("R4", 4);
        t.add_entry("R5", 5);
        t.add_entry("R6", 6);
        t.add_entry("R7", 7);
        t.add_entry("R8", 8);
        t.add_entry("R9", 9);
        t.add_entry("R10", 10);
        t.add_entry("R11", 11);
        t.add_entry("R12", 12);
        t.add_entry("R13", 13);
        t.add_entry("R14", 14);
        t.add_entry("R15", 15);
        t.add_entry("SP", 0);
        t.add_entry("LCL", 1);
        t.add_entry("ARG", 2);
        t.add_entry("THIS", 3);
        t.add_entry("THAT", 4);
        t.add_entry("SCREEN", 16384);
        t.add_entry("KBD", 24576);
        t
    }

    /// Binds `k` to `v`, overwriting any earlier binding of `k`.
    pub fn add_entry(&mut self, k: &str, v: usize)
        requires
            old(self).wf(),
        ensures
            final(self).wf(),
            final(self)@ == old(self)@.insert(k@, v as nat),
            final(self).alloc_pos == old(self).alloc_pos,
    {
        match self.index_of(k) {
            Some(i) => {
                let key = self.table[i].key.clone();
                let ghost pre = self.table@;
                self.table.set(i, Binding { key, addr: v });
                proof {
                    lemma_map_of_update(pre, i as int, self.table@[i as int]);
                }
            },
            None => {
                let ghost pre = self.table@;
                self.table.push(Binding { key: k.to_owned(), addr: v });
                proof {
                    assert(self.table@.drop_last() =~= pre);
                }
            },
        }
    }

    /// Whether `k` is bound.
    pub fn contains(&self, k: &str) -> (r: bool)
        ensures
            r == self@.contains_key(k@),
    {
        proof {
            lemma_map_of_contains(self.table@, k@);
        }
        match self.index_of(k) {
            Some(_) => true,
            None => false,
        }
    }

    /// The address bound to `k`.
    pub fn get_address(&self, k: &str) -> (r: usize)
        requires
            self.wf(),
            self@.contains_key(k@),
        ensures
            r as nat == self@[k@],
    {
        proof {
            lemma_map_of_contains(self.table@, k@);
        }
        let i = self.index_of(k).unwrap();
        proof {
            lemma_map_of_get(self.table@, i as int);
        }
        self.table[i].addr
    }
}

} // verus!
