//! The one namespace of registers, variables and labels.

use vstd::prelude::*;
use crate::text::{copy_text, same_text};

verus! {

/// A name bound to an address.
pub struct Symbol {
    pub name: Vec<char>,
    pub addr: i16,
}

/// The map that a list of bindings stands for; a later binding of a name
/// hides an earlier one.
pub open spec fn bound(entries: Seq<Symbol>) -> Map<Seq<char>, i16>
    decreases entries.len(),
{
    if entries.len() == 0 {
        Map::empty()
    } else {
        bound(entries.drop_last()).insert(entries.last().name@, entries.last().addr)
    }
}

/// A name that no binding from `from` on carries is found among the earlier
/// bindings, if anywhere.
pub proof fn lemma_bound_skips(entries: Seq<Symbol>, from: int, name: Seq<char>)
    requires
        0 <= from <= entries.len(),
        forall|j: int| from <= j < entries.len() ==> (#[trigger] entries[j]).name@ != name,
    ensures
        bound(entries).contains_key(name) == bound(entries.take(from)).contains_key(name),
        bound(entries).contains_key(name) ==> bound(entries)[name] == bound(
            entries.take(from),
        )[name],
    decreases entries.len() - from,
{
    if from == entries.len() {
        assert(entries.take(from) =~= entries);
    } else {
        let front = entries.drop_last();
        assert(front.take(from) =~= entries.take(from));
        assert forall|j: int| from <= j < front.len() implies (#[trigger] front[j]).name@
            != name by {
            assert(front[j] == entries[j]);
        }
        lemma_bound_skips(front, from, name);
    }
}

/// The names defined so far, each with its address.
pub struct SymbolTable {
    entries: Vec<Symbol>,
}

impl View for SymbolTable {
    type V = Map<Seq<char>, i16>;

    closed spec fn view(&self) -> Map<Seq<char>, i16> {
        bound(self.entries@)
    }
}

impl SymbolTable {
    /// A table without names.
    pub fn new() -> (t: Self)
        ensures
            t@ == Map::<Seq<char>, i16>::empty(),
    {
        SymbolTable { entries: Vec::new() }
    }

    /// The address bound to a name, if the name is defined.
    pub fn get(&self, name: &Vec<char>) -> (r: Option<i16>)
        ensures
            r == if self@.contains_key(name@) {
                Some(self@[name@])
            } else {
                None::<i16>
            },
    {
        let mut i: usize = self.entries.len();
        while i > 0
            invariant
                i <= self.entries.len(),
                forall|j: int|
                    i <= j < self.entries.len() ==> (#[trigger] self.entries@[j]).name@ != name@,
            decreases i,
        {
            i -= 1;
            if same_text(&self.entries[i].name, name) {
                proof {
                    lemma_bound_skips(self.entries@, i + 1, name@);
                    assert(self.entries@.take(i + 1).drop_last() =~= self.entries@.take(
                        i as int,
                    ));
                }
                return Some(self.entries[i].addr);
            }
        }
        proof {
            lemma_bound_skips(self.entries@, 0, name@);
            assert(self.entries@.take(0) =~= Seq::<Symbol>::empty());
        }
        None
    }

    /// Binds a name to an address, whether or not the name is defined.
    pub fn bind(&mut self, name: &Vec<char>, addr: i16)
        ensures
            final(self)@ == old(self)@.insert(name@, addr),
    {
        let ghost before = self.entries@;
        self.entries.push(Symbol { name: copy_text(name), addr });
        assert(self.entries@.drop_last() =~= before);
    }

    /// Binds a name to an address unless the name is already defined; tells
    /// whether the name was new.
    pub fn define(&mut self, name: &Vec<char>, addr: i16) -> (fresh: bool)
        ensures
            fresh == !old(self)@.contains_key(name@),
            fresh ==> final(self)@ == old(self)@.insert(name@, addr),
            !fresh ==> final(self)@ == old(self)@,
    {
        if self.get(name).is_some() {
            return false;
        }
        let ghost before = self.entries@;
        self.entries.push(Symbol { name: copy_text(name), addr });
        assert(self.entries@.drop_last() =~= before);
        true
    }
}

} // verus!
