//! A set of names, kept in the order in which the names came in.

use crate::text::strings_view;
use vstd::prelude::*;
use vstd::string::StringExecFns;

verus! {

/// A finite set of names.
#[derive(Debug)]
pub struct NameSet {
    names: Vec<String>,
}

impl NameSet {
    /// The names in the order in which they came in.
    pub closed spec fn seq(&self) -> Seq<Seq<char>> {
        strings_view(self.names@)
    }

    /// No name is kept twice.
    pub closed spec fn wf(&self) -> bool {
        self.seq().no_duplicates()
    }

    /// The names, as a set.
    pub closed spec fn view(&self) -> Set<Seq<char>> {
        self.seq().to_set()
    }

    /// The empty set.
    pub fn new() -> (out: Self)
        ensures
            out.wf(),
            out@ == Set::<Seq<char>>::empty(),
    {
        let out = NameSet { names: Vec::new() };
        assert(out.seq() =~= Seq::<Seq<char>>::empty());
        assert(out@ =~= Set::<Seq<char>>::empty());
        out
    }

    /// Whether the set holds `name`.
    pub fn contains(&self, name: &str) -> (found: bool)
        ensures
            found == self@.contains(name@),
    {
        let key = String::from_str(name);
        let mut i: usize = 0;
        while i < self.names.len()
            invariant
                i <= self.names.len(),
                key@ == name@,
                forall|k: int| 0 <= k < i ==> self.seq()[k] != name@,
            decreases self.names.len() - i,
        {
            if self.names[i] == key {
                assert(self.seq()[i as int] == name@);
                return true;
            }
            i += 1;
        }
        false
    }

    /// Adds `name`; tells whether it was new.
    pub fn insert(&mut self, name: &str) -> (added: bool)
        requires
            old(self).wf(),
        ensures
            final(self).wf(),
            final(self)@ == old(self)@.insert(name@),
            added == !old(self)@.contains(name@),
    {
        if self.contains(name) {
            assert(self@ =~= self@.insert(name@));
            return false;
        }
        let ghost before = self.seq();
        self.names.push(String::from_str(name));
        proof {
            assert(self.seq() =~= before.push(name@));
            assert forall|k: Seq<char>| self@.contains(k) == old(self)@.insert(name@).contains(
                k,
            ) by {
                if self@.contains(k) {
                    let i = choose|i: int| 0 <= i < self.seq().len() && self.seq()[i] == k;
                    if i < before.len() {
                        assert(before[i] == k);
                    }
                }
                if old(self)@.contains(k) {
                    let i = choose|i: int| 0 <= i < before.len() && before[i] == k;
                    assert(self.seq()[i] == k);
                }
                if k == name@ {
                    assert(self.seq()[before.len() as int] == k);
                }
            }
            assert(self@ =~= old(self)@.insert(name@));
        }
        true
    }

    /// How many names the set holds.
    pub fn len(&self) -> (n: usize)
        requires
            self.wf(),
        ensures
            n == self@.len(),
            self@.finite(),
    {
        proof {
            self.seq().unique_seq_to_set();
        }
        self.names.len()
    }
}

} // verus!
