//! A registry of ticker symbols, each given a dense slot number in order of
//! first registration.
use vstd::prelude::*;
use vstd::hash_map::StringHashMap;

verus! {

pub struct SymbolIndex {
    /// Slot of each registered symbol.
    pub slots: StringHashMap<usize>,
    /// Registered symbols, by slot.
    pub names: Vec<String>,
}

impl SymbolIndex {
    /// The map and the list describe the same one-to-one numbering.
    pub open spec fn wf(&self) -> bool {
        &&& forall|i: int|
            0 <= i < self.names@.len() ==> {
                &&& self.slots@.contains_key(#[trigger] self.names@[i]@)
                &&& self.slots@[self.names@[i]@] == i
            }
        &&& forall|k: Seq<char>|
            #[trigger] self.slots@.contains_key(k) ==> {
                &&& self.slots@[k] < self.names@.len()
                &&& self.names@[self.slots@[k] as int]@ == k
            }
    }

    pub open spec fn contains(&self, k: Seq<char>) -> bool {
        self.slots@.contains_key(k)
    }

    pub open spec fn slot(&self, k: Seq<char>) -> int {
        self.slots@[k] as int
    }

    pub open spec fn len(&self) -> nat {
        self.names@.len()
    }

    pub fn new() -> (r: SymbolIndex)
        ensures
            r.wf(),
            r.len() == 0,
            forall|k: Seq<char>| !r.contains(k),
    {
        SymbolIndex { slots: StringHashMap::new(), names: Vec::new() }
    }

    /// The slot of a registered symbol.
    pub fn find(&self, s: &str) -> (r: Option<usize>)
        requires
            self.wf(),
        ensures
            r == (if self.contains(s@) {
                Some(self.slot(s@) as usize)
            } else {
                None::<usize>
            }),
            r is Some ==> r->0 < self.len(),
    {
        match self.slots.get(s) {
            Some(i) => Some(*i),
            None => None,
        }
    }

    /// The number of registered symbols.
    pub fn count(&self) -> (r: usize)
        requires
            self.wf(),
        ensures
            r == self.len(),
    {
        self.names.len()
    }

    /// Registers a symbol if it is new, and gives its slot.
    pub fn add(&mut self, s: &str) -> (r: usize)
        requires
            old(self).wf(),
        ensures
            final(self).wf(),
            old(self).contains(s@) ==> *final(self) == *old(self) && r == old(self).slot(s@),
            !old(self).contains(s@) ==> {
                &&& r == old(self).len()
                &&& final(self).len() == old(self).len() + 1
                &&& final(self).names@.drop_last() == old(self).names@
                &&& final(self).names@[r as int]@ == s@
                &&& final(self).slots@ == old(self).slots@.insert(s@, r)
            },
            final(self).contains(s@),
            final(self).slot(s@) == r,
            forall|k: Seq<char>| #[trigger]
                final(self).contains(k) == (old(self).contains(k) || k == s@),
            forall|k: Seq<char>|
                old(self).contains(k) ==> #[trigger] final(self).slot(k) == old(self).slot(k),
    {
        match self.slots.get(s) {
            Some(i) => *i,
            None => {
                let r = self.names.len();
                let ghost old_names = self.names@;
                let ghost old_slots = self.slots@;
                self.names.push(s.to_owned());
                self.slots.insert(s.to_owned(), r);
                assert(self.names@.drop_last() =~= old_names);
                assert forall|i: int| 0 <= i < self.names@.len() implies {
                    &&& self.slots@.contains_key(#[trigger] self.names@[i]@)
                    &&& self.slots@[self.names@[i]@] == i
                } by {
                    if i < r {
                        assert(self.names@[i] == old_names[i]);
                        assert(old_slots.contains_key(old_names[i]@));
                        assert(old_names[i]@ != s@);
                    }
                }
                assert forall|k: Seq<char>| #[trigger] self.slots@.contains_key(k) implies {
                    &&& self.slots@[k] < self.names@.len()
                    &&& self.names@[self.slots@[k] as int]@ == k
                } by {
                    if k != s@ {
                        assert(old_slots.contains_key(k));
                        assert(self.names@[old_slots[k] as int] == old_names[old_slots[k] as int]);
                    }
                }
                r
            },
        }
    }
}

} // verus!
