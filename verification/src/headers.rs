//! The header mapping of a request.

use crate::bytes::bytes_eq;
use vstd::prelude::*;

verus! {

/// One header: a name and the value given for it.
#[derive(Debug)]
pub struct Header {
    pub name: Vec<u8>,
    pub value: Vec<u8>,
}

/// A mapping from header names to values. Names are compared byte for
/// byte, so two names that differ in case are two names; a value inserted
/// for a name that is already there takes the place of the earlier one.
#[derive(Debug)]
pub struct Headers {
    entries: Vec<Header>,
}

impl View for Headers {
    type V = Map<Seq<u8>, Seq<u8>>;

    /// The mapping as a mathematical map: its keys are the names of the
    /// entries, and each key goes to the value of the entry with that name.
    closed spec fn view(&self) -> Map<Seq<u8>, Seq<u8>> {
        Map::new(
            |name: Seq<u8>| self.index_of(name) < self.entries.len(),
            |name: Seq<u8>| self.entries[self.index_of(name)].value@,
        )
    }
}

impl Headers {
    /// No name occurs in two entries.
    #[verifier::type_invariant]
    closed spec fn names_differ(self) -> bool {
        forall|i: int, j: int|
            0 <= i < j < self.entries.len() ==> (#[trigger] self.entries[i]).name@
                != (#[trigger] self.entries[j]).name@
    }

    /// Whether the entry at `i` has the name `name`.
    closed spec fn named(self, name: Seq<u8>, i: int) -> bool {
        0 <= i < self.entries.len() && self.entries[i].name@ == name
    }

    /// The index of an entry with the name `name`, or the number of entries
    /// where there is none.
    closed spec fn index_of(self, name: Seq<u8>) -> int {
        if exists|i: int| self.named(name, i) {
            choose|i: int| self.named(name, i)
        } else {
            self.entries.len() as int
        }
    }

    /// Under the invariant an entry with the name `name` is the one that
    /// `index_of` picks.
    proof fn lemma_index_of(self, name: Seq<u8>, i: int)
        requires
            self.names_differ(),
            self.named(name, i),
        ensures
            self.index_of(name) == i,
    {
        let k = self.index_of(name);
        assert(self.named(name, k));
        if k < i {
            assert(self.entries[k].name@ != self.entries[i].name@);
        } else if i < k {
            assert(self.entries[i].name@ != self.entries[k].name@);
        }
    }

    /// A mapping without entries.
    pub fn new() -> (headers: Headers)
        ensures
            headers@ == Map::<Seq<u8>, Seq<u8>>::empty(),
    {
        let headers = Headers { entries: Vec::new() };
        assert(headers@ =~= Map::<Seq<u8>, Seq<u8>>::empty());
        headers
    }

    /// The index of the entry named `name`, or the number of entries.
    fn position(&self, name: &[u8]) -> (k: usize)
        ensures
            k == self.index_of(name@),
            k <= self.entries.len(),
    {
        proof {
            use_type_invariant(self);
        }
        let mut k: usize = 0;
        while k < self.entries.len()
            invariant
                k <= self.entries.len(),
                self.names_differ(),
                forall|i: int| 0 <= i < k ==> !self.named(name@, i),
            decreases self.entries.len() - k,
        {
            if bytes_eq(self.entries[k].name.as_slice(), name) {
                proof {
                    assert(self.named(name@, k as int));
                    self.lemma_index_of(name@, k as int);
                }
                return k;
            }
            k += 1;
        }
        assert(forall|i: int| !self.named(name@, i));
        k
    }

    /// The value that the mapping holds for `name`, if it holds one.
    pub fn get(&self, name: &[u8]) -> (value: Option<&Vec<u8>>)
        ensures
            match value {
                Some(v) => self@.contains_key(name@) && v@ == self@[name@],
                None => !self@.contains_key(name@),
            },
    {
        let k = self.position(name);
        if k < self.entries.len() {
            Some(&self.entries[k].value)
        } else {
            None
        }
    }

    /// Sets the value for `name` to `value`, whether or not the mapping held
    /// one for that name; every other name keeps what it had.
    pub fn insert(&mut self, name: Vec<u8>, value: Vec<u8>)
        ensures
            final(self)@ == old(self)@.insert(name@, value@),
    {
        proof {
            use_type_invariant(&*self);
        }
        let k = self.position(name.as_slice());
        let ghost before = *self;
        let ghost key = name@;
        let ghost val = value@;
        let mut entries: Vec<Header> = Vec::new();
        core::mem::swap(&mut self.entries, &mut entries);
        if k < entries.len() {
            entries.set(k, Header { name, value });
        } else {
            entries.push(Header { name, value });
        }
        proof {
            let after = Headers { entries };
            // The entry at `k` is the only one named `key`: `k` was the
            // index of the one entry of that name, or there was none.
            assert(after.named(key, k as int));
            assert forall|i: int| 0 <= i < after.entries.len() && i != k implies !after.named(
                key,
                i,
            ) by {
                if before.named(key, i) {
                    before.lemma_index_of(key, i);
                }
            }
            assert forall|i: int, j: int| 0 <= i < j < after.entries.len() implies (
            #[trigger] after.entries[i]).name@ != (#[trigger] after.entries[j]).name@ by {
                if i == k {
                    assert(!after.named(key, j));
                } else if j == k {
                    assert(!after.named(key, i));
                } else {
                    assert(before.entries[i].name@ != before.entries[j].name@);
                }
            }
            after.lemma_index_of(key, k as int);
            // Every other name is found where it was, with the value it had.
            assert forall|n: Seq<u8>| n != key implies ((after.index_of(n) < after.entries.len())
                <==> (before.index_of(n) < before.entries.len())) && (before.index_of(n)
                < before.entries.len() ==> after.entries[after.index_of(n)].value@
                == before.entries[before.index_of(n)].value@) by {
                let b = before.index_of(n);
                let a = after.index_of(n);
                if b < before.entries.len() {
                    assert(before.named(n, b));
                    assert(after.named(n, b));
                    after.lemma_index_of(n, b);
                }
                if a < after.entries.len() {
                    assert(after.named(n, a));
                    assert(before.named(n, a));
                    before.lemma_index_of(n, a);
                }
            }
            assert(after@ =~= before@.insert(key, val));
        }
        core::mem::swap(&mut self.entries, &mut entries);
    }
}

} // verus!
