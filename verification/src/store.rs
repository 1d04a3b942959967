//! A request-scoped snapshot of the host's property table.
//!
//! The host exposes contextual values (routing attributes, connection data)
//! under path keys; this type models one read-only snapshot of that table as
//! seen by a single request. Lookup returns the value paired with the first
//! occurrence of the path.

use vstd::prelude::*;

use crate::bytes::assoc_lookup;
use crate::bytes::copy_bytes;
use crate::bytes::bytes_eq;
use crate::bytes::pairs_view;

verus! {

/// A path -> raw-bytes lookup table, read-only from the filter's perspective.
pub struct PropertyStore {
    pub entries: Vec<(Vec<u8>, Vec<u8>)>,
}

impl PropertyStore {
    pub open spec fn view(&self) -> Seq<(Seq<u8>, Seq<u8>)> {
        pairs_view(self.entries@)
    }

    /// An empty store: every lookup misses.
    pub fn new() -> (r: PropertyStore)
        ensures
            r@ == Seq::<(Seq<u8>, Seq<u8>)>::empty(),
    {
        let r = PropertyStore { entries: Vec::new() };
        proof {
            assert(r@ =~= Seq::<(Seq<u8>, Seq<u8>)>::empty());
        }
        r
    }

    /// Record one property; earlier entries for the same path keep priority.
    pub fn insert(&mut self, path: Vec<u8>, value: Vec<u8>)
        ensures
            final(self)@ == old(self)@.push((path@, value@)),
    {
        let ghost before = self@;
        self.entries.push((path, value));
        proof {
            assert(self@ =~= before.push((path@, value@)));
        }
    }

    /// The value stored under `path`, if any.
    pub fn get(&self, path: &Vec<u8>) -> (r: Option<Vec<u8>>)
        ensures
            match r {
                Some(v) => assoc_lookup(self@, path@) == Some(v@),
                None => assoc_lookup(self@, path@) is None,
            },
    {
        let n: usize = self.entries.len();
        let mut i: usize = 0;
        proof {
            assert(self@.skip(0) =~= self@);
        }
        while i < n
            invariant
                n == self.entries@.len(),
                0 <= i <= n,
                assoc_lookup(self@, path@) == assoc_lookup(self@.skip(i as int), path@),
            decreases n - i,
        {
            proof {
                assert(self@.skip(i as int)[0] == self@[i as int]);
                assert(self@.skip(i as int).skip(1) =~= self@.skip(i as int + 1));
            }
            if bytes_eq(&self.entries[i].0, path) {
                let v = copy_bytes(&self.entries[i].1);
                return Some(v);
            }
            i = i + 1;
        }
        proof {
            assert(self@.skip(n as int) =~= Seq::<(Seq<u8>, Seq<u8>)>::empty());
        }
        None
    }
}

} // verus!
