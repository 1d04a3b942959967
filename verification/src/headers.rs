//! The outgoing header set and its mutation primitives.
//!
//! A header set is an ordered multimap: several occurrences of one name may
//! coexist. `add` appends a new occurrence and never disturbs existing ones;
//! `set` with a value replaces every occurrence of the name with a single
//! fresh one; `set` with no value removes the name entirely (used to strip
//! `Content-Length` when a body replacement is pending).

use vstd::prelude::*;

use crate::bytes::bytes_eq;
use crate::bytes::copy_bytes;
use crate::bytes::pairs_view;

verus! {

/// Whether some occurrence of `name` is present.
pub open spec fn has_name(s: Seq<(Seq<u8>, Seq<u8>)>, name: Seq<u8>) -> bool {
    exists|i: int| 0 <= i < s.len() && s[i].0 == name
}

/// The header list with every occurrence of `name` removed, order kept.
pub open spec fn remove_name(s: Seq<(Seq<u8>, Seq<u8>)>, name: Seq<u8>) -> Seq<(Seq<u8>, Seq<u8>)>
    decreases s.len(),
{
    if s.len() == 0 {
        Seq::empty()
    } else if s[0].0 == name {
        remove_name(s.skip(1), name)
    } else {
        seq![s[0]] + remove_name(s.skip(1), name)
    }
}

/// The values of every occurrence of `name`, in order.
pub open spec fn values_for(s: Seq<(Seq<u8>, Seq<u8>)>, name: Seq<u8>) -> Seq<Seq<u8>>
    decreases s.len(),
{
    if s.len() == 0 {
        Seq::empty()
    } else if s[0].0 == name {
        seq![s[0].1] + values_for(s.skip(1), name)
    } else {
        values_for(s.skip(1), name)
    }
}

/// `remove_name` removes every occurrence of `name` and nothing else:
/// what remains is exactly the occurrences of other names, in order.
pub proof fn lemma_remove_name_gone(s: Seq<(Seq<u8>, Seq<u8>)>, name: Seq<u8>)
    ensures
        !has_name(remove_name(s, name), name),
        forall|i: int| 0 <= i < remove_name(s, name).len()
            ==> #[trigger] remove_name(s, name)[i].0 != name,
    decreases s.len(),
{
    if s.len() == 0 {
    } else {
        lemma_remove_name_gone(s.skip(1), name);
    }
}

/// The outgoing response header set of one exchange.
pub struct HeaderMap {
    pub entries: Vec<(Vec<u8>, Vec<u8>)>,
}

impl HeaderMap {
    pub open spec fn view(&self) -> Seq<(Seq<u8>, Seq<u8>)> {
        pairs_view(self.entries@)
    }

    /// An empty header set.
    pub fn new() -> (r: HeaderMap)
        ensures
            r@ == Seq::<(Seq<u8>, Seq<u8>)>::empty(),
    {
        let r = HeaderMap { entries: Vec::new() };
        proof {
            assert(r@ =~= Seq::<(Seq<u8>, Seq<u8>)>::empty());
        }
        r
    }

    /// Append a new occurrence of `name`; prior occurrences are untouched.
    pub fn add(&mut self, name: Vec<u8>, value: Vec<u8>)
        ensures
            final(self)@ == old(self)@.push((name@, value@)),
    {
        let ghost before = self@;
        self.entries.push((name, value));
        proof {
            assert(self@ =~= before.push((name@, value@)));
        }
    }

    /// Remove every occurrence of `name`.
    pub fn remove(&mut self, name: &Vec<u8>)
        ensures
            final(self)@ == remove_name(old(self)@, name@),
    {
        let ghost full = self@;
        let mut out: Vec<(Vec<u8>, Vec<u8>)> = Vec::new();
        let n: usize = self.entries.len();
        let mut i: usize = 0;
        proof {
            assert(full.skip(0) =~= full);
            assert(pairs_view(out@) =~= Seq::<(Seq<u8>, Seq<u8>)>::empty());
        }
        while i < n
            invariant
                n == self.entries@.len(),
                full == self@,
                0 <= i <= n,
                remove_name(full, name@) == pairs_view(out@) + remove_name(
                    full.skip(i as int),
                    name@,
                ),
            decreases n - i,
        {
            proof {
                assert(full.skip(i as int)[0] == full[i as int]);
                assert(full.skip(i as int).skip(1) =~= full.skip(i as int + 1));
            }
            let ghost out_before = pairs_view(out@);
            if !bytes_eq(&self.entries[i].0, name) {
                let k = copy_bytes(&self.entries[i].0);
                let v = copy_bytes(&self.entries[i].1);
                out.push((k, v));
                proof {
                    assert(pairs_view(out@) =~= out_before.push(full[i as int]));
                    assert(out_before + remove_name(full.skip(i as int), name@) =~= out_before.push(
                        full[i as int],
                    ) + remove_name(full.skip(i as int + 1), name@));
                }
            }
            i = i + 1;
        }
        proof {
            assert(full.skip(n as int) =~= Seq::<(Seq<u8>, Seq<u8>)>::empty());
            assert(pairs_view(out@) + remove_name(full.skip(n as int), name@) =~= pairs_view(out@));
        }
        self.entries = out;
    }

    /// Replace every occurrence of `name` with the single pair (`name`, `value`),
    /// or, given no value, remove the name entirely.
    pub fn set(&mut self, name: Vec<u8>, value: Option<Vec<u8>>)
        ensures
            final(self)@ == match value {
                Some(v) => remove_name(old(self)@, name@).push((name@, v@)),
                None => remove_name(old(self)@, name@),
            },
    {
        match value {
            Some(v) => {
                self.remove(&name);
                self.add(name, v);
            },
            None => {
                self.remove(&name);
            },
        }
    }

    /// The values of every occurrence of `name`, in order.
    pub fn get_all(&self, name: &Vec<u8>) -> (r: Vec<Vec<u8>>)
        ensures
            r@.map_values(|v: Vec<u8>| v@) == values_for(self@, name@),
    {
        let ghost full = self@;
        let mut out: Vec<Vec<u8>> = Vec::new();
        let n: usize = self.entries.len();
        let mut i: usize = 0;
        proof {
            assert(full.skip(0) =~= full);
            assert(out@.map_values(|v: Vec<u8>| v@) =~= Seq::<Seq<u8>>::empty());
        }
        while i < n
            invariant
                n == self.entries@.len(),
                full == self@,
                0 <= i <= n,
                values_for(full, name@) == out@.map_values(|v: Vec<u8>| v@) + values_for(
                    full.skip(i as int),
                    name@,
                ),
            decreases n - i,
        {
            proof {
                assert(full.skip(i as int)[0] == full[i as int]);
                assert(full.skip(i as int).skip(1) =~= full.skip(i as int + 1));
            }
            let ghost out_before = out@.map_values(|v: Vec<u8>| v@);
            if bytes_eq(&self.entries[i].0, name) {
                let v = copy_bytes(&self.entries[i].1);
                out.push(v);
                proof {
                    assert(out@.map_values(|v: Vec<u8>| v@) =~= out_before.push(full[i as int].1));
                    assert(out_before + values_for(full.skip(i as int), name@) =~= out_before.push(
                        full[i as int].1,
                    ) + values_for(full.skip(i as int + 1), name@));
                }
            }
            i = i + 1;
        }
        proof {
            assert(full.skip(n as int) =~= Seq::<(Seq<u8>, Seq<u8>)>::empty());
            assert(out@.map_values(|v: Vec<u8>| v@) + values_for(full.skip(n as int), name@)
                =~= out@.map_values(|v: Vec<u8>| v@));
        }
        out
    }
}

} // verus!
