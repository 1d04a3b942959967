//! The validated, immutable filter configuration.
//!
//! A configuration holds two insertion-ordered mappings from header name to
//! value expression — `add` entries append new header occurrences, `set`
//! entries overwrite — and an optional replacement body. An empty body means
//! "no body rewrite requested". Within each mapping, names are unique; a
//! repeated name in the configuration text keeps its first position and takes
//! the last value.

use vstd::prelude::*;

use crate::bytes::copy_bytes;
use crate::bytes::copy_pairs;
use crate::bytes::pairs_view;

verus! {

/// The mathematical content of a configuration.
pub ghost struct SpecConfig {
    pub add: Seq<(Seq<u8>, Seq<u8>)>,
    pub set: Seq<(Seq<u8>, Seq<u8>)>,
    pub body: Seq<u8>,
}

impl SpecConfig {
    /// The configuration that mutates nothing.
    pub open spec fn empty() -> SpecConfig {
        SpecConfig { add: Seq::empty(), set: Seq::empty(), body: Seq::empty() }
    }
}

/// No header name occurs twice.
pub open spec fn keys_unique(s: Seq<(Seq<u8>, Seq<u8>)>) -> bool {
    forall|i: int, j: int| 0 <= i < j < s.len() ==> s[i].0 != s[j].0
}

/// Insert-or-replace in an insertion-ordered mapping: an existing name keeps
/// its position and takes the new value; a fresh name goes to the end.
pub open spec fn spec_upsert(s: Seq<(Seq<u8>, Seq<u8>)>, k: Seq<u8>, v: Seq<u8>) -> Seq<
    (Seq<u8>, Seq<u8>),
>
    decreases s.len(),
{
    if s.len() == 0 {
        seq![(k, v)]
    } else if s[0].0 == k {
        seq![(k, v)] + s.skip(1)
    } else {
        seq![s[0]] + spec_upsert(s.skip(1), k, v)
    }
}

/// Upsert keeps names unique.
pub proof fn lemma_upsert_keys_unique(s: Seq<(Seq<u8>, Seq<u8>)>, k: Seq<u8>, v: Seq<u8>)
    requires
        keys_unique(s),
    ensures
        keys_unique(spec_upsert(s, k, v)),
        spec_upsert(s, k, v).len() >= s.len(),
        forall|n: int| 0 <= n < spec_upsert(s, k, v).len() ==> #[trigger] spec_upsert(s, k, v)[n].0
            == k || exists|m: int|
            0 <= m < s.len() && s[m].0 == #[trigger] spec_upsert(s, k, v)[n].0,
    decreases s.len(),
{
    if s.len() == 0 {
    } else if s[0].0 == k {
        assert(forall|i: int, j: int|
            0 <= i < j < s.skip(1).len() ==> s.skip(1)[i].0 != s.skip(1)[j].0);
        assert(forall|n: int| 0 <= n < s.skip(1).len() ==> s.skip(1)[n] == s[n + 1]);
    } else {
        assert(forall|i: int, j: int|
            0 <= i < j < s.skip(1).len() ==> s.skip(1)[i].0 != s.skip(1)[j].0);
        lemma_upsert_keys_unique(s.skip(1), k, v);
        let t = spec_upsert(s, k, v);
        let u = spec_upsert(s.skip(1), k, v);
        assert(t[0] == s[0]);
        assert(forall|n: int| 0 <= n < u.len() ==> t[n + 1] == u[n]);
        assert forall|i: int, j: int| 0 <= i < j < t.len() implies t[i].0 != t[j].0 by {
            if i == 0 {
                assert(t[j] == u[j - 1]);
                if u[j - 1].0 == k {
                } else {
                    let m = choose|m: int|
                        0 <= m < s.skip(1).len() && s.skip(1)[m].0 == u[j - 1].0;
                    assert(s[m + 1].0 == u[j - 1].0);
                }
            } else {
                assert(t[i] == u[i - 1] && t[j] == u[j - 1]);
            }
        }
        assert forall|n: int| 0 <= n < t.len() && t[n].0 != k implies exists|m: int|
            0 <= m < s.len() && s[m].0 == t[n].0 by {
            if n == 0 {
                assert(s[0].0 == t[0].0);
            } else {
                assert(t[n] == u[n - 1]);
                let m = choose|m: int| 0 <= m < s.skip(1).len() && s.skip(1)[m].0 == u[n - 1].0;
                assert(s[m + 1].0 == t[n].0);
            }
        }
    }
}

/// The validated configuration of the filter.
pub struct ConfigModel {
    pub add: Vec<(Vec<u8>, Vec<u8>)>,
    pub set: Vec<(Vec<u8>, Vec<u8>)>,
    pub body: Vec<u8>,
}

impl ConfigModel {
    pub open spec fn view(&self) -> SpecConfig {
        SpecConfig { add: pairs_view(self.add@), set: pairs_view(self.set@), body: self.body@ }
    }

    /// Names are unique within each mapping.
    pub open spec fn wf(&self) -> bool {
        keys_unique(self@.add) && keys_unique(self@.set)
    }

    /// The default configuration: every exchange passes through untouched.
    pub fn empty() -> (r: ConfigModel)
        ensures
            r@ == SpecConfig::empty(),
            r.wf(),
    {
        let r = ConfigModel { add: Vec::new(), set: Vec::new(), body: Vec::new() };
        proof {
            assert(pairs_view(r.add@) =~= Seq::<(Seq<u8>, Seq<u8>)>::empty());
            assert(pairs_view(r.set@) =~= Seq::<(Seq<u8>, Seq<u8>)>::empty());
        }
        r
    }

    /// An independent copy with the same content; request instances take one
    /// each, so concurrent requests never share mutable configuration.
    pub fn duplicate(&self) -> (r: ConfigModel)
        ensures
            r@ == self@,
    {
        ConfigModel {
            add: copy_pairs(&self.add),
            set: copy_pairs(&self.set),
            body: copy_bytes(&self.body),
        }
    }
}

/// Insert-or-replace on the executable mapping.
pub fn upsert(m: &mut Vec<(Vec<u8>, Vec<u8>)>, k: Vec<u8>, v: Vec<u8>)
    ensures
        pairs_view(final(m)@) == spec_upsert(pairs_view(old(m)@), k@, v@),
{
    let ghost full = pairs_view(m@);
    let n: usize = m.len();
    let mut i: usize = 0;
    proof {
        assert(full.skip(0) =~= full);
    }
    while i < n
        invariant
            n == m@.len(),
            full == pairs_view(m@),
            full == pairs_view(old(m)@),
            0 <= i <= n,
            forall|j: int| 0 <= j < i ==> full[j].0 != k@,
            spec_upsert(full, k@, v@) == full.take(i as int) + spec_upsert(
                full.skip(i as int),
                k@,
                v@,
            ),
        decreases n - i,
    {
        proof {
            assert(full.skip(i as int)[0] == full[i as int]);
            assert(full.skip(i as int).skip(1) =~= full.skip(i as int + 1));
        }
        if crate::bytes::bytes_eq(&m[i].0, &k) {
            let ghost tail = full.skip(i as int);
            proof {
                assert(spec_upsert(tail, k@, v@) =~= seq![(k@, v@)] + tail.skip(1));
            }
            let ghost kk = k@;
            let ghost vv = v@;
            m[i] = (k, v);
            proof {
                assert(pairs_view(m@) =~= full.take(i as int) + (seq![(kk, vv)] + full.skip(
                    i as int + 1,
                )));
                assert(spec_upsert(tail, kk, vv) == seq![(kk, vv)] + tail.skip(1));
            }
            return;
        }
        proof {
            assert(full.take(i as int + 1) =~= full.take(i as int) + seq![full[i as int]]);
            assert(full.take(i as int) + (seq![full[i as int]] + spec_upsert(
                full.skip(i as int + 1),
                k@,
                v@,
            )) =~= full.take(i as int + 1) + spec_upsert(full.skip(i as int + 1), k@, v@));
        }
        i = i + 1;
    }
    m.push((k, v));
    proof {
        assert(full.skip(n as int) =~= Seq::<(Seq<u8>, Seq<u8>)>::empty());
        assert(spec_upsert(full.skip(n as int), k@, v@) =~= seq![(k@, v@)]);
        assert(full.take(n as int) =~= full);
        assert(pairs_view(m@) =~= full + seq![(k@, v@)]);
    }
}

} // verus!
