//! Resolution of configured header values against the property store.
//!
//! A configured value is either a literal, or a property reference: a byte
//! string starting with the `$` marker, whose remainder is a property path.
//! A reference resolves to the stored value when the store has one and it
//! decodes as UTF-8 text; on a missing path or a value that is not text, the
//! original reference string (marker included) passes through as the literal
//! header value. Resolution is pure: it depends only on the expression and on
//! the store snapshot, and it never fails.

use vstd::prelude::*;

use crate::bytes::assoc_lookup;
use crate::bytes::copy_bytes;
use crate::store::PropertyStore;

verus! {

/// The byte that marks a property reference.
pub const MARKER: u8 = 36;

/// Whether `s` is valid UTF-8, as `core::str::from_utf8` decides it.
pub uninterp spec fn is_utf8(s: Seq<u8>) -> bool;

/// Relies on core::str::from_utf8: it returns Ok exactly when the input
/// is valid UTF-8, and the validity of a byte string depends on its bytes
/// alone.
#[verifier::external_body]
pub(crate) fn utf8_ok(v: &Vec<u8>) -> (r: bool)
    ensures
        r == is_utf8(v@),
{
    core::str::from_utf8(v.as_slice()).is_ok()
}

/// Whether `expr` is a property reference rather than a literal.
pub open spec fn is_reference(expr: Seq<u8>) -> bool {
    expr.len() > 0 && expr[0] == MARKER
}

/// What a configured value resolves to against a store snapshot.
pub open spec fn spec_resolve(expr: Seq<u8>, store: Seq<(Seq<u8>, Seq<u8>)>) -> Seq<u8> {
    if is_reference(expr) {
        match assoc_lookup(store, expr.skip(1)) {
            Some(v) => if is_utf8(v) {
                v
            } else {
                expr
            },
            None => expr,
        }
    } else {
        expr
    }
}

/// The bytes of `v` from index `k` on.
pub fn tail_from(v: &Vec<u8>, k: usize) -> (r: Vec<u8>)
    requires
        k <= v@.len(),
    ensures
        r@ == v@.skip(k as int),
{
    let mut r: Vec<u8> = Vec::new();
    let n: usize = v.len();
    let mut i: usize = k;
    while i < n
        invariant
            k <= i <= n,
            n == v@.len(),
            r@ =~= v@.subrange(k as int, i as int),
        decreases n - i,
    {
        r.push(v[i]);
        i = i + 1;
    }
    proof {
        assert(r@ =~= v@.skip(k as int));
    }
    r
}

/// Resolve one configured value against the store.
pub fn resolve(expr: &Vec<u8>, store: &PropertyStore) -> (r: Vec<u8>)
    ensures
        r@ == spec_resolve(expr@, store@),
{
    if expr.len() > 0 && expr[0] == MARKER {
        let path = tail_from(expr, 1);
        match store.get(&path) {
            Some(v) => {
                if utf8_ok(&v) {
                    v
                } else {
                    copy_bytes(expr)
                }
            },
            None => copy_bytes(expr),
        }
    } else {
        copy_bytes(expr)
    }
}

} // verus!
