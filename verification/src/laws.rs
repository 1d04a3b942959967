//! The laws the filter obeys, stated over the same spec functions that the
//! executable functions' contracts use, and proved once and for all.

use vstd::prelude::*;

use crate::body::Action;
use crate::body::BodyRun;
use crate::body::RewriteState;
use crate::body::spec_body_run;
use crate::bytes::assoc_lookup;
use crate::config::SpecConfig;
use crate::config::keys_unique;
use crate::filter::apply_set_spec;
use crate::filter::content_length_name;
use crate::filter::resolved_pairs;
use crate::filter::spec_headers_phase;
use crate::headers::has_name;
use crate::headers::remove_name;
use crate::headers::values_for;
use crate::headers::lemma_remove_name_gone;
use crate::json::spec_configure;
use crate::resolve::is_reference;
use crate::resolve::spec_resolve;

verus! {

/// Add is additive: applying an `add` mapping appends each configured header
/// with its resolved value, in order, and leaves every pre-existing header
/// occurrence exactly where it was.
pub proof fn lemma_add_is_additive(
    h: Seq<(Seq<u8>, Seq<u8>)>,
    entries: Seq<(Seq<u8>, Seq<u8>)>,
    store: Seq<(Seq<u8>, Seq<u8>)>,
)
    ensures
        (h + resolved_pairs(entries, store)).len() == h.len() + entries.len(),
        forall|i: int| #![auto] 0 <= i < h.len() ==> (h + resolved_pairs(entries, store))[i]
            == h[i],
        forall|i: int| #![auto] 0 <= i < entries.len() ==> (h + resolved_pairs(entries, store))[
            h.len() + i
        ] == (entries[i].0, spec_resolve(entries[i].1, store)),
{
}

/// How `values_for` sees one appended pair.
pub proof fn lemma_values_for_push(s: Seq<(Seq<u8>, Seq<u8>)>, p: (Seq<u8>, Seq<u8>), n: Seq<u8>)
    ensures
        values_for(s.push(p), n) == if p.0 == n {
            values_for(s, n).push(p.1)
        } else {
            values_for(s, n)
        },
    decreases s.len(),
{
    reveal_with_fuel(values_for, 3);
    if s.len() == 0 {
        assert(s.push(p)[0] == p);
        assert(s.push(p).skip(1) =~= Seq::<(Seq<u8>, Seq<u8>)>::empty());
        if p.0 == n {
            assert(values_for(s, n).push(p.1) =~= seq![p.1] + Seq::<Seq<u8>>::empty());
        }
    } else {
        assert(s.push(p)[0] == s[0]);
        assert(s.push(p).skip(1) =~= s.skip(1).push(p));
        lemma_values_for_push(s.skip(1), p, n);
        if p.0 == n && s[0].0 == n {
            assert(seq![s[0].1] + values_for(s.skip(1), n).push(p.1) =~= (seq![s[0].1] + values_for(
                s.skip(1),
                n,
            )).push(p.1));
        }
    }
}

/// A name that occurs nowhere has no values.
pub proof fn lemma_values_for_absent(s: Seq<(Seq<u8>, Seq<u8>)>, n: Seq<u8>)
    requires
        forall|i: int| 0 <= i < s.len() ==> (#[trigger] s[i]).0 != n,
    ensures
        values_for(s, n) == Seq::<Seq<u8>>::empty(),
    decreases s.len(),
{
    if s.len() > 0 {
        assert(forall|i: int| 0 <= i < s.skip(1).len() ==> (#[trigger] s.skip(1)[i]) == s[i + 1]);
        lemma_values_for_absent(s.skip(1), n);
    }
}

/// Removing one name leaves the values of every other name untouched.
pub proof fn lemma_values_for_remove_other(s: Seq<(Seq<u8>, Seq<u8>)>, k: Seq<u8>, n: Seq<u8>)
    requires
        k != n,
    ensures
        values_for(remove_name(s, k), n) == values_for(s, n),
    decreases s.len(),
{
    if s.len() == 0 {
    } else {
        lemma_values_for_remove_other(s.skip(1), k, n);
        if s[0].0 == k {
        } else {
            let rest = remove_name(s.skip(1), k);
            assert((seq![s[0]] + rest)[0] == s[0]);
            assert((seq![s[0]] + rest).skip(1) =~= rest);
        }
    }
}

/// `set` entries for other names never touch the values of `name`.
pub proof fn lemma_apply_set_other(
    h: Seq<(Seq<u8>, Seq<u8>)>,
    entries: Seq<(Seq<u8>, Seq<u8>)>,
    store: Seq<(Seq<u8>, Seq<u8>)>,
    name: Seq<u8>,
)
    requires
        forall|i: int| 0 <= i < entries.len() ==> (#[trigger] entries[i]).0 != name,
    ensures
        values_for(apply_set_spec(h, entries, store), name) == values_for(h, name),
    decreases entries.len(),
{
    if entries.len() == 0 {
    } else {
        let k0 = entries[0].0;
        let h1 = remove_name(h, k0).push((k0, spec_resolve(entries[0].1, store)));
        lemma_values_for_remove_other(h, k0, name);
        lemma_values_for_push(remove_name(h, k0), (k0, spec_resolve(entries[0].1, store)), name);
        assert(forall|i: int|
            0 <= i < entries.skip(1).len() ==> (#[trigger] entries.skip(1)[i]) == entries[i + 1]);
        lemma_apply_set_other(h1, entries.skip(1), store, name);
    }
}

/// Set is replacing: after a `set` mapping with unique names applies, each of
/// its names occurs exactly once in the header set, holding its resolved
/// value, however many occurrences existed before.
pub proof fn lemma_set_is_replacing(
    h: Seq<(Seq<u8>, Seq<u8>)>,
    entries: Seq<(Seq<u8>, Seq<u8>)>,
    store: Seq<(Seq<u8>, Seq<u8>)>,
)
    requires
        keys_unique(entries),
    ensures
        forall|idx: int| #![auto] 0 <= idx < entries.len() ==> values_for(
            apply_set_spec(h, entries, store),
            entries[idx].0,
        ) == seq![spec_resolve(entries[idx].1, store)],
    decreases entries.len(),
{
    if entries.len() == 0 {
    } else {
        let k0 = entries[0].0;
        let r0 = spec_resolve(entries[0].1, store);
        let removed = remove_name(h, k0);
        let h1 = removed.push((k0, r0));
        lemma_remove_name_gone(h, k0);
        lemma_values_for_absent(removed, k0);
        lemma_values_for_push(removed, (k0, r0), k0);
        assert(values_for(h1, k0) =~= seq![r0]);
        assert(forall|i: int|
            0 <= i < entries.skip(1).len() ==> (#[trigger] entries.skip(1)[i]) == entries[i + 1]);
        assert(forall|i: int| 0 <= i < entries.skip(1).len() ==> (#[trigger] entries.skip(1)[
        i]).0 != k0);
        lemma_apply_set_other(h1, entries.skip(1), store, k0);
        assert(keys_unique(entries.skip(1)));
        lemma_set_is_replacing(h1, entries.skip(1), store);
        assert(apply_set_spec(h, entries, store) == apply_set_spec(h1, entries.skip(1), store));
        assert forall|idx: int| 0 <= idx < entries.len() implies #[trigger] values_for(
            apply_set_spec(h, entries, store),
            entries[idx].0,
        ) == seq![spec_resolve(entries[idx].1, store)] by {
            if idx == 0 {
            } else {
                assert(entries.skip(1)[idx - 1] == entries[idx]);
            }
        }
    }
}

/// Resolution fallback: a reference to a property path the store does not
/// hold resolves to the original reference text, marker included.
pub proof fn lemma_resolution_fallback(expr: Seq<u8>, store: Seq<(Seq<u8>, Seq<u8>)>)
    requires
        is_reference(expr),
        assoc_lookup(store, expr.skip(1)) is None,
    ensures
        spec_resolve(expr, store) == expr,
{
}

/// Content-Length invalidation: whenever a non-empty replacement payload is
/// configured, the header set holds no `Content-Length` occurrence after the
/// header phase completes.
pub proof fn lemma_content_length_invalidation(
    h: Seq<(Seq<u8>, Seq<u8>)>,
    cfg: SpecConfig,
    store: Seq<(Seq<u8>, Seq<u8>)>,
)
    requires
        cfg.body.len() > 0,
    ensures
        !has_name(spec_headers_phase(h, cfg, store), content_length_name()),
{
    lemma_remove_name_gone(
        apply_set_spec(h + resolved_pairs(cfg.add, store), cfg.set, store),
        content_length_name(),
    );
}

/// Body rewrite is all-or-nothing and final: with a replacement pending, a
/// chunk sequence whose last chunk alone signals end-of-stream yields a pause
/// for every non-terminal chunk, then one continue; the body finally observed
/// is exactly the payload, and the rewriter ends completed.
pub proof fn lemma_body_rewrite_all_or_nothing(
    payload: Seq<u8>,
    observed: Seq<u8>,
    flags: Seq<bool>,
)
    requires
        flags.len() > 0,
        forall|i: int| 0 <= i < flags.len() - 1 ==> !(#[trigger] flags[i]),
        flags[flags.len() - 1],
    ensures
        spec_body_run(RewriteState::AwaitingEnd, payload, observed, flags).observed == payload,
        spec_body_run(RewriteState::AwaitingEnd, payload, observed, flags).state
            == RewriteState::Completed,
        spec_body_run(RewriteState::AwaitingEnd, payload, observed, flags).decisions.len()
            == flags.len(),
        forall|i: int| #![auto] 0 <= i < flags.len() - 1 ==> spec_body_run(
            RewriteState::AwaitingEnd,
            payload,
            observed,
            flags,
        ).decisions[i] == Action::Pause,
        spec_body_run(RewriteState::AwaitingEnd, payload, observed, flags).decisions[flags.len()
            - 1] == Action::Continue,
    decreases flags.len(),
{
    let run = spec_body_run(RewriteState::AwaitingEnd, payload, observed, flags);
    if flags.len() == 1 {
        assert(flags[0]);
        assert(flags.skip(1) =~= Seq::<bool>::empty());
        let rest = spec_body_run(RewriteState::Completed, payload, payload, flags.skip(1));
        assert(rest.observed == payload);
        assert(run.decisions =~= seq![Action::Continue]);
    } else {
        assert(!flags[0]);
        assert(forall|i: int|
            0 <= i < flags.skip(1).len() ==> (#[trigger] flags.skip(1)[i]) == flags[i + 1]);
        lemma_body_rewrite_all_or_nothing(payload, observed, flags.skip(1));
        let rest = spec_body_run(RewriteState::AwaitingEnd, payload, observed, flags.skip(1));
        assert(run.decisions == seq![Action::Pause] + rest.decisions);
        assert(run.decisions[flags.len() - 1] == rest.decisions[flags.len() - 2]);
        assert forall|i: int| 0 <= i < flags.len() - 1 implies #[trigger] run.decisions[i]
            == Action::Pause by {
            if i > 0 {
                assert(run.decisions[i] == rest.decisions[i - 1]);
            }
        }
    }
}

/// Without a replacement, every chunk is forwarded unchanged and every
/// decision is a continue, whatever the chunk sequence.
pub proof fn lemma_body_passthrough(payload: Seq<u8>, observed: Seq<u8>, flags: Seq<bool>)
    ensures
        spec_body_run(RewriteState::Inactive, payload, observed, flags).observed == observed,
        spec_body_run(RewriteState::Inactive, payload, observed, flags).state
            == RewriteState::Inactive,
        spec_body_run(RewriteState::Inactive, payload, observed, flags).decisions.len()
            == flags.len(),
        forall|i: int| #![auto] 0 <= i < flags.len() ==> spec_body_run(
            RewriteState::Inactive,
            payload,
            observed,
            flags,
        ).decisions[i] == Action::Continue,
    decreases flags.len(),
{
    if flags.len() > 0 {
        lemma_body_passthrough(payload, observed, flags.skip(1));
    }
}

/// Idempotent configuration load: the same configuration bytes always yield
/// the same configuration, field for field.
pub proof fn lemma_config_load_idempotent(
    b1: Seq<u8>,
    b2: Seq<u8>,
    c1: SpecConfig,
    c2: SpecConfig,
)
    requires
        b1 == b2,
        spec_configure(b1) == Some(c1),
        spec_configure(b2) == Some(c2),
    ensures
        c1 == c2,
{
}

} // verus!
