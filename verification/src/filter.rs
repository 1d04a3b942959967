//! Per-request orchestration of header mutation and body rewrite, and the
//! root lifecycle that owns the canonical configuration.
//!
//! Header mutation runs exactly once, when the host signals end-of-stream on
//! the header phase: `add` entries are appended first, then `set` entries
//! overwrite, each value resolved against the property store; finally, if a
//! body replacement is configured, `Content-Length` is stripped and the host
//! is told (through an out-of-band marker) that body post-processing is in
//! effect.

use vstd::prelude::*;

use crate::body::Action;
use crate::body::RewriteState;
use crate::body::spec_body_action;
use crate::body::spec_body_after;
use crate::body::spec_body_next_state;
use crate::bytes::copy_bytes;
use crate::bytes::pairs_view;
use crate::config::ConfigModel;
use crate::config::SpecConfig;
use crate::headers::HeaderMap;
use crate::json::parse_config;
use crate::json::spec_configure;
use crate::headers::remove_name;
use crate::resolve::resolve;
use crate::resolve::spec_resolve;
use crate::store::PropertyStore;

verus! {

/// The header name whose stale value must not survive a body replacement.
pub open spec fn content_length_name() -> Seq<u8> {
    seq![67u8, 111u8, 110u8, 116u8, 101u8, 110u8, 116u8, 45u8, 76u8, 101u8, 110u8, 103u8, 116u8, 104u8]
}

/// The bytes of `Content-Length`.
pub fn content_length_bytes() -> (r: Vec<u8>)
    ensures
        r@ == content_length_name(),
{
    let mut r: Vec<u8> = Vec::new();
    r.push(67);
    r.push(111);
    r.push(110);
    r.push(116);
    r.push(101);
    r.push(110);
    r.push(116);
    r.push(45);
    r.push(76);
    r.push(101);
    r.push(110);
    r.push(103);
    r.push(116);
    r.push(104);
    proof {
        assert(r@ =~= content_length_name());
    }
    r
}

/// Each configured pair with its value resolved against the store.
pub open spec fn resolved_pairs(
    entries: Seq<(Seq<u8>, Seq<u8>)>,
    store: Seq<(Seq<u8>, Seq<u8>)>,
) -> Seq<(Seq<u8>, Seq<u8>)> {
    entries.map_values(|e: (Seq<u8>, Seq<u8>)| (e.0, spec_resolve(e.1, store)))
}

/// The header set after every `set` entry has replaced its name, in order.
pub open spec fn apply_set_spec(
    h: Seq<(Seq<u8>, Seq<u8>)>,
    entries: Seq<(Seq<u8>, Seq<u8>)>,
    store: Seq<(Seq<u8>, Seq<u8>)>,
) -> Seq<(Seq<u8>, Seq<u8>)>
    decreases entries.len(),
{
    if entries.len() == 0 {
        h
    } else {
        apply_set_spec(
            remove_name(h, entries[0].0).push((entries[0].0, spec_resolve(entries[0].1, store))),
            entries.skip(1),
            store,
        )
    }
}

/// The header set after the whole header phase: `add` appends, `set`
/// overwrites, and a pending body replacement strips `Content-Length`.
pub open spec fn spec_headers_phase(
    h: Seq<(Seq<u8>, Seq<u8>)>,
    cfg: SpecConfig,
    store: Seq<(Seq<u8>, Seq<u8>)>,
) -> Seq<(Seq<u8>, Seq<u8>)> {
    let added = h + resolved_pairs(cfg.add, store);
    let set = apply_set_spec(added, cfg.set, store);
    if cfg.body.len() > 0 {
        remove_name(set, content_length_name())
    } else {
        set
    }
}

/// Append every `add` entry, resolved, to the header set.
pub fn apply_add_list(
    headers: &mut HeaderMap,
    entries: &Vec<(Vec<u8>, Vec<u8>)>,
    store: &PropertyStore,
)
    ensures
        final(headers)@ == old(headers)@ + resolved_pairs(pairs_view(entries@), store@),
{
    let ghost full = pairs_view(entries@);
    let n: usize = entries.len();
    let mut i: usize = 0;
    proof {
        assert(old(headers)@ + resolved_pairs(full.take(0), store@) =~= old(headers)@);
    }
    while i < n
        invariant
            n == entries@.len(),
            full == pairs_view(entries@),
            0 <= i <= n,
            headers@ == old(headers)@ + resolved_pairs(full.take(i as int), store@),
        decreases n - i,
    {
        let name = copy_bytes(&entries[i].0);
        let value = resolve(&entries[i].1, store);
        headers.add(name, value);
        proof {
            assert(full.take(i as int + 1) =~= full.take(i as int).push(full[i as int]));
            assert(resolved_pairs(full.take(i as int + 1), store@) =~= resolved_pairs(
                full.take(i as int),
                store@,
            ).push((full[i as int].0, spec_resolve(full[i as int].1, store@))));
            assert(headers@ =~= old(headers)@ + resolved_pairs(full.take(i as int + 1), store@));
        }
        i = i + 1;
    }
    proof {
        assert(full.take(n as int) =~= full);
    }
}

/// Apply every `set` entry, resolved, to the header set, in order.
pub fn apply_set_list(
    headers: &mut HeaderMap,
    entries: &Vec<(Vec<u8>, Vec<u8>)>,
    store: &PropertyStore,
)
    ensures
        final(headers)@ == apply_set_spec(old(headers)@, pairs_view(entries@), store@),
{
    let ghost full = pairs_view(entries@);
    let n: usize = entries.len();
    let mut i: usize = 0;
    proof {
        assert(full.skip(0) =~= full);
    }
    while i < n
        invariant
            n == entries@.len(),
            full == pairs_view(entries@),
            0 <= i <= n,
            apply_set_spec(old(headers)@, full, store@) == apply_set_spec(
                headers@,
                full.skip(i as int),
                store@,
            ),
        decreases n - i,
    {
        proof {
            assert(full.skip(i as int)[0] == full[i as int]);
            assert(full.skip(i as int).skip(1) =~= full.skip(i as int + 1));
        }
        let name = copy_bytes(&entries[i].0);
        let value = resolve(&entries[i].1, store);
        headers.set(name, Some(value));
        i = i + 1;
    }
    proof {
        assert(full.skip(n as int) =~= Seq::<(Seq<u8>, Seq<u8>)>::empty());
    }
}

/// What one header-phase callback hands back to the host.
pub struct HeadersOutcome {
    /// The control decision; header callbacks always continue.
    pub action: Action,
    /// Whether the host must be told that body post-processing is active.
    pub signal_body_rewrite: bool,
}

/// The per-request filter: one immutable configuration copy plus the body
/// rewriter's state, bound to one response lifecycle.
pub struct FilterInstance {
    pub config: ConfigModel,
    pub state: RewriteState,
}

impl FilterInstance {
    /// The rewriter leaves `Inactive` only when a replacement is configured.
    pub open spec fn wf(&self) -> bool {
        self.state != RewriteState::Inactive ==> self.config.body@.len() > 0
    }

    /// A fresh instance for one response, holding its own configuration copy.
    pub fn new(config: ConfigModel) -> (r: FilterInstance)
        ensures
            r.config == config,
            r.state == RewriteState::Inactive,
            r.wf(),
    {
        FilterInstance { config, state: RewriteState::Inactive }
    }

    /// One header-phase callback. Until the host signals end-of-stream the
    /// header set must not be touched; at end-of-stream the configured
    /// mutations apply once, and a configured body replacement strips
    /// `Content-Length` and arms the rewriter.
    pub fn on_response_headers(
        &mut self,
        headers: &mut HeaderMap,
        store: &PropertyStore,
        end_of_stream: bool,
    ) -> (r: HeadersOutcome)
        requires
            old(self).wf(),
        ensures
            final(self).wf(),
            final(self).config == old(self).config,
            r.action == Action::Continue,
            !end_of_stream ==> {
                &&& final(headers)@ == old(headers)@
                &&& *final(self) == *old(self)
                &&& !r.signal_body_rewrite
            },
            end_of_stream ==> {
                &&& final(headers)@ == spec_headers_phase(old(headers)@, old(self).config@, store@)
                &&& r.signal_body_rewrite == (old(self).config.body@.len() > 0)
                &&& final(self).state == if old(self).config.body@.len() > 0 {
                    RewriteState::AwaitingEnd
                } else {
                    old(self).state
                }
            },
    {
        if !end_of_stream {
            return HeadersOutcome { action: Action::Continue, signal_body_rewrite: false };
        }
        apply_add_list(headers, &self.config.add, store);
        apply_set_list(headers, &self.config.set, store);
        if self.config.body.len() > 0 {
            let name = content_length_bytes();
            headers.set(name, None);
            self.state = RewriteState::AwaitingEnd;
            HeadersOutcome { action: Action::Continue, signal_body_rewrite: true }
        } else {
            HeadersOutcome { action: Action::Continue, signal_body_rewrite: false }
        }
    }

    /// One body-chunk callback over the currently observed body buffer.
    /// While a replacement is pending, a non-terminal chunk is paused and
    /// nothing is emitted or altered; the terminal chunk replaces the whole
    /// observed body with the payload, finally. Without a replacement, every
    /// chunk passes through unchanged.
    pub fn on_response_body(&mut self, observed: &mut Vec<u8>, end_of_stream: bool) -> (r: Action)
        requires
            old(self).wf(),
        ensures
            final(self).wf(),
            final(self).config == old(self).config,
            r == spec_body_action(old(self).state, end_of_stream),
            final(self).state == spec_body_next_state(old(self).state, end_of_stream),
            final(observed)@ == spec_body_after(
                old(self).state,
                end_of_stream,
                old(observed)@,
                old(self).config.body@,
            ),
    {
        match self.state {
            RewriteState::Inactive => Action::Continue,
            _ => {
                if end_of_stream {
                    overwrite(observed, &self.config.body);
                    self.state = RewriteState::Completed;
                    Action::Continue
                } else {
                    Action::Pause
                }
            },
        }
    }
}

/// Replace the whole contents of `dst` with those of `src`.
fn overwrite(dst: &mut Vec<u8>, src: &Vec<u8>)
    ensures
        final(dst)@ == src@,
{
    dst.clear();
    let n: usize = src.len();
    let mut i: usize = 0;
    while i < n
        invariant
            n == src@.len(),
            0 <= i <= n,
            dst@ =~= src@.take(i as int),
        decreases n - i,
    {
        dst.push(src[i]);
        i = i + 1;
    }
    proof {
        assert(src@.take(n as int) =~= src@);
    }
}

/// The root lifecycle object: owner of the canonical configuration. A
/// configuration load replaces it atomically; each new request takes an
/// independent copy.
pub struct FilterRoot {
    pub config: ConfigModel,
}

impl FilterRoot {
    /// A fresh root with the empty default configuration.
    pub fn new() -> (r: FilterRoot)
        ensures
            r.config@ == SpecConfig::empty(),
            r.config.wf(),
    {
        FilterRoot { config: ConfigModel::empty() }
    }

    /// Load a configuration from raw bytes. On success the parsed
    /// configuration replaces the previous one whole; on failure — the bytes
    /// are not valid UTF-8, or not of the schema — nothing is installed, the
    /// previous configuration stays in effect, and the host is told so.
    pub fn configure(&mut self, raw: &Vec<u8>) -> (ok: bool)
        requires
            old(self).config.wf(),
        ensures
            final(self).config.wf(),
            match spec_configure(raw@) {
                Some(cfg) => ok && final(self).config@ == cfg,
                None => !ok && final(self).config == old(self).config,
            },
    {
        if !crate::resolve::utf8_ok(raw) {
            return false;
        }
        match parse_config(raw) {
            Some(c) => {
                self.config = c;
                true
            },
            None => false,
        }
    }

    /// A per-request instance bound to the configuration active right now;
    /// later configuration loads do not affect it.
    pub fn create_instance(&self) -> (r: FilterInstance)
        ensures
            r.config@ == self.config@,
            r.state == RewriteState::Inactive,
            r.wf(),
    {
        FilterInstance::new(self.config.duplicate())
    }
}

} // verus!
