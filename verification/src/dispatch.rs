//! Server selection and result fusion.
//!
//! A feature request names a subset of the registry; the dispatcher keeps
//! only the servers that advertise the feature's capability, in registry
//! order, fans the request out, and a fusion rule reduces the ordered
//! per-server responses to one result: the first non-empty response, a
//! per-server merge, or an aggregation (code actions).

use vstd::prelude::*;

use crate::types::EditorMeta;
use crate::types::ServerId;
use crate::types::ServerRegistry;
use crate::types::ServerSettings;

verus! {

/// The features the capability filter distinguishes.
#[derive(Clone, Copy, PartialEq, Eq, Structural, Debug)]
pub enum Feature {
    CodeActions,
    CodeActionsResolve,
    CodeLens,
    Formatting,
    RangeFormatting,
    Rename,
    Goto,
    References,
    CallHierarchy,
    ExecuteCommand,
}

/// Whether `server` advertises the capability behind `feature`.
pub open spec fn spec_has_capability(server: ServerSettings, feature: Feature) -> bool {
    match feature {
        Feature::CodeActions => server.capabilities.code_actions,
        Feature::CodeActionsResolve => server.capabilities.code_actions_resolve,
        Feature::CodeLens => server.capabilities.code_lens,
        Feature::Formatting => server.capabilities.formatting,
        Feature::RangeFormatting => server.capabilities.range_formatting,
        Feature::Rename => server.capabilities.rename,
        Feature::Goto => server.capabilities.goto,
        Feature::References => server.capabilities.references,
        Feature::CallHierarchy => server.capabilities.call_hierarchy,
        Feature::ExecuteCommand => server.capabilities.execute_command,
    }
}

/// Whether the capability filter lets `feature` through to `server` for this request:
/// the server must advertise the capability, whether the request came from
/// a hook or from an interactive command.
pub fn attempt_server_capability(server: &ServerSettings, meta: &EditorMeta, feature: Feature) -> (r:
    bool)
    ensures
        r == spec_has_capability(*server, feature),
{
    match feature {
        Feature::CodeActions => server.capabilities.code_actions,
        Feature::CodeActionsResolve => server.capabilities.code_actions_resolve,
        Feature::CodeLens => server.capabilities.code_lens,
        Feature::Formatting => server.capabilities.formatting,
        Feature::RangeFormatting => server.capabilities.range_formatting,
        Feature::Rename => server.capabilities.rename,
        Feature::Goto => server.capabilities.goto,
        Feature::References => server.capabilities.references,
        Feature::CallHierarchy => server.capabilities.call_hierarchy,
        Feature::ExecuteCommand => server.capabilities.execute_command,
    }
}

/// Server `id` is consulted for this request and passes the capability filter.
pub open spec fn spec_eligible(
    registry: &ServerRegistry,
    meta: &EditorMeta,
    feature: Feature,
    id: ServerId,
) -> bool {
    &&& id < registry.servers@.len()
    &&& meta.servers@.contains(id)
    &&& spec_has_capability(registry.servers@[id as int], feature)
}

/// Whether `v` contains `x`.
pub fn contains_id(v: &Vec<ServerId>, x: ServerId) -> (r: bool)
    ensures
        r == v@.contains(x),
{
    let mut i: usize = 0;
    while i < v.len()
        invariant
            i <= v@.len(),
            forall|j: int| 0 <= j < i ==> v@[j] != x,
        decreases v@.len() - i,
    {
        if v[i] == x {
            return true;
        }
        i = i + 1;
    }
    false
}

/// The servers this request consults for `feature`: the ones named by the
/// request that advertise the capability, in registry order.
pub fn eligible_servers(registry: &ServerRegistry, meta: &EditorMeta, feature: Feature) -> (r: Vec<
    ServerId,
>)
    ensures
        forall|k: int|
            0 <= k < r@.len() ==> spec_eligible(registry, meta, feature, #[trigger] r@[k]),
        forall|k1: int, k2: int| 0 <= k1 < k2 < r@.len() ==> r@[k1] < r@[k2],
        forall|id: ServerId| spec_eligible(registry, meta, feature, id) ==> r@.contains(id),
{
    let mut r: Vec<ServerId> = Vec::new();
    let mut id: usize = 0;
    while id < registry.servers.len()
        invariant
            id <= registry.servers@.len(),
            forall|k: int|
                0 <= k < r@.len() ==> spec_eligible(registry, meta, feature, #[trigger] r@[k]),
            forall|k1: int, k2: int| 0 <= k1 < k2 < r@.len() ==> r@[k1] < r@[k2],
            forall|k: int| 0 <= k < r@.len() ==> r@[k] < id,
            forall|j: ServerId| j < id && spec_eligible(registry, meta, feature, j) ==> r@.contains(j),
        decreases registry.servers@.len() - id,
    {
        if contains_id(&meta.servers, id) && attempt_server_capability(
            &registry.servers[id],
            meta,
            feature,
        ) {
            let ghost old_r = r@;
            r.push(id);
            proof {
                assert(r@ == old_r.push(id as ServerId));
                assert(r@[r@.len() - 1] == id as ServerId);
                assert forall|j: ServerId|
                    j < id + 1 && spec_eligible(registry, meta, feature, j) implies r@.contains(
                    j,
                ) by {
                    if j < id {
                        assert(old_r.contains(j));
                        let w = choose|w: int| 0 <= w < old_r.len() && old_r[w] == j;
                        assert(r@[w] == j);
                    } else {
                        assert(r@[r@.len() - 1] == j);
                    }
                }
            }
        }
        id = id + 1;
    }
    r
}

/// Dispatcher input: either the same payloads broadcast to every eligible
/// server, or an explicit per-server list of payloads.
pub enum RequestParams<P> {
    All(Vec<P>),
    Each(Vec<(ServerId, Vec<P>)>),
}

/// Index of the first response that is present, or the length when every
/// response is missing.
pub open spec fn spec_first_some_index<T>(s: Seq<(ServerId, Option<T>)>) -> int
    decreases s.len(),
{
    if s.len() == 0 {
        0
    } else if s[0].1 is Some {
        0
    } else {
        1 + spec_first_some_index(s.drop_first())
    }
}

pub proof fn lemma_first_some_index_bounds<T>(s: Seq<(ServerId, Option<T>)>)
    ensures
        0 <= spec_first_some_index(s) <= s.len(),
        spec_first_some_index(s) < s.len() ==> s[spec_first_some_index(s)].1 is Some,
        forall|i: int| 0 <= i < spec_first_some_index(s) ==> s[i].1 is None,
    decreases s.len(),
{
    if s.len() > 0 && !(s[0].1 is Some) {
        lemma_first_some_index_bounds(s.drop_first());
        assert forall|i: int| 0 <= i < spec_first_some_index(s) implies s[i].1 is None by {
            if i > 0 {
                assert(s.drop_first()[i - 1] == s[i]);
            }
        }
    }
}

/// First-non-empty fusion, step one: the index of the first server that
/// answered at all, scanning in registry order.
pub fn first_some_index<T>(results: &Vec<(ServerId, Option<T>)>) -> (r: Option<usize>)
    ensures
        r is Some <==> spec_first_some_index(results@) < results@.len(),
        r is Some ==> r->0 == spec_first_some_index(results@),
{
    proof {
        lemma_first_some_index_bounds(results@);
    }
    let mut i: usize = 0;
    while i < results.len()
        invariant
            i <= results@.len(),
            forall|j: int| 0 <= j < i ==> results@[j].1 is None,
        decreases results@.len() - i,
    {
        if results[i].1.is_some() {
            proof {
                lemma_first_some_index_bounds(results@);
                let f = spec_first_some_index(results@);
                if f < i as int {
                    assert(results@[f].1 is None);
                }
            }
            return Some(i);
        }
        i = i + 1;
    }
    proof {
        lemma_first_some_index_bounds(results@);
        if spec_first_some_index(results@) < results@.len() {
            assert(results@[spec_first_some_index(results@)].1 is None);
        }
    }
    None
}

/// Index of the first response that is present and non-empty, or the
/// length when there is none.
pub open spec fn spec_first_nonempty_index<T>(s: Seq<(ServerId, Option<Vec<T>>)>) -> int
    decreases s.len(),
{
    if s.len() == 0 {
        0
    } else if s[0].1 is Some && s[0].1->0@.len() > 0 {
        0
    } else {
        1 + spec_first_nonempty_index(s.drop_first())
    }
}

pub proof fn lemma_first_nonempty_index_bounds<T>(s: Seq<(ServerId, Option<Vec<T>>)>)
    ensures
        0 <= spec_first_nonempty_index(s) <= s.len(),
        spec_first_nonempty_index(s) < s.len() ==> s[spec_first_nonempty_index(s)].1 is Some
            && s[spec_first_nonempty_index(s)].1->0@.len() > 0,
        forall|i: int|
            0 <= i < spec_first_nonempty_index(s) ==> !(s[i].1 is Some && s[i].1->0@.len() > 0),
    decreases s.len(),
{
    if s.len() > 0 && !(s[0].1 is Some && s[0].1->0@.len() > 0) {
        lemma_first_nonempty_index_bounds(s.drop_first());
        assert forall|i: int|
            0 <= i < spec_first_nonempty_index(s) implies !(s[i].1 is Some
            && s[i].1->0@.len() > 0) by {
            if i > 0 {
                assert(s.drop_first()[i - 1] == s[i]);
            }
        }
    }
}

/// First-non-empty fusion: the index of the first server, in registry
/// order, whose response is present and non-empty.
pub fn first_nonempty_index<T>(results: &Vec<(ServerId, Option<Vec<T>>)>) -> (r: Option<usize>)
    ensures
        r is Some <==> spec_first_nonempty_index(results@) < results@.len(),
        r is Some ==> r->0 == spec_first_nonempty_index(results@),
{
    let mut i: usize = 0;
    while i < results.len()
        invariant
            i <= results@.len(),
            forall|j: int|
                0 <= j < i ==> !(results@[j].1 is Some && results@[j].1->0@.len() > 0),
        decreases results@.len() - i,
    {
        let hit = match &results[i].1 {
            Some(v) => v.len() > 0,
            None => false,
        };
        if hit {
            proof {
                lemma_first_nonempty_index_bounds(results@);
                let f = spec_first_nonempty_index(results@);
                if f < i as int {
                    assert(!(results@[f].1 is Some && results@[f].1->0@.len() > 0));
                }
            }
            return Some(i);
        }
        i = i + 1;
    }
    proof {
        lemma_first_nonempty_index_bounds(results@);
        if spec_first_nonempty_index(results@) < results@.len() {
            assert(!(results@[spec_first_nonempty_index(results@)].1 is Some
                && results@[spec_first_nonempty_index(results@)].1->0@.len() > 0));
        }
    }
    None
}

/// A version-pinned reply is stale when the document moved on since
/// dispatch; stale replies are dropped without editor output.
pub fn reply_is_stale(document_version: i32, captured_version: i32) -> (r: bool)
    ensures
        r == (document_version != captured_version),
{
    document_version != captured_version
}

/// A batch is keyed by buffer and feature; a newer request with the same
/// key abandons the in-flight batch, whose continuation must not run.
pub open spec fn spec_supersedes(
    newer_buffile: Seq<char>,
    newer_feature: Feature,
    older_buffile: Seq<char>,
    older_feature: Feature,
) -> bool {
    newer_buffile == older_buffile && newer_feature == older_feature
}

/// Whether a newly issued request cancels an in-flight batch.
pub fn supersedes(
    newer_buffile: &str,
    newer_feature: Feature,
    older_buffile: &str,
    older_feature: Feature,
) -> (r: bool)
    ensures
        r == spec_supersedes(newer_buffile@, newer_feature, older_buffile@, older_feature),
{
    let nb = newer_buffile.to_owned();
    let ob = older_buffile.to_owned();
    nb == ob && newer_feature == older_feature
}

} // verus!
