//! The rules that a subject's grants confer, by namespace.

use vstd::prelude::*;
use k8s_openapi::api::rbac::v1::PolicyRule;
use crate::rbac_grant::{GrantSubject, GrantView, IdView, RBACGrant, RBACId, opt_view};
use crate::grant_controller::{GrantController, view_set};
use crate::permission_controller::PermissionController;
use crate::set_map::Identified;
use crate::structs::{Filter, filter_passes, grant_filter_applies};

verus! {

/// Why the rules of a subject could not be listed.
#[derive(Clone, Debug)]
pub enum PermissionError {
    /// The subject has never been observed.
    UnknownSubject,
    /// A grant refers to a permission set whose rules are not cached (yet):
    /// the answer would be incomplete, so none is given.
    UnresolvedPermissionSet(RBACId),
}

/// The namespace a filter asks for; no filter asks for none.
pub open spec fn filter_namespace(filter: Option<Filter>) -> Option<Seq<char>> {
    match filter {
        Some(f) => opt_view(f.namespace),
        None => None,
    }
}

/// The key under which a grant's rules are listed: its namespace, or the
/// empty string for a cluster-wide grant.
pub open spec fn namespace_key(g: GrantView) -> Seq<char> {
    match g.namespace {
        Some(ns) => ns,
        None => Seq::<char>::empty(),
    }
}

/// The rules of the grants that pass the filter, appended per namespace in
/// the order of the grants.
pub open spec fn permission_map(
    gs: Seq<GrantView>,
    f: Option<Seq<char>>,
    cache: Map<IdView, Seq<PolicyRule>>,
) -> Map<Seq<char>, Seq<PolicyRule>>
    decreases gs.len(),
{
    if gs.len() == 0 {
        Map::empty()
    } else {
        let m = permission_map(gs.drop_last(), f, cache);
        let g = gs.last();
        if filter_passes(g, f) {
            let ns = namespace_key(g);
            let before = if m.contains_key(ns) {
                m[ns]
            } else {
                Seq::<PolicyRule>::empty()
            };
            m.insert(ns, before + cache[g.permissions_id])
        } else {
            m
        }
    }
}

/// The target of the first grant that passes the filter and whose rules are
/// not cached.
pub open spec fn first_unresolved(
    gs: Seq<GrantView>,
    f: Option<Seq<char>>,
    cache: Map<IdView, Seq<PolicyRule>>,
) -> Option<IdView>
    decreases gs.len(),
{
    if gs.len() == 0 {
        None
    } else {
        match first_unresolved(gs.drop_last(), f, cache) {
            Some(id) => Some(id),
            None => {
                let g = gs.last();
                if filter_passes(g, f) && !cache.contains_key(g.permissions_id) {
                    Some(g.permissions_id)
                } else {
                    None
                }
            },
        }
    }
}

/// The list holds the map exactly: each key once, with its value.
pub open spec fn represents(
    v: Seq<(String, Vec<PolicyRule>)>,
    m: Map<Seq<char>, Seq<PolicyRule>>,
) -> bool {
    &&& forall|i: int|
        0 <= i < v.len() ==> m.contains_key(#[trigger] v[i].0@) && m[v[i].0@] == v[i].1@
    &&& forall|i: int, j: int|
        0 <= i < v.len() && 0 <= j < v.len() && i != j ==> #[trigger] v[i].0@ != #[trigger] v[j].0@
    &&& forall|k: Seq<char>|
        #[trigger] m.contains_key(k) ==> exists|i: int| 0 <= i < v.len() && #[trigger] v[i].0@ == k
}

/// What listing the rules of the grants `gs`, in that order, gives.
pub open spec fn outcome_matches(
    r: Result<Vec<(String, Vec<PolicyRule>)>, PermissionError>,
    gs: Seq<GrantView>,
    f: Option<Seq<char>>,
    cache: Map<IdView, Seq<PolicyRule>>,
) -> bool {
    match r {
        Ok(v) => first_unresolved(gs, f, cache).is_none() && represents(
            v@,
            permission_map(gs, f, cache),
        ),
        Err(PermissionError::UnresolvedPermissionSet(id)) => first_unresolved(gs, f, cache)
            == Some(id@),
        Err(PermissionError::UnknownSubject) => false,
    }
}

/// Some grant passes the filter and has no cached rules.
pub open spec fn has_unresolved(
    gs: Seq<GrantView>,
    f: Option<Seq<char>>,
    cache: Map<IdView, Seq<PolicyRule>>,
) -> bool {
    exists|i: int|
        0 <= i < gs.len() && filter_passes(#[trigger] gs[i], f) && !cache.contains_key(
            gs[i].permissions_id,
        )
}

proof fn lemma_first_unresolved_some(
    gs: Seq<GrantView>,
    f: Option<Seq<char>>,
    cache: Map<IdView, Seq<PolicyRule>>,
)
    ensures
        first_unresolved(gs, f, cache).is_some() == has_unresolved(gs, f, cache),
    decreases gs.len(),
{
    if gs.len() > 0 {
        let init = gs.drop_last();
        lemma_first_unresolved_some(init, f, cache);
        if has_unresolved(init, f, cache) {
            let i = choose|i: int|
                0 <= i < init.len() && filter_passes(#[trigger] init[i], f) && !cache.contains_key(
                    init[i].permissions_id,
                );
            assert(gs[i] == init[i]);
        }
        if has_unresolved(gs, f, cache) {
            let i = choose|i: int|
                0 <= i < gs.len() && filter_passes(#[trigger] gs[i], f) && !cache.contains_key(
                    gs[i].permissions_id,
                );
            if i < init.len() {
                assert(gs[i] == init[i]);
            }
        }
    }
}

proof fn lemma_first_unresolved_prefix(
    gs: Seq<GrantView>,
    f: Option<Seq<char>>,
    cache: Map<IdView, Seq<PolicyRule>>,
    n: int,
)
    requires
        0 <= n <= gs.len(),
        first_unresolved(gs.take(n), f, cache).is_some(),
    ensures
        first_unresolved(gs, f, cache) == first_unresolved(gs.take(n), f, cache),
    decreases gs.len() - n,
{
    if n < gs.len() {
        assert(gs.take(n + 1).drop_last() =~= gs.take(n));
        lemma_first_unresolved_prefix(gs, f, cache, n + 1);
    } else {
        assert(gs.take(n) =~= gs);
    }
}

/// Lists the rules of each grant that passes the filter under the grant's
/// namespace key, appending in the order of `grants`. Fails with the target
/// of the first passing grant whose rules are not cached.
pub fn create_permission_output(
    grants: &Vec<RBACGrant>,
    filter: &Option<Filter>,
    permissions: &PermissionController,
) -> (r: Result<Vec<(String, Vec<PolicyRule>)>, PermissionError>)
    requires
        permissions.wf(),
    ensures
        outcome_matches(
            r,
            grants@.map_values(|g: RBACGrant| g@),
            filter_namespace(*filter),
            permissions@,
        ),
{
    let ghost gs = grants@.map_values(|g: RBACGrant| g@);
    let ghost f = filter_namespace(*filter);
    let ghost cache = permissions@;
    let mut out: Vec<(String, Vec<PolicyRule>)> = Vec::new();
    let mut i: usize = 0;
    while i < grants.len()
        invariant
            permissions.wf(),
            cache == permissions@,
            gs == grants@.map_values(|g: RBACGrant| g@),
            f == filter_namespace(*filter),
            i <= grants@.len(),
            first_unresolved(gs.take(i as int), f, cache).is_none(),
            represents(out@, permission_map(gs.take(i as int), f, cache)),
        decreases grants@.len() - i,
    {
        let ghost m = permission_map(gs.take(i as int), f, cache);
        assert(gs.take(i as int + 1).drop_last() =~= gs.take(i as int));
        assert(gs.take(i as int + 1).last() == grants@[i as int]@);
        let grant = &grants[i];
        let passes = match filter {
            Some(fl) => grant_filter_applies(grant, fl),
            None => true,
        };
        if passes {
            match permissions.get_permission_for_id(&grant.permissions_id) {
                None => {
                    proof {
                        lemma_first_unresolved_prefix(gs, f, cache, i as int + 1);
                    }
                    return Err(PermissionError::UnresolvedPermissionSet(grant.permissions_id.duplicate()));
                },
                Some(rules) => {
                    let key = match &grant.namespace {
                        Some(ns) => ns.clone(),
                        None => String::new(),
                    };
                    let ghost next = m.insert(
                        key@,
                        (if m.contains_key(key@) {
                            m[key@]
                        } else {
                            Seq::<PolicyRule>::empty()
                        }) + rules@,
                    );
                    assert(next == permission_map(gs.take(i as int + 1), f, cache));
                    let mut j: usize = 0;
                    while j < out.len()
                        invariant
                            j <= out@.len(),
                            forall|a: int| 0 <= a < j ==> (#[trigger] out@[a]).0@ != key@,
                        ensures
                            j <= out@.len(),
                            forall|a: int| 0 <= a < j ==> (#[trigger] out@[a]).0@ != key@,
                            j < out@.len() ==> out@[j as int].0@ == key@,
                        decreases out@.len() - j,
                    {
                        if out[j].0 == key {
                            break;
                        }
                        j += 1;
                    }
                    let ghost before = out@;
                    if j < out.len() {
                        assert(before[j as int].0@ == key@);
                        let mut more = rules;
                        out[j].1.append(&mut more);
                        assert forall|a: int| 0 <= a < out@.len() && a != j implies out@[a]
                            == before[a] by {}
                        assert forall|a: int|
                            0 <= a < out@.len() implies next.contains_key(#[trigger] out@[a].0@)
                            && next[out@[a].0@] == out@[a].1@ by {
                            if a != j {
                                assert(before[a].0@ != before[j as int].0@);
                            }
                        }
                        assert forall|a: int, b: int|
                            0 <= a < out@.len() && 0 <= b < out@.len() && a != b implies #[trigger] out@[a].0@
                            != #[trigger] out@[b].0@ by {
                            assert(before[a].0@ != before[b].0@);
                        }
                        assert forall|k: Seq<char>| #[trigger] next.contains_key(k) implies exists|
                            a: int,
                        | 0 <= a < out@.len() && #[trigger] out@[a].0@ == k by {
                            if k != key@ {
                                let a = choose|a: int| 0 <= a < before.len() && #[trigger] before[a].0@ == k;
                                assert(out@[a].0@ == k);
                            } else {
                                assert(out@[j as int].0@ == k);
                            }
                        }
                    } else {
                        assert(!m.contains_key(key@));
                        out.push((key, rules));
                        assert forall|a: int| 0 <= a < before.len() implies out@[a] == before[a] by {}
                        assert forall|a: int|
                            0 <= a < out@.len() implies next.contains_key(#[trigger] out@[a].0@)
                            && next[out@[a].0@] == out@[a].1@ by {
                            if a < before.len() {
                                assert(before[a].0@ != key@);
                            }
                        }
                        assert forall|a: int, b: int|
                            0 <= a < out@.len() && 0 <= b < out@.len() && a != b implies #[trigger] out@[a].0@
                            != #[trigger] out@[b].0@ by {
                            if a < before.len() && b < before.len() {
                                assert(before[a].0@ != before[b].0@);
                            }
                        }
                        assert forall|k: Seq<char>| #[trigger] next.contains_key(k) implies exists|
                            a: int,
                        | 0 <= a < out@.len() && #[trigger] out@[a].0@ == k by {
                            if k != key@ {
                                let a = choose|a: int| 0 <= a < before.len() && #[trigger] before[a].0@ == k;
                                assert(out@[a].0@ == k);
                            } else {
                                assert(out@[before.len() as int].0@ == k);
                            }
                        }
                    }
                },
            }
        }
        i += 1;
    }
    assert(gs.take(grants@.len() as int) =~= gs);
    Ok(out)
}

/// The rules that the grants of `subject` confer, by namespace key.
///
/// A subject that was never observed is an error of its own. Otherwise the
/// grants are taken in some order, and the result is what
/// `create_permission_output` gives for that order: in particular it is
/// `UnresolvedPermissionSet` exactly when some grant that passes the filter
/// has no cached rules, and never an empty answer in that case.
pub fn permissions_for_subject(
    index: &GrantController,
    permissions: &PermissionController,
    subject: &GrantSubject,
    filter: &Option<Filter>,
) -> (r: Result<Vec<(String, Vec<PolicyRule>)>, PermissionError>)
    requires
        index.wf(),
        permissions.wf(),
    ensures
        r matches Err(PermissionError::UnknownSubject) <==> !index@.forward.contains_key(subject@),
        index@.forward.contains_key(subject@) ==> exists|gs: Seq<GrantView>|
            {
                &&& gs.no_duplicates()
                &&& gs.to_set() == index@.resolved_grants_of(subject@)
                &&& outcome_matches(r, gs, filter_namespace(*filter), permissions@)
            },
        r matches Err(PermissionError::UnresolvedPermissionSet(_)) <==> exists|g: GrantView|
            {
                &&& index@.forward.contains_key(subject@)
                &&& #[trigger] index@.resolved_grants_of(subject@).contains(g)
                &&& filter_passes(g, filter_namespace(*filter))
                &&& !permissions@.contains_key(g.permissions_id)
            },
{
    match index.get_grants_for_subject(subject) {
        None => Err(PermissionError::UnknownSubject),
        Some(grants) => {
            let r = create_permission_output(&grants, filter, permissions);
            let ghost gs = grants@.map_values(|g: RBACGrant| g@);
            let ghost f = filter_namespace(*filter);
            assert(gs.to_set() =~= view_set(grants@)) by {
                assert forall|x: GrantView| gs.to_set().contains(x) implies view_set(
                    grants@,
                ).contains(x) by {
                    let i = choose|i: int| 0 <= i < gs.len() && gs[i] == x;
                    assert(grants@[i]@ == x);
                }
                assert forall|x: GrantView| view_set(grants@).contains(x) implies gs.to_set().contains(
                    x,
                ) by {
                    let i = choose|i: int| 0 <= i < grants@.len() && grants@[i]@ == x;
                    assert(gs[i] == x);
                }
            }
            assert(gs.no_duplicates()) by {
                assert forall|i: int, j: int|
                    0 <= i < gs.len() && 0 <= j < gs.len() && i != j implies gs[i] != gs[j] by {
                    assert(grants@[i].id() != grants@[j].id());
                }
            }
            proof {
                lemma_first_unresolved_some(gs, f, permissions@);
                if has_unresolved(gs, f, permissions@) {
                    let i = choose|i: int|
                        0 <= i < gs.len() && filter_passes(#[trigger] gs[i], f)
                            && !permissions@.contains_key(gs[i].permissions_id);
                    assert(gs.to_set().contains(gs[i]));
                    assert(index@.resolved_grants_of(subject@).contains(gs[i]));
                }
                if exists|g: GrantView|
                    {
                        &&& #[trigger] index@.resolved_grants_of(subject@).contains(g)
                        &&& filter_passes(g, f)
                        &&& !permissions@.contains_key(g.permissions_id)
                    } {
                    let g = choose|g: GrantView|
                        {
                            &&& #[trigger] index@.resolved_grants_of(subject@).contains(g)
                            &&& filter_passes(g, f)
                            &&& !permissions@.contains_key(g.permissions_id)
                        };
                    assert(gs.to_set().contains(g));
                    let i = choose|i: int| 0 <= i < gs.len() && gs[i] == g;
                    assert(filter_passes(gs[i], f));
                }
            }
            r
        },
    }
}

} // verus!
