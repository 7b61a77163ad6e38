//! The reconciler's decisions: how each watch event for one resource kind
//! changes the grant index or the permission cache. The loops that wait for
//! events live outside the library and hand each event to these functions.

use vstd::prelude::*;
use k8s_openapi::api::rbac::v1::PolicyRule;
use crate::rbac_grant::{
    BindingResource, BindingView, GrantKeyView, GrantSubject, GrantType, GrantView, IDType, IdView,
    PermissionResource, PermissionView, RBACGrant, RBACId, SubjectRef, SubjectRefView, SubjectView,
    grant_spec, permission_id_spec, subject_spec,
};
use crate::grant_controller::{GrantController, IndexModel};
use crate::permission_controller::{PermissionController, without_kind};
use crate::set_map::{Identified, id_set, ids_distinct, lemma_id_set_push};

verus! {

/// One event of a watch stream.
pub enum WatchEvent<T> {
    /// The resource was created or modified.
    Applied(T),
    /// The stream reconnected and replays the full current list.
    Restarted(Vec<T>),
    /// The resource was removed.
    Deleted(T),
}

pub enum WatchEventView<V> {
    Applied(V),
    Restarted(Seq<V>),
    Deleted(V),
}

impl<T: View> View for WatchEvent<T> {
    type V = WatchEventView<T::V>;

    open spec fn view(&self) -> WatchEventView<T::V> {
        match self {
            WatchEvent::Applied(t) => WatchEventView::Applied(t@),
            WatchEvent::Restarted(ts) => WatchEventView::Restarted(ts@.map_values(|t: T| t@)),
            WatchEvent::Deleted(t) => WatchEventView::Deleted(t@),
        }
    }
}

// ---------------------------------------------------------------------------
// Bindings
// ---------------------------------------------------------------------------

/// Adds `g` for each subject entry that normalizes, in order; entries that do
/// not normalize are skipped.
pub open spec fn attach(m: IndexModel, g: GrantView, subs: Seq<SubjectRefView>) -> IndexModel
    decreases subs.len(),
{
    if subs.len() == 0 {
        m
    } else {
        let m1 = attach(m, g, subs.drop_last());
        match subject_spec(subs.last()) {
            Ok(s) => m1.add(s, g),
            Err(_) => m1,
        }
    }
}

/// Removes every association of the grant `k`; the grant itself stays known.
pub open spec fn detach(m: IndexModel, k: GrantKeyView) -> IndexModel {
    IndexModel {
        forward: Map::new(
            |s: SubjectView| m.forward.contains_key(s),
            |s: SubjectView| m.forward[s].remove(k),
        ),
        reverse: if m.reverse.contains_key(k) {
            m.reverse.insert(k, Set::empty())
        } else {
            m.reverse
        },
        grants: m.grants,
    }
}

/// A binding was created or changed: its previous subjects are dropped and
/// its current subjects added against its current target.
pub open spec fn apply_binding(m: IndexModel, t: GrantType, b: BindingView) -> IndexModel {
    match grant_spec(t, b) {
        Ok(g) => attach(detach(m, g.key()), g, b.subjects),
        Err(_) => m,
    }
}

/// A binding was removed.
pub open spec fn delete_binding(m: IndexModel, t: GrantType, b: BindingView) -> IndexModel {
    match grant_spec(t, b) {
        Ok(g) => m.remove_grant(g.key()),
        Err(_) => m,
    }
}

/// The full list of bindings of type `t` after a reconnect: every grant of
/// that type is purged, then each binding's subjects are added.
pub open spec fn resync_bindings(m: IndexModel, t: GrantType, bs: Seq<BindingView>) -> IndexModel
    decreases bs.len(),
{
    if bs.len() == 0 {
        m.remove_type(t)
    } else {
        let m1 = resync_bindings(m, t, bs.drop_last());
        match grant_spec(t, bs.last()) {
            Ok(g) => attach(m1, g, bs.last().subjects),
            Err(_) => m1,
        }
    }
}

pub open spec fn binding_event(
    m: IndexModel,
    t: GrantType,
    e: WatchEventView<BindingView>,
) -> IndexModel {
    match e {
        WatchEventView::Applied(b) => apply_binding(m, t, b),
        WatchEventView::Restarted(bs) => resync_bindings(m, t, bs),
        WatchEventView::Deleted(b) => delete_binding(m, t, b),
    }
}

// ---------------------------------------------------------------------------
// Permission sets
// ---------------------------------------------------------------------------

/// Stores the rules of each resource, in order.
pub open spec fn store_all(
    m: Map<IdView, Seq<PolicyRule>>,
    t: IDType,
    rs: Seq<PermissionView>,
) -> Map<IdView, Seq<PolicyRule>>
    decreases rs.len(),
{
    if rs.len() == 0 {
        m
    } else {
        store_all(m, t, rs.drop_last()).insert(permission_id_spec(t, rs.last()), rs.last().rules)
    }
}

pub open spec fn permission_event(
    m: Map<IdView, Seq<PolicyRule>>,
    t: IDType,
    e: WatchEventView<PermissionView>,
) -> Map<IdView, Seq<PolicyRule>> {
    match e {
        WatchEventView::Applied(r) => m.insert(permission_id_spec(t, r), r.rules),
        WatchEventView::Restarted(rs) => store_all(without_kind(m, t), t, rs),
        WatchEventView::Deleted(r) => m.remove(permission_id_spec(t, r)),
    }
}

impl GrantController {
    /// Drops every subject of the grant, keeping the grant itself.
    fn detach_grant(&mut self, grant: &RBACGrant)
        requires
            old(self).wf(),
        ensures
            final(self).wf(),
            final(self)@ == detach(old(self)@, grant@.key()),
    {
        let ghost m = self@;
        let ghost k = grant@.key();
        proof {
            self.lemma_model_wf();
        }
        let previous = self.get_current_subjects_for_grant(grant);
        let mut i: usize = 0;
        while i < previous.len()
            invariant
                self.wf(),
                m.wf(),
                k == grant@.key(),
                id_set(previous@) == m.subjects_of(k),
                ids_distinct(previous@),
                i <= previous@.len(),
                self@.grants == m.grants,
                self@.forward.dom() == m.forward.dom(),
                self@.reverse.dom() == m.reverse.dom(),
                forall|s: SubjectView|
                    #[trigger] self@.forward.contains_key(s) ==> self@.forward[s] == if exists|
                        a: int,
                    | 0 <= a < i && previous@[a]@ == s {
                        m.forward[s].remove(k)
                    } else {
                        m.forward[s]
                    },
                forall|k2: GrantKeyView|
                    #[trigger] self@.reverse.contains_key(k2) && k2 != k ==> self@.reverse[k2]
                        == m.reverse[k2],
                m.reverse.contains_key(k) ==> self@.reverse[k] == m.reverse[k].difference(
                    id_set(previous@.take(i as int)),
                ),
            decreases previous@.len() - i,
        {
            let ghost si = previous@[i as int]@;
            let ghost done = id_set(previous@.take(i as int));
            assert(m.rev_has(si, k)) by {
                assert(previous@[i as int].id() == si);
                assert(id_set(previous@).contains(si));
                assert(m.subjects_of(k).contains(si));
            }
            assert(m.fwd_has(si, k));
            proof {
                assert(previous@.take(i as int + 1) =~= previous@.take(i as int).push(
                    previous@[i as int],
                ));
                lemma_id_set_push(previous@.take(i as int), previous@[i as int]);
            }
            self.remove_grant_for_subject(&previous[i], grant);
            assert forall|s: SubjectView| #[trigger] self@.forward.contains_key(s) implies self@.forward[s]
                == if exists|a: int| 0 <= a < i + 1 && previous@[a]@ == s {
                m.forward[s].remove(k)
            } else {
                m.forward[s]
            } by {
                if s == si {
                    assert(previous@[i as int]@ == s);
                    assert(!exists|a: int| 0 <= a < i && previous@[a]@ == s) by {
                        if exists|a: int| 0 <= a < i && previous@[a]@ == s {
                            let a = choose|a: int| 0 <= a < i && previous@[a]@ == s;
                            assert(previous@[a].id() != previous@[i as int].id());
                        }
                    }
                } else {
                    if exists|a: int| 0 <= a < i + 1 && previous@[a]@ == s {
                        let a = choose|a: int| 0 <= a < i + 1 && previous@[a]@ == s;
                        assert(a < i);
                    }
                }
            }
            assert(self@.forward.dom() =~= m.forward.dom());
            assert(self@.reverse.dom() =~= m.reverse.dom());
            assert(m.reverse[k].difference(done).remove(si) =~= m.reverse[k].difference(
                id_set(previous@.take(i as int + 1)),
            ));
            i += 1;
        }
        let ghost target = detach(m, k);
        assert forall|s: SubjectView| #[trigger] m.forward.contains_key(s) implies self@.forward[s]
            == m.forward[s].remove(k) by {
            if !exists|a: int| 0 <= a < i && previous@[a]@ == s {
                if m.forward[s].contains(k) {
                    assert(m.fwd_has(s, k));
                    assert(m.rev_has(s, k));
                    assert(id_set(previous@).contains(s));
                    let a = choose|a: int| 0 <= a < previous@.len() && previous@[a].id() == s;
                    assert(previous@[a]@ == s);
                }
                assert(m.forward[s].remove(k) =~= m.forward[s]);
            }
        }
        assert(self@.forward =~= target.forward);
        assert(previous@.take(i as int) =~= previous@);
        proof {
            if m.reverse.contains_key(k) {
                assert(m.reverse[k].difference(id_set(previous@)) =~= Set::<SubjectView>::empty());
            }
        }
        assert(self@.reverse =~= target.reverse);
        assert(self@ =~= target);
    }

    /// Adds the grant for each subject entry that normalizes.
    fn attach_subjects(&mut self, grant: &RBACGrant, subjects: &Vec<SubjectRef>)
        requires
            old(self).wf(),
        ensures
            final(self).wf(),
            final(self)@ == attach(old(self)@, grant@, subjects@.map_values(|s: SubjectRef| s@)),
    {
        let ghost m = self@;
        let ghost subs = subjects@.map_values(|s: SubjectRef| s@);
        let mut i: usize = 0;
        while i < subjects.len()
            invariant
                self.wf(),
                i <= subjects@.len(),
                subs == subjects@.map_values(|s: SubjectRef| s@),
                self@ == attach(m, grant@, subs.take(i as int)),
            decreases subjects@.len() - i,
        {
            assert(subs.take(i as int + 1).drop_last() =~= subs.take(i as int));
            assert(subs.take(i as int + 1).last() == subjects@[i as int]@);
            match GrantSubject::from_subject(&subjects[i]) {
                Ok(s) => {
                    self.add_grant_for_subject(&s, grant);
                },
                Err(_) => {},
            }
            i += 1;
        }
        assert(subs.take(subjects@.len() as int) =~= subs);
    }

    /// Applies one event of the watch stream of bindings of type `grant_type`.
    /// A binding that does not normalize leaves the index as it is.
    pub fn apply_event(&mut self, grant_type: GrantType, event: WatchEvent<BindingResource>)
        requires
            old(self).wf(),
        ensures
            final(self).wf(),
            final(self)@ == binding_event(old(self)@, grant_type, event@),
    {
        match event {
            WatchEvent::Applied(binding) => {
                match RBACGrant::from_binding(grant_type, &binding) {
                    Ok(grant) => {
                        self.detach_grant(&grant);
                        self.attach_subjects(&grant, &binding.subjects);
                    },
                    Err(_) => {},
                }
            },
            WatchEvent::Restarted(bindings) => {
                let ghost m = self@;
                let ghost bs = bindings@.map_values(|b: BindingResource| b@);
                self.remove_all_of_type(grant_type);
                let mut i: usize = 0;
                while i < bindings.len()
                    invariant
                        self.wf(),
                        i <= bindings@.len(),
                        bs == bindings@.map_values(|b: BindingResource| b@),
                        self@ == resync_bindings(m, grant_type, bs.take(i as int)),
                    decreases bindings@.len() - i,
                {
                    assert(bs.take(i as int + 1).drop_last() =~= bs.take(i as int));
                    assert(bs.take(i as int + 1).last() == bindings@[i as int]@);
                    match RBACGrant::from_binding(grant_type, &bindings[i]) {
                        Ok(grant) => {
                            self.attach_subjects(&grant, &bindings[i].subjects);
                        },
                        Err(_) => {},
                    }
                    i += 1;
                }
                assert(bs.take(bindings@.len() as int) =~= bs);
            },
            WatchEvent::Deleted(binding) => {
                match RBACGrant::from_binding(grant_type, &binding) {
                    Ok(grant) => {
                        self.remove_grant(&grant);
                    },
                    Err(_) => {},
                }
            },
        }
    }
}

impl PermissionController {
    /// Applies one event of the watch stream of permission sets of kind
    /// `id_type`.
    pub fn apply_event(&mut self, id_type: IDType, event: WatchEvent<PermissionResource>)
        requires
            old(self).wf(),
        ensures
            final(self).wf(),
            final(self)@ == permission_event(old(self)@, id_type, event@),
    {
        match event {
            WatchEvent::Applied(resource) => {
                let id = RBACId::from_resource(id_type, &resource);
                self.store_permission_id(&id, &resource.rules);
            },
            WatchEvent::Restarted(resources) => {
                let ghost m = self@;
                let ghost rs = resources@.map_values(|r: PermissionResource| r@);
                self.remove_all_of_type(id_type);
                let mut i: usize = 0;
                while i < resources.len()
                    invariant
                        self.wf(),
                        i <= resources@.len(),
                        rs == resources@.map_values(|r: PermissionResource| r@),
                        self@ == store_all(without_kind(m, id_type), id_type, rs.take(i as int)),
                    decreases resources@.len() - i,
                {
                    assert(rs.take(i as int + 1).drop_last() =~= rs.take(i as int));
                    assert(rs.take(i as int + 1).last() == resources@[i as int]@);
                    let id = RBACId::from_resource(id_type, &resources[i]);
                    self.store_permission_id(&id, &resources[i].rules);
                    i += 1;
                }
                assert(rs.take(resources@.len() as int) =~= rs);
            },
            WatchEvent::Deleted(resource) => {
                let id = RBACId::from_resource(id_type, &resource);
                self.remove_permission_id(&id);
            },
        }
    }
}

} // verus!
