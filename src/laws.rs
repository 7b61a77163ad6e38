//! Properties of the grant index and of the reconciler, proved over the
//! models that the operations' contracts speak of.

use vstd::prelude::*;
use crate::rbac_grant::{
    BindingView, GrantKeyView, GrantType, GrantView, NormalizationError, SubjectRefView, SubjectView,
    grant_spec, subject_spec,
};
use crate::grant_controller::{IndexModel, lemma_add_wf, lemma_remove_type_wf, lemma_remove_wf};
use crate::reconciler::{apply_binding, attach, detach, resync_bindings};

verus! {

/// Some entry of `subs` normalizes to the subject `s`.
pub open spec fn names_subject(subs: Seq<SubjectRefView>, s: SubjectView) -> bool {
    exists|j: int| 0 <= j < subs.len() && subject_spec(#[trigger] subs[j]) == Ok::<SubjectView, NormalizationError>(s)
}

/// Some entry of `subs` normalizes.
pub open spec fn names_any_subject(subs: Seq<SubjectRefView>) -> bool {
    exists|j: int| 0 <= j < subs.len() && (#[trigger] subject_spec(subs[j])).is_ok()
}

/// Some binding of `bs` normalizes to a grant with identity `k`.
pub open spec fn lists_grant(t: GrantType, bs: Seq<BindingView>, k: GrantKeyView) -> bool {
    exists|i: int|
        0 <= i < bs.len() && (#[trigger] grant_spec(t, bs[i])).is_ok() && grant_spec(
            t,
            bs[i],
        )->Ok_0.key() == k
}

/// Adding or removing one association keeps the index well formed, and in the
/// result a grant lists a subject exactly when that subject is known and its
/// grants list the grant. Since a new index is well formed, this holds after
/// any sequence of such calls.
pub proof fn index_symmetry(m: IndexModel, s: SubjectView, g: GrantView)
    requires
        m.wf(),
    ensures
        m.add(s, g).wf(),
        m.remove(s, g.key()).wf(),
        forall|s2: SubjectView, k: GrantKeyView|
            #![trigger m.add(s, g).subjects_of(k).contains(s2)]
            m.add(s, g).subjects_of(k).contains(s2) <==> (m.add(s, g).forward.contains_key(s2)
                && m.add(s, g).grants_of(s2).contains(k)),
        forall|s2: SubjectView, k: GrantKeyView|
            #![trigger m.remove(s, g.key()).subjects_of(k).contains(s2)]
            m.remove(s, g.key()).subjects_of(k).contains(s2) <==> (m.remove(
                s,
                g.key(),
            ).forward.contains_key(s2) && m.remove(s, g.key()).grants_of(s2).contains(k)),
{
    lemma_add_wf(m, s, g);
    lemma_remove_wf(m, s, g.key());
    let a = m.add(s, g);
    let r = m.remove(s, g.key());
    assert forall|s2: SubjectView, k: GrantKeyView|
        a.subjects_of(k).contains(s2) <==> (a.forward.contains_key(s2) && a.grants_of(
            s2,
        ).contains(k)) by {
        assert(a.fwd_has(s2, k) == a.rev_has(s2, k));
    }
    assert forall|s2: SubjectView, k: GrantKeyView|
        r.subjects_of(k).contains(s2) <==> (r.forward.contains_key(s2) && r.grants_of(
            s2,
        ).contains(k)) by {
        assert(r.fwd_has(s2, k) == r.rev_has(s2, k));
    }
}

/// Adding the same association twice leaves the index as adding it once.
pub proof fn add_idempotent(m: IndexModel, s: SubjectView, g: GrantView)
    ensures
        m.add(s, g).add(s, g) == m.add(s, g),
{
    let a = m.add(s, g);
    assert(a.grants_of(s).insert(g.key()) =~= a.grants_of(s));
    assert(a.subjects_of(g.key()).insert(s) =~= a.subjects_of(g.key()));
    assert(a.add(s, g).forward =~= a.forward);
    assert(a.add(s, g).reverse =~= a.reverse);
    assert(a.add(s, g).grants =~= a.grants);
}

/// Removing an association that is absent leaves the index unchanged.
pub proof fn remove_absent_is_noop(m: IndexModel, s: SubjectView, k: GrantKeyView)
    requires
        m.wf(),
        !(m.forward.contains_key(s) && m.forward[s].contains(k)),
    ensures
        m.remove(s, k) == m,
{
    assert(!m.fwd_has(s, k));
    assert(!m.rev_has(s, k));
    let r = m.remove(s, k);
    if m.forward.contains_key(s) {
        assert(m.forward[s].remove(k) =~= m.forward[s]);
    }
    if m.reverse.contains_key(k) {
        assert(m.reverse[k].remove(s) =~= m.reverse[k]);
    }
    assert(r.forward =~= m.forward);
    assert(r.reverse =~= m.reverse);
}

proof fn lemma_attach(m: IndexModel, g: GrantView, subs: Seq<SubjectRefView>)
    requires
        m.wf(),
    ensures
        attach(m, g, subs).wf(),
        forall|s: SubjectView|
            #[trigger] attach(m, g, subs).fwd_has(s, g.key()) <==> (m.fwd_has(s, g.key())
                || names_subject(subs, s)),
        forall|s: SubjectView, k: GrantKeyView|
            k != g.key() ==> (#[trigger] attach(m, g, subs).fwd_has(s, k) <==> m.fwd_has(s, k)),
        forall|k: GrantKeyView|
            k != g.key() ==> (#[trigger] attach(m, g, subs).reverse.contains_key(k)
                <==> m.reverse.contains_key(k)) && attach(m, g, subs).subjects_of(k)
                == m.subjects_of(k) && attach(m, g, subs).grants.contains_key(k)
                == m.grants.contains_key(k) && attach(m, g, subs).grants[k] == m.grants[k],
        attach(m, g, subs).reverse.contains_key(g.key()) ==> m.reverse.contains_key(g.key())
            || names_any_subject(subs),
        names_any_subject(subs) ==> attach(m, g, subs).grants.contains_key(g.key()) && attach(
            m,
            g,
            subs,
        ).grants[g.key()] == g,
    decreases subs.len(),
{
    if subs.len() > 0 {
        let init = subs.drop_last();
        lemma_attach(m, g, init);
        let m1 = attach(m, g, init);
        assert forall|s: SubjectView| names_subject(init, s) implies names_subject(subs, s) by {
            if names_subject(init, s) {
                let j = choose|j: int| 0 <= j < init.len() && subject_spec(#[trigger] init[j]) == Ok::<SubjectView, NormalizationError>(s);
                assert(subs[j] == init[j]);
            }
        }
        assert(names_any_subject(init) ==> names_any_subject(subs)) by {
            if names_any_subject(init) {
                let j = choose|j: int| 0 <= j < init.len() && (#[trigger] subject_spec(init[j])).is_ok();
                assert(subs[j] == init[j]);
            }
        }
        assert forall|s: SubjectView| names_subject(subs, s) implies names_subject(init, s) || subject_spec(subs.last()) == Ok::<SubjectView, NormalizationError>(s) by {
            if names_subject(subs, s) {
                let j = choose|j: int| 0 <= j < subs.len() && subject_spec(#[trigger] subs[j]) == Ok::<SubjectView, NormalizationError>(s);
                if j < init.len() {
                    assert(subs[j] == init[j]);
                }
            }
        }
        assert(names_any_subject(subs) ==> names_any_subject(init) || subject_spec(subs.last()).is_ok()) by {
            if names_any_subject(subs) {
                let j = choose|j: int| 0 <= j < subs.len() && (#[trigger] subject_spec(subs[j])).is_ok();
                if j < init.len() {
                    assert(subs[j] == init[j]);
                }
            }
        }
        let n = attach(m, g, subs);
        assert forall|s: SubjectView| #[trigger] n.fwd_has(s, g.key()) <==> (m.fwd_has(s, g.key())
            || names_subject(subs, s)) by {
            assert(m1.fwd_has(s, g.key()) <==> (m.fwd_has(s, g.key()) || names_subject(init, s)));
        }
        assert forall|s: SubjectView, k: GrantKeyView|
            k != g.key() implies (#[trigger] n.fwd_has(s, k) <==> m.fwd_has(s, k)) by {
            assert(m1.fwd_has(s, k) <==> m.fwd_has(s, k));
        }
        assert forall|k: GrantKeyView| k != g.key() implies (#[trigger] n.reverse.contains_key(k)
            <==> m.reverse.contains_key(k)) && n.subjects_of(k) == m.subjects_of(k)
            && n.grants.contains_key(k) == m.grants.contains_key(k) && n.grants[k]
            == m.grants[k] by {
            assert(m1.reverse.contains_key(k) <==> m.reverse.contains_key(k));
        }
        match subject_spec(subs.last()) {
            Ok(s0) => {
                lemma_add_wf(m1, s0, g);
                assert(names_subject(subs, s0)) by {
                    assert(subject_spec(subs[subs.len() - 1]) == Ok::<SubjectView, NormalizationError>(s0));
                }
                assert(names_any_subject(subs)) by {
                    assert(subject_spec(subs[subs.len() - 1]).is_ok());
                }
            },
            Err(_) => {},
        }
    }
}

/// Applying a binding gives its grant to exactly the subjects it now lists,
/// each of which sees the grant with the binding's current target; no other
/// grant changes hands.
pub proof fn apply_binding_retargets(m: IndexModel, t: GrantType, b: BindingView)
    requires
        m.wf(),
        grant_spec(t, b).is_ok(),
    ensures
        ({
            let g = grant_spec(t, b)->Ok_0;
            let n = apply_binding(m, t, b);
            &&& n.wf()
            &&& forall|s: SubjectView|
                #[trigger] n.fwd_has(s, g.key()) <==> names_subject(b.subjects, s)
            &&& forall|s: SubjectView|
                #[trigger] names_subject(b.subjects, s) ==> n.resolved_grants_of(s).contains(g)
            &&& forall|s: SubjectView, k: GrantKeyView|
                k != g.key() ==> (#[trigger] n.fwd_has(s, k) <==> m.fwd_has(s, k))
        }),
{
    let g = grant_spec(t, b)->Ok_0;
    let k = g.key();
    let d = detach(m, k);
    assert(d.wf()) by {
        assert forall|s1: SubjectView, k1: GrantKeyView| d.fwd_has(s1, k1) == d.rev_has(s1, k1) by {
            assert(m.fwd_has(s1, k1) == m.rev_has(s1, k1));
        }
        assert(d.reverse.dom() =~= d.grants.dom());
    }
    assert forall|s: SubjectView| !d.fwd_has(s, k) by {}
    assert forall|s: SubjectView, k1: GrantKeyView| k1 != k implies (d.fwd_has(s, k1) <==> m.fwd_has(s, k1)) by {}
    lemma_attach(d, g, b.subjects);
    let n = apply_binding(m, t, b);
    assert forall|s: SubjectView| #[trigger] names_subject(b.subjects, s) implies n.resolved_grants_of(s).contains(g) by {
        let j = choose|j: int| 0 <= j < b.subjects.len() && subject_spec(#[trigger] b.subjects[j]) == Ok::<SubjectView, NormalizationError>(s);
        assert(names_any_subject(b.subjects)) by {
            assert(subject_spec(b.subjects[j]).is_ok());
        }
        assert(n.fwd_has(s, k));
        assert(n.grants_of(s).contains(k));
    }
}

proof fn lemma_resync(m: IndexModel, t: GrantType, bs: Seq<BindingView>)
    requires
        m.wf(),
    ensures
        resync_bindings(m, t, bs).wf(),
        forall|k: GrantKeyView|
            k.grant_type == t && #[trigger] resync_bindings(m, t, bs).reverse.contains_key(k)
                ==> lists_grant(t, bs, k),
        forall|i: int, s: SubjectView|
            #![trigger names_subject(bs[i].subjects, s)]
            0 <= i < bs.len() && grant_spec(t, bs[i]).is_ok() && names_subject(
                bs[i].subjects,
                s,
            ) ==> resync_bindings(m, t, bs).fwd_has(s, grant_spec(t, bs[i])->Ok_0.key()),
        forall|s: SubjectView, k: GrantKeyView|
            k.grant_type != t ==> (#[trigger] resync_bindings(m, t, bs).fwd_has(s, k)
                <==> m.fwd_has(s, k)),
        forall|k: GrantKeyView|
            k.grant_type != t ==> #[trigger] resync_bindings(m, t, bs).subjects_of(k)
                == m.subjects_of(k),
    decreases bs.len(),
{
    if bs.len() == 0 {
        lemma_remove_type_wf(m, t);
        let n = m.remove_type(t);
        assert forall|s: SubjectView, k: GrantKeyView| k.grant_type != t implies (n.fwd_has(s, k)
            <==> m.fwd_has(s, k)) by {}
    } else {
        let init = bs.drop_last();
        lemma_resync(m, t, init);
        let m1 = resync_bindings(m, t, init);
        assert forall|k: GrantKeyView| lists_grant(t, init, k) implies lists_grant(t, bs, k) by {
            let i = choose|i: int|
                0 <= i < init.len() && (#[trigger] grant_spec(t, init[i])).is_ok() && grant_spec(
                    t,
                    init[i],
                )->Ok_0.key() == k;
            assert(bs[i] == init[i]);
        }
        match grant_spec(t, bs.last()) {
            Ok(g) => {
                lemma_attach(m1, g, bs.last().subjects);
                let n = attach(m1, g, bs.last().subjects);
                assert(g.key().grant_type == t);
                assert(lists_grant(t, bs, g.key())) by {
                    assert(grant_spec(t, bs[bs.len() - 1]).is_ok());
                }
                assert forall|i: int, s: SubjectView|
                    #![trigger names_subject(bs[i].subjects, s)]
                    0 <= i < bs.len() && grant_spec(t, bs[i]).is_ok() && names_subject(
                        bs[i].subjects,
                        s,
                    ) implies n.fwd_has(s, grant_spec(t, bs[i])->Ok_0.key()) by {
                    if i < init.len() {
                        assert(bs[i] == init[i]);
                    }
                }
            },
            Err(_) => {
                assert forall|i: int, s: SubjectView|
                    #![trigger names_subject(bs[i].subjects, s)]
                    0 <= i < bs.len() && grant_spec(t, bs[i]).is_ok() && names_subject(
                        bs[i].subjects,
                        s,
                    ) implies m1.fwd_has(s, grant_spec(t, bs[i])->Ok_0.key()) by {
                    assert(i < init.len());
                    assert(bs[i] == init[i]);
                }
            },
        }
    }
}

/// After a `Restarted` event for grant type `t`, every association of a grant
/// of type `t` belongs to a binding of the replayed list, whatever the index
/// held before, and each listed binding is held by the subjects it lists;
/// associations of grants of the other type are untouched.
pub proof fn resync_replaces(m: IndexModel, t: GrantType, bs: Seq<BindingView>)
    requires
        m.wf(),
    ensures
        resync_bindings(m, t, bs).wf(),
        forall|s: SubjectView, k: GrantKeyView|
            k.grant_type == t && #[trigger] resync_bindings(m, t, bs).fwd_has(s, k) ==> lists_grant(
                t,
                bs,
                k,
            ),
        forall|i: int, s: SubjectView|
            #![trigger names_subject(bs[i].subjects, s)]
            0 <= i < bs.len() && grant_spec(t, bs[i]).is_ok() && names_subject(
                bs[i].subjects,
                s,
            ) ==> resync_bindings(m, t, bs).fwd_has(s, grant_spec(t, bs[i])->Ok_0.key()),
        forall|s: SubjectView, k: GrantKeyView|
            k.grant_type != t ==> (#[trigger] resync_bindings(m, t, bs).fwd_has(s, k)
                <==> m.fwd_has(s, k)),
{
    lemma_resync(m, t, bs);
    let n = resync_bindings(m, t, bs);
    assert forall|s: SubjectView, k: GrantKeyView|
        k.grant_type == t && #[trigger] n.fwd_has(s, k) implies lists_grant(t, bs, k) by {
        assert(n.rev_has(s, k));
    }
}

} // verus!
