//! The grant index: which subjects hold which grants, kept in both directions.

use vstd::prelude::*;
use crate::rbac_grant::{GrantKey, GrantKeyView, GrantSubject, GrantType, GrantView, RBACGrant, SubjectView};
use crate::set_map::{Entry, Identified, SetMap, id_set, ids_distinct, lemma_id_set_len, lemma_id_set_push};

verus! {

/// What the index means: each observed subject with the identities of its
/// grants, each grant identity with its subjects, and the latest value seen of
/// each grant (its target can change while its identity stays).
pub struct IndexModel {
    pub forward: Map<SubjectView, Set<GrantKeyView>>,
    pub reverse: Map<GrantKeyView, Set<SubjectView>>,
    pub grants: Map<GrantKeyView, GrantView>,
}

/// The views of the items of a sequence, as a set.
pub open spec fn view_set<T: View>(s: Seq<T>) -> Set<T::V> {
    Set::new(|x: T::V| exists|i: int| #![trigger s[i]] 0 <= i < s.len() && s[i]@ == x)
}

impl IndexModel {
    pub open spec fn empty() -> IndexModel {
        IndexModel { forward: Map::empty(), reverse: Map::empty(), grants: Map::empty() }
    }

    /// The grant identities of a subject; empty for a subject never observed.
    pub open spec fn grants_of(self, s: SubjectView) -> Set<GrantKeyView> {
        if self.forward.contains_key(s) {
            self.forward[s]
        } else {
            Set::empty()
        }
    }

    /// The subjects of a grant identity; empty for an unknown grant.
    pub open spec fn subjects_of(self, k: GrantKeyView) -> Set<SubjectView> {
        if self.reverse.contains_key(k) {
            self.reverse[k]
        } else {
            Set::empty()
        }
    }

    /// The grants of a subject with their current targets.
    pub open spec fn resolved_grants_of(self, s: SubjectView) -> Set<GrantView> {
        self.grants_of(s).map(|k: GrantKeyView| self.grants[k])
    }

    /// Every (subject, grant identity) association.
    pub open spec fn pairs(self) -> Set<(SubjectView, GrantKeyView)> {
        Set::new(|p: (SubjectView, GrantKeyView)| self.fwd_has(p.0, p.1))
    }

    pub open spec fn fwd_has(self, s: SubjectView, k: GrantKeyView) -> bool {
        self.forward.contains_key(s) && self.forward[s].contains(k)
    }

    pub open spec fn rev_has(self, s: SubjectView, k: GrantKeyView) -> bool {
        self.reverse.contains_key(k) && self.reverse[k].contains(s)
    }

    /// Each association is recorded in both directions.
    pub open spec fn symmetric(self) -> bool {
        forall|s: SubjectView, k: GrantKeyView|
            #![trigger self.fwd_has(s, k)]
            #![trigger self.rev_has(s, k)]
            self.fwd_has(s, k) == self.rev_has(s, k)
    }

    pub open spec fn wf(self) -> bool {
        &&& self.symmetric()
        &&& self.reverse.dom() == self.grants.dom()
        &&& forall|k: GrantKeyView| #[trigger]
            self.grants.contains_key(k) ==> self.grants[k].key() == k
    }

    /// `s` holds `g`; `g` replaces the value recorded for its identity.
    pub open spec fn add(self, s: SubjectView, g: GrantView) -> IndexModel {
        IndexModel {
            forward: self.forward.insert(s, self.grants_of(s).insert(g.key())),
            reverse: self.reverse.insert(g.key(), self.subjects_of(g.key()).insert(s)),
            grants: self.grants.insert(g.key(), g),
        }
    }

    /// `s` no longer holds `k`; subjects and grants stay known.
    pub open spec fn remove(self, s: SubjectView, k: GrantKeyView) -> IndexModel {
        IndexModel {
            forward: if self.forward.contains_key(s) {
                self.forward.insert(s, self.forward[s].remove(k))
            } else {
                self.forward
            },
            reverse: if self.reverse.contains_key(k) {
                self.reverse.insert(k, self.reverse[k].remove(s))
            } else {
                self.reverse
            },
            grants: self.grants,
        }
    }

    /// The grant `k` is gone: no subject holds it and it is no longer known.
    pub open spec fn remove_grant(self, k: GrantKeyView) -> IndexModel {
        IndexModel {
            forward: Map::new(
                |s: SubjectView| self.forward.contains_key(s),
                |s: SubjectView| self.forward[s].remove(k),
            ),
            reverse: self.reverse.remove(k),
            grants: self.grants.remove(k),
        }
    }

    /// Every grant of type `t` is gone.
    pub open spec fn remove_type(self, t: GrantType) -> IndexModel {
        IndexModel {
            forward: Map::new(
                |s: SubjectView| self.forward.contains_key(s),
                |s: SubjectView| self.forward[s].filter(|k: GrantKeyView| k.grant_type != t),
            ),
            reverse: Map::new(
                |k: GrantKeyView| self.reverse.contains_key(k) && k.grant_type != t,
                |k: GrantKeyView| self.reverse[k],
            ),
            grants: Map::new(
                |k: GrantKeyView| self.grants.contains_key(k) && k.grant_type != t,
                |k: GrantKeyView| self.grants[k],
            ),
        }
    }
}

pub proof fn lemma_add_wf(m: IndexModel, s: SubjectView, g: GrantView)
    requires
        m.wf(),
    ensures
        m.add(s, g).wf(),
{
    let n = m.add(s, g);
    assert forall|s1: SubjectView, k1: GrantKeyView| n.fwd_has(s1, k1) == n.rev_has(s1, k1) by {
        assert(m.fwd_has(s1, k1) == m.rev_has(s1, k1));
    }
    assert(n.reverse.dom() =~= n.grants.dom());
}

pub proof fn lemma_remove_wf(m: IndexModel, s: SubjectView, k: GrantKeyView)
    requires
        m.wf(),
    ensures
        m.remove(s, k).wf(),
{
    let n = m.remove(s, k);
    assert forall|s1: SubjectView, k1: GrantKeyView| n.fwd_has(s1, k1) == n.rev_has(s1, k1) by {
        assert(m.fwd_has(s1, k1) == m.rev_has(s1, k1));
        if m.forward.contains_key(s) && s1 == s {
            assert(n.forward[s1] == m.forward[s].remove(k));
        }
        if m.reverse.contains_key(k) && k1 == k {
            assert(n.reverse[k1] == m.reverse[k].remove(s));
        }
    }
    assert(n.reverse.dom() =~= n.grants.dom());
}

pub proof fn lemma_remove_grant_wf(m: IndexModel, k: GrantKeyView)
    requires
        m.wf(),
    ensures
        m.remove_grant(k).wf(),
{
    let n = m.remove_grant(k);
    assert forall|s1: SubjectView, k1: GrantKeyView| n.fwd_has(s1, k1) == n.rev_has(s1, k1) by {
        assert(m.fwd_has(s1, k1) == m.rev_has(s1, k1));
    }
    assert(n.reverse.dom() =~= n.grants.dom());
}

pub proof fn lemma_remove_type_wf(m: IndexModel, t: GrantType)
    requires
        m.wf(),
    ensures
        m.remove_type(t).wf(),
{
    let n = m.remove_type(t);
    assert forall|s1: SubjectView, k1: GrantKeyView| n.fwd_has(s1, k1) == n.rev_has(s1, k1) by {
        assert(m.fwd_has(s1, k1) == m.rev_has(s1, k1));
    }
    assert(n.reverse.dom() =~= n.grants.dom());
}

/// The bidirectional subject/grant index.
pub struct GrantController {
    user_to_grant: SetMap<GrantSubject, GrantKey>,
    grant_to_user: SetMap<RBACGrant, GrantSubject>,
}

impl View for GrantController {
    type V = IndexModel;

    closed spec fn view(&self) -> IndexModel {
        IndexModel {
            forward: self.user_to_grant.sets@,
            reverse: self.grant_to_user.sets@,
            grants: self.grant_to_user.keys@,
        }
    }
}

/// A count, or `usize::MAX` where the count does not fit.
pub open spec fn capped(n: int) -> int {
    if n > usize::MAX {
        usize::MAX as int
    } else {
        n
    }
}

/// The associations of the subjects of the first `i` forward entries.
spec fn prefix_pairs(
    m: IndexModel,
    entries: Seq<Entry<GrantSubject, GrantKey>>,
    i: int,
) -> Set<(SubjectView, GrantKeyView)> {
    Set::new(
        |p: (SubjectView, GrantKeyView)|
            exists|j: int|
                #![trigger entries[j]]
                0 <= j < i && entries[j].key@ == p.0 && m.forward.contains_key(p.0)
                    && m.forward[p.0].contains(p.1),
    )
}

/// Copies of the items, one for one.
fn dup_all<T: Identified>(v: &Vec<T>) -> (r: Vec<T>)
    ensures
        id_set(r@) == id_set(v@),
        ids_distinct(v@) ==> ids_distinct(r@),
{
    let mut r: Vec<T> = Vec::new();
    let mut i: usize = 0;
    while i < v.len()
        invariant
            i <= v@.len(),
            r@.len() == i,
            forall|j: int| 0 <= j < i ==> #[trigger] r@[j].id() == v@[j].id(),
        decreases v@.len() - i,
    {
        r.push(v[i].dup());
        i += 1;
    }
    assert forall|x| id_set(r@).contains(x) <==> id_set(v@).contains(x) by {
        if id_set(r@).contains(x) {
            let j = choose|j: int| 0 <= j < r@.len() && r@[j].id() == x;
            assert(r@[j].id() == v@[j].id());
        }
        if id_set(v@).contains(x) {
            let j = choose|j: int| 0 <= j < v@.len() && v@[j].id() == x;
            assert(r@[j].id() == v@[j].id());
        }
    }
    assert(id_set(r@) =~= id_set(v@));
    proof {
        if ids_distinct(v@) {
            assert forall|a: int, b: int|
                0 <= a < r@.len() && 0 <= b < r@.len() && a != b implies r@[a].id()
                    != r@[b].id() by {
                assert(r@[a].id() == v@[a].id());
                assert(r@[b].id() == v@[b].id());
            }
        }
    }
    r
}

impl GrantController {
    pub closed spec fn wf(&self) -> bool {
        &&& self.user_to_grant.wf()
        &&& self.grant_to_user.wf()
        &&& self@.wf()
    }

    /// A well-formed index means a well-formed model.
    pub proof fn lemma_model_wf(&self)
        requires
            self.wf(),
        ensures
            self@.wf(),
    {
    }

    pub fn new() -> (r: GrantController)
        ensures
            r.wf(),
            r@ == IndexModel::empty(),
    {
        let r = GrantController { user_to_grant: SetMap::new(), grant_to_user: SetMap::new() };
        assert(r@ =~= IndexModel::empty());
        assert(r@.symmetric());
        r
    }

    /// Records that `subject` holds `grant`, in both directions. Adding a pair
    /// that is already there changes nothing but the recorded target.
    pub fn add_grant_for_subject(&mut self, subject: &GrantSubject, grant: &RBACGrant)
        requires
            old(self).wf(),
        ensures
            final(self).wf(),
            final(self)@ == old(self)@.add(subject@, grant@),
    {
        let ghost m = self@;
        let key = grant.key();
        self.user_to_grant.insert(subject, &key);
        self.grant_to_user.insert(grant, subject);
        proof {
            lemma_add_wf(m, subject@, grant@);
        }
        assert(self@ =~= m.add(subject@, grant@));
    }

    /// Takes the pair out of both directions; a pair that is absent is no
    /// error and changes nothing.
    pub fn remove_grant_for_subject(&mut self, subject: &GrantSubject, grant: &RBACGrant)
        requires
            old(self).wf(),
        ensures
            final(self).wf(),
            final(self)@ == old(self)@.remove(subject@, grant@.key()),
    {
        let ghost m = self@;
        let key = grant.key();
        self.user_to_grant.remove(subject, &key);
        self.grant_to_user.remove(grant, subject);
        proof {
            lemma_remove_wf(m, subject@, grant@.key());
        }
        assert(self@ =~= m.remove(subject@, grant@.key()));
    }

    /// The subjects that currently hold the grant; empty if there are none.
    pub fn get_current_subjects_for_grant(&self, grant: &RBACGrant) -> (r: Vec<GrantSubject>)
        requires
            self.wf(),
        ensures
            id_set(r@) == self@.subjects_of(grant@.key()),
            ids_distinct(r@),
    {
        match self.grant_to_user.find(grant) {
            Some(i) => {
                assert(self.grant_to_user.entry_ok(i as int));
                dup_all(&self.grant_to_user.entries[i].items)
            },
            None => {
                let r: Vec<GrantSubject> = Vec::new();
                assert(id_set(r@) =~= Set::<SubjectView>::empty());
                r
            },
        }
    }
    /// The index of the reverse entry of the grant identity `k`, if any.
    fn find_grant_key(&self, k: &GrantKey) -> (r: Option<usize>)
        requires
            self.wf(),
        ensures
            match r {
                Some(i) => i < self.grant_to_user.entries@.len()
                    && self.grant_to_user.entries@[i as int].key.id() == k@,
                None => !self@.reverse.contains_key(k@),
            },
    {
        let mut i: usize = 0;
        while i < self.grant_to_user.entries.len()
            invariant
                i <= self.grant_to_user.entries@.len(),
                self.wf(),
                forall|j: int| 0 <= j < i ==> self.grant_to_user.entries@[j].key.id() != k@,
            decreases self.grant_to_user.entries@.len() - i,
        {
            if self.grant_to_user.entries[i].key.key() == *k {
                return Some(i);
            }
            i += 1;
        }
        None
    }

    /// The current grants of the subject of forward entry `i`.
    fn resolved_entry(&self, i: usize) -> (r: Vec<RBACGrant>)
        requires
            self.wf(),
            i < self.user_to_grant.entries@.len(),
        ensures
            view_set(r@) == self@.resolved_grants_of(self.user_to_grant.entries@[i as int].key@),
            ids_distinct(r@),
    {
        let ghost m = self@;
        let ghost s = self.user_to_grant.entries@[i as int].key@;
        assert(self.user_to_grant.entry_ok(i as int));
        let keys = &self.user_to_grant.entries[i].items;
        let mut r: Vec<RBACGrant> = Vec::new();
        let mut j: usize = 0;
        while j < keys.len()
            invariant
                self.wf(),
                m == self@,
                m.forward.contains_key(s),
                m.forward[s] == id_set(keys@),
                ids_distinct(keys@),
                j <= keys@.len(),
                r@.len() == j,
                forall|a: int| 0 <= a < j ==> #[trigger] r@[a]@ == m.grants[keys@[a]@],
                forall|a: int| 0 <= a < j ==> #[trigger] r@[a]@.key() == keys@[a]@,
            decreases keys@.len() - j,
        {
            let k = &keys[j];
            assert(m.fwd_has(s, k@)) by {
                assert(keys@[j as int].id() == k@);
            }
            assert(m.rev_has(s, k@));
            match self.find_grant_key(k) {
                Some(g) => {
                    assert(self.grant_to_user.entry_ok(g as int));
                    r.push(self.grant_to_user.entries[g].key.dup());
                },
                None => {
                    assert(false);
                },
            }
            j += 1;
        }
        assert forall|x: GrantView| view_set(r@).contains(x) <==> m.resolved_grants_of(s).contains(
            x,
        ) by {
            if view_set(r@).contains(x) {
                let a = choose|a: int| 0 <= a < r@.len() && r@[a]@ == x;
                assert(keys@[a].id() == keys@[a]@);
                assert(id_set(keys@).contains(keys@[a]@));
                assert(m.grants_of(s).contains(keys@[a]@));
            }
            if m.resolved_grants_of(s).contains(x) {
                let k = choose|k: GrantKeyView| m.grants_of(s).contains(k) && m.grants[k] == x;
                let a = choose|a: int| 0 <= a < keys@.len() && keys@[a].id() == k;
                assert(r@[a]@ == x);
            }
        }
        assert(view_set(r@) =~= m.resolved_grants_of(s));
        assert forall|a: int, b: int|
            0 <= a < r@.len() && 0 <= b < r@.len() && a != b implies r@[a].id() != r@[b].id() by {
            assert(keys@[a].id() != keys@[b].id());
        }
        r
    }

    /// The grants of a subject with their current targets; `None` for a
    /// subject never observed, which differs from one that holds no grant now.
    pub fn get_grants_for_subject(&self, subject: &GrantSubject) -> (r: Option<Vec<RBACGrant>>)
        requires
            self.wf(),
        ensures
            r.is_none() == !self@.forward.contains_key(subject@),
            r matches Some(v) ==> view_set(v@) == self@.resolved_grants_of(subject@)
                && ids_distinct(v@),
    {
        match self.user_to_grant.find(subject) {
            Some(i) => {
                assert(self.user_to_grant.entry_ok(i as int));
                Some(self.resolved_entry(i))
            },
            None => None,
        }
    }

    /// A copy of the whole index: each observed subject with its grants.
    pub fn get_grants(&self) -> (r: Vec<(GrantSubject, Vec<RBACGrant>)>)
        requires
            self.wf(),
        ensures
            forall|i: int|
                0 <= i < r@.len() ==> {
                    &&& self@.forward.contains_key(#[trigger] r@[i].0@)
                    &&& view_set(r@[i].1@) == self@.resolved_grants_of(r@[i].0@)
                    &&& ids_distinct(r@[i].1@)
                },
            forall|i: int, j: int|
                0 <= i < r@.len() && 0 <= j < r@.len() && i != j ==> #[trigger] r@[i].0@
                    != #[trigger] r@[j].0@,
            forall|s: SubjectView|
                #[trigger] self@.forward.contains_key(s) ==> exists|i: int|
                    0 <= i < r@.len() && #[trigger] r@[i].0@ == s,
    {
        let mut r: Vec<(GrantSubject, Vec<RBACGrant>)> = Vec::new();
        let mut i: usize = 0;
        while i < self.user_to_grant.entries.len()
            invariant
                self.wf(),
                i <= self.user_to_grant.entries@.len(),
                r@.len() == i,
                forall|a: int|
                    0 <= a < i ==> {
                        &&& #[trigger] r@[a].0@ == self.user_to_grant.entries@[a].key@
                        &&& view_set(r@[a].1@) == self@.resolved_grants_of(r@[a].0@)
                        &&& ids_distinct(r@[a].1@)
                    },
            decreases self.user_to_grant.entries@.len() - i,
        {
            let grants = self.resolved_entry(i);
            let ghost before = r@;
            r.push((self.user_to_grant.entries[i].key.dup(), grants));
            assert forall|a: int| 0 <= a < i implies r@[a] == before[a] by {}
            i += 1;
        }
        assert forall|a: int| 0 <= a < r@.len() implies self@.forward.contains_key(
            #[trigger] r@[a].0@,
        ) by {
            assert(self.user_to_grant.entry_ok(a));
        }
        assert forall|a: int, b: int|
            0 <= a < r@.len() && 0 <= b < r@.len() && a != b implies #[trigger] r@[a].0@
            != #[trigger] r@[b].0@ by {
            assert(self.user_to_grant.entries@[a].key.id() != self.user_to_grant.entries@[b].key.id());
        }
        assert forall|s: SubjectView| #[trigger] self@.forward.contains_key(s) implies exists|
            i: int,
        | 0 <= i < r@.len() && #[trigger] r@[i].0@ == s by {
            let a = choose|a: int|
                #![trigger self.user_to_grant.entries@[a]]
                0 <= a < self.user_to_grant.entries@.len()
                    && self.user_to_grant.entries@[a].key.id() == s;
            assert(r@[a].0@ == s);
        }
        r
    }

    /// Drops a grant everywhere: it is taken from the grants of each subject
    /// that the reverse direction lists for it, then its reverse entry goes.
    pub fn remove_grant(&mut self, grant: &RBACGrant)
        requires
            old(self).wf(),
        ensures
            final(self).wf(),
            final(self)@ == old(self)@.remove_grant(grant@.key()),
    {
        let ghost m = self@;
        let ghost k = grant@.key();
        let subjects = self.get_current_subjects_for_grant(grant);
        let key = grant.key();
        let mut i: usize = 0;
        while i < subjects.len()
            invariant
                self.user_to_grant.wf(),
                self.grant_to_user.wf(),
                m.wf(),
                key@ == k,
                id_set(subjects@) == m.subjects_of(k),
                ids_distinct(subjects@),
                i <= subjects@.len(),
                self@.reverse == m.reverse,
                self@.grants == m.grants,
                self@.forward.dom() == m.forward.dom(),
                forall|s: SubjectView|
                    #[trigger] self@.forward.contains_key(s) ==> self@.forward[s] == if exists|
                        a: int,
                    | 0 <= a < i && subjects@[a]@ == s {
                        m.forward[s].remove(k)
                    } else {
                        m.forward[s]
                    },
            decreases subjects@.len() - i,
        {
            let ghost before = self@;
            let ghost si = subjects@[i as int]@;
            assert(m.rev_has(si, k)) by {
                assert(subjects@[i as int].id() == si);
                assert(id_set(subjects@).contains(si));
                assert(m.subjects_of(k).contains(si));
            }
            assert(m.fwd_has(si, k));
            self.user_to_grant.remove(&subjects[i], &key);
            assert forall|s: SubjectView| #[trigger] self@.forward.contains_key(s) implies self@.forward[s]
                == if exists|a: int| 0 <= a < i + 1 && subjects@[a]@ == s {
                m.forward[s].remove(k)
            } else {
                m.forward[s]
            } by {
                if s == si {
                    assert(subjects@[i as int]@ == s);
                    assert(!exists|a: int| 0 <= a < i && subjects@[a]@ == s) by {
                        if exists|a: int| 0 <= a < i && subjects@[a]@ == s {
                            let a = choose|a: int| 0 <= a < i && subjects@[a]@ == s;
                            assert(subjects@[a].id() != subjects@[i as int].id());
                        }
                    }
                } else {
                    if exists|a: int| 0 <= a < i + 1 && subjects@[a]@ == s {
                        let a = choose|a: int| 0 <= a < i + 1 && subjects@[a]@ == s;
                        assert(a < i);
                    }
                }
            }
            assert(self@.forward.dom() =~= m.forward.dom());
            i += 1;
        }
        self.grant_to_user.remove_key(grant);
        assert forall|s: SubjectView| #[trigger] m.forward.contains_key(s) implies self@.forward[s]
            == m.forward[s].remove(k) by {
            if !exists|a: int| 0 <= a < i && subjects@[a]@ == s {
                if m.forward[s].contains(k) {
                    assert(m.fwd_has(s, k));
                    assert(m.rev_has(s, k));
                    assert(id_set(subjects@).contains(s));
                    let a = choose|a: int| 0 <= a < subjects@.len() && subjects@[a].id() == s;
                    assert(subjects@[a]@ == s);
                }
                assert(m.forward[s].remove(k) =~= m.forward[s]);
            }
        }
        assert(self@.forward =~= m.remove_grant(k).forward);
        assert(self@ =~= m.remove_grant(k));
        proof {
            lemma_remove_grant_wf(m, k);
        }
    }

    /// Drops every grant of the given type from both directions.
    pub fn remove_all_of_type(&mut self, grant_type: GrantType)
        requires
            old(self).wf(),
        ensures
            final(self).wf(),
            final(self)@ == old(self)@.remove_type(grant_type),
    {
        let ghost m = self@;
        let mut doomed: Vec<RBACGrant> = Vec::new();
        let mut i: usize = 0;
        while i < self.grant_to_user.entries.len()
            invariant
                self.wf(),
                self@ == m,
                i <= self.grant_to_user.entries@.len(),
                forall|a: int| 0 <= a < doomed@.len() ==> (#[trigger] doomed@[a]).id().grant_type
                    == grant_type,
                forall|a: int|
                    0 <= a < doomed@.len() ==> m.reverse.contains_key(#[trigger] doomed@[a].id()),
                forall|a: int, b: int|
                    #![trigger doomed@[a], doomed@[b]]
                    0 <= a < doomed@.len() && 0 <= b < doomed@.len() && a != b ==> doomed@[a].id()
                        != doomed@[b].id(),
                forall|a: int|
                    #![trigger doomed@[a]]
                    0 <= a < doomed@.len() ==> exists|e: int|
                        0 <= e < i && #[trigger] self.grant_to_user.entries@[e].key.id()
                            == doomed@[a].id(),
                forall|e: int|
                    0 <= e < i && (#[trigger] self.grant_to_user.entries@[e]).key.id().grant_type
                        == grant_type ==> exists|a: int|
                        0 <= a < doomed@.len() && #[trigger] doomed@[a].id()
                            == self.grant_to_user.entries@[e].key.id(),
            decreases self.grant_to_user.entries@.len() - i,
        {
            assert(self.grant_to_user.entry_ok(i as int));
            if self.grant_to_user.entries[i].key.grant_type == grant_type {
                let ghost before = doomed@;
                let g = self.grant_to_user.entries[i].key.dup();
                assert forall|a: int| 0 <= a < before.len() implies before[a].id() != g.id() by {
                    let e = choose|e: int|
                        0 <= e < i && #[trigger] self.grant_to_user.entries@[e].key.id()
                            == before[a].id();
                    assert(self.grant_to_user.entries@[e].key.id()
                        != self.grant_to_user.entries@[i as int].key.id());
                }
                doomed.push(g);
                assert forall|a: int|
                    #![trigger doomed@[a]]
                    0 <= a < doomed@.len() implies exists|e: int|
                    0 <= e < i + 1 && #[trigger] self.grant_to_user.entries@[e].key.id()
                        == doomed@[a].id() by {
                    if a < before.len() {
                        assert(doomed@[a] == before[a]);
                        let e = choose|e: int|
                            0 <= e < i && #[trigger] self.grant_to_user.entries@[e].key.id()
                                == before[a].id();
                    } else {
                        assert(self.grant_to_user.entries@[i as int].key.id() == doomed@[a].id());
                    }
                }
                assert forall|e: int|
                    0 <= e < i + 1 && (#[trigger] self.grant_to_user.entries@[e]).key.id().grant_type
                        == grant_type implies exists|a: int|
                    0 <= a < doomed@.len() && #[trigger] doomed@[a].id()
                        == self.grant_to_user.entries@[e].key.id() by {
                    if e < i {
                        let a = choose|a: int|
                            0 <= a < before.len() && #[trigger] before[a].id()
                                == self.grant_to_user.entries@[e].key.id();
                        assert(doomed@[a] == before[a]);
                    } else {
                        assert(doomed@[before.len() as int].id()
                            == self.grant_to_user.entries@[e].key.id());
                    }
                }
            }
            i += 1;
        }
        let ghost doomed_ids = id_set(doomed@);
        assert forall|k: GrantKeyView| doomed_ids.contains(k) <==> (m.reverse.contains_key(k)
            && k.grant_type == grant_type) by {
            if m.reverse.contains_key(k) && k.grant_type == grant_type {
                let e = choose|e: int|
                    #![trigger self.grant_to_user.entries@[e]]
                    0 <= e < self.grant_to_user.entries@.len()
                        && self.grant_to_user.entries@[e].key.id() == k;
                let a = choose|a: int|
                    0 <= a < doomed@.len() && #[trigger] doomed@[a].id()
                        == self.grant_to_user.entries@[e].key.id();
            }
        }
        let mut j: usize = 0;
        while j < doomed.len()
            invariant
                self.wf(),
                m.wf(),
                j <= doomed@.len(),
                forall|a: int| 0 <= a < doomed@.len() ==> (#[trigger] doomed@[a]).id().grant_type
                    == grant_type,
                forall|a: int, b: int|
                    #![trigger doomed@[a], doomed@[b]]
                    0 <= a < doomed@.len() && 0 <= b < doomed@.len() && a != b ==> doomed@[a].id()
                        != doomed@[b].id(),
                self@.forward.dom() == m.forward.dom(),
                forall|s: SubjectView|
                    #[trigger] self@.forward.contains_key(s) ==> self@.forward[s]
                        == m.forward[s].difference(id_set(doomed@.take(j as int))),
                self@.reverse == m.reverse.remove_keys(id_set(doomed@.take(j as int))),
                self@.grants == m.grants.remove_keys(id_set(doomed@.take(j as int))),
            decreases doomed@.len() - j,
        {
            let ghost before = self@;
            let ghost done = id_set(doomed@.take(j as int));
            let ghost next = id_set(doomed@.take(j as int + 1));
            proof {
                assert(doomed@.take(j as int + 1) =~= doomed@.take(j as int).push(doomed@[j as int]));
                lemma_id_set_push(doomed@.take(j as int), doomed@[j as int]);
            }
            self.remove_grant(&doomed[j]);
            let ghost kj = doomed@[j as int].id();
            assert(next == done.insert(kj));
            assert forall|s: SubjectView| #[trigger] self@.forward.contains_key(s) implies self@.forward[s]
                == m.forward[s].difference(next) by {
                assert(m.forward[s].difference(done).remove(kj) =~= m.forward[s].difference(next));
            }
            assert(self@.forward.dom() =~= m.forward.dom());
            assert(self@.reverse =~= m.reverse.remove_keys(next));
            assert(self@.grants =~= m.grants.remove_keys(next));
            j += 1;
        }
        let ghost target = m.remove_type(grant_type);
        assert(doomed@.take(doomed@.len() as int) =~= doomed@);
        assert forall|s: SubjectView| #[trigger] m.forward.contains_key(s) implies self@.forward[s]
            == target.forward[s] by {
            assert forall|k: GrantKeyView| self@.forward[s].contains(k) <==> target.forward[s].contains(
                k,
            ) by {
                if m.forward[s].contains(k) && k.grant_type == grant_type {
                    assert(m.fwd_has(s, k));
                    assert(m.rev_has(s, k));
                }
            }
            assert(self@.forward[s] =~= target.forward[s]);
        }
        assert(self@.forward =~= target.forward);
        assert(self@.reverse =~= target.reverse);
        assert(self@.grants =~= target.grants);
        assert(self@ =~= target);
    }
    /// The number of (subject, grant) associations: the sum of the sizes of
    /// the subjects' grant sets, or `usize::MAX` where that does not fit.
    pub fn grant_counts(&self) -> (r: usize)
        requires
            self.wf(),
        ensures
            self@.pairs().finite(),
            r as int == capped(self@.pairs().len() as int),
    {
        let ghost m = self@;
        let ghost es = self.user_to_grant.entries@;
        let mut total: usize = 0;
        let mut i: usize = 0;
        assert(prefix_pairs(m, es, 0) =~= Set::<(SubjectView, GrantKeyView)>::empty());
        while i < self.user_to_grant.entries.len()
            invariant
                self.wf(),
                m == self@,
                es == self.user_to_grant.entries@,
                i <= es.len(),
                prefix_pairs(m, es, i as int).finite(),
                total as int == capped(prefix_pairs(m, es, i as int).len() as int),
            decreases es.len() - i,
        {
            let n = self.user_to_grant.entries[i].items.len();
            proof {
                let s = es[i as int].key@;
                let items = es[i as int].items@;
                assert(self.user_to_grant.entry_ok(i as int));
                lemma_id_set_len(items);
                let f = |k: GrantKeyView| (s, k);
                let row = id_set(items).map(f);
                vstd::set_lib::lemma_map_size(id_set(items), row, f);
                let before = prefix_pairs(m, es, i as int);
                let after = prefix_pairs(m, es, i as int + 1);
                assert forall|p: (SubjectView, GrantKeyView)| after.contains(p) <==> (before
                    + row).contains(p) by {
                    if after.contains(p) {
                        let j = choose|j: int|
                            #![trigger es[j]]
                            0 <= j < i + 1 && es[j].key@ == p.0 && m.forward.contains_key(p.0)
                                && m.forward[p.0].contains(p.1);
                        if j == i {
                            assert(f(p.1) == p);
                        }
                    }
                    if row.contains(p) {
                        let k = choose|k: GrantKeyView| id_set(items).contains(k) && f(k) == p;
                        assert(es[i as int].key@ == p.0);
                    }
                }
                assert(after =~= before + row);
                assert(before.disjoint(row)) by {
                    assert forall|p: (SubjectView, GrantKeyView)| !(before.contains(p) && row.contains(
                        p,
                    )) by {
                        if before.contains(p) && row.contains(p) {
                            let j = choose|j: int|
                                #![trigger es[j]]
                                0 <= j < i && es[j].key@ == p.0 && m.forward.contains_key(p.0)
                                    && m.forward[p.0].contains(p.1);
                            let k = choose|k: GrantKeyView| id_set(items).contains(k) && f(k) == p;
                            assert(es[j].key.id() != es[i as int].key.id());
                        }
                    }
                }
                vstd::set_lib::lemma_set_disjoint_lens(before, row);
            }
            total = total.saturating_add(n);
            i += 1;
        }
        assert(prefix_pairs(m, es, es.len() as int) =~= m.pairs()) by {
            assert forall|p: (SubjectView, GrantKeyView)| m.pairs().contains(p) implies prefix_pairs(
                m,
                es,
                es.len() as int,
            ).contains(p) by {
                let j = choose|j: int|
                    #![trigger es[j]]
                    0 <= j < es.len() && es[j].key.id() == p.0;
            }
        }
        total
    }
}

} // verus!
