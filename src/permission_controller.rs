//! The permission cache: the latest known rules of each permission set.

use vstd::prelude::*;
use k8s_openapi::api::rbac::v1::PolicyRule;
use crate::rbac_grant::{IDType, IdView, RBACId};

verus! {

struct PermissionEntry {
    id: RBACId,
    rules: Vec<PolicyRule>,
}

/// Rules by permission-set id. Entries are stored and read verbatim.
pub struct PermissionController {
    entries: Vec<PermissionEntry>,
    model: Ghost<Map<IdView, Seq<PolicyRule>>>,
}

/// The cache without the entries of one kind.
pub open spec fn without_kind(m: Map<IdView, Seq<PolicyRule>>, id_type: IDType) -> Map<
    IdView,
    Seq<PolicyRule>,
> {
    Map::new(|k: IdView| m.contains_key(k) && k.rbac_type != id_type, |k: IdView| m[k])
}

impl View for PermissionController {
    type V = Map<IdView, Seq<PolicyRule>>;

    closed spec fn view(&self) -> Map<IdView, Seq<PolicyRule>> {
        self.model@
    }
}

fn copy_rules(rules: &Vec<PolicyRule>) -> (r: Vec<PolicyRule>)
    ensures
        r@ == rules@,
{
    let r = rules.clone();
    assert(r@ =~= rules@);
    r
}

impl PermissionController {
    spec fn entry_ok(&self, i: int) -> bool {
        let e = self.entries@[i];
        self.model@.contains_key(e.id@) && self.model@[e.id@] == e.rules@
    }

    pub closed spec fn wf(&self) -> bool {
        &&& forall|i: int| 0 <= i < self.entries@.len() ==> #[trigger] self.entry_ok(i)
        &&& forall|i: int, j: int|
            #![trigger self.entries@[i], self.entries@[j]]
            0 <= i < self.entries@.len() && 0 <= j < self.entries@.len() && i != j
                ==> self.entries@[i].id@ != self.entries@[j].id@
        &&& forall|k: IdView| #[trigger]
            self.model@.contains_key(k) ==> exists|i: int|
                #![trigger self.entries@[i]]
                0 <= i < self.entries@.len() && self.entries@[i].id@ == k
    }

    pub fn new() -> (r: PermissionController)
        ensures
            r.wf(),
            r@ == Map::<IdView, Seq<PolicyRule>>::empty(),
    {
        PermissionController { entries: Vec::new(), model: Ghost(Map::empty()) }
    }

    fn find(&self, id: &RBACId) -> (r: Option<usize>)
        requires
            self.wf(),
        ensures
            match r {
                Some(i) => i < self.entries@.len() && self.entries@[i as int].id@ == id@,
                None => !self@.contains_key(id@),
            },
    {
        let mut i: usize = 0;
        while i < self.entries.len()
            invariant
                i <= self.entries@.len(),
                self.wf(),
                forall|j: int| 0 <= j < i ==> self.entries@[j].id@ != id@,
            decreases self.entries@.len() - i,
        {
            if self.entries[i].id == *id {
                return Some(i);
            }
            i += 1;
        }
        None
    }

    /// The cached rules of a permission set, if it has been observed.
    pub fn get_permission_for_id(&self, id: &RBACId) -> (r: Option<Vec<PolicyRule>>)
        requires
            self.wf(),
        ensures
            r.is_some() == self@.contains_key(id@),
            r matches Some(v) ==> v@ == self@[id@],
    {
        match self.find(id) {
            Some(i) => {
                assert(self.entry_ok(i as int));
                Some(copy_rules(&self.entries[i].rules))
            },
            None => None,
        }
    }

    /// A copy of the whole cache.
    pub fn get_permissions(&self) -> (r: Vec<(RBACId, Vec<PolicyRule>)>)
        requires
            self.wf(),
        ensures
            forall|i: int|
                0 <= i < r@.len() ==> self@.contains_key(#[trigger] r@[i].0@) && r@[i].1@
                    == self@[r@[i].0@],
            forall|i: int, j: int|
                0 <= i < r@.len() && 0 <= j < r@.len() && i != j ==> #[trigger] r@[i].0@
                    != #[trigger] r@[j].0@,
            forall|k: IdView|
                #[trigger] self@.contains_key(k) ==> exists|i: int|
                    0 <= i < r@.len() && #[trigger] r@[i].0@ == k,
    {
        let mut r: Vec<(RBACId, Vec<PolicyRule>)> = Vec::new();
        let mut i: usize = 0;
        while i < self.entries.len()
            invariant
                self.wf(),
                i <= self.entries@.len(),
                r@.len() == i,
                forall|a: int|
                    0 <= a < i ==> #[trigger] r@[a].0@ == self.entries@[a].id@ && r@[a].1@
                        == self.entries@[a].rules@,
            decreases self.entries@.len() - i,
        {
            let ghost before = r@;
            r.push((self.entries[i].id.duplicate(), copy_rules(&self.entries[i].rules)));
            assert forall|a: int| 0 <= a < i implies r@[a] == before[a] by {}
            i += 1;
        }
        assert forall|a: int| 0 <= a < r@.len() implies self@.contains_key(#[trigger] r@[a].0@)
            && r@[a].1@ == self@[r@[a].0@] by {
            assert(self.entry_ok(a));
        }
        assert forall|a: int, b: int|
            0 <= a < r@.len() && 0 <= b < r@.len() && a != b implies #[trigger] r@[a].0@
            != #[trigger] r@[b].0@ by {
            assert(self.entries@[a].id@ != self.entries@[b].id@);
        }
        assert forall|k: IdView| #[trigger] self@.contains_key(k) implies exists|i: int|
            0 <= i < r@.len() && #[trigger] r@[i].0@ == k by {
            let a = choose|a: int|
                #![trigger self.entries@[a]]
                0 <= a < self.entries@.len() && self.entries@[a].id@ == k;
            assert(r@[a].0@ == k);
        }
        r
    }

    /// Overwrites the rules of a permission set.
    pub fn store_permission_id(&mut self, id: &RBACId, rules: &Vec<PolicyRule>)
        requires
            old(self).wf(),
        ensures
            final(self).wf(),
            final(self)@ == old(self)@.insert(id@, rules@),
    {
        let ghost old_self = *self;
        let copy = copy_rules(rules);
        match self.find(id) {
            Some(i) => {
                self.entries[i].rules = copy;
                self.model = Ghost(self.model@.insert(id@, rules@));
                assert forall|j: int| 0 <= j < self.entries@.len() implies #[trigger] self.entry_ok(
                    j,
                ) by {
                    assert(old_self.entry_ok(j));
                    if j != i {
                        assert(self.entries@[j] == old_self.entries@[j]);
                        assert(old_self.entries@[j].id@ != old_self.entries@[i as int].id@);
                    }
                }
                assert forall|k: IdView| #[trigger] self.model@.contains_key(k) implies exists|
                    j: int,
                |
                    #![trigger self.entries@[j]]
                    0 <= j < self.entries@.len() && self.entries@[j].id@ == k by {
                    if k != id@ {
                        let j = choose|j: int|
                            #![trigger old_self.entries@[j]]
                            0 <= j < old_self.entries@.len() && old_self.entries@[j].id@ == k;
                        assert(self.entries@[j].id == old_self.entries@[j].id);
                    } else {
                        assert(self.entries@[i as int].id@ == k);
                    }
                }
                assert forall|a: int, b: int|
                    #![trigger self.entries@[a], self.entries@[b]]
                    0 <= a < self.entries@.len() && 0 <= b < self.entries@.len() && a
                        != b implies self.entries@[a].id@ != self.entries@[b].id@ by {
                    assert(old_self.entries@[a].id@ != old_self.entries@[b].id@);
                }
            },
            None => {
                self.entries.push(PermissionEntry { id: id.duplicate(), rules: copy });
                self.model = Ghost(self.model@.insert(id@, rules@));
                let ghost last = old_self.entries@.len() as int;
                assert forall|j: int| 0 <= j < self.entries@.len() implies #[trigger] self.entry_ok(
                    j,
                ) by {
                    if j != last {
                        assert(old_self.entry_ok(j));
                        assert(self.entries@[j] == old_self.entries@[j]);
                    }
                }
                assert forall|k: IdView| #[trigger] self.model@.contains_key(k) implies exists|
                    j: int,
                |
                    #![trigger self.entries@[j]]
                    0 <= j < self.entries@.len() && self.entries@[j].id@ == k by {
                    if k != id@ {
                        let j = choose|j: int|
                            #![trigger old_self.entries@[j]]
                            0 <= j < old_self.entries@.len() && old_self.entries@[j].id@ == k;
                        assert(self.entries@[j] == old_self.entries@[j]);
                    } else {
                        assert(self.entries@[last].id@ == k);
                    }
                }
                assert forall|a: int, b: int|
                    #![trigger self.entries@[a], self.entries@[b]]
                    0 <= a < self.entries@.len() && 0 <= b < self.entries@.len() && a
                        != b implies self.entries@[a].id@ != self.entries@[b].id@ by {
                    if a != last && b != last {
                        assert(old_self.entries@[a].id@ != old_self.entries@[b].id@);
                    } else if a != last {
                        assert(old_self.entry_ok(a));
                    } else {
                        assert(old_self.entry_ok(b));
                    }
                }
            },
        }
    }

    /// Drops entry `i`.
    fn remove_at(&mut self, i: usize)
        requires
            old(self).wf(),
            i < old(self).entries@.len(),
        ensures
            final(self).wf(),
            final(self)@ == old(self)@.remove(old(self).entries@[i as int].id@),
            final(self).entries@ == old(self).entries@.remove(i as int),
    {
        let ghost old_self = *self;
        let ghost gone = self.entries@[i as int].id@;
        self.entries.remove(i);
        self.model = Ghost(self.model@.remove(gone));
        let ghost ii = i as int;
        assert forall|j: int| 0 <= j < self.entries@.len() implies #[trigger] self.entry_ok(j) by {
            let j1 = if j < ii {
                j
            } else {
                j + 1
            };
            assert(self.entries@[j] == old_self.entries@[j1]);
            assert(old_self.entry_ok(j1));
            assert(old_self.entries@[j1].id@ != old_self.entries@[ii].id@);
        }
        assert forall|k: IdView| #[trigger] self.model@.contains_key(k) implies exists|j: int|
            #![trigger self.entries@[j]]
            0 <= j < self.entries@.len() && self.entries@[j].id@ == k by {
            let j = choose|j: int|
                #![trigger old_self.entries@[j]]
                0 <= j < old_self.entries@.len() && old_self.entries@[j].id@ == k;
            if j < ii {
                assert(self.entries@[j] == old_self.entries@[j]);
            } else {
                assert(self.entries@[j - 1] == old_self.entries@[j]);
            }
        }
        assert forall|a: int, b: int|
            #![trigger self.entries@[a], self.entries@[b]]
            0 <= a < self.entries@.len() && 0 <= b < self.entries@.len() && a
                != b implies self.entries@[a].id@ != self.entries@[b].id@ by {
            let a1 = if a < ii {
                a
            } else {
                a + 1
            };
            let b1 = if b < ii {
                b
            } else {
                b + 1
            };
            assert(self.entries@[a] == old_self.entries@[a1]);
            assert(self.entries@[b] == old_self.entries@[b1]);
            assert(old_self.entries@[a1].id@ != old_self.entries@[b1].id@);
        }
    }

    /// Drops the rules of a permission set, if they are cached.
    pub fn remove_permission_id(&mut self, id: &RBACId)
        requires
            old(self).wf(),
        ensures
            final(self).wf(),
            final(self)@ == old(self)@.remove(id@),
    {
        match self.find(id) {
            Some(i) => {
                self.remove_at(i);
            },
            None => {
                assert(self@.remove(id@) =~= self@);
            },
        }
    }

    /// Drops every entry of one kind and leaves those of the other kind alone.
    pub fn remove_all_of_type(&mut self, id_type: IDType)
        requires
            old(self).wf(),
        ensures
            final(self).wf(),
            final(self)@ == without_kind(old(self)@, id_type),
    {
        let ghost m = self@;
        let mut i: usize = 0;
        while i < self.entries.len()
            invariant
                self.wf(),
                i <= self.entries@.len(),
                forall|k: IdView| #[trigger]
                    self@.contains_key(k) ==> m.contains_key(k) && self@[k] == m[k],
                forall|k: IdView|
                    #[trigger] m.contains_key(k) && k.rbac_type != id_type ==> self@.contains_key(k),
                forall|j: int| 0 <= j < i ==> (#[trigger] self.entries@[j]).id.rbac_type != id_type,
            decreases self.entries@.len() - i,
        {
            if self.entries[i].id.rbac_type == id_type {
                let ghost before = self.entries@;
                self.remove_at(i);
                assert forall|j: int| 0 <= j < i implies (#[trigger] self.entries@[j]).id.rbac_type
                    != id_type by {
                    assert(self.entries@[j] == before[j]);
                }
            } else {
                i += 1;
            }
        }
        assert forall|k: IdView| #[trigger] self@.contains_key(k) implies k.rbac_type != id_type by {
            let j = choose|j: int|
                #![trigger self.entries@[j]]
                0 <= j < self.entries@.len() && self.entries@[j].id@ == k;
        }
        assert(self@ =~= without_kind(m, id_type));
    }
    /// The number of cached permission sets.
    pub fn len(&self) -> (r: usize)
        requires
            self.wf(),
        ensures
            self@.dom().finite(),
            r == self@.dom().len(),
    {
        let ghost ids = self.entries@.map_values(|e: PermissionEntry| e.id@);
        proof {
            assert(ids.no_duplicates()) by {
                assert forall|i: int, j: int|
                    0 <= i < ids.len() && 0 <= j < ids.len() && i != j implies ids[i] != ids[j] by {
                    assert(self.entries@[i].id@ != self.entries@[j].id@);
                }
            }
            ids.unique_seq_to_set();
            assert(self@.dom() =~= ids.to_set()) by {
                assert forall|k: IdView| self@.dom().contains(k) implies ids.to_set().contains(k) by {
                    let j = choose|j: int|
                        #![trigger self.entries@[j]]
                        0 <= j < self.entries@.len() && self.entries@[j].id@ == k;
                    assert(ids[j] == k);
                }
                assert forall|k: IdView| ids.to_set().contains(k) implies self@.dom().contains(k) by {
                    let j = choose|j: int| 0 <= j < ids.len() && ids[j] == k;
                    assert(self.entry_ok(j));
                }
            }
        }
        self.entries.len()
    }
}

} // verus!
