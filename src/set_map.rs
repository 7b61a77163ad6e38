//! An association list from keys to sets of items, with both compared by an
//! identity. It backs each direction of the grant index.

use vstd::prelude::*;
use crate::rbac_grant::{GrantKey, GrantKeyView, GrantSubject, RBACGrant, SubjectView};

verus! {

/// A value with an identity that can be tested and copied.
pub trait Identified: View + Sized {
    type Id;

    spec fn id(&self) -> Self::Id;

    fn same_id(&self, other: &Self) -> (r: bool)
        ensures
            r == (self.id() == other.id()),
    ;

    fn dup(&self) -> (r: Self)
        ensures
            r@ == self@,
            r.id() == self.id(),
    ;
}

impl Identified for GrantSubject {
    type Id = SubjectView;

    open spec fn id(&self) -> SubjectView {
        self@
    }

    fn same_id(&self, other: &Self) -> (r: bool) {
        *self == *other
    }

    fn dup(&self) -> (r: Self) {
        self.duplicate()
    }
}

impl Identified for GrantKey {
    type Id = GrantKeyView;

    open spec fn id(&self) -> GrantKeyView {
        self@
    }

    fn same_id(&self, other: &Self) -> (r: bool) {
        *self == *other
    }

    fn dup(&self) -> (r: Self) {
        self.duplicate()
    }
}

/// A grant is identified by its type, namespace and name, not by its target.
impl Identified for RBACGrant {
    type Id = GrantKeyView;

    open spec fn id(&self) -> GrantKeyView {
        self@.key()
    }

    fn same_id(&self, other: &Self) -> (r: bool) {
        self.key() == other.key()
    }

    fn dup(&self) -> (r: Self) {
        self.duplicate()
    }
}

/// The identities of the items of a sequence.
pub open spec fn id_set<T: Identified>(s: Seq<T>) -> Set<T::Id> {
    Set::new(|x: T::Id| exists|i: int| #![trigger s[i]] 0 <= i < s.len() && s[i].id() == x)
}

/// No identity occurs twice in the sequence.
pub open spec fn ids_distinct<T: Identified>(s: Seq<T>) -> bool {
    forall|i: int, j: int|
        #![trigger s[i], s[j]]
        0 <= i < s.len() && 0 <= j < s.len() && i != j ==> s[i].id() != s[j].id()
}

pub proof fn lemma_id_set_push<T: Identified>(s: Seq<T>, x: T)
    ensures
        id_set(s.push(x)) == id_set(s).insert(x.id()),
        ids_distinct(s) && !id_set(s).contains(x.id()) ==> ids_distinct(s.push(x)),
{
    let t = s.push(x);
    assert forall|y: T::Id| id_set(t).contains(y) <==> id_set(s).insert(x.id()).contains(y) by {
        if id_set(s).contains(y) {
            let i = choose|i: int| 0 <= i < s.len() && s[i].id() == y;
            assert(t[i] == s[i]);
        }
        if y == x.id() {
            assert(t[s.len() as int] == x);
        }
        if id_set(t).contains(y) {
            let i = choose|i: int| 0 <= i < t.len() && t[i].id() == y;
            if i < s.len() {
                assert(t[i] == s[i]);
            }
        }
    }
    assert(id_set(t) =~= id_set(s).insert(x.id()));
    if ids_distinct(s) && !id_set(s).contains(x.id()) {
        assert forall|i: int, j: int|
            0 <= i < t.len() && 0 <= j < t.len() && i != j implies t[i].id() != t[j].id() by {
            if i < s.len() && j < s.len() {
                assert(s[i] == t[i] && s[j] == t[j]);
            } else if i < s.len() {
                assert(s[i] == t[i]);
            } else if j < s.len() {
                assert(s[j] == t[j]);
            }
        }
    }
}

pub proof fn lemma_id_set_single<T: Identified>(x: T)
    ensures
        id_set(seq![x]) == Set::<T::Id>::empty().insert(x.id()),
        ids_distinct(seq![x]),
{
    lemma_id_set_push(Seq::<T>::empty(), x);
    assert(Seq::<T>::empty().push(x) =~= seq![x]);
    assert(id_set(Seq::<T>::empty()) =~= Set::<T::Id>::empty());
}

pub proof fn lemma_id_set_remove<T: Identified>(s: Seq<T>, i: int)
    requires
        ids_distinct(s),
        0 <= i < s.len(),
    ensures
        id_set(s.remove(i)) == id_set(s).remove(s[i].id()),
        ids_distinct(s.remove(i)),
{
    let t = s.remove(i);
    assert forall|y: T::Id| id_set(t).contains(y) <==> id_set(s).remove(s[i].id()).contains(y) by {
        if id_set(t).contains(y) {
            let j = choose|j: int| 0 <= j < t.len() && t[j].id() == y;
            if j < i {
                assert(t[j] == s[j]);
            } else {
                assert(t[j] == s[j + 1]);
            }
        }
        if id_set(s).remove(s[i].id()).contains(y) {
            let j = choose|j: int| 0 <= j < s.len() && s[j].id() == y;
            if j < i {
                assert(t[j] == s[j]);
            } else {
                assert(j != i);
                assert(t[j - 1] == s[j]);
            }
        }
    }
    assert(id_set(t) =~= id_set(s).remove(s[i].id()));
    assert forall|a: int, b: int|
        0 <= a < t.len() && 0 <= b < t.len() && a != b implies t[a].id() != t[b].id() by {
        let a1 = if a < i {
            a
        } else {
            a + 1
        };
        let b1 = if b < i {
            b
        } else {
            b + 1
        };
        assert(t[a] == s[a1] && t[b] == s[b1]);
    }
}

/// Distinct identities make a finite set as large as the sequence.
pub proof fn lemma_id_set_len<T: Identified>(s: Seq<T>)
    requires
        ids_distinct(s),
    ensures
        id_set(s).finite(),
        id_set(s).len() == s.len(),
    decreases s.len(),
{
    if s.len() == 0 {
        assert(id_set(s) =~= Set::<T::Id>::empty());
    } else {
        let init = s.drop_last();
        assert(ids_distinct(init)) by {
            assert forall|i: int, j: int|
                0 <= i < init.len() && 0 <= j < init.len() && i != j implies init[i].id()
                    != init[j].id() by {
                assert(init[i] == s[i] && init[j] == s[j]);
            }
        }
        lemma_id_set_len(init);
        assert(init.push(s.last()) =~= s);
        lemma_id_set_push(init, s.last());
        assert(!id_set(init).contains(s.last().id())) by {
            if id_set(init).contains(s.last().id()) {
                let i = choose|i: int| 0 <= i < init.len() && init[i].id() == s.last().id();
                assert(init[i] == s[i]);
            }
        }
    }
}

/// Where an item with the identity of `v` stands in `items`, if anywhere.
pub fn position<T: Identified>(items: &Vec<T>, v: &T) -> (r: Option<usize>)
    ensures
        match r {
            Some(j) => j < items@.len() && items@[j as int].id() == v.id(),
            None => !id_set(items@).contains(v.id()),
        },
{
    let mut j: usize = 0;
    while j < items.len()
        invariant
            j <= items@.len(),
            forall|k: int| 0 <= k < j ==> items@[k].id() != v.id(),
        decreases items@.len() - j,
    {
        if items[j].same_id(v) {
            return Some(j);
        }
        j += 1;
    }
    None
}

pub struct Entry<K, V> {
    pub key: K,
    pub items: Vec<V>,
}

/// Keys with their sets of items. `sets` is what the list means; `keys`
/// records, for each key identity, the key value that was stored last.
pub struct SetMap<K: Identified, V: Identified> {
    pub entries: Vec<Entry<K, V>>,
    pub sets: Ghost<Map<K::Id, Set<V::Id>>>,
    pub keys: Ghost<Map<K::Id, K::V>>,
}

impl<K: Identified, V: Identified> SetMap<K, V> {
    pub open spec fn entry_ok(&self, i: int) -> bool {
        let e = self.entries@[i];
        &&& self.sets@.contains_key(e.key.id())
        &&& self.sets@[e.key.id()] == id_set(e.items@)
        &&& ids_distinct(e.items@)
        &&& self.keys@[e.key.id()] == e.key@
    }

    pub open spec fn wf(&self) -> bool {
        &&& forall|i: int| 0 <= i < self.entries@.len() ==> #[trigger] self.entry_ok(i)
        &&& forall|i: int, j: int|
            #![trigger self.entries@[i], self.entries@[j]]
            0 <= i < self.entries@.len() && 0 <= j < self.entries@.len() && i != j
                ==> self.entries@[i].key.id() != self.entries@[j].key.id()
        &&& forall|k: K::Id| #[trigger]
            self.sets@.contains_key(k) ==> exists|i: int|
                #![trigger self.entries@[i]]
                0 <= i < self.entries@.len() && self.entries@[i].key.id() == k
        &&& self.sets@.dom() == self.keys@.dom()
    }

    /// The set of a key, empty for a key that is absent.
    pub open spec fn get_set(&self, k: K::Id) -> Set<V::Id> {
        if self.sets@.contains_key(k) {
            self.sets@[k]
        } else {
            Set::empty()
        }
    }

    pub fn new() -> (r: Self)
        ensures
            r.wf(),
            r.sets@ == Map::<K::Id, Set<V::Id>>::empty(),
            r.keys@ == Map::<K::Id, K::V>::empty(),
    {
        SetMap { entries: Vec::new(), sets: Ghost(Map::empty()), keys: Ghost(Map::empty()) }
    }

    /// The index of the entry of `k`'s identity, if there is one.
    pub fn find(&self, k: &K) -> (r: Option<usize>)
        requires
            self.wf(),
        ensures
            match r {
                Some(i) => i < self.entries@.len() && self.entries@[i as int].key.id() == k.id(),
                None => !self.sets@.contains_key(k.id()),
            },
    {
        let mut i: usize = 0;
        while i < self.entries.len()
            invariant
                i <= self.entries@.len(),
                self.wf(),
                forall|j: int| 0 <= j < i ==> self.entries@[j].key.id() != k.id(),
            decreases self.entries@.len() - i,
        {
            if self.entries[i].key.same_id(k) {
                return Some(i);
            }
            i += 1;
        }
        None
    }

    /// Adds `v` to the set of `k`, creating the entry if needed; the stored key
    /// becomes `k`.
    pub fn insert(&mut self, k: &K, v: &V)
        requires
            old(self).wf(),
        ensures
            final(self).wf(),
            final(self).sets@ == old(self).sets@.insert(
                k.id(),
                old(self).get_set(k.id()).insert(v.id()),
            ),
            final(self).keys@ == old(self).keys@.insert(k.id(), k@),
    {
        let ghost old_self = *self;
        let ghost new_sets = self.sets@.insert(k.id(), self.get_set(k.id()).insert(v.id()));
        let ghost new_keys = self.keys@.insert(k.id(), k@);
        match self.find(k) {
            Some(i) => {
                let ghost old_items = self.entries@[i as int].items@;
                self.entries[i].key = k.dup();
                match position(&self.entries[i].items, v) {
                    Some(_) => {
                        assert(id_set(old_items).insert(v.id()) =~= id_set(old_items));
                    },
                    None => {
                        let d = v.dup();
                        proof {
                            lemma_id_set_push(old_items, d);
                        }
                        self.entries[i].items.push(d);
                    },
                }
                assert(old_self.entry_ok(i as int));
                let ghost n = self.entries@[i as int].items@;
                assert(id_set(n) == id_set(old_items).insert(v.id()) && ids_distinct(n));
                self.sets = Ghost(new_sets);
                self.keys = Ghost(new_keys);
                assert forall|j: int| 0 <= j < self.entries@.len() implies #[trigger] self.entry_ok(
                    j,
                ) by {
                    assert(old_self.entry_ok(j));
                    if j != i {
                        assert(self.entries@[j] == old_self.entries@[j]);
                    }
                }
                assert forall|kk: K::Id| #[trigger] self.sets@.contains_key(kk) implies exists|
                    j: int,
                |
                    #![trigger self.entries@[j]]
                    0 <= j < self.entries@.len() && self.entries@[j].key.id() == kk by {
                    if kk != k.id() {
                        let j = choose|j: int|
                            #![trigger old_self.entries@[j]]
                            0 <= j < old_self.entries@.len() && old_self.entries@[j].key.id() == kk;
                        assert(self.entries@[j] == old_self.entries@[j]);
                    } else {
                        assert(self.entries@[i as int].key.id() == kk);
                    }
                }
                assert forall|a: int, b: int|
                    #![trigger self.entries@[a], self.entries@[b]]
                    0 <= a < self.entries@.len() && 0 <= b < self.entries@.len() && a
                        != b implies self.entries@[a].key.id() != self.entries@[b].key.id() by {
                    assert(old_self.entries@[a].key.id() != old_self.entries@[b].key.id());
                }
                assert(self.sets@.dom() =~= self.keys@.dom());
            },
            None => {
                let mut items: Vec<V> = Vec::new();
                items.push(v.dup());
                let ghost single = items@;
                proof {
                    assert(single =~= seq![single[0]]);
                    lemma_id_set_single(single[0]);
                }
                self.entries.push(Entry { key: k.dup(), items });
                self.sets = Ghost(new_sets);
                self.keys = Ghost(new_keys);
                let ghost last = old_self.entries@.len() as int;
                assert(old_self.get_set(k.id()) == Set::<V::Id>::empty());
                assert forall|j: int| 0 <= j < self.entries@.len() implies #[trigger] self.entry_ok(
                    j,
                ) by {
                    if j != last {
                        assert(old_self.entry_ok(j));
                        assert(self.entries@[j] == old_self.entries@[j]);
                    }
                }
                assert forall|kk: K::Id| #[trigger] self.sets@.contains_key(kk) implies exists|
                    j: int,
                |
                    #![trigger self.entries@[j]]
                    0 <= j < self.entries@.len() && self.entries@[j].key.id() == kk by {
                    if kk != k.id() {
                        let j = choose|j: int|
                            #![trigger old_self.entries@[j]]
                            0 <= j < old_self.entries@.len() && old_self.entries@[j].key.id() == kk;
                        assert(self.entries@[j] == old_self.entries@[j]);
                    } else {
                        assert(self.entries@[last].key.id() == kk);
                    }
                }
                assert forall|a: int, b: int|
                    #![trigger self.entries@[a], self.entries@[b]]
                    0 <= a < self.entries@.len() && 0 <= b < self.entries@.len() && a
                        != b implies self.entries@[a].key.id() != self.entries@[b].key.id() by {
                    if a != last && b != last {
                        assert(old_self.entries@[a].key.id() != old_self.entries@[b].key.id());
                    } else if a != last {
                        assert(old_self.entry_ok(a));
                    } else {
                        assert(old_self.entry_ok(b));
                    }
                }
                assert(self.sets@.dom() =~= self.keys@.dom());
            },
        }
    }

    /// Takes `v` out of the set of `k`; nothing changes where the pair is absent.
    pub fn remove(&mut self, k: &K, v: &V)
        requires
            old(self).wf(),
        ensures
            final(self).wf(),
            final(self).sets@ == (if old(self).sets@.contains_key(k.id()) {
                old(self).sets@.insert(k.id(), old(self).sets@[k.id()].remove(v.id()))
            } else {
                old(self).sets@
            }),
            final(self).keys@ == old(self).keys@,
    {
        let ghost old_self = *self;
        match self.find(k) {
            Some(i) => {
                let ghost old_items = self.entries@[i as int].items@;
                assert(old_self.entry_ok(i as int));
                match position(&self.entries[i].items, v) {
                    Some(j) => {
                        proof {
                            lemma_id_set_remove(old_items, j as int);
                        }
                        self.entries[i].items.remove(j);
                    },
                    None => {
                        assert(id_set(old_items).remove(v.id()) =~= id_set(old_items));
                    },
                }
                let ghost n = self.entries@[i as int].items@;
                assert(id_set(n) == id_set(old_items).remove(v.id()) && ids_distinct(n));
                self.sets = Ghost(self.sets@.insert(k.id(), self.sets@[k.id()].remove(v.id())));
                assert forall|j: int| 0 <= j < self.entries@.len() implies #[trigger] self.entry_ok(
                    j,
                ) by {
                    assert(old_self.entry_ok(j));
                    if j != i {
                        assert(self.entries@[j] == old_self.entries@[j]);
                    }
                }
                assert forall|kk: K::Id| #[trigger] self.sets@.contains_key(kk) implies exists|
                    j: int,
                |
                    #![trigger self.entries@[j]]
                    0 <= j < self.entries@.len() && self.entries@[j].key.id() == kk by {
                    let j = choose|j: int|
                        #![trigger old_self.entries@[j]]
                        0 <= j < old_self.entries@.len() && old_self.entries@[j].key.id() == kk;
                    assert(self.entries@[j].key == old_self.entries@[j].key);
                }
                assert forall|a: int, b: int|
                    #![trigger self.entries@[a], self.entries@[b]]
                    0 <= a < self.entries@.len() && 0 <= b < self.entries@.len() && a
                        != b implies self.entries@[a].key.id() != self.entries@[b].key.id() by {
                    assert(old_self.entries@[a].key.id() != old_self.entries@[b].key.id());
                }
                assert(self.sets@.dom() =~= self.keys@.dom());
            },
            None => {},
        }
    }

    /// Drops the entry of `k`, with its whole set.
    pub fn remove_key(&mut self, k: &K)
        requires
            old(self).wf(),
        ensures
            final(self).wf(),
            final(self).sets@ == old(self).sets@.remove(k.id()),
            final(self).keys@ == old(self).keys@.remove(k.id()),
    {
        let ghost old_self = *self;
        match self.find(k) {
            Some(i) => {
                self.entries.remove(i);
                self.sets = Ghost(self.sets@.remove(k.id()));
                self.keys = Ghost(self.keys@.remove(k.id()));
                let ghost ii = i as int;
                assert forall|j: int| 0 <= j < self.entries@.len() implies #[trigger] self.entry_ok(
                    j,
                ) by {
                    let j1 = if j < ii {
                        j
                    } else {
                        j + 1
                    };
                    assert(self.entries@[j] == old_self.entries@[j1]);
                    assert(old_self.entry_ok(j1));
                    assert(old_self.entries@[j1].key.id() != old_self.entries@[ii].key.id());
                }
                assert forall|kk: K::Id| #[trigger] self.sets@.contains_key(kk) implies exists|
                    j: int,
                |
                    #![trigger self.entries@[j]]
                    0 <= j < self.entries@.len() && self.entries@[j].key.id() == kk by {
                    let j = choose|j: int|
                        #![trigger old_self.entries@[j]]
                        0 <= j < old_self.entries@.len() && old_self.entries@[j].key.id() == kk;
                    if j < ii {
                        assert(self.entries@[j] == old_self.entries@[j]);
                    } else {
                        assert(self.entries@[j - 1] == old_self.entries@[j]);
                    }
                }
                assert forall|a: int, b: int|
                    #![trigger self.entries@[a], self.entries@[b]]
                    0 <= a < self.entries@.len() && 0 <= b < self.entries@.len() && a
                        != b implies self.entries@[a].key.id() != self.entries@[b].key.id() by {
                    let a1 = if a < ii {
                        a
                    } else {
                        a + 1
                    };
                    let b1 = if b < ii {
                        b
                    } else {
                        b + 1
                    };
                    assert(self.entries@[a] == old_self.entries@[a1]);
                    assert(self.entries@[b] == old_self.entries@[b1]);
                    assert(old_self.entries@[a1].key.id() != old_self.entries@[b1].key.id());
                }
                assert(self.sets@.dom() =~= self.keys@.dom());
            },
            None => {
                assert(self.sets@.remove(k.id()) =~= self.sets@);
                assert(self.keys@.remove(k.id()) =~= self.keys@);
            },
        }
    }
}

} // verus!
