//! Small verified collections keyed by strings and by chunk indices.
//!
//! `StrMap` is an association list from strings to values with no repeated
//! key; its view is a finite `Map`.  `StrSet` and `ChunkSet` are duplicate-free
//! vectors viewed as finite `Set`s.
use vstd::prelude::*;

verus! {

/// Compares a borrowed string with an owned one.
pub fn str_equals(a: &str, b: &String) -> (r: bool)
    ensures
        r == (a@ == b@),
{
    let owned: String = a.to_owned();
    owned == *b
}

/// An association list from strings to values without repeated keys.
#[derive(Debug)]
pub struct StrMap<V> {
    keys: Vec<String>,
    vals: Vec<V>,
}

impl<V> View for StrMap<V> {
    type V = Map<Seq<char>, V>;

    closed spec fn view(&self) -> Map<Seq<char>, V> {
        Map::new(|k: Seq<char>| self.has(k), |k: Seq<char>| self.vals@[self.idx(k)])
    }
}

impl<V> StrMap<V> {
    /// Well-formedness: keys and values line up, and no key occurs twice.
    pub closed spec fn wf(&self) -> bool {
        &&& self.keys@.len() == self.vals@.len()
        &&& forall|i: int, j: int|
            0 <= i < self.keys@.len() && 0 <= j < self.keys@.len() && i != j
                ==> #[trigger] self.keys@[i]@ != #[trigger] self.keys@[j]@
    }

    closed spec fn has(&self, k: Seq<char>) -> bool {
        exists|i: int| 0 <= i < self.keys@.len() && #[trigger] self.keys@[i]@ == k
    }

    closed spec fn idx(&self, k: Seq<char>) -> int {
        choose|i: int| 0 <= i < self.keys@.len() && #[trigger] self.keys@[i]@ == k
    }

    /// The keys in storage order.
    pub closed spec fn key_seq(&self) -> Seq<Seq<char>> {
        self.keys@.map_values(|s: String| s@)
    }

    proof fn lemma_at(&self, i: int)
        requires
            self.wf(),
            0 <= i < self.keys@.len(),
        ensures
            self@.contains_key(self.keys@[i]@),
            self@[self.keys@[i]@] == self.vals@[i],
            self.idx(self.keys@[i]@) == i,
    {
        let k = self.keys@[i]@;
        assert(self.has(k));
        let j = self.idx(k);
        assert(self.keys@[j]@ == k);
        if j != i {
            assert(self.keys@[i]@ != self.keys@[j]@);
        }
    }

    proof fn lemma_key_seq(&self)
        requires
            self.wf(),
        ensures
            self.key_seq().len() == self.keys@.len(),
            forall|i: int| 0 <= i < self.keys@.len() ==> #[trigger] self.key_seq()[i] == self.keys@[i]@,
            self.key_seq().no_duplicates(),
            self.key_seq().to_set() =~= self@.dom(),
            self@.dom().finite(),
            self@.dom().len() == self.keys@.len(),
    {
        let ks = self.key_seq();
        assert forall|i: int, j: int| 0 <= i < ks.len() && 0 <= j < ks.len() && i != j implies ks[i]
            != ks[j] by {
            assert(self.keys@[i]@ != self.keys@[j]@);
        }
        assert forall|k: Seq<char>| ks.to_set().contains(k) <==> self@.dom().contains(k) by {
            if ks.to_set().contains(k) {
                let i = choose|i: int| 0 <= i < ks.len() && ks[i] == k;
                assert(self.keys@[i]@ == k);
            }
            if self@.dom().contains(k) {
                let i = self.idx(k);
                assert(ks[i] == k);
            }
        }
        ks.unique_seq_to_set();
    }

    /// The stored keys, in storage order, are the map's domain without repetition.
    pub proof fn lemma_keys(&self)
        requires
            self.wf(),
        ensures
            self@.dom().finite(),
            self@.dom().len() == self.key_seq().len(),
            self.key_seq().no_duplicates(),
            forall|k: Seq<char>| self@.contains_key(k) <==> #[trigger] self.key_seq().contains(k),
    {
        self.lemma_key_seq();
        assert forall|k: Seq<char>| self@.contains_key(k) <==> #[trigger] self.key_seq().contains(k) by {
            assert(self.key_seq().to_set().contains(k) == self.key_seq().contains(k));
        }
    }

    /// An empty map.
    pub fn new() -> (m: Self)
        ensures
            m.wf(),
            m@ == Map::<Seq<char>, V>::empty(),
    {
        let m = StrMap { keys: Vec::new(), vals: Vec::new() };
        assert(m@ =~= Map::<Seq<char>, V>::empty());
        m
    }

    /// Number of keys.
    pub fn len(&self) -> (n: usize)
        requires
            self.wf(),
        ensures
            n == self@.dom().len(),
            self@.dom().finite(),
    {
        proof {
            self.lemma_key_seq();
        }
        self.keys.len()
    }

    /// True when no key is stored.
    pub fn is_empty(&self) -> (b: bool)
        requires
            self.wf(),
        ensures
            b == (self@.dom().len() == 0),
            b == (self@ == Map::<Seq<char>, V>::empty()),
    {
        proof {
            self.lemma_key_seq();
            if self.keys@.len() > 0 {
                self.lemma_at(0);
            } else {
                assert(self@ =~= Map::<Seq<char>, V>::empty());
            }
        }
        self.keys.len() == 0
    }

    /// The key stored at position `i`.
    pub fn key_at(&self, i: usize) -> (k: &String)
        requires
            self.wf(),
            i < self@.dom().len(),
        ensures
            k@ == self.key_seq()[i as int],
            self@.contains_key(k@),
    {
        proof {
            self.lemma_key_seq();
            self.lemma_at(i as int);
        }
        &self.keys[i]
    }

    /// The value stored at position `i`.
    pub fn value_at(&self, i: usize) -> (v: &V)
        requires
            self.wf(),
            i < self@.dom().len(),
        ensures
            *v == self@[self.key_seq()[i as int]],
    {
        proof {
            self.lemma_key_seq();
            self.lemma_at(i as int);
        }
        &self.vals[i]
    }

    fn find(&self, k: &str) -> (r: Option<usize>)
        requires
            self.wf(),
        ensures
            r is None ==> !self@.contains_key(k@),
            r matches Some(i) ==> i < self.keys@.len() && self.keys@[i as int]@ == k@,
    {
        let mut i: usize = 0;
        while i < self.keys.len()
            invariant
                self.wf(),
                i <= self.keys@.len(),
                forall|j: int| 0 <= j < i ==> #[trigger] self.keys@[j]@ != k@,
            decreases self.keys@.len() - i,
        {
            if str_equals(k, &self.keys[i]) {
                return Some(i);
            }
            i = i + 1;
        }
        proof {
            if self@.contains_key(k@) {
                let j = self.idx(k@);
                assert(self.keys@[j]@ == k@);
            }
        }
        None
    }

    /// Whether `k` is stored.
    pub fn contains_key(&self, k: &str) -> (b: bool)
        requires
            self.wf(),
        ensures
            b == self@.contains_key(k@),
    {
        match self.find(k) {
            Some(i) => {
                proof {
                    self.lemma_at(i as int);
                }
                true
            },
            None => false,
        }
    }

    /// The value stored under `k`, if any.
    pub fn get(&self, k: &str) -> (r: Option<&V>)
        requires
            self.wf(),
        ensures
            r is Some == self@.contains_key(k@),
            r matches Some(v) ==> *v == self@[k@],
    {
        match self.find(k) {
            Some(i) => {
                proof {
                    self.lemma_at(i as int);
                }
                Some(&self.vals[i])
            },
            None => None,
        }
    }

    fn remove_at(&mut self, i: usize) -> (v: V)
        requires
            old(self).wf(),
            i < old(self).keys@.len(),
        ensures
            final(self).wf(),
            final(self).keys@ == old(self).keys@.remove(i as int),
            final(self).vals@ == old(self).vals@.remove(i as int),
            final(self)@ == old(self)@.remove(old(self).keys@[i as int]@),
            v == old(self).vals@[i as int],
            v == old(self)@[old(self).keys@[i as int]@],
    {
        proof {
            self.lemma_at(i as int);
        }
        let ghost pre = *self;
        let ghost k = pre.keys@[i as int]@;
        let _removed_key = self.keys.remove(i);
        let v = self.vals.remove(i);
        proof {
            assert forall|a: int, b: int|
                0 <= a < self.keys@.len() && 0 <= b < self.keys@.len() && a != b implies 
                #[trigger] self.keys@[a]@ != #[trigger] self.keys@[b]@ by {
                let a0 = if a < i { a } else { a + 1 };
                let b0 = if b < i { b } else { b + 1 };
                assert(self.keys@[a] == pre.keys@[a0]);
                assert(self.keys@[b] == pre.keys@[b0]);
                assert(pre.keys@[a0]@ != pre.keys@[b0]@);
            }
            assert forall|key: Seq<char>| #[trigger]
                self@.contains_key(key) == pre@.remove(k).contains_key(key) by {
                if self@.contains_key(key) {
                    let j = self.idx(key);
                    let j0 = if j < i { j } else { j + 1 };
                    assert(self.keys@[j] == pre.keys@[j0]);
                    pre.lemma_at(j0);
                    if key == k {
                        assert(pre.keys@[j0]@ != pre.keys@[i as int]@);
                    }
                }
                if pre@.remove(k).contains_key(key) {
                    let j0 = pre.idx(key);
                    assert(pre.keys@[j0]@ == key);
                    assert(j0 != i);
                    let j = if j0 < i { j0 } else { j0 - 1 };
                    assert(self.keys@[j] == pre.keys@[j0]);
                }
            }
            assert forall|key: Seq<char>| #[trigger] self@.contains_key(key) implies self@[key]
                == pre@[key] by {
                let j = self.idx(key);
                let j0 = if j < i { j } else { j + 1 };
                assert(self.keys@[j] == pre.keys@[j0]);
                assert(self.vals@[j] == pre.vals@[j0]);
                pre.lemma_at(j0);
                self.lemma_at(j);
            }
            assert(self@ =~= pre@.remove(k));
        }
        v
    }

    /// Removes the entry for `k`, returning its value.
    pub fn remove(&mut self, k: &str) -> (r: Option<V>)
        requires
            old(self).wf(),
        ensures
            final(self).wf(),
            final(self)@ == old(self)@.remove(k@),
            r is Some == old(self)@.contains_key(k@),
            r matches Some(v) ==> v == old(self)@[k@],
    {
        match self.find(k) {
            None => {
                assert(self@ =~= old(self)@.remove(k@));
                None
            },
            Some(i) => Some(self.remove_at(i)),
        }
    }

    /// Keeps exactly the entries whose value satisfies `keep`; `pred` is what `keep` computes.
    pub fn retain<F: Fn(&V) -> bool>(&mut self, keep: F, Ghost(pred): Ghost<spec_fn(V) -> bool>)
        requires
            old(self).wf(),
            forall|v: &V| #[trigger] keep.requires((v,)),
            forall|v: &V, b: bool| keep.ensures((v,), b) ==> b == pred(*v),
        ensures
            final(self).wf(),
            final(self)@ == Map::new(
                |k: Seq<char>| old(self)@.contains_key(k) && pred(old(self)@[k]),
                |k: Seq<char>| old(self)@[k],
            ),
    {
        let ghost orig = self@;
        let mut i: usize = 0;
        while i < self.keys.len()
            invariant
                self.wf(),
                i <= self.keys@.len(),
                forall|v: &V| #[trigger] keep.requires((v,)),
                forall|v: &V, b: bool| keep.ensures((v,), b) ==> b == pred(*v),
                forall|j: int|
                    0 <= j < self.keys@.len() ==> orig.contains_key(#[trigger] self.keys@[j]@)
                        && orig[self.keys@[j]@] == self.vals@[j],
                forall|j: int| 0 <= j < i ==> pred(#[trigger] self.vals@[j]),
                forall|k: Seq<char>|
                    orig.contains_key(k) && pred(orig[k]) ==> #[trigger] self@.contains_key(k),
            decreases self.keys@.len() - i,
        {
            if keep(&self.vals[i]) {
                i = i + 1;
            } else {
                let ghost pre = *self;
                let ghost k0 = pre.keys@[i as int]@;
                let _ = self.remove_at(i);
                proof {
                    assert forall|j: int| 0 <= j < self.keys@.len() implies orig.contains_key(
                        #[trigger] self.keys@[j]@) && orig[self.keys@[j]@] == self.vals@[j] by {
                        let j0 = if j < i { j } else { j + 1 };
                        assert(self.keys@[j] == pre.keys@[j0]);
                        assert(self.vals@[j] == pre.vals@[j0]);
                    }
                    assert forall|j: int| 0 <= j < i implies pred(#[trigger] self.vals@[j]) by {
                        assert(self.vals@[j] == pre.vals@[j]);
                    }
                    assert(!pred(orig[k0]));
                }
            }
        }
        proof {
            let target = Map::new(
                |k: Seq<char>| orig.contains_key(k) && pred(orig[k]),
                |k: Seq<char>| orig[k],
            );
            assert forall|k: Seq<char>| #[trigger] self@.contains_key(k) == target.contains_key(k) by {
                if self@.contains_key(k) {
                    let j = self.idx(k);
                    assert(self.keys@[j]@ == k);
                    assert(pred(self.vals@[j]));
                }
            }
            assert forall|k: Seq<char>| #[trigger] self@.contains_key(k) implies self@[k] == target[k] by {
                let j = self.idx(k);
                assert(self.keys@[j]@ == k);
                self.lemma_at(j);
            }
            assert(self@ =~= target);
        }
    }

    /// Stores `v` under `k`, replacing any value stored there before.
    pub fn insert(&mut self, k: String, v: V)
        requires
            old(self).wf(),
        ensures
            final(self).wf(),
            final(self)@ == old(self)@.insert(k@, v),
    {
        let _ = self.remove(k.as_str());
        let ghost mid = *self;
        self.keys.push(k);
        self.vals.push(v);
        proof {
            let n: int = mid.keys@.len() as int;
            assert forall|a: int, b: int|
                0 <= a < self.keys@.len() && 0 <= b < self.keys@.len() && a != b implies 
                #[trigger] self.keys@[a]@ != #[trigger] self.keys@[b]@ by {
                if a < n && b < n {
                    assert(self.keys@[a] == mid.keys@[a]);
                    assert(self.keys@[b] == mid.keys@[b]);
                } else if a < n {
                    assert(self.keys@[a] == mid.keys@[a]);
                    mid.lemma_at(a);
                } else {
                    assert(self.keys@[b] == mid.keys@[b]);
                    mid.lemma_at(b);
                }
            }
            self.lemma_at(n);
            assert forall|key: Seq<char>| #[trigger]
                self@.contains_key(key) == mid@.insert(k@, v).contains_key(key) by {
                if self@.contains_key(key) && key != k@ {
                    let j = self.idx(key);
                    assert(j != n);
                    assert(self.keys@[j] == mid.keys@[j]);
                    mid.lemma_at(j);
                }
                if mid@.contains_key(key) {
                    let j = mid.idx(key);
                    assert(self.keys@[j] == mid.keys@[j]);
                    assert(mid.keys@[j]@ == key);
                }
            }
            assert forall|key: Seq<char>| #[trigger] self@.contains_key(key) && key != k@ implies 
                self@[key] == mid@[key] by {
                let j = self.idx(key);
                assert(j != n);
                assert(self.keys@[j] == mid.keys@[j]);
                assert(self.vals@[j] == mid.vals@[j]);
                mid.lemma_at(j);
                self.lemma_at(j);
            }
            assert(self@ =~= mid@.insert(k@, v));
            assert(mid@.insert(k@, v) =~= old(self)@.insert(k@, v));
        }
    }
}

/// A set of strings kept in a vector without repeated elements.
#[derive(Debug)]
pub struct StrSet {
    items: Vec<String>,
}

impl View for StrSet {
    type V = Set<Seq<char>>;

    closed spec fn view(&self) -> Set<Seq<char>> {
        self.items@.map_values(|s: String| s@).to_set()
    }
}

impl StrSet {
    /// No element occurs twice.
    pub closed spec fn wf(&self) -> bool {
        forall|i: int, j: int|
            0 <= i < self.items@.len() && 0 <= j < self.items@.len() && i != j
                ==> #[trigger] self.items@[i]@ != #[trigger] self.items@[j]@
    }

    /// The elements in storage order.
    pub closed spec fn elems(&self) -> Seq<Seq<char>> {
        self.items@.map_values(|s: String| s@)
    }

    proof fn lemma_elems(&self)
        requires
            self.wf(),
        ensures
            self.elems().len() == self.items@.len(),
            self.elems().no_duplicates(),
            self.elems().to_set() == self@,
            self@.finite(),
            self@.len() == self.items@.len(),
            forall|i: int| 0 <= i < self.items@.len() ==> #[trigger] self.elems()[i] == self.items@[i]@,
    {
        let es = self.elems();
        assert forall|i: int, j: int| 0 <= i < es.len() && 0 <= j < es.len() && i != j implies es[i]
            != es[j] by {
            assert(self.items@[i]@ != self.items@[j]@);
        }
        es.unique_seq_to_set();
    }

    /// An empty set.
    pub fn new() -> (s: Self)
        ensures
            s.wf(),
            s@ == Set::<Seq<char>>::empty(),
    {
        let s = StrSet { items: Vec::new() };
        assert(s@ =~= Set::<Seq<char>>::empty());
        s
    }

    /// The set is the set of its stored elements, each stored once.
    pub proof fn lemma_view(&self)
        requires
            self.wf(),
        ensures
            self@ == self.elems().to_set(),
            self.elems().no_duplicates(),
            self@.finite(),
            self@.len() == self.elems().len(),
    {
        self.lemma_elems();
    }

    /// Number of elements.
    pub fn len(&self) -> (n: usize)
        requires
            self.wf(),
        ensures
            n == self@.len(),
            n == self.elems().len(),
            self@.finite(),
    {
        proof {
            self.lemma_elems();
        }
        self.items.len()
    }

    /// True when the set has no element.
    pub fn is_empty(&self) -> (b: bool)
        requires
            self.wf(),
        ensures
            b == (self@.len() == 0),
            b == (self.elems().len() == 0),
            b == (self@ == Set::<Seq<char>>::empty()),
    {
        proof {
            self.lemma_elems();
            if self.items@.len() > 0 {
                assert(self@.contains(self.elems()[0]));
            } else {
                assert(self@ =~= Set::<Seq<char>>::empty());
            }
        }
        self.items.len() == 0
    }

    /// The element stored at position `i`.
    pub fn at(&self, i: usize) -> (s: &String)
        requires
            self.wf(),
            i < self@.len(),
        ensures
            s@ == self.elems()[i as int],
            self@.contains(s@),
    {
        proof {
            self.lemma_elems();
            assert(self.elems()[i as int] == self.items@[i as int]@);
            assert(self.elems().to_set().contains(self.elems()[i as int]));
        }
        &self.items[i]
    }

    fn find(&self, k: &str) -> (r: Option<usize>)
        requires
            self.wf(),
        ensures
            r is None ==> !self@.contains(k@),
            r matches Some(i) ==> i < self.items@.len() && self.items@[i as int]@ == k@,
    {
        let mut i: usize = 0;
        while i < self.items.len()
            invariant
                self.wf(),
                i <= self.items@.len(),
                forall|j: int| 0 <= j < i ==> #[trigger] self.items@[j]@ != k@,
            decreases self.items@.len() - i,
        {
            if str_equals(k, &self.items[i]) {
                return Some(i);
            }
            i = i + 1;
        }
        proof {
            self.lemma_elems();
            if self@.contains(k@) {
                let j = choose|j: int| 0 <= j < self.elems().len() && self.elems()[j] == k@;
                assert(self.items@[j]@ == k@);
            }
        }
        None
    }

    /// Whether `k` is an element.
    pub fn contains(&self, k: &str) -> (b: bool)
        requires
            self.wf(),
        ensures
            b == self@.contains(k@),
    {
        proof {
            self.lemma_elems();
        }
        match self.find(k) {
            Some(i) => {
                assert(self.elems()[i as int] == k@);
                true
            },
            None => false,
        }
    }

    /// The elements in storage order.
    pub fn to_vec(&self) -> (v: Vec<String>)
        ensures
            v@.map_values(|s: String| s@) == self.elems(),
    {
        let mut v: Vec<String> = Vec::new();
        let mut i: usize = 0;
        while i < self.items.len()
            invariant
                i <= self.items@.len(),
                v@.map_values(|s: String| s@) == self.elems().take(i as int),
            decreases self.items@.len() - i,
        {
            let ghost before = v@;
            v.push(self.items[i].clone());
            assert(self.elems()[i as int] == self.items@[i as int]@);
            assert(v@.map_values(|s: String| s@) =~= before.map_values(|s: String| s@).push(self.items@[i as int]@));
            assert(self.elems().take(i + 1) =~= self.elems().take(i as int).push(self.elems()[i as int]));
            assert(v@.map_values(|s: String| s@) =~= self.elems().take(i + 1));
            i = i + 1;
        }
        assert(self.elems().take(i as int) =~= self.elems());
        v
    }

    /// Adds `k`; the set is unchanged if `k` is already an element.
    pub fn insert(&mut self, k: String)
        requires
            old(self).wf(),
        ensures
            final(self).wf(),
            final(self)@ == old(self)@.insert(k@),
            old(self)@.contains(k@) ==> final(self).elems() == old(self).elems(),
            !old(self)@.contains(k@) ==> final(self).elems() == old(self).elems().push(k@),
    {
        proof {
            self.lemma_elems();
        }
        let found = self.find(k.as_str());
        if found.is_none() {
            let ghost pre = *self;
            self.items.push(k);
            proof {
                assert forall|a: int, b: int|
                    0 <= a < self.items@.len() && 0 <= b < self.items@.len() && a != b implies 
                    #[trigger] self.items@[a]@ != #[trigger] self.items@[b]@ by {
                    let n = pre.items@.len();
                    if a < n && b < n {
                        assert(pre.items@[a]@ != pre.items@[b]@);
                    } else if a < n {
                        assert(pre.elems()[a] == pre.items@[a]@);
                        assert(pre@.contains(pre.items@[a]@));
                    } else {
                        assert(pre.elems()[b] == pre.items@[b]@);
                        assert(pre@.contains(pre.items@[b]@));
                    }
                }
                assert(self.elems() =~= pre.elems().push(k@));
                pre.elems().lemma_push_to_set_commute(k@);
            }
        } else {
            let i = found.unwrap();
            assert(self.elems()[i as int] == k@);
            assert(self@.contains(k@));
            assert(self@.insert(k@) =~= self@);
        }
    }

    /// Removes `k` if it is an element; the others keep their order.
    pub fn remove(&mut self, k: &str)
        requires
            old(self).wf(),
        ensures
            final(self).wf(),
            final(self)@ == old(self)@.remove(k@),
            final(self).elems() == old(self).elems().filter(|x: Seq<char>| x != k@),
    {
        proof {
            self.lemma_elems();
        }
        match self.find(k) {
            None => {
                assert(self@.remove(k@) =~= self@);
                proof {
                    lemma_filter_other(self.elems(), k@, |x: Seq<char>| x != k@);
                    assert(!self.elems().contains(k@)) by {
                        if self.elems().contains(k@) {
                            assert(self.elems().to_set().contains(k@));
                        }
                    }
                }
            },
            Some(i) => {
                let ghost pre = *self;
                let _ = self.items.remove(i);
                proof {
                    let n = pre.items@.len();
                    assert forall|a: int, b: int|
                        0 <= a < self.items@.len() && 0 <= b < self.items@.len() && a != b implies 
                        #[trigger] self.items@[a]@ != #[trigger] self.items@[b]@ by {
                        let a0 = if a < i { a } else { a + 1 };
                        let b0 = if b < i { b } else { b + 1 };
                        assert(self.items@[a] == pre.items@[a0]);
                        assert(self.items@[b] == pre.items@[b0]);
                        assert(pre.items@[a0]@ != pre.items@[b0]@);
                    }
                    assert(self.elems() =~= pre.elems().remove(i as int));
                    lemma_filter_remove_at(pre.elems(), i as int, k@, |x: Seq<char>| x != k@);
                    self.lemma_elems();
                    assert forall|e: Seq<char>| #[trigger] self@.contains(e) == pre@.remove(k@).contains(e) by {
                        if self@.contains(e) {
                            let j = choose|j: int| 0 <= j < self.elems().len() && self.elems()[j] == e;
                            let j0 = if j < i { j } else { j + 1 };
                            assert(pre.elems()[j0] == e);
                            assert(pre.elems()[j0] != pre.elems()[i as int]);
                        }
                        if pre@.remove(k@).contains(e) {
                            let j0 = choose|j: int| 0 <= j < pre.elems().len() && pre.elems()[j] == e;
                            assert(j0 != i);
                            let j = if j0 < i { j0 } else { j0 - 1 };
                            assert(self.elems()[j] == e);
                        }
                    }
                    assert(self@ =~= pre@.remove(k@));
                }
            },
        }
    }
}

/// Filtering twice is filtering once by both predicates.
pub proof fn lemma_filter_filter<A>(
    s: Seq<A>,
    p: spec_fn(A) -> bool,
    q: spec_fn(A) -> bool,
    r: spec_fn(A) -> bool,
)
    requires
        forall|x: A| #[trigger] r(x) == (p(x) && q(x)),
    ensures
        s.filter(p).filter(q) == s.filter(r),
    decreases s.len(),
{
    reveal_with_fuel(Seq::filter, 1);
    if s.len() > 0 {
        lemma_filter_filter(s.drop_last(), p, q, r);
        let t = s.drop_last();
        let x = s.last();
        assert(s.filter(p) == if p(x) { t.filter(p).push(x) } else { t.filter(p) });
        if p(x) {
            assert(t.filter(p).push(x).drop_last() =~= t.filter(p));
            assert(t.filter(p).push(x).filter(q) == if q(x) {
                t.filter(p).filter(q).push(x)
            } else {
                t.filter(p).filter(q)
            });
        }
    } else {
        assert(s.filter(p).filter(q) =~= s.filter(r));
    }
}

/// A predicate that holds everywhere keeps every element.
pub proof fn lemma_filter_all<A>(s: Seq<A>, p: spec_fn(A) -> bool)
    requires
        forall|x: A| #[trigger] p(x),
    ensures
        s.filter(p) == s,
    decreases s.len(),
{
    reveal_with_fuel(Seq::filter, 1);
    if s.len() > 0 {
        lemma_filter_all(s.drop_last(), p);
        assert(s.drop_last().push(s.last()) =~= s);
    } else {
        assert(s.filter(p) =~= s);
    }
}

/// Filtering out a value that does not occur changes nothing; filtering out
/// one that occurs once removes exactly that position.
proof fn lemma_filter_other<A>(s: Seq<A>, c: A, pred: spec_fn(A) -> bool)
    requires
        forall|x: A| #[trigger] pred(x) == (x != c),
    ensures
        !s.contains(c) ==> s.filter(pred) == s,
    decreases s.len(),
{
    reveal_with_fuel(Seq::filter, 1);
    if s.len() > 0 {
        lemma_filter_other(s.drop_last(), c, pred);
        if !s.contains(c) {
            assert(!s.drop_last().contains(c)) by {
                if s.drop_last().contains(c) {
                    let j = choose|j: int| 0 <= j < s.drop_last().len() && s.drop_last()[j] == c;
                    assert(s[j] == c);
                }
            }
            assert(s.last() != c);
            assert(s.drop_last().push(s.last()) =~= s);
        }
    } else {
        assert(s.filter(pred) =~= s);
    }
}

proof fn lemma_filter_remove_at<A>(s: Seq<A>, i: int, c: A, pred: spec_fn(A) -> bool)
    requires
        0 <= i < s.len(),
        s[i] == c,
        s.no_duplicates(),
        forall|x: A| #[trigger] pred(x) == (x != c),
    ensures
        s.filter(pred) == s.remove(i),
    decreases s.len(),
{
    reveal_with_fuel(Seq::filter, 1);
    if i == s.len() - 1 {
        assert(!s.drop_last().contains(c)) by {
            if s.drop_last().contains(c) {
                let j = choose|j: int| 0 <= j < s.drop_last().len() && s.drop_last()[j] == c;
                assert(s[j] == s[i]);
            }
        }
        lemma_filter_other(s.drop_last(), c, pred);
        assert(s.remove(i) =~= s.drop_last());
    } else {
        let t = s.drop_last();
        assert(t[i] == c);
        assert(t.no_duplicates());
        lemma_filter_remove_at(t, i, c, pred);
        assert(s.last() != c);
        assert(s.drop_last().push(s.last()) =~= s);
        assert(s.remove(i) =~= t.remove(i).push(s.last()));
    }
}

/// A set of chunk indices kept in a vector without repeated elements.
#[derive(Debug)]
pub struct ChunkSet {
    items: Vec<u32>,
}

impl View for ChunkSet {
    type V = Set<u32>;

    closed spec fn view(&self) -> Set<u32> {
        self.items@.to_set()
    }
}

impl ChunkSet {
    /// No element occurs twice.
    pub closed spec fn wf(&self) -> bool {
        self.items@.no_duplicates()
    }

    /// The elements in storage order.
    pub closed spec fn elems(&self) -> Seq<u32> {
        self.items@
    }

    proof fn lemma_elems(&self)
        requires
            self.wf(),
        ensures
            self@.finite(),
            self@.len() == self.items@.len(),
            self.elems().to_set() == self@,
            self.elems().no_duplicates(),
    {
        self.items@.unique_seq_to_set();
    }

    /// An empty set.
    pub fn new() -> (s: Self)
        ensures
            s.wf(),
            s@ == Set::<u32>::empty(),
    {
        let s = ChunkSet { items: Vec::new() };
        assert(s@ =~= Set::<u32>::empty());
        s
    }

    /// The set `{0, 1, ..., n - 1}`.
    pub fn from_range(n: u32) -> (s: Self)
        ensures
            s.wf(),
            s@ == Set::new(|c: u32| c < n),
            s.elems() == Seq::new(n as nat, |i: int| i as u32),
    {
        let mut items: Vec<u32> = Vec::new();
        let mut i: u32 = 0;
        while i < n
            invariant
                i <= n,
                items@ == Seq::new(i as nat, |j: int| j as u32),
            decreases n - i,
        {
            items.push(i);
            i = i + 1;
            assert(items@ =~= Seq::new(i as nat, |j: int| j as u32));
        }
        let s = ChunkSet { items };
        assert(s@ =~= Set::new(|c: u32| c < n)) by {
            assert forall|c: u32| #[trigger] s@.contains(c) <==> c < n by {
                if c < n {
                    assert(s.items@[c as int] == c);
                }
            }
        }
        s
    }

    /// The set is the set of its stored elements, each stored once.
    pub proof fn lemma_view(&self)
        requires
            self.wf(),
        ensures
            self@ == self.elems().to_set(),
            self.elems().no_duplicates(),
            self@.finite(),
            self@.len() == self.elems().len(),
    {
        self.lemma_elems();
    }

    /// Number of elements.
    pub fn len(&self) -> (n: usize)
        requires
            self.wf(),
        ensures
            n == self@.len(),
            n == self.elems().len(),
            self@.finite(),
    {
        proof {
            self.lemma_elems();
        }
        self.items.len()
    }

    /// True when the set has no element.
    pub fn is_empty(&self) -> (b: bool)
        requires
            self.wf(),
        ensures
            b == (self@.len() == 0),
    {
        proof {
            self.lemma_elems();
        }
        self.items.len() == 0
    }

    /// The element stored at position `i`.
    pub fn at(&self, i: usize) -> (c: u32)
        requires
            self.wf(),
            i < self@.len(),
        ensures
            c == self.elems()[i as int],
            self@.contains(c),
    {
        proof {
            self.lemma_elems();
        }
        self.items[i]
    }

    fn find(&self, c: u32) -> (r: Option<usize>)
        ensures
            r is None ==> !self@.contains(c),
            r matches Some(i) ==> i < self.items@.len() && self.items@[i as int] == c,
    {
        let mut i: usize = 0;
        while i < self.items.len()
            invariant
                i <= self.items@.len(),
                forall|j: int| 0 <= j < i ==> #[trigger] self.items@[j] != c,
            decreases self.items@.len() - i,
        {
            if self.items[i] == c {
                return Some(i);
            }
            i = i + 1;
        }
        None
    }

    /// Whether `c` is an element.
    pub fn contains(&self, c: u32) -> (b: bool)
        ensures
            b == self@.contains(c),
    {
        match self.find(c) {
            Some(i) => {
                assert(self.items@.contains(c));
                true
            },
            None => false,
        }
    }

    /// Adds `c`; the set is unchanged if `c` is already an element.
    pub fn insert(&mut self, c: u32)
        requires
            old(self).wf(),
        ensures
            final(self).wf(),
            final(self)@ == old(self)@.insert(c),
            old(self)@.contains(c) ==> final(self).elems() == old(self).elems(),
            !old(self)@.contains(c) ==> final(self).elems() == old(self).elems().push(c),
    {
        if self.find(c).is_none() {
            let ghost pre = self.items@;
            self.items.push(c);
            proof {
                pre.lemma_push_to_set_commute(c);
                assert forall|a: int, b: int|
                    0 <= a < self.items@.len() && 0 <= b < self.items@.len() && a != b implies 
                    self.items@[a] != self.items@[b] by {
                    if a < pre.len() && b < pre.len() {
                    } else if a < pre.len() {
                        assert(pre.contains(pre[a]));
                    } else {
                        assert(pre.contains(pre[b]));
                    }
                }
            }
        } else {
            assert(self@.insert(c) =~= self@);
        }
    }

    /// Removes `c` if it is an element; the others keep their order.
    pub fn remove(&mut self, c: u32)
        requires
            old(self).wf(),
        ensures
            final(self).wf(),
            final(self)@ == old(self)@.remove(c),
            final(self).elems() == old(self).elems().filter(|x: u32| x != c),
    {
        proof {
            lemma_filter_other(self.items@, c, |x: u32| x != c);
        }
        match self.find(c) {
            None => {
                assert(self@.remove(c) =~= self@);
                assert(!self.items@.contains(c));
            },
            Some(i) => {
                let ghost pre = self.items@;
                let _ = self.items.remove(i);
                proof {
                    assert forall|a: int, b: int|
                        0 <= a < self.items@.len() && 0 <= b < self.items@.len() && a != b implies 
                        self.items@[a] != self.items@[b] by {
                        let a0 = if a < i { a } else { a + 1 };
                        let b0 = if b < i { b } else { b + 1 };
                        assert(self.items@[a] == pre[a0]);
                        assert(self.items@[b] == pre[b0]);
                    }
                    assert forall|e: u32| #[trigger] self@.contains(e) == pre.to_set().remove(c).contains(e) by {
                        if self.items@.contains(e) {
                            let j = choose|j: int| 0 <= j < self.items@.len() && self.items@[j] == e;
                            let j0 = if j < i { j } else { j + 1 };
                            assert(pre[j0] == e);
                            assert(pre[j0] != pre[i as int]);
                        }
                        if pre.to_set().remove(c).contains(e) {
                            let j0 = choose|j: int| 0 <= j < pre.len() && pre[j] == e;
                            assert(j0 != i);
                            let j = if j0 < i { j0 } else { j0 - 1 };
                            assert(self.items@[j] == e);
                        }
                    }
                    assert(self@ =~= pre.to_set().remove(c));
                    lemma_filter_remove_at(pre, i as int, c, |x: u32| x != c);
                    assert(self.items@ =~= pre.remove(i as int));
                }
            },
        }
    }

    /// Adds every element of `other`.
    pub fn extend(&mut self, other: &ChunkSet)
        requires
            old(self).wf(),
        ensures
            final(self).wf(),
            final(self)@ == old(self)@.union(other@),
    {
        let mut i: usize = 0;
        while i < other.items.len()
            invariant
                self.wf(),
                i <= other.items@.len(),
                self@ == old(self)@.union(other.items@.subrange(0, i as int).to_set()),
            decreases other.items@.len() - i,
        {
            let c = other.items[i];
            self.insert(c);
            proof {
                assert(other.items@.subrange(0, i + 1) =~= other.items@.subrange(0, i as int).push(c));
                other.items@.subrange(0, i as int).lemma_push_to_set_commute(c);
                assert(self@ =~= old(self)@.union(other.items@.subrange(0, i + 1).to_set()));
            }
            i = i + 1;
        }
        assert(other.items@.subrange(0, i as int) =~= other.items@);
    }

    /// A copy of the set with the same elements in the same order.
    pub fn copy(&self) -> (s: ChunkSet)
        ensures
            s@ == self@,
            s.elems() == self.elems(),
            self.wf() ==> s.wf(),
    {
        let s = ChunkSet { items: self.items.clone() };
        assert(s.items@ =~= self.items@);
        s
    }
}

} // verus!
