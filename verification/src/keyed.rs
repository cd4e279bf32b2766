//! Maps and sets whose keys are texts.

use crate::text::{listed, same, views};
use vstd::prelude::*;

verus! {

/// A map from texts to values. Every key occurs once; entries stay in the order in which their
/// keys first came.
pub struct StringMap<V> {
    pub keys: Vec<String>,
    pub values: Vec<V>,
}

/// The position of `k` among distinct `keys`.
pub open spec fn place(keys: Seq<Seq<char>>, k: Seq<char>) -> int {
    choose|i: int| 0 <= i < keys.len() && keys[i] == k
}

impl<V> StringMap<V> {
    /// The keys as sequences of characters.
    pub open spec fn names(&self) -> Seq<Seq<char>> {
        views(self.keys@)
    }

    /// Keys and values correspond, and no key occurs twice.
    pub open spec fn wf(&self) -> bool {
        &&& self.keys@.len() == self.values@.len()
        &&& self.names().no_duplicates()
    }

    /// The map that this holds.
    pub open spec fn view(&self) -> Map<Seq<char>, V> {
        Map::new(
            |k: Seq<char>| self.names().contains(k),
            |k: Seq<char>| self.values@[place(self.names(), k)],
        )
    }

    /// The value at position `i` is the one under the key at `i`.
    pub proof fn lemma_at(&self, i: int)
        requires
            self.wf(),
            0 <= i < self.keys@.len(),
        ensures
            self@.dom().contains(self.keys@[i]@),
            self@[self.keys@[i]@] == self.values@[i],
            place(self.names(), self.keys@[i]@) == i,
    {
        assert(self.names()[i] == self.keys@[i]@);
        let j = place(self.names(), self.keys@[i]@);
        assert(0 <= j < self.names().len() && self.names()[j] == self.names()[i]);
    }

    /// The empty map.
    pub fn new() -> (r: Self)
        ensures
            r.wf(),
            r@ == Map::<Seq<char>, V>::empty(),
            r.names().len() == 0,
    {
        let r = StringMap { keys: Vec::new(), values: Vec::new() };
        proof {
            assert(r@ =~= Map::<Seq<char>, V>::empty());
        }
        r
    }

    /// The number of keys.
    pub fn len(&self) -> (r: usize)
        requires
            self.wf(),
        ensures
            r == self.names().len(),
    {
        self.keys.len()
    }

    /// Whether there is no key.
    pub fn is_empty(&self) -> (r: bool)
        requires
            self.wf(),
        ensures
            r == (self.names().len() == 0),
            r == (self@.dom() == Set::<Seq<char>>::empty()),
    {
        let r: bool = self.keys.len() == 0;
        proof {
            if r {
                assert(self@.dom() =~= Set::<Seq<char>>::empty());
            } else {
                self.lemma_at(0);
            }
        }
        r
    }

    /// Where `k` stands among the keys.
    pub fn position(&self, k: &str) -> (r: Option<usize>)
        requires
            self.wf(),
        ensures
            match r {
                Some(i) => i < self.keys@.len() && self.keys@[i as int]@ == k@ && self@.dom().contains(
                    k@,
                ) && self@[k@] == self.values@[i as int],
                None => !self@.dom().contains(k@),
            },
    {
        let mut i: usize = 0;
        while i < self.keys.len()
            invariant
                i <= self.keys@.len(),
                self.wf(),
                forall|j: int| 0 <= j < i ==> self.names()[j] != k@,
            decreases self.keys.len() - i,
        {
            if same(&self.keys[i], k) {
                proof {
                    self.lemma_at(i as int);
                }
                return Some(i);
            }
            i = i + 1;
        }
        None
    }

    /// Whether `k` is a key.
    pub fn contains_key(&self, k: &str) -> (r: bool)
        requires
            self.wf(),
        ensures
            r == self@.dom().contains(k@),
    {
        self.position(k).is_some()
    }

    /// The value under `k`.
    pub fn get(&self, k: &str) -> (r: Option<&V>)
        requires
            self.wf(),
        ensures
            match r {
                Some(v) => self@.dom().contains(k@) && *v == self@[k@],
                None => !self@.dom().contains(k@),
            },
    {
        match self.position(k) {
            Some(i) => Some(&self.values[i]),
            None => None,
        }
    }

    /// Puts `v` under `k`, in place of what stood there.
    pub fn insert(&mut self, k: String, v: V)
        requires
            old(self).wf(),
        ensures
            final(self).wf(),
            final(self)@ == old(self)@.insert(k@, v),
            final(self).names() == (if old(self)@.dom().contains(k@) {
                old(self).names()
            } else {
                old(self).names().push(k@)
            }),
    {
        let ghost before = *self;
        match self.position(&k) {
            Some(i) => {
                self.values.set(i, v);
                proof {
                    assert(self@.dom() =~= before@.insert(k@, v).dom()) by {
                        before.lemma_at(i as int);
                    }
                    assert forall|q: Seq<char>| self@.dom().contains(q) implies #[trigger] self@[q]
                        == before@.insert(k@, v)[q] by {
                        let j = place(self.names(), q);
                        assert(self.names()[j] == q);
                        before.lemma_at(j);
                        before.lemma_at(i as int);
                    }
                    assert(self@ =~= before@.insert(k@, v));
                }
            },
            None => {
                let ghost name = k@;
                self.keys.push(k);
                self.values.push(v);
                proof {
                    assert(self.names() =~= before.names().push(name));
                    assert(!before.names().contains(name));
                    assert forall|a: int, b: int|
                        0 <= a < b < self.names().len() implies self.names()[a]
                        != self.names()[b] by {
                        if b == before.names().len() {
                            assert(before.names().contains(self.names()[a]));
                        } else {
                            assert(before.names()[a] != before.names()[b]);
                        }
                    }
                    assert(self.wf());
                    let n = before.names().len() as int;
                    self.lemma_at(n);
                    assert forall|q: Seq<char>| #[trigger]
                        self@.dom().contains(q) == before@.insert(name, v).dom().contains(q) by {
                        if self.names().contains(q) {
                            let j = choose|j: int| 0 <= j < self.names().len() && self.names()[j] == q;
                            if j < n {
                                assert(before.names()[j] == q);
                            }
                        }
                        if before.names().contains(q) {
                            let j = choose|j: int|
                                0 <= j < before.names().len() && before.names()[j] == q;
                            assert(self.names()[j] == q);
                        }
                    }
                    assert forall|q: Seq<char>| #[trigger] self@.dom().contains(q) implies self@[q]
                        == before@.insert(name, v)[q] by {
                        if q != name {
                            let j = choose|j: int|
                                0 <= j < before.names().len() && before.names()[j] == q;
                            assert(before.names().contains(q));
                            before.lemma_at(j);
                            self.lemma_at(j);
                        }
                    }
                    assert(self@ =~= before@.insert(name, v));
                }
            },
        }
    }

    /// Takes out `k` and its value, if it is a key.
    pub fn remove(&mut self, k: &str) -> (r: Option<V>)
        requires
            old(self).wf(),
        ensures
            final(self).wf(),
            final(self)@ == old(self)@.remove(k@),
            match r {
                Some(v) => old(self)@.dom().contains(k@) && v == old(self)@[k@]
                    && final(self).names().len() == old(self).names().len() - 1,
                None => !old(self)@.dom().contains(k@) && *final(self) == *old(self),
            },
    {
        let ghost before = *self;
        match self.position(k) {
            Some(i) => {
                let name = self.keys.remove(i);
                let v = self.values.remove(i);
                proof {
                    before.lemma_at(i as int);
                    assert(self.names() =~= before.names().remove(i as int));
                    assert forall|a: int, b: int|
                        0 <= a < b < self.names().len() implies self.names()[a]
                        != self.names()[b] by {
                        let x = if a < i { a } else { a + 1 };
                        let y = if b < i { b } else { b + 1 };
                        assert(before.names()[x] != before.names()[y]);
                    }
                    assert(self.wf());
                    assert forall|q: Seq<char>| #[trigger]
                        self@.dom().contains(q) == before@.remove(k@).dom().contains(q) by {
                        if self.names().contains(q) {
                            let j = choose|j: int| 0 <= j < self.names().len() && self.names()[j] == q;
                            let x = if j < i { j } else { j + 1 };
                            assert(before.names()[x] == q);
                            assert(before.names()[i as int] == k@);
                        }
                        if before.names().contains(q) && q != k@ {
                            let j = choose|j: int|
                                0 <= j < before.names().len() && before.names()[j] == q;
                            let x = if j < i { j } else { j - 1 };
                            assert(self.names()[x] == q);
                        }
                    }
                    assert forall|q: Seq<char>| #[trigger] self@.dom().contains(q) implies self@[q]
                        == before@.remove(k@)[q] by {
                        let j = choose|j: int| 0 <= j < self.names().len() && self.names()[j] == q;
                        assert(self.names().contains(q));
                        let x = if j < i { j } else { j + 1 };
                        self.lemma_at(j);
                        before.lemma_at(x);
                        assert(before.names()[x] == q);
                    }
                    assert(self@ =~= before@.remove(k@));
                }
                Some(v)
            },
            None => {
                proof {
                    assert(self@ =~= before@.remove(k@));
                }
                None
            },
        }
    }

    /// Takes out every key.
    pub fn clear(&mut self)
        ensures
            final(self).wf(),
            final(self)@ == Map::<Seq<char>, V>::empty(),
            final(self).names().len() == 0,
    {
        self.keys.clear();
        self.values.clear();
        proof {
            assert(self@ =~= Map::<Seq<char>, V>::empty());
        }
    }
}

/// A set of texts.
pub struct StringSet {
    pub items: StringMap<()>,
}

impl StringSet {
    pub open spec fn wf(&self) -> bool {
        self.items.wf()
    }

    /// The set that this holds.
    pub open spec fn view(&self) -> Set<Seq<char>> {
        self.items@.dom()
    }

    /// The empty set.
    pub fn new() -> (r: Self)
        ensures
            r.wf(),
            r@ == Set::<Seq<char>>::empty(),
    {
        StringSet { items: StringMap::new() }
    }

    /// Whether `k` is a member.
    pub fn contains(&self, k: &str) -> (r: bool)
        requires
            self.wf(),
        ensures
            r == self@.contains(k@),
    {
        self.items.contains_key(k)
    }

    /// Whether there is no member.
    pub fn is_empty(&self) -> (r: bool)
        requires
            self.wf(),
        ensures
            r == (self@ == Set::<Seq<char>>::empty()),
    {
        self.items.is_empty()
    }

    /// Makes `k` a member; says whether it was none before.
    pub fn insert(&mut self, k: String) -> (r: bool)
        requires
            old(self).wf(),
        ensures
            final(self).wf(),
            final(self)@ == old(self)@.insert(k@),
            r == !old(self)@.contains(k@),
    {
        let fresh: bool = !self.items.contains_key(&k);
        let ghost before = self.items@;
        let ghost name = k@;
        self.items.insert(k, ());
        proof {
            assert(before.insert(name, ()).dom() =~= before.dom().insert(name));
        }
        fresh
    }

    /// Takes `k` out; says whether it was a member.
    pub fn remove(&mut self, k: &str) -> (r: bool)
        requires
            old(self).wf(),
        ensures
            final(self).wf(),
            final(self)@ == old(self)@.remove(k@),
            r == old(self)@.contains(k@),
    {
        let ghost before = self.items@;
        let r = self.items.remove(k).is_some();
        proof {
            assert(before.remove(k@).dom() =~= before.dom().remove(k@));
        }
        r
    }

    /// Takes every member out.
    pub fn clear(&mut self)
        ensures
            final(self).wf(),
            final(self)@ == Set::<Seq<char>>::empty(),
    {
        self.items.clear();
    }
}

impl StringSet {
    /// The number of members.
    pub fn len(&self) -> (r: usize)
        requires
            self.wf(),
        ensures
            r == self@.len(),
    {
        proof {
            self.items.names().unique_seq_to_set();
            assert(self.items.names().to_set() =~= self@);
        }
        self.items.len()
    }

    /// The members, in the order in which they came.
    pub fn members(&self) -> (r: Vec<String>)
        requires
            self.wf(),
        ensures
            views(r@) == self.items.names(),
            views(r@).to_set() == self@,
    {
        let r = crate::text::clone_all(&self.items.keys);
        proof {
            assert(views(r@).to_set() =~= self@);
        }
        r
    }

    /// The set without the members that are listed.
    pub fn without(&self, removed: &Vec<String>) -> (r: StringSet)
        requires
            self.wf(),
        ensures
            r.wf(),
            r@ == self@.difference(views(removed@).to_set()),
    {
        let mut r = StringSet::new();
        let names: Vec<String> = self.members();
        let mut i: usize = 0;
        let ghost gone = views(removed@).to_set();
        proof {
            assert(views(names@).subrange(0, 0).to_set().difference(gone) =~= Set::<
                Seq<char>,
            >::empty());
        }
        while i < names.len()
            invariant
                i <= names@.len(),
                r.wf(),
                gone == views(removed@).to_set(),
                r@ == views(names@).subrange(0, i as int).to_set().difference(gone),
            decreases names.len() - i,
        {
            let ghost before = r@;
            let ghost front = views(names@).subrange(0, i as int);
            let ghost next = views(names@).subrange(0, i + 1);
            proof {
                assert(next =~= front.push(names@[i as int]@));
                lemma_push_members(front, names@[i as int]@);
            }
            if !listed(removed, &names[i]) {
                r.insert(names[i].clone());
            }
            proof {
                assert(r@ =~= next.to_set().difference(gone));
            }
            i = i + 1;
        }
        proof {
            assert(views(names@).subrange(0, i as int) =~= views(names@));
        }
        r
    }
}

/// The members of a sequence with one more element.
pub proof fn lemma_push_members<T>(s: Seq<T>, x: T)
    ensures
        s.push(x).to_set() == s.to_set().insert(x),
{
    let a = s.push(x).to_set();
    let b = s.to_set().insert(x);
    assert forall|y: T| a.contains(y) <==> b.contains(y) by {
        if s.contains(y) {
            let k = choose|k: int| 0 <= k < s.len() && s[k] == y;
            assert(s.push(x)[k] == y);
        }
        assert(s.push(x)[s.len() as int] == x);
        if s.push(x).contains(y) && y != x {
            let k = choose|k: int| 0 <= k < s.len() + 1 && s.push(x)[k] == y;
            assert(s[k] == y);
        }
    }
    assert(a =~= b);
}

/// A map to texts with the texts as characters.
pub open spec fn text_map(m: Map<Seq<char>, String>) -> Map<Seq<char>, Seq<char>> {
    Map::new(|k: Seq<char>| m.dom().contains(k), |k: Seq<char>| m[k]@)
}

/// A map to texts without the entries whose value is among those listed.
pub open spec fn without_values(
    m: Map<Seq<char>, Seq<char>>,
    removed: Set<Seq<char>>,
) -> Map<Seq<char>, Seq<char>> {
    Map::new(
        |k: Seq<char>| m.dom().contains(k) && !removed.contains(m[k]),
        |k: Seq<char>| m[k],
    )
}

impl StringMap<String> {
    /// The map without the entries whose value is among those listed.
    pub fn drop_values(&self, removed: &Vec<String>) -> (r: StringMap<String>)
        requires
            self.wf(),
        ensures
            r.wf(),
            text_map(r@) == without_values(text_map(self@), views(removed@).to_set()),
            r.names().len() <= self.names().len(),
    {
        let ghost gone = views(removed@).to_set();
        let mut r: StringMap<String> = StringMap::new();
        let mut i: usize = 0;
        while i < self.keys.len()
            invariant
                i <= self.keys@.len(),
                self.wf(),
                r.wf(),
                r.names().len() <= i,
                gone == views(removed@).to_set(),
                forall|k: Seq<char>| #[trigger]
                    r@.dom().contains(k) <==> exists|j: int|
                        0 <= j < i && #[trigger] self.names()[j] == k && !gone.contains(
                            self.values@[j]@,
                        ),
                forall|k: Seq<char>| #[trigger]
                    r@.dom().contains(k) ==> r@[k]@ == self@[k]@,
            decreases self.keys.len() - i,
        {
            let ghost before = r@;
            proof {
                self.lemma_at(i as int);
                assert(self.names()[i as int] == self.keys@[i as int]@);
            }
            if !listed(removed, &self.values[i]) {
                r.insert(self.keys[i].clone(), self.values[i].clone());
            }
            proof {
                assert forall|k: Seq<char>| #[trigger]
                    r@.dom().contains(k) <==> exists|j: int|
                        0 <= j < i + 1 && #[trigger] self.names()[j] == k && !gone.contains(
                            self.values@[j]@,
                        ) by {
                    if before.dom().contains(k) {
                        let j = choose|j: int|
                            0 <= j < i && #[trigger] self.names()[j] == k && !gone.contains(
                                self.values@[j]@,
                            );
                        assert(0 <= j < i + 1);
                    }
                    if exists|j: int|
                        0 <= j < i + 1 && #[trigger] self.names()[j] == k && !gone.contains(
                            self.values@[j]@,
                        ) {
                        let j = choose|j: int|
                            0 <= j < i + 1 && #[trigger] self.names()[j] == k && !gone.contains(
                                self.values@[j]@,
                            );
                        if j < i {
                            assert(before.dom().contains(k));
                        }
                    }
                }
            }
            i = i + 1;
        }
        proof {
            let want = without_values(text_map(self@), gone);
            assert forall|k: Seq<char>| #[trigger]
                text_map(r@).dom().contains(k) <==> want.dom().contains(k) by {
                if r@.dom().contains(k) {
                    let j = choose|j: int|
                        0 <= j < i && #[trigger] self.names()[j] == k && !gone.contains(
                            self.values@[j]@,
                        );
                    self.lemma_at(j);
                }
                if want.dom().contains(k) {
                    let j = place(self.names(), k);
                    assert(self.names()[j] == k);
                    self.lemma_at(j);
                }
            }
            assert(text_map(r@) =~= want);
        }
        r
    }
}

} // verus!
