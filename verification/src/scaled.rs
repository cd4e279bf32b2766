//! Maps whose keys are cache keys of proxies together with the scale of the proxy.

use crate::keyed::StringMap;
use crate::proxy_names::ProxyScale;
use crate::text::{listed, same, views};
use vstd::prelude::*;

verus! {

/// A cache key together with a scale.
pub type Slot = (Seq<char>, ProxyScale);

/// What a key of a map stands for.
pub open spec fn slot_of(k: (String, ProxyScale)) -> Slot {
    (k.0@, k.1)
}

/// A map from cache keys and scales to values. Every pair occurs once; entries stay in the order in
/// which their pairs first came.
pub struct ScaledMap<V> {
    pub keys: Vec<(String, ProxyScale)>,
    pub values: Vec<V>,
}

/// The position of `k` among distinct `keys`.
pub open spec fn slot_place(keys: Seq<Slot>, k: Slot) -> int {
    choose|i: int| 0 <= i < keys.len() && keys[i] == k
}

impl<V> ScaledMap<V> {
    /// The keys with their scales.
    pub open spec fn names(&self) -> Seq<Slot> {
        self.keys@.map_values(|k: (String, ProxyScale)| slot_of(k))
    }

    /// Keys and values correspond, and no key occurs twice.
    pub open spec fn wf(&self) -> bool {
        &&& self.keys@.len() == self.values@.len()
        &&& self.names().no_duplicates()
    }

    /// The map that this holds.
    pub open spec fn view(&self) -> Map<Slot, V> {
        Map::new(
            |k: Slot| self.names().contains(k),
            |k: Slot| self.values@[slot_place(self.names(), k)],
        )
    }

    /// The value at position `i` is the one under the key at `i`.
    pub proof fn lemma_at(&self, i: int)
        requires
            self.wf(),
            0 <= i < self.keys@.len(),
        ensures
            self@.dom().contains(slot_of(self.keys@[i])),
            self@[slot_of(self.keys@[i])] == self.values@[i],
            slot_place(self.names(), slot_of(self.keys@[i])) == i,
    {
        assert(self.names()[i] == slot_of(self.keys@[i]));
        let j = slot_place(self.names(), slot_of(self.keys@[i]));
        assert(0 <= j < self.names().len() && self.names()[j] == self.names()[i]);
    }

    /// The empty map.
    pub fn new() -> (r: Self)
        ensures
            r.wf(),
            r@ == Map::<Slot, V>::empty(),
            r.names().len() == 0,
    {
        let r = ScaledMap { keys: Vec::new(), values: Vec::new() };
        proof {
            assert(r@ =~= Map::<Slot, V>::empty());
        }
        r
    }

    /// The number of keys.
    pub fn len(&self) -> (r: usize)
        requires
            self.wf(),
        ensures
            r == self.names().len(),
    {
        self.keys.len()
    }

    /// Whether there is no key.
    pub fn is_empty(&self) -> (r: bool)
        requires
            self.wf(),
        ensures
            r == (self.names().len() == 0),
            r == (self@.dom() == Set::<Slot>::empty()),
    {
        let r: bool = self.keys.len() == 0;
        proof {
            if r {
                assert(self@.dom() =~= Set::<Slot>::empty());
            } else {
                self.lemma_at(0);
            }
        }
        r
    }

    /// Where `k` stands among the keys.
    pub fn position(&self, k: &str, scale: ProxyScale) -> (r: Option<usize>)
        requires
            self.wf(),
        ensures
            match r {
                Some(i) => i < self.keys@.len() && slot_of(self.keys@[i as int]) == (k@, scale) && self@.dom().contains(
                    (k@, scale),
                ) && self@[(k@, scale)] == self.values@[i as int],
                None => !self@.dom().contains((k@, scale)),
            },
    {
        let mut i: usize = 0;
        while i < self.keys.len()
            invariant
                i <= self.keys@.len(),
                self.wf(),
                forall|j: int| 0 <= j < i ==> self.names()[j] != (k@, scale),
            decreases self.keys.len() - i,
        {
            if self.keys[i].1 == scale && same(&self.keys[i].0, k) {
                proof {
                    self.lemma_at(i as int);
                }
                return Some(i);
            }
            i = i + 1;
        }
        None
    }

    /// Whether `k` is a key.
    pub fn contains_key(&self, k: &str, scale: ProxyScale) -> (r: bool)
        requires
            self.wf(),
        ensures
            r == self@.dom().contains((k@, scale)),
    {
        self.position(k, scale).is_some()
    }

    /// The value under `k`.
    pub fn get(&self, k: &str, scale: ProxyScale) -> (r: Option<&V>)
        requires
            self.wf(),
        ensures
            match r {
                Some(v) => self@.dom().contains((k@, scale)) && *v == self@[(k@, scale)],
                None => !self@.dom().contains((k@, scale)),
            },
    {
        match self.position(k, scale) {
            Some(i) => Some(&self.values[i]),
            None => None,
        }
    }

    /// Puts `v` under `k`, in place of what stood there.
    pub fn insert(&mut self, k: String, scale: ProxyScale, v: V)
        requires
            old(self).wf(),
        ensures
            final(self).wf(),
            final(self)@ == old(self)@.insert((k@, scale), v),
            final(self).names() == (if old(self)@.dom().contains((k@, scale)) {
                old(self).names()
            } else {
                old(self).names().push((k@, scale))
            }),
    {
        let ghost before = *self;
        match self.position(&k, scale) {
            Some(i) => {
                self.values.set(i, v);
                proof {
                    assert(self@.dom() =~= before@.insert((k@, scale), v).dom()) by {
                        before.lemma_at(i as int);
                    }
                    assert forall|q: Slot| self@.dom().contains(q) implies #[trigger] self@[q]
                        == before@.insert((k@, scale), v)[q] by {
                        let j = slot_place(self.names(), q);
                        assert(self.names()[j] == q);
                        before.lemma_at(j);
                        before.lemma_at(i as int);
                    }
                    assert(self@ =~= before@.insert((k@, scale), v));
                }
            },
            None => {
                let ghost name: Slot = (k@, scale);
                self.keys.push((k, scale));
                self.values.push(v);
                proof {
                    assert(self.names() =~= before.names().push(name));
                    assert(!before.names().contains(name));
                    assert forall|a: int, b: int|
                        0 <= a < b < self.names().len() implies self.names()[a]
                        != self.names()[b] by {
                        if b == before.names().len() {
                            assert(before.names().contains(self.names()[a]));
                        } else {
                            assert(before.names()[a] != before.names()[b]);
                        }
                    }
                    assert(self.wf());
                    let n = before.names().len() as int;
                    self.lemma_at(n);
                    assert forall|q: Slot| #[trigger]
                        self@.dom().contains(q) == before@.insert(name, v).dom().contains(q) by {
                        if self.names().contains(q) {
                            let j = choose|j: int| 0 <= j < self.names().len() && self.names()[j] == q;
                            if j < n {
                                assert(before.names()[j] == q);
                            }
                        }
                        if before.names().contains(q) {
                            let j = choose|j: int|
                                0 <= j < before.names().len() && before.names()[j] == q;
                            assert(self.names()[j] == q);
                        }
                    }
                    assert forall|q: Slot| #[trigger] self@.dom().contains(q) implies self@[q]
                        == before@.insert(name, v)[q] by {
                        if q != name {
                            let j = choose|j: int|
                                0 <= j < before.names().len() && before.names()[j] == q;
                            assert(before.names().contains(q));
                            before.lemma_at(j);
                            self.lemma_at(j);
                        }
                    }
                    assert(self@ =~= before@.insert(name, v));
                }
            },
        }
    }

    /// Takes out `k` and its value, if it is a key.
    pub fn remove(&mut self, k: &str, scale: ProxyScale) -> (r: Option<V>)
        requires
            old(self).wf(),
        ensures
            final(self).wf(),
            final(self)@ == old(self)@.remove((k@, scale)),
            match r {
                Some(v) => old(self)@.dom().contains((k@, scale)) && v == old(self)@[(k@, scale)]
                    && final(self).names().len() == old(self).names().len() - 1,
                None => !old(self)@.dom().contains((k@, scale)) && *final(self) == *old(self),
            },
    {
        let ghost before = *self;
        match self.position(k, scale) {
            Some(i) => {
                let name = self.keys.remove(i);
                let v = self.values.remove(i);
                proof {
                    before.lemma_at(i as int);
                    assert(self.names() =~= before.names().remove(i as int));
                    assert forall|a: int, b: int|
                        0 <= a < b < self.names().len() implies self.names()[a]
                        != self.names()[b] by {
                        let x = if a < i { a } else { a + 1 };
                        let y = if b < i { b } else { b + 1 };
                        assert(before.names()[x] != before.names()[y]);
                    }
                    assert(self.wf());
                    assert forall|q: Slot| #[trigger]
                        self@.dom().contains(q) == before@.remove((k@, scale)).dom().contains(q) by {
                        if self.names().contains(q) {
                            let j = choose|j: int| 0 <= j < self.names().len() && self.names()[j] == q;
                            let x = if j < i { j } else { j + 1 };
                            assert(before.names()[x] == q);
                            assert(before.names()[i as int] == (k@, scale));
                        }
                        if before.names().contains(q) && q != (k@, scale) {
                            let j = choose|j: int|
                                0 <= j < before.names().len() && before.names()[j] == q;
                            let x = if j < i { j } else { j - 1 };
                            assert(self.names()[x] == q);
                        }
                    }
                    assert forall|q: Slot| #[trigger] self@.dom().contains(q) implies self@[q]
                        == before@.remove((k@, scale))[q] by {
                        let j = choose|j: int| 0 <= j < self.names().len() && self.names()[j] == q;
                        assert(self.names().contains(q));
                        let x = if j < i { j } else { j + 1 };
                        self.lemma_at(j);
                        before.lemma_at(x);
                        assert(before.names()[x] == q);
                    }
                    assert(self@ =~= before@.remove((k@, scale)));
                }
                Some(v)
            },
            None => {
                proof {
                    assert(self@ =~= before@.remove((k@, scale)));
                }
                None
            },
        }
    }

    /// Takes out every key.
    pub fn clear(&mut self)
        ensures
            final(self).wf(),
            final(self)@ == Map::<Slot, V>::empty(),
            final(self).names().len() == 0,
    {
        self.keys.clear();
        self.values.clear();
        proof {
            assert(self@ =~= Map::<Slot, V>::empty());
        }
    }
}

/// A map to texts with the texts as characters.
pub open spec fn slot_texts(m: Map<Slot, String>) -> Map<Slot, Seq<char>> {
    Map::new(|k: Slot| m.dom().contains(k), |k: Slot| m[k]@)
}

/// A map to texts with only the entries whose cache key is among `keys` and whose value is not among
/// `removed`.
pub open spec fn kept_slots(
    m: Map<Slot, Seq<char>>,
    keys: Set<Seq<char>>,
    removed: Set<Seq<char>>,
) -> Map<Slot, Seq<char>> {
    Map::new(
        |k: Slot| m.dom().contains(k) && keys.contains(k.0) && !removed.contains(m[k]),
        |k: Slot| m[k],
    )
}

impl ScaledMap<String> {
    /// The map with only the entries whose cache key is one of `keys` and whose value is not listed.
    pub fn kept(&self, keys: &StringMap<String>, removed: &Vec<String>) -> (r: ScaledMap<String>)
        requires
            self.wf(),
            keys.wf(),
        ensures
            r.wf(),
            slot_texts(r@) == kept_slots(slot_texts(self@), keys@.dom(), views(removed@).to_set()),
    {
        let ghost gone = views(removed@).to_set();
        let mut r: ScaledMap<String> = ScaledMap::new();
        let mut i: usize = 0;
        while i < self.keys.len()
            invariant
                i <= self.keys@.len(),
                self.wf(),
                keys.wf(),
                r.wf(),
                gone == views(removed@).to_set(),
                forall|k: Slot| #[trigger]
                    r@.dom().contains(k) <==> keys@.dom().contains(k.0) && exists|j: int|
                        0 <= j < i && #[trigger] self.names()[j] == k && !gone.contains(
                            self.values@[j]@,
                        ),
                forall|k: Slot| #[trigger] r@.dom().contains(k) ==> r@[k]@ == self@[k]@,
            decreases self.keys.len() - i,
        {
            let ghost before = r@;
            proof {
                self.lemma_at(i as int);
                assert(self.names()[i as int] == slot_of(self.keys@[i as int]));
            }
            if !listed(removed, &self.values[i]) && keys.contains_key(&self.keys[i].0) {
                r.insert(self.keys[i].0.clone(), self.keys[i].1, self.values[i].clone());
            }
            proof {
                assert forall|k: Slot| #[trigger]
                    r@.dom().contains(k) <==> keys@.dom().contains(k.0) && exists|j: int|
                        0 <= j < i + 1 && #[trigger] self.names()[j] == k && !gone.contains(
                            self.values@[j]@,
                        ) by {
                    if before.dom().contains(k) {
                        let j = choose|j: int|
                            0 <= j < i && #[trigger] self.names()[j] == k && !gone.contains(
                                self.values@[j]@,
                            );
                        assert(0 <= j < i + 1);
                    }
                    if keys@.dom().contains(k.0) && exists|j: int|
                        0 <= j < i + 1 && #[trigger] self.names()[j] == k && !gone.contains(
                            self.values@[j]@,
                        ) {
                        let j = choose|j: int|
                            0 <= j < i + 1 && #[trigger] self.names()[j] == k && !gone.contains(
                                self.values@[j]@,
                            );
                        if j < i {
                            assert(before.dom().contains(k));
                        }
                    }
                }
            }
            i = i + 1;
        }
        proof {
            let want = kept_slots(slot_texts(self@), keys@.dom(), gone);
            assert forall|k: Slot| #[trigger]
                slot_texts(r@).dom().contains(k) <==> want.dom().contains(k) by {
                if r@.dom().contains(k) {
                    let j = choose|j: int|
                        0 <= j < i && #[trigger] self.names()[j] == k && !gone.contains(
                            self.values@[j]@,
                        );
                    self.lemma_at(j);
                }
                if want.dom().contains(k) {
                    let j = slot_place(self.names(), k);
                    assert(self.names()[j] == k);
                    self.lemma_at(j);
                }
            }
            assert(slot_texts(r@) =~= want);
        }
        r
    }
}

} // verus!
