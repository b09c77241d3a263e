//! A map keyed by device serial, for the per-device state the server keeps
//! (forwarded ports, cached screenshots, live sessions, devices already set up).
use vstd::prelude::*;
use crate::text::{first_index, lemma_first_index, lemma_first_index_is};

verus! {

/// Entries keyed by serial; no serial appears twice.
pub struct SerialMap<V> {
    entries: Vec<(String, V)>,
}

pub open spec fn key_is<V>(k: Seq<char>) -> spec_fn((String, V)) -> bool {
    |e: (String, V)| e.0@ == k
}

/// The map that a list of entries stands for: each serial to the value of
/// its first entry.
pub open spec fn map_of<V>(s: Seq<(String, V)>) -> Map<Seq<char>, V> {
    Map::new(
        |k: Seq<char>| first_index(s, key_is::<V>(k)) < s.len(),
        |k: Seq<char>| s[first_index(s, key_is::<V>(k))].1,
    )
}

pub open spec fn distinct_keys<V>(s: Seq<(String, V)>) -> bool {
    forall|i: int, j: int| 0 <= i < s.len() && 0 <= j < s.len() && i != j ==> (#[trigger] s[i]).0@ != (#[trigger] s[j]).0@
}

proof fn lemma_index_of_entry<V>(s: Seq<(String, V)>, i: int)
    requires
        distinct_keys(s),
        0 <= i < s.len(),
    ensures
        first_index(s, key_is::<V>(s[i].0@)) == i,
{
    assert forall|j: int| 0 <= j < i implies !key_is::<V>(s[i].0@)(#[trigger] s[j]) by {}
    lemma_first_index_is(s, key_is::<V>(s[i].0@), i);
}

/// In a list with distinct keys, a serial is mapped exactly when some entry has it.
proof fn lemma_map_of_entry<V>(s: Seq<(String, V)>, k: Seq<char>)
    requires
        distinct_keys(s),
    ensures
        map_of(s).contains_key(k) <==> exists|i: int| 0 <= i < s.len() && (#[trigger] s[i]).0@ == k,
        forall|i: int| 0 <= i < s.len() && (#[trigger] s[i]).0@ == k ==> map_of(s)[k] == s[i].1,
{
    lemma_first_index(s, key_is::<V>(k));
    assert forall|i: int| 0 <= i < s.len() && (#[trigger] s[i]).0@ == k implies map_of(s)[k] == s[i].1 by {
        lemma_index_of_entry(s, i);
    }
    if exists|i: int| 0 <= i < s.len() && (#[trigger] s[i]).0@ == k {
        let i = choose|i: int| 0 <= i < s.len() && (#[trigger] s[i]).0@ == k;
        lemma_index_of_entry(s, i);
    }
}

proof fn lemma_same_map<V>(a: Map<Seq<char>, V>, b: Map<Seq<char>, V>)
    requires
        forall|q: Seq<char>| #[trigger] a.dom().contains(q) == b.dom().contains(q),
        forall|q: Seq<char>| a.dom().contains(q) ==> #[trigger] a[q] == b[q],
    ensures
        a == b,
{
    assert(a =~= b);
}

impl<V> SerialMap<V> {
    #[verifier::type_invariant]
    spec fn keys_distinct(&self) -> bool {
        distinct_keys(self.entries@)
    }

    pub closed spec fn view(&self) -> Map<Seq<char>, V> {
        map_of(self.entries@)
    }

    /// An empty map.
    pub fn new() -> (m: Self)
        ensures
            m@ == Map::<Seq<char>, V>::empty(),
    {
        let m = SerialMap { entries: Vec::new() };
        assert(m@ =~= Map::<Seq<char>, V>::empty());
        m
    }

    /// Index of the entry for `key`, or the number of entries.
    fn position(&self, key: &String) -> (k: usize)
        ensures
            k == first_index(self.entries@, key_is::<V>(key@)),
    {
        let mut k: usize = 0;
        while k < self.entries.len() && self.entries[k].0 != *key
            invariant
                k <= self.entries.len(),
                forall|j: int| 0 <= j < k ==> !key_is::<V>(key@)(#[trigger] self.entries@[j]),
            decreases self.entries.len() - k,
        {
            k = k + 1;
        }
        proof {
            lemma_first_index_is(self.entries@, key_is::<V>(key@), k as int);
        }
        k
    }

    /// The value for `key`, if there is one.
    pub fn get(&self, key: &str) -> (res: Option<&V>)
        ensures
            match res {
                Some(v) => self@.contains_key(key@) && *v == self@[key@],
                None => !self@.contains_key(key@),
            },
    {
        let owned = key.to_owned();
        let k = self.position(&owned);
        if k < self.entries.len() {
            Some(&self.entries[k].1)
        } else {
            None
        }
    }

    /// Whether `key` has a value.
    pub fn contains(&self, key: &str) -> (b: bool)
        ensures
            b == self@.contains_key(key@),
    {
        self.get(key).is_some()
    }

    /// Sets the value for `key`, replacing any earlier one.
    pub fn insert(&mut self, key: String, value: V)
        ensures
            final(self)@ == old(self)@.insert(key@, value),
    {
        proof {
            use_type_invariant(&*self);
        }
        let k = self.position(&key);
        let mut entries: Vec<(String, V)> = Vec::new();
        std::mem::swap(&mut entries, &mut self.entries);
        let ghost s = entries@;
        let ghost kv = key@;
        proof {
            lemma_first_index(s, key_is::<V>(kv));
        }
        if k < entries.len() {
            entries.set(k, (key, value));
            proof {
                let t = entries@;
                assert(t =~= s.update(k as int, t[k as int]));
                assert(distinct_keys(t)) by {
                    assert forall|i: int, j: int|
                        0 <= i < t.len() && 0 <= j < t.len() && i != j implies (#[trigger] t[i]).0@
                        != (#[trigger] t[j]).0@ by {
                        assert(s[k as int].0@ == kv);
                        if i != k && j != k {
                            assert(t[i] == s[i] && t[j] == s[j]);
                        } else if i == k {
                            assert(t[j] == s[j]);
                            assert(s[j].0@ != s[k as int].0@);
                        } else {
                            assert(t[i] == s[i]);
                            assert(s[i].0@ != s[k as int].0@);
                        }
                    }
                }
                assert forall|q: Seq<char>| #[trigger] map_of(t).dom().contains(q) == map_of(
                    s,
                ).insert(kv, value).dom().contains(q) && (map_of(t).dom().contains(q) ==> map_of(t)[q]
                    == map_of(s).insert(kv, value)[q]) by {
                    lemma_map_of_entry(s, q);
                    lemma_map_of_entry(t, q);
                    if q == kv {
                        assert(t[k as int].0@ == q);
                    } else {
                        assert forall|i: int| 0 <= i < t.len() && (#[trigger] t[i]).0@ == q implies s[i]
                            == t[i] by {}
                        assert forall|i: int| 0 <= i < s.len() && (#[trigger] s[i]).0@ == q implies t[i]
                            == s[i] by {}
                    }
                }
                lemma_same_map(map_of(t), map_of(s).insert(kv, value));
            }
        } else {
            entries.push((key, value));
            proof {
                let t = entries@;
                assert(t =~= s.push(t.last()));
                assert forall|j: int| 0 <= j < s.len() implies (#[trigger] s[j]).0@ != kv by {
                    assert(!key_is::<V>(kv)(s[j]));
                }
                assert(distinct_keys(t)) by {
                    assert forall|i: int, j: int|
                        0 <= i < t.len() && 0 <= j < t.len() && i != j implies (#[trigger] t[i]).0@
                        != (#[trigger] t[j]).0@ by {
                        if i < s.len() && j < s.len() {
                            assert(t[i] == s[i] && t[j] == s[j]);
                        } else if i < s.len() {
                            assert(t[i] == s[i]);
                        } else {
                            assert(t[j] == s[j]);
                        }
                    }
                }
                assert forall|q: Seq<char>| #[trigger] map_of(t).dom().contains(q) == map_of(
                    s,
                ).insert(kv, value).dom().contains(q) && (map_of(t).dom().contains(q) ==> map_of(t)[q]
                    == map_of(s).insert(kv, value)[q]) by {
                    lemma_map_of_entry(s, q);
                    lemma_map_of_entry(t, q);
                    if q == kv {
                        assert(t[s.len() as int].0@ == q);
                    } else {
                        assert forall|i: int| 0 <= i < t.len() && (#[trigger] t[i]).0@ == q implies i < s.len()
                            && s[i] == t[i] by {}
                        assert forall|i: int| 0 <= i < s.len() && (#[trigger] s[i]).0@ == q implies t[i]
                            == s[i] by {}
                    }
                }
                lemma_same_map(map_of(t), map_of(s).insert(kv, value));
            }
        }
        self.entries = entries;
    }

    /// Takes out the value for `key`, if there is one.
    pub fn remove(&mut self, key: &str) -> (res: Option<V>)
        ensures
            final(self)@ == old(self)@.remove(key@),
            match res {
                Some(v) => old(self)@.contains_key(key@) && v == old(self)@[key@],
                None => !old(self)@.contains_key(key@),
            },
    {
        proof {
            use_type_invariant(&*self);
        }
        let owned = key.to_owned();
        let k = self.position(&owned);
        let ghost s = self.entries@;
        let ghost kv = key@;
        proof {
            lemma_first_index(s, key_is::<V>(kv));
        }
        if k == self.entries.len() {
            proof {
                assert(map_of(s) =~= map_of(s).remove(kv));
            }
            return None;
        }
        let mut entries: Vec<(String, V)> = Vec::new();
        std::mem::swap(&mut entries, &mut self.entries);
        let (_, v) = entries.remove(k);
        proof {
            let t = entries@;
            assert(t =~= s.remove(k as int));
            assert(distinct_keys(t)) by {
                assert forall|i: int, j: int|
                    0 <= i < t.len() && 0 <= j < t.len() && i != j implies (#[trigger] t[i]).0@ != (
                    #[trigger] t[j]).0@ by {
                    let si = if i < k {
                        i
                    } else {
                        i + 1
                    };
                    let sj = if j < k {
                        j
                    } else {
                        j + 1
                    };
                    assert(t[i] == s[si] && t[j] == s[sj]);
                }
            }
            lemma_map_of_entry(s, kv);
            assert forall|q: Seq<char>| #[trigger] map_of(t).dom().contains(q) == map_of(s).remove(
                kv,
            ).dom().contains(q) && (map_of(t).dom().contains(q) ==> map_of(t)[q] == map_of(s).remove(
                kv,
            )[q]) by {
                lemma_map_of_entry(s, q);
                lemma_map_of_entry(t, q);
                assert forall|i: int| 0 <= i < t.len() && (#[trigger] t[i]).0@ == q implies ({
                    let si = if i < k {
                        i
                    } else {
                        i + 1
                    };
                    s[si] == t[i] && si != k
                }) by {
                    if i >= k {
                        assert(t[i] == s[i + 1]);
                        assert(s[i + 1].0@ != s[k as int].0@);
                    }
                }
                assert forall|i: int| 0 <= i < s.len() && i != k && (#[trigger] s[i]).0@ == q implies ({
                    let ti = if i < k {
                        i
                    } else {
                        i - 1
                    };
                    t[ti] == s[i]
                }) by {}
                if q == kv {
                    assert forall|i: int| 0 <= i < t.len() implies (#[trigger] t[i]).0@ != q by {
                        let si = if i < k {
                            i
                        } else {
                            i + 1
                        };
                        assert(t[i] == s[si]);
                        assert(s[si].0@ != s[k as int].0@);
                    }
                } else {
                    if exists|i: int| 0 <= i < s.len() && (#[trigger] s[i]).0@ == q {
                        let i = choose|i: int| 0 <= i < s.len() && (#[trigger] s[i]).0@ == q;
                        assert(i != k);
                        let ti = if i < k {
                            i
                        } else {
                            i - 1
                        };
                        assert(t[ti] == s[i]);
                    }
                }
            }
            lemma_same_map(map_of(t), map_of(s).remove(kv));
        }
        self.entries = entries;
        Some(v)
    }
}

} // verus!
