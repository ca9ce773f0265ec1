//! Values by key, for keys that a tuple of integers writes.

use std::collections::BTreeMap;

use vstd::prelude::*;

verus! {

/// A key that a tuple of integers writes without loss.
pub trait CodedKey: Copy {
    /// The tuple that writes the key.
    spec fn code(self) -> (u8, u128, u8, u128);

    /// Computes the tuple that writes the key.
    fn encode(&self) -> (r: (u8, u128, u8, u128))
        ensures
            r == self.code(),
    ;

    /// Different keys are written differently.
    proof fn code_injective(a: Self, b: Self)
        requires
            a.code() == b.code(),
        ensures
            a == b,
    ;
}

/// Values by key, at most one for each key.
pub struct CodedMap<K: CodedKey, V> {
    /// Each value with its key, under the tuple that writes the key.
    entries: BTreeMap<(u8, u128, u8, u128), (K, V)>,
}

impl<K: CodedKey, V> View for CodedMap<K, V> {
    type V = Map<K, V>;

    closed spec fn view(&self) -> Map<K, V> {
        Map::new(
            |k: K| self.entries@.contains_key(k.code()),
            |k: K| self.entries@[k.code()].1,
        )
    }
}

/// `s` holds every entry of `m`, each once.
pub open spec fn lists<K, V>(m: Map<K, V>, s: Seq<(K, V)>) -> bool {
    &&& s.len() == m.dom().len()
    &&& m.dom().finite()
    &&& forall|i: int|
        0 <= i < s.len() ==> m.contains_key((#[trigger] s[i]).0) && m[s[i].0] == s[i].1
    &&& forall|i: int, j: int| 0 <= i < j < s.len() ==> s[i].0 != s[j].0
    &&& forall|k: K| #[trigger]
        m.contains_key(k) ==> exists|i: int| 0 <= i < s.len() && (#[trigger] s[i]).0 == k
}

/// References to keys and values, as keys and values.
pub open spec fn unref<K, V>(s: Seq<(&K, &V)>) -> Seq<(K, V)> {
    s.map_values(|e: (&K, &V)| (*e.0, *e.1))
}

impl<K: CodedKey, V> CodedMap<K, V> {
    /// Each value stands under its own key.
    #[verifier::type_invariant]
    spec fn in_place(self) -> bool {
        forall|c: (u8, u128, u8, u128)| #[trigger]
            self.entries@.contains_key(c) ==> self.entries@[c].0.code() == c
    }

    proof fn lemma_len(&self)
        requires
            self.in_place(),
        ensures
            self@.dom().finite(),
            self@.dom().len() == self.entries@.dom().len(),
    {
        let codes = self.entries@.dom();
        let key_of = |c: (u8, u128, u8, u128)| self.entries@[c].0;
        assert(codes.map(key_of) =~= self@.dom()) by {
            assert forall|k: K| codes.map(key_of).contains(k) == self@.dom().contains(k) by {
                if codes.map(key_of).contains(k) {
                    let c = choose|c: (u8, u128, u8, u128)|
                        codes.contains(c) && k == key_of(c);
                    assert(self.entries@.contains_key(c));
                }
                if self@.dom().contains(k) {
                    let c = k.code();
                    assert(self.entries@.contains_key(c));
                    K::code_injective(k, key_of(c));
                    assert(codes.contains(c) && key_of(c) == k);
                }
            }
        }
        assert(vstd::relations::injective_on(key_of, codes)) by {
            assert forall|a: (u8, u128, u8, u128), b: (u8, u128, u8, u128)|
                codes.contains(a) && codes.contains(b) && #[trigger] key_of(a) == #[trigger] key_of(
                    b,
                ) implies a == b by {
                assert(self.entries@.contains_key(a));
                assert(self.entries@.contains_key(b));
            }
        }
        vstd::set_lib::lemma_map_size(codes, self@.dom(), key_of);
    }

    /// A map without entries.
    pub fn new() -> (r: Self)
        ensures
            r@ == Map::<K, V>::empty(),
    {
        let r = CodedMap { entries: BTreeMap::new() };
        assert(r@ =~= Map::<K, V>::empty());
        r
    }

    /// The number of entries.
    pub fn len(&self) -> (r: usize)
        ensures
            r == self@.dom().len(),
            self@.dom().finite(),
    {
        proof {
            use_type_invariant(self);
            self.lemma_len();
        }
        self.entries.len()
    }

    /// The value of a key.
    pub fn get(&self, key: &K) -> (r: Option<&V>)
        ensures
            match r {
                Some(v) => self@.contains_key(*key) && *v == self@[*key],
                None => !self@.contains_key(*key),
            },
    {
        match self.entries.get(&key.encode()) {
            Some(entry) => Some(&entry.1),
            None => None,
        }
    }

    /// Takes the value of a key out.
    pub fn take(&mut self, key: &K) -> (r: Option<V>)
        ensures
            final(self)@ == old(self)@.remove(*key),
            r == (if old(self)@.contains_key(*key) {
                Some(old(self)@[*key])
            } else {
                None
            }),
    {
        proof {
            use_type_invariant(&*self);
        }
        let mut entries: BTreeMap<(u8, u128, u8, u128), (K, V)> = BTreeMap::new();
        std::mem::swap(&mut entries, &mut self.entries);
        let taken = entries.remove(&key.encode());
        self.entries = entries;
        proof {
            assert forall|k: K| k.code() == key.code() implies k == *key by {
                K::code_injective(k, *key);
            }
            assert(self@ =~= old(self)@.remove(*key));
        }
        match taken {
            Some(entry) => Some(entry.1),
            None => None,
        }
    }

    /// Writes the value of a key.
    pub fn put(&mut self, key: K, value: V)
        ensures
            final(self)@ == old(self)@.insert(key, value),
    {
        proof {
            use_type_invariant(&*self);
        }
        let mut entries: BTreeMap<(u8, u128, u8, u128), (K, V)> = BTreeMap::new();
        std::mem::swap(&mut entries, &mut self.entries);
        entries.insert(key.encode(), (key, value));
        self.entries = entries;
        proof {
            assert forall|k: K| k.code() == key.code() implies k == key by {
                K::code_injective(k, key);
            }
            assert(self@ =~= old(self)@.insert(key, value));
        }
    }

    /// Every entry.
    pub fn all(&self) -> (r: Vec<(&K, &V)>)
        ensures
            lists(self@, unref(r@)),
    {
        proof {
            use_type_invariant(self);
        }
        let mut r: Vec<(&K, &V)> = Vec::new();
        let ghost stored = vstd::std_specs::iter::IteratorSpec::remaining(
            &vstd::std_specs::btree::spec_btree_map_iter(&self.entries),
        );
        for entry in it: self.entries.iter()
            invariant
                it.seq() == stored,
                r@.len() == it.index(),
                forall|j: int|
                    0 <= j < r@.len() ==> #[trigger] r@[j] == (&stored[j].1.0, &stored[j].1.1),
        {
            r.push((&entry.1.0, &entry.1.1));
        }
        proof {
            let plain = unref(r@);
            self.lemma_len();
            assert forall|i: int| 0 <= i < r@.len() implies self.entries@.contains_key(
                #[trigger] *stored[i].0,
            ) && *stored[i].0 == r@[i].0.code() && plain[i] == (*r@[i].0, *r@[i].1)
                && self@.contains_key(*r@[i].0) && self@[*r@[i].0] == *r@[i].1 by {
                assert(r@[i] == (&stored[i].1.0, &stored[i].1.1));
                assert(self.entries@[*stored[i].0] == *stored[i].1);
            }
            assert forall|i: int, j: int| 0 <= i < j < plain.len() implies plain[i].0
                != plain[j].0 by {
                assert(self.entries@.contains_key(*stored[i].0));
                assert(self.entries@.contains_key(*stored[j].0));
                if *stored[i].0 == *stored[j].0 {
                    assert(self.entries@[*stored[i].0] == *stored[i].1);
                    assert(self.entries@[*stored[j].0] == *stored[j].1);
                    assert(stored[i] == stored[j]);
                }
            }
            assert forall|k: K| #[trigger] self@.contains_key(k) implies exists|i: int|
                0 <= i < plain.len() && (#[trigger] plain[i]).0 == k by {
                let c = k.code();
                assert(stored.contains((&c, &self.entries@[c])));
                let i = choose|i: int|
                    0 <= i < stored.len() && stored[i] == (&c, &self.entries@[c]);
                assert(self.entries@.contains_key(*stored[i].0));
                K::code_injective(k, *r@[i].0);
                assert(plain[i].0 == k);
            }
            assert forall|i: int| 0 <= i < plain.len() implies self@.contains_key(
                (#[trigger] plain[i]).0,
            ) && self@[plain[i].0] == plain[i].1 by {
                assert(self.entries@.contains_key(*stored[i].0));
            }
        }
        r
    }
}

/// A list of a map holds each of its keys in one place, with its value, and
/// nothing else.
pub proof fn law_lists_hold_everything<K, V>(m: Map<K, V>, s: Seq<(K, V)>, k: K)
    requires
        lists(m, s),
    ensures
        m.contains_key(k) <==> exists|i: int| 0 <= i < s.len() && (#[trigger] s[i]).0 == k,
        forall|i: int| 0 <= i < s.len() && (#[trigger] s[i]).0 == k ==> s[i].1 == m[k],
        forall|i: int, j: int|
            0 <= i < s.len() && 0 <= j < s.len() && (#[trigger] s[i]).0 == k && (#[trigger] s[j]).0
                == k ==> i == j,
        s.len() == m.dom().len(),
{
}

/// References stand for what they refer to, in order.
pub proof fn law_references<K, V>(s: Seq<(&K, &V)>, i: int)
    ensures
        unref(s).len() == s.len(),
        0 <= i < s.len() ==> unref(s)[i].0 == *s[i].0 && unref(s)[i].1 == *s[i].1,
{
}

} // verus!
