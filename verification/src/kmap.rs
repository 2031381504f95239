//! An ordered string-keyed mapping: keys keep their insertion order, and
//! inserting an existing key replaces its value in place.
use vstd::prelude::*;

verus! {

/// First position of `k` in `keys`, or `-1` when absent.
pub open spec fn find_key(keys: Seq<Seq<char>>, k: Seq<char>) -> int
    decreases keys.len(),
{
    if keys.len() == 0 {
        -1
    } else if keys.first() == k {
        0
    } else {
        let r = find_key(keys.drop_first(), k);
        if r < 0 {
            -1
        } else {
            r + 1
        }
    }
}

pub proof fn lemma_find_key(keys: Seq<Seq<char>>, k: Seq<char>)
    ensures
        find_key(keys, k) >= 0 ==> find_key(keys, k) < keys.len() && keys[find_key(keys, k)] == k
            && forall|j: int| 0 <= j < find_key(keys, k) ==> keys[j] != k,
        find_key(keys, k) < 0 ==> forall|j: int| 0 <= j < keys.len() ==> keys[j] != k,
    decreases keys.len(),
{
    if keys.len() > 0 {
        lemma_find_key(keys.drop_first(), k);
        let f = find_key(keys, k);
        if keys.first() != k {
            let r = find_key(keys.drop_first(), k);
            if r >= 0 {
                assert(keys.drop_first()[r] == k);
                assert(keys[r + 1] == keys.drop_first()[r]);
                assert forall|j: int| 0 <= j < f implies keys[j] != k by {
                    if j > 0 {
                        assert(keys.drop_first()[j - 1] != k);
                        assert(keys[j] == keys.drop_first()[j - 1]);
                    }
                }
            } else {
                assert forall|j: int| 0 <= j < keys.len() implies keys[j] != k by {
                    if j > 0 {
                        assert(keys.drop_first()[j - 1] != k);
                        assert(keys[j] == keys.drop_first()[j - 1]);
                    }
                }
            }
        }
    }
}

/// The key sequence after an insert: unchanged when the key is present,
/// extended otherwise.
pub open spec fn insert_keys(keys: Seq<Seq<char>>, k: Seq<char>) -> Seq<Seq<char>> {
    if find_key(keys, k) >= 0 {
        keys
    } else {
        keys.push(k)
    }
}

/// The value sequence after an insert: replaced in place when the key is
/// present, extended otherwise.
pub open spec fn insert_vals<V>(keys: Seq<Seq<char>>, vals: Seq<V>, k: Seq<char>, v: V) -> Seq<V> {
    let f = find_key(keys, k);
    if f >= 0 {
        vals.update(f, v)
    } else {
        vals.push(v)
    }
}

/// A key that differs from every key of a sequence is absent from it.
pub proof fn lemma_find_key_absent(keys: Seq<Seq<char>>, k: Seq<char>)
    requires
        forall|j: int| 0 <= j < keys.len() ==> keys[j] != k,
    ensures
        find_key(keys, k) < 0,
{
    lemma_find_key(keys, k);
    if find_key(keys, k) >= 0 {
        assert(keys[find_key(keys, k)] == k);
    }
}

/// An insertion-ordered mapping from strings to values.
pub struct KeyMap<V> {
    keys: Vec<String>,
    vals: Vec<V>,
}

impl<V: View> KeyMap<V> {
    /// The key sequence, in insertion order.
    pub closed spec fn keys(&self) -> Seq<Seq<char>> {
        self.keys@.map_values(|s: String| s@)
    }

    /// The value views, positionally matching `keys`.
    pub closed spec fn vals(&self) -> Seq<V::V> {
        self.vals@.map_values(|v: V| v@)
    }

    pub open spec fn wf(&self) -> bool {
        &&& self.keys().len() == self.vals().len()
        &&& forall|i: int, j: int|
            0 <= i < j < self.keys().len() ==> self.keys()[i] != self.keys()[j]
    }

    pub open spec fn spec_len(&self) -> nat {
        self.keys().len()
    }

    pub open spec fn contains_spec(&self, k: Seq<char>) -> bool {
        find_key(self.keys(), k) >= 0
    }

    /// The value stored for key `k`; meaningful only when the key is present.
    pub open spec fn val_of(&self, k: Seq<char>) -> V::V {
        self.vals()[find_key(self.keys(), k)]
    }

    pub fn new() -> (r: Self)
        ensures
            r.wf(),
            r.keys() =~= Seq::<Seq<char>>::empty(),
            r.vals() =~= Seq::<V::V>::empty(),
    {
        let r = KeyMap { keys: Vec::new(), vals: Vec::new() };
        proof {
            assert(r.keys() =~= Seq::<Seq<char>>::empty());
            assert(r.vals() =~= Seq::<V::V>::empty());
        }
        r
    }

    pub fn len(&self) -> (n: usize)
        requires
            self.wf(),
        ensures
            n == self.spec_len(),
    {
        self.keys.len()
    }

    /// Position of key `k`, or `None` when absent.
    fn index_of(&self, k: &str) -> (r: Option<usize>)
        requires
            self.wf(),
        ensures
            match r {
                Some(i) => i as int == find_key(self.keys(), k@),
                None => find_key(self.keys(), k@) < 0,
            },
    {
        let n = self.keys.len();
        let mut i: usize = 0;
        while i < n
            invariant
                self.wf(),
                i <= n,
                n == self.keys().len(),
                forall|j: int| 0 <= j < i ==> self.keys()[j] != k@,
            decreases n - i,
        {
            if crate::text::str_eq(self.keys[i].as_str(), k) {
                proof {
                    lemma_find_key(self.keys(), k@);
                    let f = find_key(self.keys(), k@);
                    assert(self.keys()[i as int] == self.keys@[i as int]@);
                    assert(self.keys()[i as int] == k@);
                    if f < 0 {
                        assert(self.keys()[i as int] != k@);
                        assert(false);
                    } else if f < i as int {
                        assert(self.keys()[f] == k@);
                        assert(false);
                    } else if f > i as int {
                        assert(self.keys()[i as int] != k@);
                        assert(false);
                    }
                }
                return Some(i);
            }
            i = i + 1;
        }
        proof {
            lemma_find_key(self.keys(), k@);
            if find_key(self.keys(), k@) >= 0 {
                assert(self.keys()[find_key(self.keys(), k@)] == k@);
            }
        }
        None
    }

    /// Position of key `k`, or `None` when absent.
    pub fn position(&self, k: &str) -> (r: Option<usize>)
        requires
            self.wf(),
        ensures
            match r {
                Some(i) => i as int == find_key(self.keys(), k@) && i < self.spec_len(),
                None => find_key(self.keys(), k@) < 0,
            },
    {
        let r = self.index_of(k);
        proof {
            lemma_find_key(self.keys(), k@);
        }
        r
    }

    pub fn contains_key(&self, k: &str) -> (r: bool)
        requires
            self.wf(),
        ensures
            r == self.contains_spec(k@),
    {
        self.index_of(k).is_some()
    }

    pub fn get(&self, k: &str) -> (r: Option<&V>)
        requires
            self.wf(),
        ensures
            match r {
                Some(v) => self.contains_spec(k@) && v@ == self.val_of(k@),
                None => !self.contains_spec(k@),
            },
    {
        match self.index_of(k) {
            Some(i) => {
                proof {
                    lemma_find_key(self.keys(), k@);
                }
                Some(&self.vals[i])
            },
            None => None,
        }
    }

    /// Insert or replace: an existing key keeps its position and takes the
    /// new value; a new key is appended.
    pub fn insert(&mut self, k: String, v: V)
        requires
            old(self).wf(),
        ensures
            final(self).wf(),
            final(self).keys() == insert_keys(old(self).keys(), k@),
            final(self).vals() == insert_vals(old(self).keys(), old(self).vals(), k@, v@),
    {
        let idx = self.index_of(k.as_str());
        match idx {
            Some(i) => {
                proof {
                    lemma_find_key(self.keys(), k@);
                }
                self.vals.set(i, v);
                proof {
                    let f = find_key(old(self).keys(), k@);
                    assert(self.keys() =~= old(self).keys());
                    assert(self.vals() =~= old(self).vals().update(f, v@));
                }
            },
            None => {
                proof {
                    lemma_find_key(self.keys(), k@);
                }
                self.keys.push(k);
                self.vals.push(v);
                proof {
                    assert(self.keys() =~= old(self).keys().push(k@));
                    assert(self.vals() =~= old(self).vals().push(v@));
                    assert forall|i: int, j: int|
                        0 <= i < j < self.keys().len() implies self.keys()[i] != self.keys()[j] by {
                        if j == self.keys().len() - 1 {
                            assert(old(self).keys()[i] != k@);
                        }
                    }
                }
            },
        }
    }

    /// The key at a position, for iteration.
    pub fn key_at(&self, i: usize) -> (r: &String)
        requires
            self.wf(),
            i < self.spec_len(),
        ensures
            r@ == self.keys()[i as int],
    {
        &self.keys[i]
    }

    /// The value at a position, for iteration.
    pub fn val_at(&self, i: usize) -> (r: &V)
        requires
            self.wf(),
            i < self.spec_len(),
        ensures
            r@ == self.vals()[i as int],
    {
        &self.vals[i]
    }

    pub fn clear(&mut self)
        ensures
            final(self).wf(),
            final(self).keys() =~= Seq::<Seq<char>>::empty(),
            final(self).vals() =~= Seq::<V::V>::empty(),
    {
        self.keys.clear();
        self.vals.clear();
        proof {
            assert(self.keys() =~= Seq::<Seq<char>>::empty());
            assert(self.vals() =~= Seq::<V::V>::empty());
        }
    }

    /// Replace the value at a position, keeping the key.
    pub fn set_val_at(&mut self, i: usize, v: V)
        requires
            old(self).wf(),
            i < old(self).spec_len(),
        ensures
            final(self).wf(),
            final(self).keys() == old(self).keys(),
            final(self).vals() == old(self).vals().update(i as int, v@),
    {
        self.vals.set(i, v);
        proof {
            assert(self.keys() =~= old(self).keys());
            assert(self.vals() =~= old(self).vals().update(i as int, v@));
        }
    }
}

} // verus!
