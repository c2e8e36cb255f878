//! A keyed table: string keys, one value per key, in insertion order.

use vstd::prelude::*;

verus! {

/// True when no two rows of `s` carry the same key.
pub open spec fn keys_unique<V>(s: Seq<(String, V)>) -> bool {
    forall|i: int, j: int|
        0 <= i < s.len() && 0 <= j < s.len() && #[trigger] s[i].0@ == #[trigger] s[j].0@ ==> i == j
}

/// True when some row of `s` carries key `k`.
pub open spec fn has_key<V>(s: Seq<(String, V)>, k: Seq<char>) -> bool {
    exists|i: int| 0 <= i < s.len() && #[trigger] s[i].0@ == k
}

/// The value of the row that carries key `k`.
pub open spec fn value_of<V>(s: Seq<(String, V)>, k: Seq<char>) -> V {
    s[choose|i: int| 0 <= i < s.len() && #[trigger] s[i].0@ == k].1
}

/// The rows of `s` as a map from key to value.
pub open spec fn rows_map<V>(s: Seq<(String, V)>) -> Map<Seq<char>, V> {
    Map::new(|k: Seq<char>| has_key(s, k), |k: Seq<char>| value_of(s, k))
}

/// A table of rows keyed by strings.
pub struct Table<V> {
    rows: Vec<(String, V)>,
}

impl<V> View for Table<V> {
    type V = Map<Seq<char>, V>;

    closed spec fn view(&self) -> Map<Seq<char>, V> {
        rows_map(self.rows@)
    }
}

impl<V> Table<V> {
    /// Well-formedness: each key occurs in one row at most.
    pub closed spec fn wf(&self) -> bool {
        keys_unique(self.rows@)
    }

    /// The number of rows.
    pub closed spec fn spec_len(&self) -> nat {
        self.rows@.len()
    }

    /// The key of the row at position `i`.
    pub closed spec fn key_at(&self, i: int) -> Seq<char> {
        self.rows@[i].0@
    }

    /// Every key of the table sits at some position, and every position holds a key of the table.
    pub proof fn lemma_positions(&self)
        requires
            self.wf(),
        ensures
            forall|k: Seq<char>|
                self@.contains_key(k) <==> exists|i: int|
                    0 <= i < self.spec_len() && #[trigger] self.key_at(i) == k,
            forall|i: int, j: int|
                0 <= i < self.spec_len() && 0 <= j < self.spec_len() && #[trigger] self.key_at(i)
                    == #[trigger] self.key_at(j) ==> i == j,
    {
        assert forall|k: Seq<char>|
            self@.contains_key(k) <==> exists|i: int|
                0 <= i < self.spec_len() && #[trigger] self.key_at(i) == k by {
            if self@.contains_key(k) {
                let i = choose|i: int| 0 <= i < self.rows@.len() && #[trigger] self.rows@[i].0@ == k;
                assert(self.key_at(i) == k);
            }
            if exists|i: int| 0 <= i < self.spec_len() && #[trigger] self.key_at(i) == k {
                let i = choose|i: int| 0 <= i < self.spec_len() && #[trigger] self.key_at(i) == k;
                assert(self.rows@[i].0@ == k);
            }
        }
    }

    /// An empty table.
    pub fn new() -> (t: Self)
        ensures
            t.wf(),
            t@ == Map::<Seq<char>, V>::empty(),
            t.spec_len() == 0,
    {
        let t = Table { rows: Vec::new() };
        assert(t@ =~= Map::<Seq<char>, V>::empty());
        t
    }

    /// The position of the row keyed `k`, if any.
    fn position(&self, k: &String) -> (r: Option<usize>)
        requires
            self.wf(),
        ensures
            match r {
                Some(i) => i < self.rows@.len() && self.rows@[i as int].0@ == k@,
                None => !has_key(self.rows@, k@),
            },
    {
        let mut i: usize = 0;
        while i < self.rows.len()
            invariant
                i <= self.rows@.len(),
                forall|j: int| 0 <= j < i ==> #[trigger] self.rows@[j].0@ != k@,
            decreases self.rows@.len() - i,
        {
            if self.rows[i].0 == *k {
                return Some(i);
            }
            i = i + 1;
        }
        None
    }

    /// The value stored under `k`.
    pub fn get(&self, k: &String) -> (r: Option<&V>)
        requires
            self.wf(),
        ensures
            match r {
                Some(v) => self@.contains_key(k@) && self@[k@] == *v,
                None => !self@.contains_key(k@),
            },
    {
        match self.position(k) {
            Some(i) => {
                let ghost j = choose|j: int| 0 <= j < self.rows@.len() && #[trigger] self.rows@[j].0@ == k@;
                assert(self.rows@[j].0@ == self.rows@[i as int].0@);
                Some(&self.rows[i].1)
            },
            None => None,
        }
    }

    /// True when a row is keyed `k`.
    pub fn contains(&self, k: &String) -> (r: bool)
        requires
            self.wf(),
        ensures
            r == self@.contains_key(k@),
    {
        self.position(k).is_some()
    }

    /// Stores `v` under `k`, replacing the value there before.
    pub fn insert(&mut self, k: String, v: V)
        requires
            old(self).wf(),
        ensures
            final(self).wf(),
            final(self)@ == old(self)@.insert(k@, v),
            final(self).spec_len() == old(self).spec_len() + (if old(self)@.contains_key(k@) { 0int } else { 1int }),
    {
        let ghost s0 = self.rows@;
        let ghost kv = k@;
        match self.position(&k) {
            Some(i) => {
                self.rows.set(i, (k, v));
                let ghost s1 = self.rows@;
                assert forall|a: int, b: int|
                    0 <= a < s1.len() && 0 <= b < s1.len() && #[trigger] s1[a].0@ == #[trigger] s1[b].0@ implies a == b by {
                    assert(s0[a].0@ == s1[a].0@);
                    assert(s0[b].0@ == s1[b].0@);
                }
                assert forall|q: Seq<char>| #[trigger] has_key(s1, q) == has_key(s0, q) by {
                    if has_key(s1, q) {
                        let a = choose|a: int| 0 <= a < s1.len() && #[trigger] s1[a].0@ == q;
                        assert(s0[a].0@ == q);
                    }
                    if has_key(s0, q) {
                        let a = choose|a: int| 0 <= a < s0.len() && #[trigger] s0[a].0@ == q;
                        assert(s1[a].0@ == q);
                    }
                }
                assert forall|q: Seq<char>| has_key(s1, q) implies #[trigger] value_of(s1, q) == (if q == kv { v } else { value_of(s0, q) }) by {
                    let a = choose|a: int| 0 <= a < s1.len() && #[trigger] s1[a].0@ == q;
                    assert(s0[a].0@ == q);
                    let b = choose|b: int| 0 <= b < s0.len() && #[trigger] s0[b].0@ == q;
                    if q == kv {
                        assert(a == i);
                    } else {
                        assert(a != i);
                        assert(s1[a].0@ == s1[b].0@);
                    }
                }
                assert(self@ =~= old(self)@.insert(kv, v));
            },
            None => {
                self.rows.push((k, v));
                let ghost s1 = self.rows@;
                let ghost n = s0.len() as int;
                assert(s1[n].0@ == kv);
                assert forall|a: int, b: int|
                    0 <= a < s1.len() && 0 <= b < s1.len() && #[trigger] s1[a].0@ == #[trigger] s1[b].0@ implies a == b by {
                    if a < n && b < n {
                        assert(s0[a].0@ == s0[b].0@);
                    } else if a < n {
                        assert(s0[a].0@ == kv);
                    } else if b < n {
                        assert(s0[b].0@ == kv);
                    }
                }
                assert forall|q: Seq<char>| #[trigger] has_key(s1, q) == (has_key(s0, q) || q == kv) by {
                    if has_key(s1, q) {
                        let a = choose|a: int| 0 <= a < s1.len() && #[trigger] s1[a].0@ == q;
                        if a < n {
                            assert(s0[a].0@ == q);
                        }
                    }
                    if has_key(s0, q) {
                        let a = choose|a: int| 0 <= a < s0.len() && #[trigger] s0[a].0@ == q;
                        assert(s1[a].0@ == q);
                    }
                }
                assert forall|q: Seq<char>| has_key(s1, q) implies #[trigger] value_of(s1, q) == (if q == kv { v } else { value_of(s0, q) }) by {
                    let a = choose|a: int| 0 <= a < s1.len() && #[trigger] s1[a].0@ == q;
                    if q == kv {
                        assert(s1[a].0@ == s1[n].0@);
                    } else {
                        assert(a < n);
                        assert(s0[a].0@ == q);
                        let b = choose|b: int| 0 <= b < s0.len() && #[trigger] s0[b].0@ == q;
                        assert(s1[b].0@ == q);
                        assert(s1[a].0@ == s1[b].0@);
                    }
                }
                assert(self@ =~= old(self)@.insert(kv, v));
            },
        }
    }

    /// Removes the row keyed `k`, handing back its value.
    pub fn remove(&mut self, k: &String) -> (r: Option<V>)
        requires
            old(self).wf(),
        ensures
            final(self).wf(),
            final(self)@ == old(self)@.remove(k@),
            match r {
                Some(v) => old(self)@.contains_key(k@) && old(self)@[k@] == v,
                None => !old(self)@.contains_key(k@),
            },
    {
        let ghost s0 = self.rows@;
        let ghost kv = k@;
        match self.position(k) {
            Some(i) => {
                let ghost j = choose|j: int| 0 <= j < s0.len() && #[trigger] s0[j].0@ == kv;
                assert(s0[j].0@ == s0[i as int].0@);
                let (_, v) = self.rows.remove(i);
                let ghost s1 = self.rows@;
                let ghost ii = i as int;
                assert forall|a: int| 0 <= a < s1.len() implies #[trigger] s1[a] == (if a < ii { s0[a] } else { s0[a + 1] }) by {}
                assert forall|a: int, b: int|
                    0 <= a < s1.len() && 0 <= b < s1.len() && #[trigger] s1[a].0@ == #[trigger] s1[b].0@ implies a == b by {
                    let a0 = if a < ii { a } else { a + 1 };
                    let b0 = if b < ii { b } else { b + 1 };
                    assert(s1[a] == s0[a0]);
                    assert(s1[b] == s0[b0]);
                    assert(s0[a0].0@ == s0[b0].0@);
                }
                assert forall|q: Seq<char>| #[trigger] has_key(s1, q) == (has_key(s0, q) && q != kv) by {
                    if has_key(s1, q) {
                        let a = choose|a: int| 0 <= a < s1.len() && #[trigger] s1[a].0@ == q;
                        let a0 = if a < ii { a } else { a + 1 };
                        assert(s1[a] == s0[a0]);
                        assert(s0[a0].0@ == q);
                        if q == kv {
                            assert(s0[a0].0@ == s0[ii].0@);
                        }
                    }
                    if has_key(s0, q) && q != kv {
                        let a = choose|a: int| 0 <= a < s0.len() && #[trigger] s0[a].0@ == q;
                        assert(a != ii);
                        let a1 = if a < ii { a } else { a - 1 };
                        assert(s1[a1] == s0[a]);
                        assert(s1[a1].0@ == q);
                    }
                }
                assert forall|q: Seq<char>| has_key(s1, q) implies #[trigger] value_of(s1, q) == value_of(s0, q) by {
                    let a = choose|a: int| 0 <= a < s1.len() && #[trigger] s1[a].0@ == q;
                    let a0 = if a < ii { a } else { a + 1 };
                    assert(s1[a] == s0[a0]);
                    let b = choose|b: int| 0 <= b < s0.len() && #[trigger] s0[b].0@ == q;
                    assert(s0[a0].0@ == s0[b].0@);
                }
                assert(self@ =~= old(self)@.remove(kv));
                Some(v)
            },
            None => {
                assert(self@ =~= old(self)@.remove(kv));
                None
            },
        }
    }

    /// The number of rows.
    pub fn len(&self) -> (r: usize)
        ensures
            r == self.spec_len(),
    {
        self.rows.len()
    }

    /// The key of the row at position `i`.
    pub fn key(&self, i: usize) -> (r: &String)
        requires
            i < self.spec_len(),
        ensures
            r@ == self.key_at(i as int),
    {
        &self.rows[i].0
    }

    /// The value of the row at position `i`.
    pub fn value(&self, i: usize) -> (r: &V)
        requires
            self.wf(),
            i < self.spec_len(),
        ensures
            self@.contains_key(self.key_at(i as int)),
            *r == self@[self.key_at(i as int)],
    {
        let ghost k = self.rows@[i as int].0@;
        let ghost j = choose|j: int| 0 <= j < self.rows@.len() && #[trigger] self.rows@[j].0@ == k;
        assert(self.rows@[j].0@ == self.rows@[i as int].0@);
        &self.rows[i].1
    }

    /// The keys of all rows, each once.
    pub fn keys(&self) -> (r: Vec<String>)
        requires
            self.wf(),
        ensures
            forall|i: int| 0 <= i < r@.len() ==> self@.contains_key(#[trigger] r@[i]@),
            forall|k: Seq<char>| #[trigger] self@.contains_key(k) ==> exists|i: int| 0 <= i < r@.len() && #[trigger] r@[i]@ == k,
            forall|i: int, j: int| 0 <= i < r@.len() && 0 <= j < r@.len() && #[trigger] r@[i]@ == #[trigger] r@[j]@ ==> i == j,
    {
        proof { self.lemma_positions(); }
        let mut out: Vec<String> = Vec::new();
        let mut i: usize = 0;
        while i < self.rows.len()
            invariant
                self.wf(),
                i <= self.rows@.len(),
                out@.len() == i,
                forall|j: int| 0 <= j < i ==> #[trigger] out@[j]@ == self.rows@[j].0@,
            decreases self.rows@.len() - i,
        {
            let k = self.rows[i].0.clone();
            let ghost prev = out@;
            out.push(k);
            assert forall|j: int| 0 <= j < i + 1 implies #[trigger] out@[j]@ == self.rows@[j].0@ by {
                if j < i {
                    assert(out@[j] == prev[j]);
                }
            }
            i = i + 1;
        }
        assert forall|a: int| 0 <= a < out@.len() implies self@.contains_key(#[trigger] out@[a]@) by {
            assert(self.key_at(a) == out@[a]@);
        }
        assert forall|k: Seq<char>| #[trigger] self@.contains_key(k) implies exists|a: int| 0 <= a < out@.len() && #[trigger] out@[a]@ == k by {
            let a = choose|a: int| 0 <= a < self.spec_len() && #[trigger] self.key_at(a) == k;
            assert(out@[a]@ == k);
        }
        assert forall|a: int, b: int| 0 <= a < out@.len() && 0 <= b < out@.len() && #[trigger] out@[a]@ == #[trigger] out@[b]@ implies a == b by {
            assert(self.key_at(a) == out@[a]@);
            assert(self.key_at(b) == out@[b]@);
        }
        out
    }

    /// The key set is finite and has one key per row.
    pub proof fn lemma_len(&self)
        requires
            self.wf(),
        ensures
            self@.dom().finite(),
            self@.dom().len() == self.spec_len(),
    {
        let ks = self.rows@.map_values(|e: (String, V)| e.0@);
        assert(ks.no_duplicates()) by {
            assert forall|i: int, j: int| 0 <= i < ks.len() && 0 <= j < ks.len() && i != j implies ks[i] != ks[j] by {
                assert(ks[i] == self.rows@[i].0@);
                assert(ks[j] == self.rows@[j].0@);
            }
        }
        ks.unique_seq_to_set();
        assert forall|k: Seq<char>| #[trigger] self@.dom().contains(k) <==> ks.to_set().contains(k) by {
            if self@.dom().contains(k) {
                let i = choose|i: int| 0 <= i < self.rows@.len() && #[trigger] self.rows@[i].0@ == k;
                assert(ks[i] == k);
            }
            if ks.to_set().contains(k) {
                let i = choose|i: int| 0 <= i < ks.len() && ks[i] == k;
                assert(self.rows@[i].0@ == k);
            }
        }
        assert(self@.dom() =~= ks.to_set());
    }

    /// Copies of all values, in row order: the value at position `i` is a
    /// clone of the row at position `i`.
    pub fn values(&self) -> (r: Vec<V>)
        where V: Clone
        requires
            self.wf(),
        ensures
            r@.len() == self.spec_len(),
            forall|i: int| 0 <= i < r@.len() ==> self@.contains_key(#[trigger] self.key_at(i))
                && cloned::<V>(self@[self.key_at(i)], r@[i]),
    {
        let mut out: Vec<V> = Vec::new();
        let mut i: usize = 0;
        while i < self.rows.len()
            invariant
                self.wf(),
                i <= self.rows@.len(),
                out@.len() == i,
                forall|j: int| 0 <= j < i ==> self@.contains_key(#[trigger] self.key_at(j))
                    && cloned::<V>(self@[self.key_at(j)], out@[j]),
            decreases self.rows@.len() - i,
        {
            let v = self.value(i);
            let c = v.clone();
            let ghost prev = out@;
            out.push(c);
            assert forall|j: int| 0 <= j < i + 1 implies self@.contains_key(#[trigger] self.key_at(j))
                && cloned::<V>(self@[self.key_at(j)], out@[j]) by {
                if j < i {
                    assert(out@[j] == prev[j]);
                }
            }
            i = i + 1;
        }
        out
    }
}

} // verus!
