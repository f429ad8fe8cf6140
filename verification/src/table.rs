//! Finite maps and sets keyed by strings and platforms, kept as vectors of
//! entries whose keys are pairwise distinct, and viewed as `Map` and `Set`.
use vstd::prelude::*;

verus! {

/// A key whose executable equality is the equality of its view.
pub trait Key: View + Sized {
    fn same_key(&self, other: &Self) -> (b: bool)
        ensures
            b == (self@ == other@),
    ;

    fn copy_key(&self) -> (r: Self)
        ensures
            r@ == self@,
    ;
}

impl Key for String {
    fn same_key(&self, other: &Self) -> (b: bool) {
        *self == *other
    }

    fn copy_key(&self) -> (r: Self) {
        self.clone()
    }
}

/// Entry `i` of `s` has key `k`.
pub open spec fn has_key_at<K: View, V>(s: Seq<(K, V)>, k: K::V, i: int) -> bool {
    0 <= i < s.len() && s[i].0@ == k
}

/// No two entries of `s` have the same key.
pub open spec fn keys_distinct<K: View, V>(s: Seq<(K, V)>) -> bool {
    forall|i: int, j: int|
        0 <= i < s.len() && 0 <= j < s.len() && i != j ==> #[trigger] s[i].0@ != #[trigger] s[j].0@
}

/// The map that a sequence of entries stands for.
pub open spec fn pairs_view<K: View, V: View>(s: Seq<(K, V)>) -> Map<K::V, V::V> {
    Map::new(
        |k: K::V| exists|i: int| has_key_at(s, k, i),
        |k: K::V| s[choose|i: int| has_key_at(s, k, i)].1@,
    )
}

/// With distinct keys, entry `i` is what the map holds at its key.
pub proof fn lemma_pairs_view_at<K: View, V: View>(s: Seq<(K, V)>, i: int)
    requires
        keys_distinct(s),
        0 <= i < s.len(),
    ensures
        pairs_view(s).contains_key(s[i].0@),
        pairs_view(s)[s[i].0@] == s[i].1@,
{
    assert(has_key_at(s, s[i].0@, i));
    let j = choose|j: int| has_key_at(s, s[i].0@, j);
    assert(j == i);
}

/// The map's keys are exactly the entries' keys.
pub proof fn lemma_pairs_view_dom<K: View, V: View>(s: Seq<(K, V)>, k: K::V)
    ensures
        pairs_view(s).contains_key(k) <==> exists|i: int| has_key_at(s, k, i),
{
}

proof fn lemma_pairs_view_update<K: View, V: View>(s: Seq<(K, V)>, i: int, e: (K, V))
    requires
        keys_distinct(s),
        0 <= i < s.len(),
        e.0@ == s[i].0@,
    ensures
        keys_distinct(s.update(i, e)),
        pairs_view(s.update(i, e)) == pairs_view(s).insert(e.0@, e.1@),
{
    let t = s.update(i, e);
    assert(keys_distinct(t)) by {
        assert forall|a: int, b: int|
            0 <= a < t.len() && 0 <= b < t.len() && a != b implies #[trigger] t[a].0@
            != #[trigger] t[b].0@ by {
            assert(s[a].0@ != s[b].0@);
        }
    }
    let m = pairs_view(s).insert(e.0@, e.1@);
    assert forall|k: K::V| #[trigger] pairs_view(t).contains_key(k) <==> m.contains_key(k) by {
        if pairs_view(t).contains_key(k) {
            let j = choose|j: int| has_key_at(t, k, j);
            if j != i {
                assert(has_key_at(s, k, j));
            }
        }
        if m.contains_key(k) {
            if k == e.0@ {
                assert(has_key_at(t, k, i));
            } else {
                let j = choose|j: int| has_key_at(s, k, j);
                assert(has_key_at(t, k, j));
            }
        }
    }
    assert forall|k: K::V| #[trigger] pairs_view(t).contains_key(k) implies pairs_view(t)[k]
        == m[k] by {
        let j = choose|j: int| has_key_at(t, k, j);
        lemma_pairs_view_at(t, j);
        if j != i {
            lemma_pairs_view_at(s, j);
        }
    }
    assert(pairs_view(t) =~= m);
}

proof fn lemma_pairs_view_push<K: View, V: View>(s: Seq<(K, V)>, e: (K, V))
    requires
        keys_distinct(s),
        !pairs_view(s).contains_key(e.0@),
    ensures
        keys_distinct(s.push(e)),
        pairs_view(s.push(e)) == pairs_view(s).insert(e.0@, e.1@),
{
    let t = s.push(e);
    let n = s.len() as int;
    assert(keys_distinct(t)) by {
        assert forall|a: int, b: int|
            0 <= a < t.len() && 0 <= b < t.len() && a != b implies #[trigger] t[a].0@
            != #[trigger] t[b].0@ by {
            if a == n {
                assert(!has_key_at(s, e.0@, b));
            } else if b == n {
                assert(!has_key_at(s, e.0@, a));
            } else {
                assert(s[a].0@ != s[b].0@);
            }
        }
    }
    let m = pairs_view(s).insert(e.0@, e.1@);
    assert forall|k: K::V| #[trigger] pairs_view(t).contains_key(k) <==> m.contains_key(k) by {
        if pairs_view(t).contains_key(k) {
            let j = choose|j: int| has_key_at(t, k, j);
            if j != n {
                assert(has_key_at(s, k, j));
            }
        }
        if m.contains_key(k) {
            if k == e.0@ {
                assert(has_key_at(t, k, n));
            } else {
                let j = choose|j: int| has_key_at(s, k, j);
                assert(has_key_at(t, k, j));
            }
        }
    }
    assert forall|k: K::V| #[trigger] pairs_view(t).contains_key(k) implies pairs_view(t)[k]
        == m[k] by {
        let j = choose|j: int| has_key_at(t, k, j);
        lemma_pairs_view_at(t, j);
        if j != n {
            lemma_pairs_view_at(s, j);
        }
    }
    assert(pairs_view(t) =~= m);
}

proof fn lemma_pairs_view_remove<K: View, V: View>(s: Seq<(K, V)>, i: int)
    requires
        keys_distinct(s),
        0 <= i < s.len(),
    ensures
        keys_distinct(s.remove(i)),
        pairs_view(s.remove(i)) == pairs_view(s).remove(s[i].0@),
{
    let t = s.remove(i);
    assert forall|a: int| 0 <= a < t.len() implies #[trigger] t[a] == (if a < i {
        s[a]
    } else {
        s[a + 1]
    }) by {}
    assert(keys_distinct(t)) by {
        assert forall|a: int, b: int|
            0 <= a < t.len() && 0 <= b < t.len() && a != b implies #[trigger] t[a].0@
            != #[trigger] t[b].0@ by {
            let a2 = if a < i {
                a
            } else {
                a + 1
            };
            let b2 = if b < i {
                b
            } else {
                b + 1
            };
            assert(s[a2].0@ != s[b2].0@);
        }
    }
    let m = pairs_view(s).remove(s[i].0@);
    assert forall|k: K::V| #[trigger] pairs_view(t).contains_key(k) <==> m.contains_key(k) by {
        if pairs_view(t).contains_key(k) {
            let j = choose|j: int| has_key_at(t, k, j);
            let j2 = if j < i {
                j
            } else {
                j + 1
            };
            assert(has_key_at(s, k, j2));
            assert(s[j2].0@ != s[i].0@);
        }
        if m.contains_key(k) {
            let j = choose|j: int| has_key_at(s, k, j);
            assert(j != i);
            let j2 = if j < i {
                j
            } else {
                j - 1
            };
            assert(has_key_at(t, k, j2));
        }
    }
    assert forall|k: K::V| #[trigger] pairs_view(t).contains_key(k) implies pairs_view(t)[k]
        == m[k] by {
        let j = choose|j: int| has_key_at(t, k, j);
        let j2 = if j < i {
            j
        } else {
            j + 1
        };
        lemma_pairs_view_at(t, j);
        lemma_pairs_view_at(s, j2);
    }
    assert(pairs_view(t) =~= m);
}

/// A finite map from keys to values.
pub struct Table<K: View, V: View> {
    entries: Vec<(K, V)>,
}

impl<K: View, V: View> Table<K, V> {
    #[verifier::type_invariant]
    spec fn keys_unique(&self) -> bool {
        keys_distinct(self.entries@)
    }
}

impl<K: View, V: View> View for Table<K, V> {
    type V = Map<K::V, V::V>;

    closed spec fn view(&self) -> Map<K::V, V::V> {
        pairs_view(self.entries@)
    }
}

impl<K: Key, V: View> Table<K, V> {
    /// The empty table.
    pub fn new() -> (r: Self)
        ensures
            r@ == Map::<K::V, V::V>::empty(),
    {
        let r = Table { entries: Vec::new() };
        assert(r@ =~= Map::<K::V, V::V>::empty());
        r
    }

    fn index_of(&self, k: &K) -> (r: Option<usize>)
        ensures
            match r {
                Some(i) => i < self.entries@.len() && self.entries@[i as int].0@ == k@,
                None => !self@.contains_key(k@),
            },
    {
        let mut i: usize = 0;
        while i < self.entries.len()
            invariant
                i <= self.entries@.len(),
                forall|j: int| 0 <= j < i ==> !has_key_at(self.entries@, k@, j),
            decreases self.entries@.len() - i,
        {
            if self.entries[i].0.same_key(k) {
                return Some(i);
            }
            i += 1;
        }
        None
    }

    /// The value at `k`, if any.
    pub fn get(&self, k: &K) -> (r: Option<&V>)
        ensures
            match r {
                Some(v) => self@.contains_key(k@) && v@ == self@[k@],
                None => !self@.contains_key(k@),
            },
    {
        proof {
            use_type_invariant(self);
        }
        match self.index_of(k) {
            Some(i) => {
                proof {
                    lemma_pairs_view_at(self.entries@, i as int);
                }
                Some(&self.entries[i].1)
            },
            None => None,
        }
    }

    pub fn contains_key(&self, k: &K) -> (r: bool)
        ensures
            r == self@.contains_key(k@),
    {
        self.get(k).is_some()
    }

    /// Sets the value at `k`.
    pub fn insert(&mut self, k: K, v: V)
        ensures
            final(self)@ == old(self)@.insert(k@, v@),
    {
        proof {
            use_type_invariant(&*self);
        }
        match self.index_of(&k) {
            Some(i) => {
                proof {
                    lemma_pairs_view_update(self.entries@, i as int, (k, v));
                }
                let mut entries: Vec<(K, V)> = Vec::new();
                std::mem::swap(&mut entries, &mut self.entries);
                entries[i] = (k, v);
                self.entries = entries;
            },
            None => {
                proof {
                    lemma_pairs_view_push(self.entries@, (k, v));
                }
                let mut entries: Vec<(K, V)> = Vec::new();
                std::mem::swap(&mut entries, &mut self.entries);
                entries.push((k, v));
                self.entries = entries;
            },
        }
    }

    /// Removes the entry at `k` and hands its value back.
    pub fn take(&mut self, k: &K) -> (r: Option<V>)
        ensures
            final(self)@ == old(self)@.remove(k@),
            match r {
                Some(v) => old(self)@.contains_key(k@) && v@ == old(self)@[k@],
                None => !old(self)@.contains_key(k@),
            },
    {
        proof {
            use_type_invariant(&*self);
        }
        match self.index_of(k) {
            Some(i) => {
                proof {
                    lemma_pairs_view_at(self.entries@, i as int);
                    lemma_pairs_view_remove(self.entries@, i as int);
                }
                let mut entries: Vec<(K, V)> = Vec::new();
                std::mem::swap(&mut entries, &mut self.entries);
                let (_, v) = entries.remove(i);
                self.entries = entries;
                Some(v)
            },
            None => {
                assert(old(self)@.remove(k@) =~= old(self)@);
                None
            },
        }
    }

    /// The entries, each key once, in no particular order.
    pub fn entries(&self) -> (r: &Vec<(K, V)>)
        ensures
            keys_distinct(r@),
            pairs_view(r@) == self@,
    {
        proof {
            use_type_invariant(self);
        }
        &self.entries
    }

    /// The entries, each key once, in no particular order.
    pub fn into_entries(self) -> (r: Vec<(K, V)>)
        ensures
            keys_distinct(r@),
            pairs_view(r@) == self@,
    {
        proof {
            use_type_invariant(&self);
        }
        self.entries
    }
}

/// A finite set of names.
pub struct NameSet {
    table: Table<String, bool>,
}

impl View for NameSet {
    type V = Set<Seq<char>>;

    closed spec fn view(&self) -> Set<Seq<char>> {
        self.table@.dom()
    }
}

impl NameSet {
    /// The empty set.
    pub fn new() -> (r: Self)
        ensures
            r@ == Set::<Seq<char>>::empty(),
    {
        let r = NameSet { table: Table::new() };
        assert(r@ =~= Set::<Seq<char>>::empty());
        r
    }

    pub fn contains(&self, s: &String) -> (r: bool)
        ensures
            r == self@.contains(s@),
    {
        self.table.contains_key(s)
    }

    pub fn insert(&mut self, s: String)
        ensures
            final(self)@ == old(self)@.insert(s@),
    {
        self.table.insert(s, true);
        assert(self@ =~= old(self)@.insert(s@));
    }

    /// The names, each once, in no particular order.
    pub fn to_vec(&self) -> (r: Vec<String>)
        ensures
            forall|i: int, j: int|
                0 <= i < r@.len() && 0 <= j < r@.len() && i != j ==> r@[i]@ != r@[j]@,
            forall|s: Seq<char>| #[trigger] self@.contains(s) <==> exists|i: int| 0 <= i < r@.len() && r@[i]@ == s,
    {
        let entries = self.table.entries();
        let mut r: Vec<String> = Vec::new();
        let mut i: usize = 0;
        while i < entries.len()
            invariant
                i <= entries@.len(),
                keys_distinct(entries@),
                r@.len() == i,
                forall|j: int| 0 <= j < i ==> #[trigger] r@[j]@ == entries@[j].0@,
            decreases entries@.len() - i,
        {
            r.push(entries[i].0.clone());
            i += 1;
        }
        assert forall|a: int, b: int|
            0 <= a < r@.len() && 0 <= b < r@.len() && a != b implies r@[a]@ != r@[b]@ by {
            assert(entries@[a].0@ != entries@[b].0@);
        }
        assert forall|s: Seq<char>| #[trigger] self@.contains(s) <==> exists|i: int| 0 <= i < r@.len() && r@[i]@ == s by {
            lemma_pairs_view_dom(entries@, s);
            if self@.contains(s) {
                let j = choose|j: int| has_key_at(entries@, s, j);
                assert(r@[j]@ == s);
            }
            if exists|i: int| 0 <= i < r@.len() && r@[i]@ == s {
                let j = choose|j: int| 0 <= j < r@.len() && r@[j]@ == s;
                assert(has_key_at(entries@, s, j));
            }
        }
        r
    }
}

} // verus!
