//! A key-value store of strings in which each key occurs at most once.
use vstd::prelude::*;

verus! {

/// Key-value pairs in insertion order, each key present at most once.
#[derive(Debug, PartialEq, Eq)]
pub struct Store {
    pub entries: Vec<(String, String)>,
}

/// Some entry of `entries` has the key `k`.
pub open spec fn has_key(entries: Seq<(String, String)>, k: Seq<char>) -> bool {
    exists|i: int| 0 <= i < entries.len() && (#[trigger] entries[i]).0@ == k
}

/// The position of the entry with key `k` (meaningful when `has_key` holds).
pub open spec fn key_index(entries: Seq<(String, String)>, k: Seq<char>) -> int {
    choose|i: int| 0 <= i < entries.len() && (#[trigger] entries[i]).0@ == k
}

/// No two entries share a key.
pub open spec fn keys_unique(entries: Seq<(String, String)>) -> bool {
    forall|i: int, j: int|
        0 <= i < entries.len() && 0 <= j < entries.len() && i != j ==> (#[trigger] entries[i]).0@
            != (#[trigger] entries[j]).0@
}

/// The entries after storing `v` under `k`: the value of an existing entry is
/// replaced in place, otherwise a new entry is appended.
pub open spec fn inserted(entries: Seq<(String, String)>, k: String, v: String) -> Seq<(String, String)> {
    if has_key(entries, k@) {
        entries.update(key_index(entries, k@), (k, v))
    } else {
        entries.push((k, v))
    }
}

/// The entries after storing each pair of `data` in order.
pub open spec fn merged(entries: Seq<(String, String)>, data: Seq<(String, String)>) -> Seq<(String, String)>
    decreases data.len(),
{
    if data.len() == 0 {
        entries
    } else {
        let last = data.last();
        inserted(merged(entries, data.drop_last()), last.0, last.1)
    }
}

/// The keys of `entries`, in order.
pub open spec fn keys_of(entries: Seq<(String, String)>) -> Seq<String> {
    entries.map_values(|e: (String, String)| e.0)
}

/// The values of `entries`, in order.
pub open spec fn values_of(entries: Seq<(String, String)>) -> Seq<String> {
    entries.map_values(|e: (String, String)| e.1)
}

impl Store {
    /// Keys are unique.
    pub open spec fn wf(&self) -> bool {
        keys_unique(self.entries@)
    }

    /// The stored map from keys to values.
    pub open spec fn map(&self) -> Map<Seq<char>, Seq<char>> {
        map_of(self.entries@)
    }

    /// An empty store.
    pub fn new() -> (s: Store)
        ensures
            s.wf(),
            s.entries@.len() == 0,
    {
        Store { entries: Vec::new() }
    }

    /// Whether no two entries share a key.
    pub fn has_unique_keys(&self) -> (r: bool)
        ensures
            r == self.wf(),
    {
        let n: usize = self.entries.len();
        let mut i: usize = 0;
        while i < n
            invariant
                n == self.entries@.len(),
                i <= n,
                forall|a: int, b: int|
                    0 <= a < i && 0 <= b < n && a != b ==> (#[trigger] self.entries@[a]).0@
                        != (#[trigger] self.entries@[b]).0@,
            decreases n - i,
        {
            let mut j: usize = 0;
            while j < n
                invariant
                    n == self.entries@.len(),
                    i < n,
                    j <= n,
                    forall|a: int, b: int|
                        0 <= a < i && 0 <= b < n && a != b ==> (#[trigger] self.entries@[a]).0@
                            != (#[trigger] self.entries@[b]).0@,
                    forall|b: int|
                        0 <= b < j && b != i ==> self.entries@[i as int].0@ != (
                        #[trigger] self.entries@[b]).0@,
                decreases n - j,
            {
                if j != i && self.entries[i].0 == self.entries[j].0 {
                    return false;
                }
                j = j + 1;
            }
            i = i + 1;
        }
        true
    }

    /// Number of entries.
    pub fn len(&self) -> (n: usize)
        ensures
            n == self.entries@.len(),
    {
        self.entries.len()
    }

    /// Whether the store has no entry.
    pub fn is_empty(&self) -> (b: bool)
        ensures
            b == (self.entries@.len() == 0),
    {
        self.entries.len() == 0
    }

    /// Position of the entry whose key is `k`, if any.
    pub fn find(&self, k: &String) -> (r: Option<usize>)
        requires
            self.wf(),
        ensures
            r is None <==> !has_key(self.entries@, k@),
            r matches Some(i) ==> i == key_index(self.entries@, k@) && i < self.entries@.len()
                && self.entries@[i as int].0@ == k@,
    {
        let mut i: usize = 0;
        while i < self.entries.len()
            invariant
                i <= self.entries@.len(),
                self.wf(),
                forall|j: int| 0 <= j < i ==> (#[trigger] self.entries@[j]).0@ != k@,
            decreases self.entries@.len() - i,
        {
            if self.entries[i].0 == *k {
                proof {
                    lemma_key_index_unique(self.entries@, i as int);
                }
                return Some(i);
            }
            i = i + 1;
        }
        None
    }

    /// The value stored under `k`, if any.
    pub fn get(&self, k: &String) -> (r: Option<String>)
        requires
            self.wf(),
        ensures
            r is None <==> !self.map().contains_key(k@),
            r matches Some(v) ==> v == self.entries@[key_index(self.entries@, k@)].1 && v@
                == self.map()[k@],
    {
        match self.find(k) {
            Some(i) => Some(self.entries[i].1.clone()),
            None => None,
        }
    }

    /// Stores `v` under `k`, replacing any earlier value.
    pub fn insert(&mut self, k: String, v: String)
        requires
            old(self).wf(),
        ensures
            final(self).wf(),
            final(self).entries@ == inserted(old(self).entries@, k, v),
            final(self).map() == old(self).map().insert(k@, v@),
    {
        let ghost pre = self.entries@;
        match self.find(&k) {
            Some(i) => {
                self.entries.set(i, (k, v));
            },
            None => {
                self.entries.push((k, v));
            },
        }
        proof {
            lemma_inserted_wf(pre, k, v);
            lemma_inserted_map(pre, k, v);
        }
    }

    /// Stores every pair of `data`, in order.
    pub fn merge(&mut self, data: Vec<(String, String)>)
        requires
            old(self).wf(),
        ensures
            final(self).wf(),
            final(self).entries@ == merged(old(self).entries@, data@),
    {
        let ghost pre = self.entries@;
        let mut rest = data;
        let mut taken: Vec<(String, String)> = Vec::new();
        // Reverse into `taken` so that pairs can be popped in their original order.
        while rest.len() > 0
            invariant
                rest@ + taken@.reverse() == data@,
            decreases rest@.len(),
        {
            let p = rest.pop().unwrap();
            proof {
                assert(rest@ + taken@.push(p).reverse() =~= data@) by {
                    assert(taken@.push(p).reverse() =~= seq![p] + taken@.reverse());
                }
            }
            taken.push(p);
        }
        assert(taken@.reverse() =~= data@);
        let ghost mut done: Seq<(String, String)> = Seq::empty();
        while taken.len() > 0
            invariant
                self.wf(),
                done + taken@.reverse() == data@,
                self.entries@ == merged(pre, done),
            decreases taken@.len(),
        {
            let p = taken.pop().unwrap();
            proof {
                assert(taken@.push(p).reverse() =~= seq![p] + taken@.reverse());
                let nd = done.push(p);
                assert(nd.drop_last() =~= done);
                assert(nd + taken@.reverse() =~= data@);
            }
            let (k, v) = p;
            self.insert(k, v);
            proof {
                done = done.push(p);
            }
        }
        assert(done =~= data@);
    }

    /// Removes every entry.
    pub fn clear(&mut self)
        ensures
            final(self).wf(),
            final(self).entries@.len() == 0,
    {
        self.entries.clear();
    }

    /// A copy of every key, in entry order.
    pub fn keys(&self) -> (r: Vec<String>)
        ensures
            r@ == keys_of(self.entries@),
    {
        let mut out: Vec<String> = Vec::new();
        let mut i: usize = 0;
        while i < self.entries.len()
            invariant
                i <= self.entries@.len(),
                out@ == keys_of(self.entries@).take(i as int),
            decreases self.entries@.len() - i,
        {
            out.push(self.entries[i].0.clone());
            proof {
                assert(keys_of(self.entries@).take(i + 1) =~= keys_of(self.entries@).take(
                    i as int,
                ).push(self.entries@[i as int].0));
            }
            i = i + 1;
        }
        assert(keys_of(self.entries@).take(i as int) =~= keys_of(self.entries@));
        out
    }

    /// Appends a copy of every stored value, in entry order, to `out`.
    pub fn push_values(&self, out: &mut Vec<String>)
        ensures
            final(out)@ == old(out)@ + values_of(self.entries@),
    {
        let ghost start = out@;
        let mut i: usize = 0;
        while i < self.entries.len()
            invariant
                i <= self.entries@.len(),
                out@ == start + values_of(self.entries@).take(i as int),
            decreases self.entries@.len() - i,
        {
            out.push(self.entries[i].1.clone());
            proof {
                assert(values_of(self.entries@).take(i + 1) =~= values_of(self.entries@).take(
                    i as int,
                ).push(self.entries@[i as int].1));
            }
            i = i + 1;
        }
        assert(values_of(self.entries@).take(i as int) =~= values_of(self.entries@));
    }
}

/// Storing a pair keeps the keys unique.
pub proof fn lemma_inserted_wf(entries: Seq<(String, String)>, k: String, v: String)
    requires
        keys_unique(entries),
    ensures
        keys_unique(inserted(entries, k, v)),
{
    let r = inserted(entries, k, v);
    if has_key(entries, k@) {
        let c: int = key_index(entries, k@);
        assert forall|i: int, j: int|
            0 <= i < r.len() && 0 <= j < r.len() && i != j implies (#[trigger] r[i]).0@
            != (#[trigger] r[j]).0@ by {
            if i != c && j != c {
                assert(r[i] == entries[i] && r[j] == entries[j]);
            } else if i == c {
                assert(entries[c].0@ == k@);
                assert(r[j] == entries[j]);
            } else {
                assert(entries[c].0@ == k@);
                assert(r[i] == entries[i]);
            }
        }
    } else {
        assert forall|i: int, j: int|
            0 <= i < r.len() && 0 <= j < r.len() && i != j implies (#[trigger] r[i]).0@
            != (#[trigger] r[j]).0@ by {
            if i < entries.len() && j < entries.len() {
                assert(r[i] == entries[i] && r[j] == entries[j]);
            } else if i < entries.len() {
                assert(r[i] == entries[i]);
            } else {
                assert(r[j] == entries[j]);
            }
        }
    }
}

/// In a store with unique keys, the position found for a key is the only one holding it.
pub proof fn lemma_key_index_unique(entries: Seq<(String, String)>, i: int)
    requires
        keys_unique(entries),
        0 <= i < entries.len(),
    ensures
        has_key(entries, entries[i].0@),
        key_index(entries, entries[i].0@) == i,
{
    let k = entries[i].0@;
    assert(has_key(entries, k));
    let c: int = key_index(entries, k);
    assert(entries[c].0@ == k);
}

/// The map from keys to values that `entries` holds.
pub open spec fn map_of(entries: Seq<(String, String)>) -> Map<Seq<char>, Seq<char>> {
    Map::new(|k: Seq<char>| has_key(entries, k), |k: Seq<char>| entries[key_index(entries, k)].1@)
}

/// Storing a pair updates the map at that key alone.
pub proof fn lemma_inserted_map(entries: Seq<(String, String)>, k: String, v: String)
    requires
        keys_unique(entries),
    ensures
        map_of(inserted(entries, k, v)) == map_of(entries).insert(k@, v@),
{
    let r = inserted(entries, k, v);
    lemma_inserted_wf(entries, k, v);
    let pos: int = if has_key(entries, k@) { key_index(entries, k@) } else { entries.len() as int };
    assert(r[pos] == (k, v));
    lemma_key_index_unique(r, pos);
    assert forall|q: Seq<char>| q != k@ implies has_key(r, q) == has_key(entries, q) && (has_key(entries, q) ==> r[key_index(r, q)].1@ == entries[key_index(entries, q)].1@) by {
        if has_key(entries, q) {
            let i: int = key_index(entries, q);
            assert(i != pos);
            assert(r[i] == entries[i]);
            lemma_key_index_unique(r, i);
        }
        if has_key(r, q) {
            let i: int = key_index(r, q);
            assert(i != pos);
            assert(r[i] == entries[i]);
        }
    }
    assert(map_of(r) =~= map_of(entries).insert(k@, v@));
}

/// Storing a sequence of pairs keeps the keys unique.
pub proof fn lemma_merged_wf(entries: Seq<(String, String)>, data: Seq<(String, String)>)
    requires
        keys_unique(entries),
    ensures
        keys_unique(merged(entries, data)),
    decreases data.len(),
{
    if data.len() > 0 {
        lemma_merged_wf(entries, data.drop_last());
        lemma_inserted_wf(merged(entries, data.drop_last()), data.last().0, data.last().1);
    }
}

/// Storing pairs with distinct keys into a store yields the stored map updated
/// by the map of those pairs: everything stored before stays unless a pair
/// replaces it, and every pair is there.
pub proof fn lemma_merged_map(entries: Seq<(String, String)>, data: Seq<(String, String)>)
    requires
        keys_unique(entries),
        keys_unique(data),
    ensures
        map_of(merged(entries, data)) == map_of(entries).union_prefer_right(map_of(data)),
    decreases data.len(),
{
    if data.len() == 0 {
        assert(map_of(data) =~= Map::<Seq<char>, Seq<char>>::empty());
        assert(map_of(entries).union_prefer_right(map_of(data)) =~= map_of(entries));
    } else {
        let dl = data.drop_last();
        let x = data.last();
        assert(keys_unique(dl)) by {
            assert forall|i: int, j: int|
                0 <= i < dl.len() && 0 <= j < dl.len() && i != j implies (#[trigger] dl[i]).0@
                != (#[trigger] dl[j]).0@ by {
                assert(dl[i] == data[i] && dl[j] == data[j]);
            }
        }
        lemma_merged_map(entries, dl);
        lemma_merged_wf(entries, dl);
        lemma_inserted_map(merged(entries, dl), x.0, x.1);
        // The last pair's key is new among the others, so the pairs' map is
        // the others' map with it added.
        assert(!has_key(dl, x.0@)) by {
            if has_key(dl, x.0@) {
                let i = key_index(dl, x.0@);
                assert(data[i] == dl[i]);
                assert(data[data.len() - 1] == x);
            }
        }
        assert(inserted(dl, x.0, x.1) =~= data);
        lemma_inserted_map(dl, x.0, x.1);
        assert(map_of(entries).union_prefer_right(map_of(dl)).insert(x.0@, x.1@) =~= map_of(
            entries,
        ).union_prefer_right(map_of(dl).insert(x.0@, x.1@)));
    }
}

} // verus!
