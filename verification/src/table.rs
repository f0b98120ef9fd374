//! Key-value storage with a mathematical map as its meaning.
use crate::address::Address;
use vstd::prelude::*;

verus! {

/// Keys that can be compared for equality.
pub trait Key: Sized {
    fn same(&self, other: &Self) -> (b: bool)
        ensures
            b == (*self == *other),
    ;
}

impl Key for u32 {
    fn same(&self, other: &Self) -> (b: bool) {
        *self == *other
    }
}

impl Key for u64 {
    fn same(&self, other: &Self) -> (b: bool) {
        *self == *other
    }
}

impl Key for Address {
    fn same(&self, other: &Self) -> (b: bool) {
        *self == *other
    }
}

impl Key for (u64, u32) {
    fn same(&self, other: &Self) -> (b: bool) {
        self.0 == other.0 && self.1 == other.1
    }
}

impl Key for (u64, Address) {
    fn same(&self, other: &Self) -> (b: bool) {
        self.0 == other.0 && self.1 == other.1
    }
}

impl Key for (Address, Address) {
    fn same(&self, other: &Self) -> (b: bool) {
        self.0 == other.0 && self.1 == other.1
    }
}

/// What `m` holds for `k`, or `default` where it holds nothing.
pub open spec fn lookup<K, V>(m: Map<K, V>, k: K, default: V) -> V {
    if m.dom().contains(k) {
        m[k]
    } else {
        default
    }
}

/// What `m` holds for `k`, if anything.
pub open spec fn find<K, V>(m: Map<K, V>, k: K) -> Option<V> {
    if m.dom().contains(k) {
        Some(m[k])
    } else {
        None
    }
}

/// Reading gives back what was written last under the key, and nothing or the default
/// where nothing is; writing or removing under one key is not seen under another.
pub proof fn law_reads_give_back_writes<K, V>(m: Map<K, V>, k: K, v: V, other: K, default: V)
    requires
        other != k,
    ensures
        find(m.insert(k, v), k) == Some(v),
        find(m.remove(k), k) == None::<V>,
        find(m.insert(k, v), other) == find(m, other),
        find(m.remove(k), other) == find(m, other),
        (find(m, k) is Some) == m.dom().contains(k),
        m.dom().contains(k) ==> find(m, k) == Some(m[k]),
        lookup(m.insert(k, v), k, default) == v,
        lookup(m.remove(k), k, default) == default,
        lookup(m, k, default) == (match find(m, k) {
            Some(x) => x,
            None => default,
        }),
{
}

/// The map that a sequence of writes leaves behind: a later entry hides an
/// earlier one with the same key.
pub open spec fn written<K, V>(entries: Seq<(K, V)>) -> Map<K, V>
    decreases entries.len(),
{
    if entries.len() == 0 {
        Map::empty()
    } else {
        written(entries.drop_last()).insert(entries.last().0, entries.last().1)
    }
}

proof fn lemma_written_finite<K, V>(entries: Seq<(K, V)>)
    ensures
        written(entries).dom().finite(),
    decreases entries.len(),
{
    if entries.len() > 0 {
        lemma_written_finite(entries.drop_last());
    }
}

proof fn lemma_written_absent<K, V>(entries: Seq<(K, V)>, k: K)
    requires
        forall|j: int| 0 <= j < entries.len() ==> (#[trigger] entries[j]).0 != k,
    ensures
        !written(entries).dom().contains(k),
    decreases entries.len(),
{
    if entries.len() > 0 {
        let front = entries.drop_last();
        assert forall|j: int| 0 <= j < front.len() implies (#[trigger] front[j]).0 != k by {
            assert(front[j] == entries[j]);
        }
        lemma_written_absent(front, k);
        assert(entries.last() == entries[entries.len() - 1]);
    }
}

proof fn lemma_written_at<K, V>(entries: Seq<(K, V)>, k: K, i: int)
    requires
        0 <= i < entries.len(),
        entries[i].0 == k,
        forall|j: int| i < j < entries.len() ==> (#[trigger] entries[j]).0 != k,
    ensures
        written(entries).dom().contains(k),
        written(entries)[k] == entries[i].1,
    decreases entries.len(),
{
    if i < entries.len() - 1 {
        let front = entries.drop_last();
        assert forall|j: int| i < j < front.len() implies (#[trigger] front[j]).0 != k by {
            assert(front[j] == entries[j]);
        }
        lemma_written_at(front, k, i);
        assert(entries.last() == entries[entries.len() - 1]);
    }
}

proof fn lemma_written_update<K, V>(entries: Seq<(K, V)>, k: K, v: V, i: int)
    requires
        0 <= i < entries.len(),
        entries[i].0 == k,
        forall|j: int| i < j < entries.len() ==> (#[trigger] entries[j]).0 != k,
    ensures
        written(entries.update(i, (k, v))) == written(entries).insert(k, v),
    decreases entries.len(),
{
    let front = entries.drop_last();
    let after = entries.update(i, (k, v));
    if i == entries.len() - 1 {
        assert(after.drop_last() =~= front);
        assert(written(after) =~= written(entries).insert(k, v));
    } else {
        assert forall|j: int| i < j < front.len() implies (#[trigger] front[j]).0 != k by {
            assert(front[j] == entries[j]);
        }
        lemma_written_update(front, k, v, i);
        assert(after.drop_last() =~= front.update(i, (k, v)));
        assert(entries.last() == entries[entries.len() - 1]);
        assert(after.last() == entries.last());
        assert(written(after) =~= written(entries).insert(k, v));
    }
}

proof fn lemma_written_drop<K, V>(entries: Seq<(K, V)>, k: K, i: int)
    requires
        0 <= i < entries.len(),
        entries[i].0 == k,
    ensures
        written(entries.remove(i)).remove(k) == written(entries).remove(k),
    decreases entries.len(),
{
    let front = entries.drop_last();
    let after = entries.remove(i);
    if i == entries.len() - 1 {
        assert(after =~= front);
        assert(written(after).remove(k) =~= written(entries).remove(k));
    } else {
        lemma_written_drop(front, k, i);
        assert(after.drop_last() =~= front.remove(i));
        assert(after.last() == entries.last());
        let w1 = written(front.remove(i));
        let w2 = written(front);
        let l = entries.last();
        assert(w1.insert(l.0, l.1).remove(k) =~= w2.insert(l.0, l.1).remove(k)) by {
            assert forall|x: K| x != k implies w1.dom().contains(x) == w2.dom().contains(x) by {
                assert(w1.remove(k).dom().contains(x) == w2.remove(k).dom().contains(x));
            }
            assert forall|x: K| x != k && w1.dom().contains(x) implies w1[x] == w2[x] by {
                assert(w1.remove(k)[x] == w2.remove(k)[x]);
            }
        }
    }
}

/// One kind of stored entry, by key. An entry that was never written, was
/// removed, or is no longer live on the ledger is simply not in the map.
#[derive(Clone, Debug)]
pub struct Table<K, V> {
    entries: Vec<(K, V)>,
}

impl<K, V> View for Table<K, V> {
    type V = Map<K, V>;

    closed spec fn view(&self) -> Map<K, V> {
        written(self.entries@)
    }
}

impl<K: Key, V> Table<K, V> {
    /// Only finitely many keys are ever present.
    pub broadcast proof fn lemma_finite(&self)
        ensures
            #[trigger] self@.dom().finite(),
    {
        lemma_written_finite(self.entries@);
    }

    pub fn new() -> (t: Self)
        ensures
            t@ == Map::<K, V>::empty(),
    {
        Table { entries: Vec::new() }
    }

    /// Position of the entry that decides the value of `k`.
    fn position(&self, k: &K) -> (p: Option<usize>)
        ensures
            match p {
                Some(i) => {
                    &&& i < self.entries@.len()
                    &&& self.entries@[i as int].0 == *k
                    &&& forall|j: int|
                        i < j < self.entries@.len() ==> (#[trigger] self.entries@[j]).0 != *k
                },
                None => forall|j: int|
                    0 <= j < self.entries@.len() ==> (#[trigger] self.entries@[j]).0 != *k,
            },
    {
        let mut i: usize = self.entries.len();
        while i > 0
            invariant
                i <= self.entries@.len(),
                forall|j: int|
                    i <= j < self.entries@.len() ==> (#[trigger] self.entries@[j]).0 != *k,
            decreases i,
        {
            if self.entries[i - 1].0.same(k) {
                return Some(i - 1);
            }
            i = i - 1;
        }
        None
    }

    pub fn get(&self, k: K) -> (v: Option<&V>)
        ensures
            match v {
                Some(x) => self@.dom().contains(k) && *x == self@[k],
                None => !self@.dom().contains(k),
            },
    {
        match self.position(&k) {
            Some(i) => {
                proof {
                    lemma_written_at(self.entries@, k, i as int);
                }
                Some(&self.entries[i].1)
            },
            None => {
                proof {
                    lemma_written_absent(self.entries@, k);
                }
                None
            },
        }
    }

    pub fn has(&self, k: K) -> (b: bool)
        ensures
            b == self@.dom().contains(k),
    {
        self.get(k).is_some()
    }

    pub fn set(&mut self, k: K, v: V)
        ensures
            final(self)@ == old(self)@.insert(k, v),
    {
        match self.position(&k) {
            Some(i) => {
                proof {
                    lemma_written_update(self.entries@, k, v, i as int);
                }
                self.entries.set(i, (k, v));
            },
            None => {
                let ghost before = self.entries@;
                self.entries.push((k, v));
                assert(self.entries@.drop_last() =~= before);
            },
        }
    }

    pub fn remove(&mut self, k: K)
        ensures
            final(self)@ == old(self)@.remove(k),
    {
        let ghost start = self.entries@;
        let mut found: Option<usize> = self.position(&k);
        while found.is_some()
            invariant
                written(self.entries@).remove(k) == written(start).remove(k),
                match found {
                    Some(i) => i < self.entries@.len() && self.entries@[i as int].0 == k,
                    None => forall|j: int|
                        0 <= j < self.entries@.len() ==> (#[trigger] self.entries@[j]).0 != k,
                },
            decreases self.entries@.len(),
        {
            if let Some(i) = found {
                proof {
                    lemma_written_drop(self.entries@, k, i as int);
                }
                self.entries.remove(i);
                found = self.position(&k);
            }
        }
        proof {
            lemma_written_absent(self.entries@, k);
            assert(written(self.entries@).remove(k) =~= written(self.entries@));
        }
    }
}

impl<K: Key, V: Copy> Table<K, V> {
    pub fn get_or(&self, k: K, default: V) -> (v: V)
        ensures
            v == lookup(self@, k, default),
    {
        match self.get(k) {
            Some(v) => *v,
            None => default,
        }
    }

    pub fn find(&self, k: K) -> (v: Option<V>)
        ensures
            v == find(self@, k),
    {
        match self.get(k) {
            Some(v) => Some(*v),
            None => None,
        }
    }
}

} // verus!
