//! A capacity-bounded associative store with least-recently-used eviction.
//! Entries sit in one list, most recently used first; the list's order is
//! the promotion order, its tail the eviction victim. Keys are unique and
//! the entry count never passes the capacity.

use vstd::prelude::*;

verus! {

/// The cache: entries most recently used first, never more than `cap`.
pub struct LruCache<V> {
    entries: Vec<(u64, V)>,
    cap: usize,
}

/// Whether some entry of `s` carries key `k`.
pub open spec fn spec_has_key<V>(s: Seq<(u64, V)>, k: u64) -> bool {
    exists|i: int| 0 <= i < s.len() && s[i].0 == k
}

impl<V> LruCache<V> {
    pub closed spec fn spec_entries(&self) -> Seq<(u64, V)> {
        self.entries@
    }

    pub closed spec fn spec_cap(&self) -> int {
        self.cap as int
    }

    /// Keys are unique, the count is within the capacity, and the capacity
    /// is positive.
    pub open spec fn wf(&self) -> bool {
        &&& self.spec_cap() >= 1
        &&& self.spec_entries().len() <= self.spec_cap()
        &&& forall|i: int, j: int|
            0 <= i < j < self.spec_entries().len() ==> self.spec_entries()[i].0
                != self.spec_entries()[j].0
    }

    /// An empty cache of the given capacity.
    pub fn new(cap: usize) -> (r: LruCache<V>)
        requires
            cap >= 1,
        ensures
            r.wf(),
            r.spec_cap() == cap,
            r.spec_entries().len() == 0,
    {
        LruCache { entries: Vec::new(), cap }
    }

    /// The position of the entry carrying `k`, if any.
    fn find_key(&self, k: u64) -> (r: Option<usize>)
        ensures
            match r {
                Some(i) => i < self.spec_entries().len() && self.spec_entries()[i as int].0 == k,
                None => !spec_has_key(self.spec_entries(), k),
            },
    {
        let mut i: usize = 0;
        while i < self.entries.len()
            invariant
                i <= self.spec_entries().len(),
                forall|j: int| 0 <= j < i ==> self.spec_entries()[j].0 != k,
            decreases self.spec_entries().len() - i,
        {
            if self.entries[i].0 == k {
                return Some(i);
            }
            i = i + 1;
        }
        None
    }

    /// Store `v` under `k`, most recently used. An entry already under `k`
    /// hands back its old value; otherwise, at capacity, the least recently
    /// used entry is silently dropped.
    pub fn put(&mut self, k: u64, v: V) -> (r: Option<V>)
        requires
            old(self).wf(),
        ensures
            final(self).wf(),
            final(self).spec_cap() == old(self).spec_cap(),
            match r {
                Some(w) => exists|i: int|
                    0 <= i < old(self).spec_entries().len() && old(self).spec_entries()[i].0 == k
                        && w == old(self).spec_entries()[i].1 && final(self).spec_entries()
                        == seq![(k, v)] + old(self).spec_entries().remove(i),
                None => !spec_has_key(old(self).spec_entries(), k) && final(self).spec_entries()
                    == seq![(k, v)] + if old(self).spec_entries().len() == old(self).spec_cap() {
                    old(self).spec_entries().drop_last()
                } else {
                    old(self).spec_entries()
                },
            },
    {
        match self.find_key(k) {
            Some(i) => {
                let entry: (u64, V) = self.entries.remove(i);
                self.entries.insert(0, (k, v));
                proof {
                    lemma_front_insert_distinct(old(self).spec_entries(), i as int, k, v);
                }
                Some(entry.1)
            },
            None => {
                if self.entries.len() == self.cap {
                    let ghost before: Seq<(u64, V)> = self.entries@;
                    let _evicted: (u64, V) = self.entries.pop().unwrap();
                    self.entries.insert(0, (k, v));
                    proof {
                        assert(before.subrange(0, before.len() - 1) =~= before.drop_last());
                        lemma_front_insert_new(old(self).spec_entries().drop_last(), k, v);
                    }
                } else {
                    self.entries.insert(0, (k, v));
                    proof {
                        lemma_front_insert_new(old(self).spec_entries(), k, v);
                    }
                }
                None
            },
        }
    }

    /// Store `v` under `k`, most recently used, handing back whatever had
    /// to leave: the old entry under `k`, or the least recently used entry
    /// when the cache is full, or nothing.
    pub fn push(&mut self, k: u64, v: V) -> (r: Option<(u64, V)>)
        requires
            old(self).wf(),
        ensures
            final(self).wf(),
            final(self).spec_cap() == old(self).spec_cap(),
            match r {
                Some(kv) => (exists|i: int|
                    0 <= i < old(self).spec_entries().len() && old(self).spec_entries()[i].0 == k
                        && kv == (k, old(self).spec_entries()[i].1) && final(self).spec_entries()
                        == seq![(k, v)] + old(self).spec_entries().remove(i)) || (!spec_has_key(
                    old(self).spec_entries(),
                    k,
                ) && old(self).spec_entries().len() == old(self).spec_cap() && kv == old(
                    self,
                ).spec_entries().last() && final(self).spec_entries() == seq![(k, v)] + old(
                    self,
                ).spec_entries().drop_last()),
                None => !spec_has_key(old(self).spec_entries(), k) && old(
                    self,
                ).spec_entries().len() < old(self).spec_cap() && final(self).spec_entries()
                    == seq![(k, v)] + old(self).spec_entries(),
            },
    {
        match self.find_key(k) {
            Some(i) => {
                let entry: (u64, V) = self.entries.remove(i);
                self.entries.insert(0, (k, v));
                proof {
                    lemma_front_insert_distinct(old(self).spec_entries(), i as int, k, v);
                }
                Some((k, entry.1))
            },
            None => {
                if self.entries.len() == self.cap {
                    let ghost before: Seq<(u64, V)> = self.entries@;
                    let evicted: (u64, V) = self.entries.pop().unwrap();
                    self.entries.insert(0, (k, v));
                    proof {
                        assert(before.subrange(0, before.len() - 1) =~= before.drop_last());
                        lemma_front_insert_new(old(self).spec_entries().drop_last(), k, v);
                    }
                    Some(evicted)
                } else {
                    self.entries.insert(0, (k, v));
                    proof {
                        lemma_front_insert_new(old(self).spec_entries(), k, v);
                    }
                    None
                }
            },
        }
    }

    /// The value under `k`, promoted to most recently used.
    pub fn get(&mut self, k: u64) -> (r: Option<&V>)
        requires
            old(self).wf(),
        ensures
            final(self).wf(),
            final(self).spec_cap() == old(self).spec_cap(),
            match r {
                Some(v) => exists|i: int|
                    0 <= i < old(self).spec_entries().len() && old(self).spec_entries()[i].0 == k
                        && *v == old(self).spec_entries()[i].1 && final(self).spec_entries()
                        == seq![old(self).spec_entries()[i]] + old(self).spec_entries().remove(i),
                None => !spec_has_key(old(self).spec_entries(), k) && *final(self) == *old(self),
            },
    {
        match self.find_key(k) {
            Some(i) => {
                let entry: (u64, V) = self.entries.remove(i);
                self.entries.insert(0, entry);
                proof {
                    lemma_front_move_distinct(old(self).spec_entries(), i as int);
                }
                Some(&self.entries[0].1)
            },
            None => None,
        }
    }

    /// The value under `k`, with the use order untouched.
    pub fn peek(&self, k: u64) -> (r: Option<&V>)
        ensures
            match r {
                Some(v) => exists|i: int|
                    0 <= i < self.spec_entries().len() && self.spec_entries()[i].0 == k && *v
                        == self.spec_entries()[i].1,
                None => !spec_has_key(self.spec_entries(), k),
            },
    {
        match self.find_key(k) {
            Some(i) => Some(&self.entries[i].1),
            None => None,
        }
    }

    /// The least recently used entry, untouched.
    pub fn peek_lru(&self) -> (r: Option<&(u64, V)>)
        ensures
            match r {
                Some(kv) => self.spec_entries().len() > 0 && *kv == self.spec_entries().last(),
                None => self.spec_entries().len() == 0,
            },
    {
        if self.entries.len() == 0 {
            return None;
        }
        Some(&self.entries[self.entries.len() - 1])
    }

    /// The most recently used entry, untouched.
    pub fn peek_mru(&self) -> (r: Option<&(u64, V)>)
        ensures
            match r {
                Some(kv) => self.spec_entries().len() > 0 && *kv == self.spec_entries()[0],
                None => self.spec_entries().len() == 0,
            },
    {
        if self.entries.len() == 0 {
            return None;
        }
        Some(&self.entries[0])
    }

    /// Take the value under `k` out of the cache.
    pub fn pop(&mut self, k: u64) -> (r: Option<V>)
        requires
            old(self).wf(),
        ensures
            final(self).wf(),
            final(self).spec_cap() == old(self).spec_cap(),
            match r {
                Some(v) => exists|i: int|
                    0 <= i < old(self).spec_entries().len() && old(self).spec_entries()[i].0 == k
                        && v == old(self).spec_entries()[i].1 && final(self).spec_entries() == old(
                        self,
                    ).spec_entries().remove(i),
                None => !spec_has_key(old(self).spec_entries(), k) && *final(self) == *old(self),
            },
    {
        match self.find_key(k) {
            Some(i) => {
                let entry: (u64, V) = self.entries.remove(i);
                proof {
                    lemma_remove_distinct(old(self).spec_entries(), i as int);
                }
                Some(entry.1)
            },
            None => None,
        }
    }

    /// Take the whole entry under `k` out of the cache.
    pub fn pop_entry(&mut self, k: u64) -> (r: Option<(u64, V)>)
        requires
            old(self).wf(),
        ensures
            final(self).wf(),
            final(self).spec_cap() == old(self).spec_cap(),
            match r {
                Some(kv) => exists|i: int|
                    0 <= i < old(self).spec_entries().len() && old(self).spec_entries()[i].0 == k
                        && kv == old(self).spec_entries()[i] && final(self).spec_entries() == old(
                        self,
                    ).spec_entries().remove(i),
                None => !spec_has_key(old(self).spec_entries(), k) && *final(self) == *old(self),
            },
    {
        match self.find_key(k) {
            Some(i) => {
                let entry: (u64, V) = self.entries.remove(i);
                proof {
                    lemma_remove_distinct(old(self).spec_entries(), i as int);
                }
                Some(entry)
            },
            None => None,
        }
    }

    /// Take the least recently used entry out of the cache.
    pub fn pop_lru(&mut self) -> (r: Option<(u64, V)>)
        requires
            old(self).wf(),
        ensures
            final(self).wf(),
            final(self).spec_cap() == old(self).spec_cap(),
            match r {
                Some(kv) => old(self).spec_entries().len() > 0 && kv == old(
                    self,
                ).spec_entries().last() && final(self).spec_entries() == old(
                    self,
                ).spec_entries().drop_last(),
                None => old(self).spec_entries().len() == 0 && *final(self) == *old(self),
            },
    {
        if self.entries.len() == 0 {
            return None;
        }
        let ghost before: Seq<(u64, V)> = self.entries@;
        let kv: (u64, V) = self.entries.pop().unwrap();
        proof {
            assert(before.subrange(0, before.len() - 1) =~= before.drop_last());
            lemma_prefix_distinct(before, before.len() - 1);
        }
        Some(kv)
    }

    /// Take the most recently used entry out of the cache.
    pub fn pop_mru(&mut self) -> (r: Option<(u64, V)>)
        requires
            old(self).wf(),
        ensures
            final(self).wf(),
            final(self).spec_cap() == old(self).spec_cap(),
            match r {
                Some(kv) => old(self).spec_entries().len() > 0 && kv == old(
                    self,
                ).spec_entries()[0] && final(self).spec_entries() == old(
                    self,
                ).spec_entries().remove(0),
                None => old(self).spec_entries().len() == 0 && *final(self) == *old(self),
            },
    {
        if self.entries.len() == 0 {
            return None;
        }
        let entry: (u64, V) = self.entries.remove(0);
        proof {
            lemma_remove_distinct(old(self).spec_entries(), 0);
        }
        Some(entry)
    }

    /// Mark the entry under `k` most recently used. True when it exists.
    pub fn promote(&mut self, k: u64) -> (r: bool)
        requires
            old(self).wf(),
        ensures
            final(self).wf(),
            final(self).spec_cap() == old(self).spec_cap(),
            if r {
                exists|i: int|
                    0 <= i < old(self).spec_entries().len() && old(self).spec_entries()[i].0 == k
                        && final(self).spec_entries() == seq![old(self).spec_entries()[i]] + old(
                        self,
                    ).spec_entries().remove(i)
            } else {
                !spec_has_key(old(self).spec_entries(), k) && *final(self) == *old(self)
            },
    {
        match self.find_key(k) {
            Some(i) => {
                let entry: (u64, V) = self.entries.remove(i);
                self.entries.insert(0, entry);
                proof {
                    lemma_front_move_distinct(old(self).spec_entries(), i as int);
                }
                true
            },
            None => false,
        }
    }

    /// Mark the entry under `k` least recently used. True when it exists.
    pub fn demote(&mut self, k: u64) -> (r: bool)
        requires
            old(self).wf(),
        ensures
            final(self).wf(),
            final(self).spec_cap() == old(self).spec_cap(),
            if r {
                exists|i: int|
                    0 <= i < old(self).spec_entries().len() && old(self).spec_entries()[i].0 == k
                        && final(self).spec_entries() == old(self).spec_entries().remove(i)
                        + seq![old(self).spec_entries()[i]]
            } else {
                !spec_has_key(old(self).spec_entries(), k) && *final(self) == *old(self)
            },
    {
        match self.find_key(k) {
            Some(i) => {
                let entry: (u64, V) = self.entries.remove(i);
                self.entries.push(entry);
                proof {
                    lemma_back_move_distinct(old(self).spec_entries(), i as int);
                }
                true
            },
            None => false,
        }
    }

    /// Shrink or grow the capacity; whatever does not fit any more leaves,
    /// least recently used first.
    pub fn resize(&mut self, cap: usize) -> (r: ())
        requires
            old(self).wf(),
            cap >= 1,
        ensures
            final(self).wf(),
            final(self).spec_cap() == cap,
            final(self).spec_entries() == old(self).spec_entries().subrange(
                0,
                if old(self).spec_entries().len() <= cap {
                    old(self).spec_entries().len() as int
                } else {
                    cap as int
                },
            ),
    {
        proof {
            assert(self.entries@ =~= old(self).spec_entries().subrange(
                0,
                self.entries@.len() as int,
            ));
        }
        while self.entries.len() > cap
            invariant
                self.cap == old(self).cap,
                cap >= 1,
                self.entries@.len() <= old(self).spec_entries().len(),
                self.entries@ == old(self).spec_entries().subrange(0, self.entries@.len() as int),
                old(self).spec_entries().len() <= cap ==> self.entries@.len() == old(
                    self,
                ).spec_entries().len(),
                old(self).spec_entries().len() > cap ==> self.entries@.len() >= cap,
            decreases self.entries@.len(),
        {
            let _last: Option<(u64, V)> = self.entries.pop();
            proof {
                assert(self.entries@ =~= old(self).spec_entries().subrange(
                    0,
                    self.entries@.len() as int,
                ));
            }
        }
        self.cap = cap;
        proof {
            lemma_prefix_distinct(old(self).spec_entries(), self.entries@.len() as int);
            if old(self).spec_entries().len() <= cap {
                assert(self.entries@.len() == old(self).spec_entries().len());
            } else {
                assert(self.entries@.len() == cap);
            }
        }
    }

    /// Drop every entry.
    pub fn clear(&mut self)
        requires
            old(self).wf(),
        ensures
            final(self).wf(),
            final(self).spec_cap() == old(self).spec_cap(),
            final(self).spec_entries().len() == 0,
    {
        self.entries.clear();
    }

    /// Whether an entry carries `k`, with the use order untouched.
    pub fn contains(&self, k: u64) -> (r: bool)
        ensures
            r == spec_has_key(self.spec_entries(), k),
    {
        match self.find_key(k) {
            Some(_) => true,
            None => false,
        }
    }

    pub fn is_empty(&self) -> (r: bool)
        ensures
            r == (self.spec_entries().len() == 0),
    {
        self.entries.len() == 0
    }

    pub fn len(&self) -> (r: usize)
        ensures
            r == self.spec_entries().len(),
    {
        self.entries.len()
    }

    pub fn cap(&self) -> (r: usize)
        ensures
            r == self.spec_cap(),
    {
        self.cap
    }

    /// The entry at position `i` of the use order, most recently used
    /// first.
    pub fn entry_at(&self, i: usize) -> (r: &(u64, V))
        requires
            i < self.spec_entries().len(),
        ensures
            *r == self.spec_entries()[i as int],
    {
        &self.entries[i]
    }

    /// The keys, most recently used first.
    pub fn keys(&self) -> (r: Vec<u64>)
        ensures
            r@.len() == self.spec_entries().len(),
            forall|i: int| 0 <= i < r@.len() ==> r@[i] == self.spec_entries()[i].0,
    {
        let mut out: Vec<u64> = Vec::new();
        let mut i: usize = 0;
        while i < self.entries.len()
            invariant
                i <= self.spec_entries().len(),
                out@.len() == i,
                forall|j: int| 0 <= j < i ==> out@[j] == self.spec_entries()[j].0,
            decreases self.spec_entries().len() - i,
        {
            out.push(self.entries[i].0);
            i = i + 1;
        }
        out
    }
}

/// A prefix of a list with distinct keys has distinct keys.
proof fn lemma_prefix_distinct<V>(s: Seq<(u64, V)>, n: int)
    requires
        0 <= n <= s.len(),
        forall|a: int, b: int| 0 <= a < b < s.len() ==> s[a].0 != s[b].0,
    ensures
        forall|a: int, b: int|
            0 <= a < b < n ==> s.subrange(0, n)[a].0 != s.subrange(0, n)[b].0,
{
    assert forall|a: int, b: int|
        0 <= a < b < n implies s.subrange(0, n)[a].0 != s.subrange(0, n)[b].0 by {
        assert(s.subrange(0, n)[a] == s[a] && s.subrange(0, n)[b] == s[b]);
    }
}

/// Removing position `i` keeps keys distinct.
proof fn lemma_remove_distinct<V>(s: Seq<(u64, V)>, i: int)
    requires
        0 <= i < s.len(),
        forall|a: int, b: int| 0 <= a < b < s.len() ==> s[a].0 != s[b].0,
    ensures
        forall|a: int, b: int| 0 <= a < b < s.remove(i).len() ==> s.remove(i)[a].0 != s.remove(
            i,
        )[b].0,
{
    assert forall|a: int, b: int|
        0 <= a < b < s.remove(i).len() implies s.remove(i)[a].0 != s.remove(i)[b].0 by {
        let a0 = if a < i {
            a
        } else {
            a + 1
        };
        let b0 = if b < i {
            b
        } else {
            b + 1
        };
        assert(s.remove(i)[a] == s[a0] && s.remove(i)[b] == s[b0]);
    }
}

/// Taking the entry at `i` to the front keeps keys distinct and reorders
/// only.
proof fn lemma_front_move_distinct<V>(s: Seq<(u64, V)>, i: int)
    requires
        0 <= i < s.len(),
        forall|a: int, b: int| 0 <= a < b < s.len() ==> s[a].0 != s[b].0,
    ensures
        forall|a: int, b: int|
            0 <= a < b < (seq![s[i]] + s.remove(i)).len() ==> (seq![s[i]] + s.remove(i))[a].0 != (
            seq![s[i]] + s.remove(i))[b].0,
{
    lemma_remove_distinct(s, i);
    let t = seq![s[i]] + s.remove(i);
    assert forall|a: int, b: int| 0 <= a < b < t.len() implies t[a].0 != t[b].0 by {
        if a == 0 {
            let b0 = if b - 1 < i {
                b - 1
            } else {
                b
            };
            assert(t[b] == s[b0]);
            if b0 < i {
                assert(s[b0].0 != s[i].0);
            } else {
                assert(s[i].0 != s[b0].0);
            }
        } else {
            assert(t[a] == s.remove(i)[a - 1] && t[b] == s.remove(i)[b - 1]);
        }
    }
}

/// Taking the entry at `i` to the back keeps keys distinct.
proof fn lemma_back_move_distinct<V>(s: Seq<(u64, V)>, i: int)
    requires
        0 <= i < s.len(),
        forall|a: int, b: int| 0 <= a < b < s.len() ==> s[a].0 != s[b].0,
    ensures
        forall|a: int, b: int|
            0 <= a < b < (s.remove(i) + seq![s[i]]).len() ==> (s.remove(i) + seq![s[i]])[a].0 != (
            s.remove(i) + seq![s[i]])[b].0,
{
    lemma_remove_distinct(s, i);
    let t = s.remove(i) + seq![s[i]];
    assert forall|a: int, b: int| 0 <= a < b < t.len() implies t[a].0 != t[b].0 by {
        if b == t.len() - 1 {
            let a0 = if a < i {
                a
            } else {
                a + 1
            };
            assert(t[a] == s[a0]);
            if a0 < i {
                assert(s[a0].0 != s[i].0);
            } else {
                assert(s[i].0 != s[a0].0);
            }
        } else {
            assert(t[a] == s.remove(i)[a] && t[b] == s.remove(i)[b]);
        }
    }
}

/// Replacing the entry under `k` and fronting it keeps keys distinct.
proof fn lemma_front_insert_distinct<V>(s: Seq<(u64, V)>, i: int, k: u64, v: V)
    requires
        0 <= i < s.len(),
        s[i].0 == k,
        forall|a: int, b: int| 0 <= a < b < s.len() ==> s[a].0 != s[b].0,
    ensures
        forall|a: int, b: int|
            0 <= a < b < (seq![(k, v)] + s.remove(i)).len() ==> (seq![(k, v)] + s.remove(i))[a].0
                != (seq![(k, v)] + s.remove(i))[b].0,
{
    lemma_remove_distinct(s, i);
    let t = seq![(k, v)] + s.remove(i);
    assert forall|a: int, b: int| 0 <= a < b < t.len() implies t[a].0 != t[b].0 by {
        if a == 0 {
            let b0 = if b - 1 < i {
                b - 1
            } else {
                b
            };
            assert(t[b] == s[b0]);
            if b0 < i {
                assert(s[b0].0 != s[i].0);
            } else {
                assert(s[i].0 != s[b0].0);
            }
        } else {
            assert(t[a] == s.remove(i)[a - 1] && t[b] == s.remove(i)[b - 1]);
        }
    }
}

/// Fronting a key that is not in the list keeps keys distinct.
proof fn lemma_front_insert_new<V>(s: Seq<(u64, V)>, k: u64, v: V)
    requires
        !spec_has_key(s, k),
        forall|a: int, b: int| 0 <= a < b < s.len() ==> s[a].0 != s[b].0,
    ensures
        forall|a: int, b: int|
            0 <= a < b < (seq![(k, v)] + s).len() ==> (seq![(k, v)] + s)[a].0 != (seq![(k, v)]
                + s)[b].0,
{
    let t = seq![(k, v)] + s;
    assert forall|a: int, b: int| 0 <= a < b < t.len() implies t[a].0 != t[b].0 by {
        if a == 0 {
            assert(t[b] == s[b - 1]);
            if s[b - 1].0 == k {
                assert(spec_has_key(s, k));
            }
        } else {
            assert(t[a] == s[a - 1] && t[b] == s[b - 1]);
        }
    }
}

} // verus!
