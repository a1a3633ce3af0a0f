//! A map from string keys to running tasks.
//!
//! Both discovery watchers keep one task per live key. Inserting into the map
//! starts work, and whatever the map hands back (a replaced or removed entry,
//! the entries a new snapshot no longer names) is the work to cancel.

use vstd::prelude::*;

verus! {

/// The set of keys that a snapshot names.
pub open spec fn keys_of(snapshot: Seq<String>) -> Set<Seq<char>> {
    Set::new(|k: Seq<char>| exists|j: int| 0 <= j < snapshot.len() && snapshot[j]@ == k)
}

/// Whether `task` is what `start` returns for some key whose text is `key`.
pub open spec fn started_by<T, F: Fn(&String) -> T>(start: F, key: Seq<char>, task: T) -> bool {
    exists|s: String| s@ == key && start.ensures((&s,), task)
}

/// Tasks keyed by string, at most one per key.
pub struct TaskMap<T> {
    entries: Vec<(String, T)>,
}

impl<T> TaskMap<T> {
    pub closed spec fn view(&self) -> Map<Seq<char>, T> {
        Map::new(
            |k: Seq<char>| exists|i: int| 0 <= i < self.entries@.len() && self.entries@[i].0@ == k,
            |k: Seq<char>| self.entries@[self.index_of(k)].1,
        )
    }

    closed spec fn index_of(&self, k: Seq<char>) -> int {
        choose|i: int| 0 <= i < self.entries@.len() && self.entries@[i].0@ == k
    }

    /// Each key appears once.
    pub closed spec fn wf(&self) -> bool {
        forall|i: int, j: int|
            0 <= i < j < self.entries@.len() ==> self.entries@[i].0@ != self.entries@[j].0@
    }

    proof fn lemma_entry(&self, i: int)
        requires
            self.wf(),
            0 <= i < self.entries@.len(),
        ensures
            self@.contains_key(self.entries@[i].0@),
            self@[self.entries@[i].0@] == self.entries@[i].1,
    {
        let k = self.entries@[i].0@;
        assert(self@.dom().contains(k));
        let j = self.index_of(k);
        if i != j {
            if i < j {
                assert(self.entries@[i].0@ != self.entries@[j].0@);
            } else {
                assert(self.entries@[j].0@ != self.entries@[i].0@);
            }
        }
    }

    /// An empty map.
    pub fn new() -> (r: TaskMap<T>)
        ensures
            r.wf(),
            r@ == Map::<Seq<char>, T>::empty(),
    {
        let r = TaskMap { entries: Vec::new() };
        assert(r@ =~= Map::<Seq<char>, T>::empty());
        r
    }

    fn find(&self, key: &String) -> (r: Option<usize>)
        requires
            self.wf(),
        ensures
            match r {
                Some(i) => i < self.entries@.len() && self.entries@[i as int].0@ == key@,
                None => !self@.contains_key(key@),
            },
    {
        let mut i: usize = 0;
        while i < self.entries.len()
            invariant
                i <= self.entries@.len(),
                forall|j: int| 0 <= j < i ==> self.entries@[j].0@ != key@,
            decreases self.entries@.len() - i,
        {
            if self.entries[i].0 == *key {
                return Some(i);
            }
            i = i + 1;
        }
        None
    }

    proof fn lemma_removed(&self, pre: TaskMap<T>, i: int)
        requires
            pre.wf(),
            0 <= i < pre.entries@.len(),
            self.entries@ == pre.entries@.remove(i),
        ensures
            self.wf(),
            self@ == pre@.remove(pre.entries@[i].0@),
    {
        let k = pre.entries@[i].0@;
        assert forall|a: int, b: int| 0 <= a < b < self.entries@.len() implies self.entries@[a].0@
            != self.entries@[b].0@ by {
            let a2 = if a < i { a } else { a + 1 };
            let b2 = if b < i { b } else { b + 1 };
            assert(self.entries@[a] == pre.entries@[a2]);
            assert(self.entries@[b] == pre.entries@[b2]);
        }
        assert forall|n: Seq<char>| #[trigger] self@.contains_key(n) implies pre@.remove(
            k,
        ).contains_key(n) && self@[n] == pre@.remove(k)[n] by {
            let a = self.index_of(n);
            let a2 = if a < i { a } else { a + 1 };
            assert(self.entries@[a] == pre.entries@[a2]);
            self.lemma_entry(a);
            pre.lemma_entry(a2);
            if n == k {
                if a2 < i {
                    assert(pre.entries@[a2].0@ != pre.entries@[i].0@);
                } else {
                    assert(pre.entries@[i].0@ != pre.entries@[a2].0@);
                }
            }
        }
        assert forall|n: Seq<char>| #[trigger] pre@.remove(k).contains_key(n) implies self@.contains_key(
            n,
        ) by {
            let b = pre.index_of(n);
            assert(b != i);
            let b2 = if b < i { b } else { b - 1 };
            assert(self.entries@[b2] == pre.entries@[b]);
            self.lemma_entry(b2);
        }
        assert(self@ =~= pre@.remove(k));
    }

    proof fn lemma_pushed(&self, pre: TaskMap<T>, key: Seq<char>, task: T)
        requires
            pre.wf(),
            !pre@.contains_key(key),
            self.entries@.len() == pre.entries@.len() + 1,
            self.entries@.drop_last() == pre.entries@,
            self.entries@.last().0@ == key,
            self.entries@.last().1 == task,
        ensures
            self.wf(),
            self@ == pre@.insert(key, task),
    {
        let last = pre.entries@.len() as int;
        assert forall|a: int| 0 <= a < last implies #[trigger] self.entries@[a] == pre.entries@[a] by {
            assert(self.entries@.drop_last()[a] == self.entries@[a]);
        }
        assert forall|a: int, b: int| 0 <= a < b < self.entries@.len() implies self.entries@[a].0@
            != self.entries@[b].0@ by {
            if b == last {
                pre.lemma_entry(a);
            }
        }
        assert forall|n: Seq<char>| #[trigger] self@.contains_key(n) implies pre@.insert(
            key,
            task,
        ).contains_key(n) && self@[n] == pre@.insert(key, task)[n] by {
            let a = self.index_of(n);
            self.lemma_entry(a);
            if a != last {
                pre.lemma_entry(a);
            }
        }
        assert forall|n: Seq<char>| #[trigger] pre@.insert(key, task).contains_key(n)
            implies self@.contains_key(n) by {
            if n != key {
                let b = pre.index_of(n);
                self.lemma_entry(b);
            } else {
                self.lemma_entry(last);
            }
        }
        assert(self@ =~= pre@.insert(key, task));
    }

    fn push_new(&mut self, key: String, task: T)
        requires
            old(self).wf(),
            !old(self)@.contains_key(key@),
        ensures
            final(self).wf(),
            final(self)@ == old(self)@.insert(key@, task),
    {
        let ghost pre = *self;
        let ghost k = key@;
        self.entries.push((key, task));
        proof {
            assert(self.entries@.drop_last() =~= pre.entries@);
            self.lemma_pushed(pre, k, task);
        }
    }

    /// Whether a task is held under `key`.
    pub fn contains(&self, key: &String) -> (r: bool)
        requires
            self.wf(),
        ensures
            r == self@.contains_key(key@),
    {
        self.find(key).is_some()
    }

    /// The task under `key`, if any.
    pub fn get(&self, key: &String) -> (r: Option<&T>)
        requires
            self.wf(),
        ensures
            match r {
                Some(t) => self@.contains_key(key@) && *t == self@[key@],
                None => !self@.contains_key(key@),
            },
    {
        match self.find(key) {
            Some(i) => {
                proof {
                    self.lemma_entry(i as int);
                }
                Some(&self.entries[i].1)
            },
            None => None,
        }
    }

    /// Removes the task under `key` and hands it back.
    pub fn remove(&mut self, key: &String) -> (r: Option<T>)
        requires
            old(self).wf(),
        ensures
            final(self).wf(),
            final(self)@ == old(self)@.remove(key@),
            r == (if old(self)@.contains_key(key@) {
                Some(old(self)@[key@])
            } else {
                None::<T>
            }),
    {
        match self.find(key) {
            Some(i) => {
                let ghost pre = *self;
                proof {
                    pre.lemma_entry(i as int);
                }
                let (_, task) = self.entries.remove(i);
                proof {
                    self.lemma_removed(pre, i as int);
                }
                Some(task)
            },
            None => {
                assert(self@.remove(key@) =~= self@);
                None
            },
        }
    }

    /// Puts `task` under `key` and hands back the task it replaces.
    pub fn insert(&mut self, key: String, task: T) -> (r: Option<T>)
        requires
            old(self).wf(),
        ensures
            final(self).wf(),
            final(self)@ == old(self)@.insert(key@, task),
            r == (if old(self)@.contains_key(key@) {
                Some(old(self)@[key@])
            } else {
                None::<T>
            }),
    {
        let prev = self.remove(&key);
        self.push_new(key, task);
        assert(self@ =~= old(self)@.insert(key@, task));
        prev
    }

    /// Brings the map in step with a full snapshot of the live keys. A key that
    /// was tracked keeps its very task; a new key gets a task from `start`;
    /// the tasks of keys that the snapshot no longer names come back, for the
    /// caller to stop.
    pub fn apply_snapshot<F: Fn(&String) -> T>(&mut self, snapshot: Vec<String>, start: F) -> (stopped:
        TaskMap<T>)
        requires
            old(self).wf(),
            forall|s: &String| #[trigger] start.requires((s,)),
        ensures
            final(self).wf(),
            stopped.wf(),
            final(self)@.dom() == keys_of(snapshot@),
            forall|k: Seq<char>| #[trigger]
                final(self)@.contains_key(k) && old(self)@.contains_key(k) ==> final(self)@[k]
                    == old(self)@[k],
            forall|k: Seq<char>| #[trigger]
                final(self)@.contains_key(k) && !old(self)@.contains_key(k) ==> started_by(
                    start,
                    k,
                    final(self)@[k],
                ),
            stopped@ == old(self)@.remove_keys(keys_of(snapshot@)),
    {
        let ghost old_map = self@;
        let mut fresh: TaskMap<T> = TaskMap::new();
        let mut i: usize = 0;
        while i < snapshot.len()
            invariant
                self.wf(),
                fresh.wf(),
                i <= snapshot@.len(),
                forall|s: &String| #[trigger] start.requires((s,)),
                fresh@.dom() == keys_of(snapshot@.take(i as int)),
                self@ == old_map.remove_keys(fresh@.dom()),
                forall|k: Seq<char>| #[trigger]
                    fresh@.contains_key(k) && old_map.contains_key(k) ==> fresh@[k] == old_map[k],
                forall|k: Seq<char>| #[trigger]
                    fresh@.contains_key(k) && !old_map.contains_key(k) ==> started_by(
                        start,
                        k,
                        fresh@[k],
                    ),
            decreases snapshot@.len() - i,
        {
            let key = &snapshot[i];
            let ghost prefix = snapshot@.take(i as int);
            let ghost next = snapshot@.take(i + 1);
            assert(keys_of(next) =~= keys_of(prefix).insert(key@)) by {
                assert(next[i as int] == snapshot@[i as int]);
                assert forall|k: Seq<char>| keys_of(prefix).contains(k) implies #[trigger] keys_of(
                    next,
                ).contains(k) by {
                    let j = choose|j: int| 0 <= j < prefix.len() && prefix[j]@ == k;
                    assert(next[j] == prefix[j]);
                }
                assert forall|k: Seq<char>| #[trigger] keys_of(next).contains(k) && k != key@
                    implies keys_of(prefix).contains(k) by {
                    let j = choose|j: int| 0 <= j < next.len() && next[j]@ == k;
                    assert(prefix[j] == next[j]);
                }
            }
            if !fresh.contains(key) {
                let task = match self.remove(key) {
                    Some(t) => t,
                    None => start(key),
                };
                fresh.push_new(key.clone(), task);
                assert(self@ =~= old_map.remove_keys(fresh@.dom()));
            } else {
                assert(fresh@.dom() =~= keys_of(next));
            }
            i = i + 1;
        }
        assert(snapshot@.take(snapshot@.len() as int) =~= snapshot@);
        let mut stopped = fresh;
        std::mem::swap(self, &mut stopped);
        stopped
    }
}

} // verus!
