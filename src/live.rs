//! The live view: the current value of every exported name, kept in name
//! order, folded from the merged stream of update records.

use vstd::prelude::*;
use crate::order::{name_lt, name_less, lemma_lt_irreflexive, lemma_lt_total, lemma_lt_transitive};
use crate::registry::{MetricName, Record, RegistryView, spec_register, spec_release, spec_is_owner};

verus! {

/// A record in the mathematical view.
pub open spec fn record_view<V>(r: Record<V>) -> (Seq<char>, Option<V>) {
    (r.0@, r.1)
}

/// The table after one record: a value is set under its name, a retraction
/// removes the name.
pub open spec fn spec_apply_record<V>(m: Map<Seq<char>, V>, r: (Seq<char>, Option<V>)) -> Map<
    Seq<char>,
    V,
> {
    match r.1 {
        Some(v) => m.insert(r.0, v),
        None => m.remove(r.0),
    }
}

/// The table after a run of records, in order.
pub open spec fn spec_apply_records<V>(m: Map<Seq<char>, V>, rs: Seq<(Seq<char>, Option<V>)>) -> Map<
    Seq<char>,
    V,
>
    decreases rs.len(),
{
    if rs.len() == 0 {
        m
    } else {
        spec_apply_record(spec_apply_records(m, rs.drop_last()), rs.last())
    }
}

/// Withdrawing a registered metric retracts its name exactly once: the
/// first discard of its registration emits the retraction, a second emits
/// nothing, and once the retraction is applied the live view holds no entry
/// for the name, whatever it showed before.
pub proof fn lemma_withdrawal_retracts_once<V>(r0: RegistryView, name: Seq<char>, view: Map<Seq<char>, V>)
    requires
        r0.serial < u64::MAX,
    ensures
        ({
            let h = r0.serial;
            let r1 = spec_register(r0, name);
            let r2 = spec_release(r1, name, h);
            &&& spec_is_owner(r1, name, h)
            &&& !spec_is_owner(r2, name, h)
            &&& spec_release(r2, name, h) == r2
            &&& !r2.owners.contains_key(name)
            &&& !spec_apply_record(view, (name, None::<V>)).contains_key(name)
        }),
{
}

/// The current value of each name, in name order.
pub struct LiveTable<V> {
    entries: Vec<(MetricName, V)>,
}

impl<V> LiveTable<V> {
    pub closed spec fn view(&self) -> Map<Seq<char>, V> {
        Map::new(
            |k: Seq<char>| exists|i: int| 0 <= i < self.entries@.len() && self.entries@[i].0@ == k,
            |k: Seq<char>| self.entries@[self.index_of(k)].1,
        )
    }

    closed spec fn index_of(&self, k: Seq<char>) -> int {
        choose|i: int| 0 <= i < self.entries@.len() && self.entries@[i].0@ == k
    }

    /// Names are in strictly ascending order.
    pub closed spec fn wf(&self) -> bool {
        forall|i: int, j: int|
            0 <= i < j < self.entries@.len() ==> name_lt(self.entries@[i].0@, self.entries@[j].0@)
    }

    proof fn lemma_entry(&self, i: int)
        requires
            self.wf(),
            0 <= i < self.entries@.len(),
        ensures
            self@.contains_key(self.entries@[i].0@),
            self@[self.entries@[i].0@] == self.entries@[i].1,
    {
        let k = self.entries@[i].0@;
        assert(self@.dom().contains(k));
        let j = self.index_of(k);
        lemma_lt_irreflexive(k);
        if i < j {
            assert(name_lt(self.entries@[i].0@, self.entries@[j].0@));
        } else if j < i {
            assert(name_lt(self.entries@[j].0@, self.entries@[i].0@));
        }
    }

    proof fn lemma_view_is(&self, m: Map<Seq<char>, V>)
        requires
            self.wf(),
            forall|i: int|
                0 <= i < self.entries@.len() ==> #[trigger] m.contains_key(self.entries@[i].0@)
                    && m[self.entries@[i].0@] == self.entries@[i].1,
            forall|k: Seq<char>| #[trigger]
                m.contains_key(k) ==> exists|i: int|
                    0 <= i < self.entries@.len() && self.entries@[i].0@ == k,
        ensures
            self@ == m,
    {
        assert forall|k: Seq<char>| #[trigger] self@.contains_key(k) implies m.contains_key(k)
            && self@[k] == m[k] by {
            let i = self.index_of(k);
            self.lemma_entry(i);
        }
        assert(self@ =~= m);
    }

    /// An empty table.
    pub fn new() -> (r: LiveTable<V>)
        ensures
            r.wf(),
            r@ == Map::<Seq<char>, V>::empty(),
    {
        let r = LiveTable { entries: Vec::new() };
        assert(r@ =~= Map::<Seq<char>, V>::empty());
        r
    }

    /// Where `name` stands or would stand: every entry before the position
    /// sorts before it, every entry after sorts after it, and the entry at the
    /// position is it if `found`.
    fn position(&self, name: &MetricName) -> (r: (usize, bool))
        requires
            self.wf(),
        ensures
            r.0 <= self.entries@.len(),
            forall|i: int| 0 <= i < r.0 ==> name_lt(#[trigger] self.entries@[i].0@, name@),
            forall|j: int|
                r.0 < j < self.entries@.len() ==> name_lt(name@, #[trigger] self.entries@[j].0@),
            r.1 ==> r.0 < self.entries@.len() && self.entries@[r.0 as int].0@ == name@,
            !r.1 && r.0 < self.entries@.len() ==> name_lt(name@, self.entries@[r.0 as int].0@),
    {
        let mut i: usize = 0;
        while i < self.entries.len() && name_less(self.entries[i].0.as_str(), name.as_str())
            invariant
                i <= self.entries@.len(),
                forall|k: int| 0 <= k < i ==> name_lt(#[trigger] self.entries@[k].0@, name@),
            decreases self.entries@.len() - i,
        {
            i = i + 1;
        }
        if i == self.entries.len() {
            return (i, false);
        }
        let found = self.entries[i].0 == *name;
        proof {
            let here = self.entries@[i as int].0@;
            lemma_lt_total(here, name@);
            assert forall|j: int| i < j < self.entries@.len() implies name_lt(
                name@,
                #[trigger] self.entries@[j].0@,
            ) by {
                assert(name_lt(here, self.entries@[j].0@));
                lemma_lt_transitive(name@, here, self.entries@[j].0@);
            }
        }
        (i, found)
    }

    /// The value under `name`, if any.
    pub fn get(&self, name: &MetricName) -> (r: Option<&V>)
        requires
            self.wf(),
        ensures
            match r {
                Some(v) => self@.contains_key(name@) && *v == self@[name@],
                None => !self@.contains_key(name@),
            },
    {
        let (i, found) = self.position(name);
        if found {
            proof {
                self.lemma_entry(i as int);
            }
            Some(&self.entries[i].1)
        } else {
            proof {
                if self@.contains_key(name@) {
                    let k = self.index_of(name@);
                    lemma_lt_irreflexive(name@);
                    if k < i {
                        assert(name_lt(self.entries@[k].0@, name@));
                    } else if k > i {
                        assert(name_lt(name@, self.entries@[k].0@));
                    } else {
                        assert(name_lt(name@, self.entries@[i as int].0@));
                    }
                }
            }
            None
        }
    }

    /// The entries in name order.
    pub fn entries(&self) -> (r: &Vec<(MetricName, V)>)
        requires
            self.wf(),
        ensures
            forall|i: int, j: int| 0 <= i < j < r@.len() ==> name_lt(r@[i].0@, r@[j].0@),
            forall|i: int|
                0 <= i < r@.len() ==> #[trigger] self@.contains_key(r@[i].0@) && self@[r@[i].0@]
                    == r@[i].1,
            forall|k: Seq<char>| #[trigger]
                self@.contains_key(k) ==> exists|i: int| 0 <= i < r@.len() && r@[i].0@ == k,
    {
        proof {
            assert forall|i: int| 0 <= i < self.entries@.len() implies #[trigger] self@.contains_key(
                self.entries@[i].0@,
            ) && self@[self.entries@[i].0@] == self.entries@[i].1 by {
                self.lemma_entry(i);
            }
        }
        &self.entries
    }

    /// Applies one record: a value replaces whatever the name held, a
    /// retraction removes the name.
    pub fn apply(&mut self, record: Record<V>)
        requires
            old(self).wf(),
        ensures
            final(self).wf(),
            final(self)@ == spec_apply_record(old(self)@, record_view(record)),
    {
        let ghost pre = *self;
        let ghost target = spec_apply_record(pre@, record_view(record));
        let (name, value) = record;
        let (i, found) = self.position(&name);
        let ghost n = name@;
        proof {
            assert forall|a: int| 0 <= a < pre.entries@.len() implies #[trigger] pre@.contains_key(
                pre.entries@[a].0@,
            ) && pre@[pre.entries@[a].0@] == pre.entries@[a].1 by {
                pre.lemma_entry(a);
            }
            lemma_lt_irreflexive(n);
        }
        match value {
            Some(v) => {
                if found {
                    self.entries.set(i, (name, v));
                } else {
                    self.entries.insert(i, (name, v));
                }
                proof {
                    let e = self.entries@;
                    let pe = pre.entries@;
                    assert(e[i as int].0@ == n);
                    assert forall|a: int, b: int| 0 <= a < b < e.len() implies name_lt(
                        e[a].0@,
                        e[b].0@,
                    ) by {
                        if found {
                            if a != i && b != i {
                                assert(name_lt(pe[a].0@, pe[b].0@));
                            }
                        } else {
                            if b < i {
                                assert(name_lt(pe[a].0@, pe[b].0@));
                            } else if a > i {
                                assert(name_lt(pe[a - 1].0@, pe[b - 1].0@));
                            } else if a < i && b > i {
                                assert(name_lt(pe[a].0@, pe[b - 1].0@));
                            } else if a == i {
                                assert(b - 1 >= i);
                                assert(name_lt(n, pe[b - 1].0@));
                            } else {
                                assert(name_lt(pe[a].0@, n));
                            }
                        }
                    }
                    assert forall|a: int| 0 <= a < e.len() implies #[trigger] target.contains_key(
                        e[a].0@,
                    ) && target[e[a].0@] == e[a].1 by {
                        if a != i {
                            let a2 = if found || a < i { a } else { a - 1 };
                            assert(e[a] == pe[a2]);
                            pre.lemma_entry(a2);
                            assert(e[a].0@ != n) by {
                                if a < i {
                                    assert(name_lt(pe[a2].0@, n));
                                } else if found {
                                    assert(name_lt(pe[i as int].0@, pe[a2].0@));
                                } else {
                                    assert(name_lt(n, pe[a2].0@));
                                }
                            }
                        }
                    }
                    assert forall|k: Seq<char>| #[trigger] target.contains_key(k) implies exists|
                        a: int,
                    | 0 <= a < e.len() && e[a].0@ == k by {
                        if k != n {
                            let b = pre.index_of(k);
                            let b2 = if found || b < i { b } else { b + 1 };
                            assert(e[b2] == pe[b]);
                        }
                    }
                    self.lemma_view_is(target);
                }
            },
            None => {
                if found {
                    self.entries.remove(i);
                    proof {
                        let e = self.entries@;
                        let pe = pre.entries@;
                        assert forall|a: int, b: int| 0 <= a < b < e.len() implies name_lt(
                            e[a].0@,
                            e[b].0@,
                        ) by {
                            let a2 = if a < i { a } else { a + 1 };
                            let b2 = if b < i { b } else { b + 1 };
                            assert(name_lt(pe[a2].0@, pe[b2].0@));
                        }
                        assert forall|a: int| 0 <= a < e.len() implies #[trigger] target.contains_key(
                            e[a].0@,
                        ) && target[e[a].0@] == e[a].1 by {
                            let a2 = if a < i { a } else { a + 1 };
                            assert(e[a] == pe[a2]);
                            pre.lemma_entry(a2);
                            if a < i {
                                assert(name_lt(pe[a2].0@, n));
                            } else {
                                assert(name_lt(pe[i as int].0@, pe[a2].0@));
                            }
                        }
                        assert forall|k: Seq<char>| #[trigger] target.contains_key(k) implies exists|
                            a: int,
                        | 0 <= a < e.len() && e[a].0@ == k by {
                            let b = pre.index_of(k);
                            assert(b != i);
                            let b2 = if b < i { b } else { b - 1 };
                            assert(e[b2] == pe[b]);
                        }
                        self.lemma_view_is(target);
                    }
                } else {
                    proof {
                        if pre@.contains_key(n) {
                            let k = pre.index_of(n);
                            if k < i {
                                assert(name_lt(pre.entries@[k].0@, n));
                            } else if k > i {
                                assert(name_lt(n, pre.entries@[k].0@));
                            } else {
                                assert(name_lt(n, pre.entries@[i as int].0@));
                            }
                        }
                        assert(target =~= pre@);
                    }
                }
            },
        }
    }

    /// Applies a run of records in order.
    pub fn receive_chunk(&mut self, chunk: Vec<Record<V>>)
        requires
            old(self).wf(),
        ensures
            final(self).wf(),
            final(self)@ == spec_apply_records(
                old(self)@,
                chunk@.map_values(|r: Record<V>| record_view(r)),
            ),
    {
        let ghost all = chunk@.map_values(|r: Record<V>| record_view(r));
        let ghost start = self@;
        let mut rest = chunk;
        let mut i: usize = 0;
        let n = rest.len();
        proof {
            assert(all.take(0) =~= Seq::<(Seq<char>, Option<V>)>::empty());
        }
        while i < n
            invariant
                self.wf(),
                n == all.len(),
                i <= n,
                rest@.len() == n - i,
                forall|k: int| 0 <= k < n - i ==> record_view(#[trigger] rest@[k]) == all[i + k],
                self@ == spec_apply_records(start, all.take(i as int)),
            decreases n - i,
        {
            let ghost before = rest@;
            let record = rest.remove(0);
            proof {
                assert(record_view(before[0]) == all[i as int]);
                assert forall|k: int| 0 <= k < n - i - 1 implies record_view(#[trigger] rest@[k])
                    == all[i + 1 + k] by {
                    assert(rest@[k] == before[k + 1]);
                    assert(record_view(before[k + 1]) == all[i + (k + 1)]);
                }
                assert(all.take(i + 1).drop_last() =~= all.take(i as int));
            }
            self.apply(record);
            i = i + 1;
        }
        assert(all.take(n as int) =~= all);
    }
}

} // verus!
