//! The name-generation export registry.
//!
//! Every registration of a metric name draws a fresh generation token and
//! becomes the owner of that name. A handle may publish or retract only while
//! its token still owns the name, so a stale producer can never disturb a
//! fresher registration.

use vstd::prelude::*;

verus! {

/// The name under which a metric is exported.
#[derive(Debug)]
pub struct MetricName {
    name: String,
}

impl View for MetricName {
    type V = Seq<char>;

    closed spec fn view(&self) -> Seq<char> {
        self.name@
    }
}

impl MetricName {
    pub fn new(name: String) -> (r: MetricName)
        ensures
            r@ == name@,
    {
        MetricName { name }
    }

    pub fn as_str(&self) -> (r: &str)
        ensures
            r@ == self@,
    {
        self.name.as_str()
    }

    /// A copy of this name.
    pub fn duplicate(&self) -> (r: MetricName)
        ensures
            r@ == self@,
    {
        MetricName { name: self.name.clone() }
    }
}

impl Clone for MetricName {
    fn clone(&self) -> (r: MetricName)
        ensures
            r@ == self@,
    {
        self.duplicate()
    }
}

impl PartialEq for MetricName {
    fn eq(&self, other: &MetricName) -> (r: bool) {
        self.name == other.name
    }
}

impl vstd::std_specs::cmp::PartialEqSpecImpl for MetricName {
    open spec fn obeys_eq_spec() -> bool {
        true
    }

    open spec fn eq_spec(&self, other: &MetricName) -> bool {
        self@ == other@
    }
}

impl Eq for MetricName {
}

impl From<String> for MetricName {
    fn from(name: String) -> (r: MetricName) {
        MetricName { name }
    }
}

impl vstd::std_specs::convert::FromSpecImpl<String> for MetricName {
    open spec fn obeys_from_spec() -> bool {
        true
    }

    closed spec fn from_spec(name: String) -> MetricName {
        MetricName { name }
    }
}


/// Advances a generation counter and hands out the value it held.
/// Running out of tokens would be fatal, so the counter must not be at its
/// largest value.
pub fn next(serial: &mut u64) -> (r: u64)
    requires
        *old(serial) < u64::MAX,
    ensures
        r == *old(serial),
        *final(serial) == *old(serial) + 1,
{
    let val = *serial;
    *serial = val + 1;
    val
}

/// One registration: a name together with the generation token drawn for it.
pub struct Registration {
    pub name: MetricName,
    pub uniq: u64,
}

/// An update record of the merged stream: `Some` publishes a value under the
/// name, `None` retracts the name.
pub type Record<V> = (MetricName, Option<V>);

/// The owner table of the registry, in the mathematical view.
pub struct RegistryView {
    /// The token that currently owns each registered name.
    pub owners: Map<Seq<char>, u64>,
    /// The next token to hand out.
    pub serial: u64,
}

/// The registry after `name` has been registered: the name is owned by the
/// token drawn from the counter.
pub open spec fn spec_register(r: RegistryView, name: Seq<char>) -> RegistryView {
    RegistryView { owners: r.owners.insert(name, r.serial), serial: (r.serial + 1) as u64 }
}

/// Whether the registration (`name`, `uniq`) still owns its name.
pub open spec fn spec_is_owner(r: RegistryView, name: Seq<char>, uniq: u64) -> bool {
    r.owners.contains_key(name) && r.owners[name] == uniq
}

/// The registry after the registration (`name`, `uniq`) is discarded: the
/// ownership record goes only if it is still this registration's.
pub open spec fn spec_release(r: RegistryView, name: Seq<char>, uniq: u64) -> RegistryView {
    if spec_is_owner(r, name, uniq) {
        RegistryView { owners: r.owners.remove(name), serial: r.serial }
    } else {
        r
    }
}

/// Registering a name twice leaves the first registration powerless: it can
/// no longer publish, discarding it retracts nothing and keeps the second
/// registration in force, and discarding the second retracts the name.
pub proof fn lemma_generation_race(r0: RegistryView, name: Seq<char>)
    requires
        r0.serial + 1 < u64::MAX,
    ensures
        ({
            let h1 = r0.serial;
            let r1 = spec_register(r0, name);
            let h2 = r1.serial;
            let r2 = spec_register(r1, name);
            let r3 = spec_release(r2, name, h1);
            &&& h1 != h2
            &&& !spec_is_owner(r2, name, h1)
            &&& r3 == r2
            &&& spec_is_owner(r3, name, h2)
            &&& !spec_release(r3, name, h2).owners.contains_key(name)
        }),
{
    let r1 = spec_register(r0, name);
    let r2 = spec_register(r1, name);
    assert(r2.owners[name] == r1.serial);
    assert(!spec_release(r2, name, r1.serial).owners.contains_key(name));
}

/// The shared state of the registry: the owner of each name, and the
/// generation counter.
pub struct ExportShared {
    uniqs: Vec<(MetricName, u64)>,
    serial: u64,
}

impl ExportShared {
    pub closed spec fn view(&self) -> RegistryView {
        RegistryView {
            owners: Map::new(
                |k: Seq<char>| exists|i: int| 0 <= i < self.uniqs@.len() && self.uniqs@[i].0@ == k,
                |k: Seq<char>| self.uniqs@[self.index_of(k)].1,
            ),
            serial: self.serial,
        }
    }

    closed spec fn index_of(&self, k: Seq<char>) -> int {
        choose|i: int| 0 <= i < self.uniqs@.len() && self.uniqs@[i].0@ == k
    }

    /// Names appear once, every token is nonzero and below the counter.
    pub closed spec fn wf(&self) -> bool {
        &&& 1 <= self.serial
        &&& forall|i: int, j: int|
            0 <= i < j < self.uniqs@.len() ==> self.uniqs@[i].0@ != self.uniqs@[j].0@
        &&& forall|i: int| 0 <= i < self.uniqs@.len() ==> 1 <= #[trigger] self.uniqs@[i].1 < self.serial
    }

    proof fn lemma_entry(&self, i: int)
        requires
            self.wf(),
            0 <= i < self.uniqs@.len(),
        ensures
            self@.owners.contains_key(self.uniqs@[i].0@),
            self@.owners[self.uniqs@[i].0@] == self.uniqs@[i].1,
    {
        let k = self.uniqs@[i].0@;
        assert(self@.owners.dom().contains(k));
        let j = self.index_of(k);
        assert(0 <= j < self.uniqs@.len() && self.uniqs@[j].0@ == k);
        if i != j {
            if i < j {
                assert(self.uniqs@[i].0@ != self.uniqs@[j].0@);
            } else {
                assert(self.uniqs@[j].0@ != self.uniqs@[i].0@);
            }
        }
    }

    /// An empty table whose first token is 1.
    pub fn new() -> (r: ExportShared)
        ensures
            r.wf(),
            r@.owners == Map::<Seq<char>, u64>::empty(),
            r@.serial == 1,
    {
        let r = ExportShared { uniqs: Vec::new(), serial: 1 };
        assert(r@.owners =~= Map::<Seq<char>, u64>::empty());
        r
    }

    /// The generation counter: the token the next registration draws.
    pub fn serial(&self) -> (r: u64)
        ensures
            r == self@.serial,
    {
        self.serial
    }

    fn find(&self, name: &MetricName) -> (r: Option<usize>)
        requires
            self.wf(),
        ensures
            match r {
                Some(i) => i < self.uniqs@.len() && self.uniqs@[i as int].0@ == name@,
                None => !self@.owners.contains_key(name@),
            },
    {
        let mut i: usize = 0;
        while i < self.uniqs.len()
            invariant
                i <= self.uniqs@.len(),
                forall|j: int| 0 <= j < i ==> self.uniqs@[j].0@ != name@,
            decreases self.uniqs@.len() - i,
        {
            if self.uniqs[i].0 == *name {
                return Some(i);
            }
            i = i + 1;
        }
        None
    }

    /// The token that currently owns `name`, if any.
    pub fn get_uniq(&self, name: &MetricName) -> (r: Option<u64>)
        requires
            self.wf(),
        ensures
            r == (if self@.owners.contains_key(name@) {
                Some(self@.owners[name@])
            } else {
                None::<u64>
            }),
    {
        match self.find(name) {
            Some(i) => {
                proof {
                    self.lemma_entry(i as int);
                }
                Some(self.uniqs[i].1)
            },
            None => None,
        }
    }

    /// Removes the ownership record of `name` if `uniq` owns it; returns
    /// whether it did.
    pub fn remove_uniq(&mut self, name: &MetricName, uniq: u64) -> (r: bool)
        requires
            old(self).wf(),
        ensures
            final(self).wf(),
            r == spec_is_owner(old(self)@, name@, uniq),
            final(self)@ == spec_release(old(self)@, name@, uniq),
    {
        match self.find(name) {
            Some(i) => {
                proof {
                    self.lemma_entry(i as int);
                }
                if self.uniqs[i].1 == uniq {
                    let ghost pre = *self;
                    self.uniqs.remove(i);
                    proof {
                        self.lemma_view_after_remove(pre, i as int);
                    }
                    true
                } else {
                    false
                }
            },
            None => false,
        }
    }

    proof fn lemma_view_after_remove(&self, pre: ExportShared, i: int)
        requires
            pre.wf(),
            0 <= i < pre.uniqs@.len(),
            self.uniqs@ == pre.uniqs@.remove(i),
            self.serial == pre.serial,
        ensures
            self.wf(),
            self@.owners == pre@.owners.remove(pre.uniqs@[i].0@),
            self@.serial == pre@.serial,
    {
        assert forall|a: int, b: int| 0 <= a < b < self.uniqs@.len() implies self.uniqs@[a].0@
            != self.uniqs@[b].0@ by {
            let a2 = if a < i { a } else { a + 1 };
            let b2 = if b < i { b } else { b + 1 };
            assert(self.uniqs@[a] == pre.uniqs@[a2]);
            assert(self.uniqs@[b] == pre.uniqs@[b2]);
        }
        assert forall|a: int| 0 <= a < self.uniqs@.len() implies 1 <= #[trigger] self.uniqs@[a].1
            < self.serial by {
            let a2 = if a < i { a } else { a + 1 };
            assert(self.uniqs@[a] == pre.uniqs@[a2]);
        }
        let k = pre.uniqs@[i].0@;
        assert forall|n: Seq<char>| #[trigger] self@.owners.contains_key(n) implies pre@.owners.remove(
            k,
        ).contains_key(n) && self@.owners[n] == pre@.owners.remove(k)[n] by {
            let a = self.index_of(n);
            let a2 = if a < i { a } else { a + 1 };
            assert(self.uniqs@[a] == pre.uniqs@[a2]);
            self.lemma_entry(a);
            pre.lemma_entry(a2);
            if n == k {
                assert(a2 != i);
                if a2 < i {
                    assert(pre.uniqs@[a2].0@ != pre.uniqs@[i].0@);
                } else {
                    assert(pre.uniqs@[i].0@ != pre.uniqs@[a2].0@);
                }
            }
        }
        assert forall|n: Seq<char>| #[trigger] pre@.owners.remove(k).contains_key(n)
            implies self@.owners.contains_key(n) by {
            let b = pre.index_of(n);
            assert(0 <= b < pre.uniqs@.len() && pre.uniqs@[b].0@ == n);
            assert(b != i);
            let b2 = if b < i { b } else { b - 1 };
            assert(self.uniqs@[b2] == pre.uniqs@[b]);
            self.lemma_entry(b2);
        }
        assert(self@.owners =~= pre@.owners.remove(k));
    }

    /// Registers `name`: draws a fresh token and makes it the owner of the
    /// name, whoever owned it before.
    pub fn register(&mut self, name: MetricName) -> (h: Registration)
        requires
            old(self).wf(),
            old(self)@.serial < u64::MAX,
        ensures
            final(self).wf(),
            h.name@ == name@,
            h.uniq == old(self)@.serial,
            final(self)@ == spec_register(old(self)@, name@),
    {
        let ghost pre = *self;
        let uniq = next(&mut self.serial);
        let key = name.duplicate();
        match self.find(&name) {
            Some(i) => {
                self.uniqs.set(i, (key, uniq));
                proof {
                    self.lemma_replaced(pre, i as int);
                }
            },
            None => {
                self.uniqs.push((key, uniq));
                proof {
                    assert(self.uniqs@.drop_last() =~= pre.uniqs@);
                    self.lemma_pushed(pre, name@);
                }
            },
        }
        Registration { name, uniq }
    }

    /// After the token of entry `i` is replaced by the counter's value and
    /// the counter advances, the table maps that name to the new token.
    proof fn lemma_replaced(&self, pre: ExportShared, i: int)
        requires
            pre.wf(),
            pre.serial < u64::MAX,
            0 <= i < pre.uniqs@.len(),
            self.serial == pre.serial + 1,
            self.uniqs@ == pre.uniqs@.update(i, self.uniqs@[i]),
            self.uniqs@[i].0@ == pre.uniqs@[i].0@,
            self.uniqs@[i].1 == pre.serial,
        ensures
            self.wf(),
            self@ == spec_register(pre@, pre.uniqs@[i].0@),
    {
        let name = pre.uniqs@[i].0@;
        let target = spec_register(pre@, name);
        assert forall|a: int, b: int| 0 <= a < b < self.uniqs@.len() implies self.uniqs@[a].0@
            != self.uniqs@[b].0@ by {
            assert(pre.uniqs@[a].0@ != pre.uniqs@[b].0@);
        }
        assert forall|a: int| 0 <= a < self.uniqs@.len() implies 1 <= #[trigger] self.uniqs@[a].1
            < self.serial by {
            if a != i {
                assert(self.uniqs@[a] == pre.uniqs@[a]);
            }
        }
        assert forall|n: Seq<char>| #[trigger] self@.owners.contains_key(n) implies target.owners.contains_key(
            n,
        ) && self@.owners[n] == target.owners[n] by {
            let a = self.index_of(n);
            self.lemma_entry(a);
            if a != i {
                assert(self.uniqs@[a] == pre.uniqs@[a]);
                pre.lemma_entry(a);
            }
        }
        assert forall|n: Seq<char>| #[trigger] target.owners.contains_key(n) implies self@.owners.contains_key(
            n,
        ) by {
            if n != name {
                let b = pre.index_of(n);
                assert(self.uniqs@[b] == pre.uniqs@[b]);
                self.lemma_entry(b);
            } else {
                self.lemma_entry(i);
            }
        }
        assert(self@.owners =~= target.owners);
    }

    /// After an entry for a name that had none is appended with the
    /// counter's value and the counter advances, the table maps that name to
    /// the new token.
    proof fn lemma_pushed(&self, pre: ExportShared, name: Seq<char>)
        requires
            pre.wf(),
            pre.serial < u64::MAX,
            !pre@.owners.contains_key(name),
            self.serial == pre.serial + 1,
            self.uniqs@.len() == pre.uniqs@.len() + 1,
            self.uniqs@.drop_last() == pre.uniqs@,
            self.uniqs@.last().0@ == name,
            self.uniqs@.last().1 == pre.serial,
        ensures
            self.wf(),
            self@ == spec_register(pre@, name),
    {
        let last = pre.uniqs@.len() as int;
        let target = spec_register(pre@, name);
        assert forall|a: int| 0 <= a < last implies #[trigger] self.uniqs@[a] == pre.uniqs@[a] by {
            assert(self.uniqs@.drop_last()[a] == self.uniqs@[a]);
        }
        assert forall|a: int, b: int| 0 <= a < b < self.uniqs@.len() implies self.uniqs@[a].0@
            != self.uniqs@[b].0@ by {
            if b == last {
                pre.lemma_entry(a);
            } else {
                assert(pre.uniqs@[a].0@ != pre.uniqs@[b].0@);
            }
        }
        assert forall|a: int| 0 <= a < self.uniqs@.len() implies 1 <= #[trigger] self.uniqs@[a].1
            < self.serial by {
            if a != last {
                assert(self.uniqs@[a] == pre.uniqs@[a]);
            }
        }
        assert forall|n: Seq<char>| #[trigger] self@.owners.contains_key(n) implies target.owners.contains_key(
            n,
        ) && self@.owners[n] == target.owners[n] by {
            let a = self.index_of(n);
            self.lemma_entry(a);
            if a != last {
                pre.lemma_entry(a);
            }
        }
        assert forall|n: Seq<char>| #[trigger] target.owners.contains_key(n) implies self@.owners.contains_key(
            n,
        ) by {
            if n != name {
                let b = pre.index_of(n);
                self.lemma_entry(b);
            } else {
                self.lemma_entry(last);
            }
        }
        assert(self@.owners =~= target.owners);
    }

    /// The record that publishing `value` through `reg` emits: the value under
    /// the name while `reg` owns it, nothing once it has been superseded.
    pub fn measure<V>(&self, reg: &Registration, value: V) -> (r: Option<Record<V>>)
        requires
            self.wf(),
        ensures
            match r {
                Some(rec) => spec_is_owner(self@, reg.name@, reg.uniq) && rec.0@ == reg.name@
                    && rec.1 == Some(value),
                None => !spec_is_owner(self@, reg.name@, reg.uniq),
            },
    {
        if self.get_uniq(&reg.name) == Some(reg.uniq) {
            Some((reg.name.duplicate(), Some(value)))
        } else {
            None
        }
    }

    /// Discards the registration `reg`: while it owns its name the ownership
    /// record goes and the name is returned for retraction; a superseded
    /// registration changes nothing.
    pub fn release(&mut self, reg: &Registration) -> (r: Option<MetricName>)
        requires
            old(self).wf(),
        ensures
            final(self).wf(),
            final(self)@ == spec_release(old(self)@, reg.name@, reg.uniq),
            match r {
                Some(n) => spec_is_owner(old(self)@, reg.name@, reg.uniq) && n@ == reg.name@,
                None => !spec_is_owner(old(self)@, reg.name@, reg.uniq),
            },
    {
        if self.remove_uniq(&reg.name, reg.uniq) {
            Some(reg.name.duplicate())
        } else {
            None
        }
    }
}

impl Default for ExportShared {
    fn default() -> (r: ExportShared)
        ensures
            r.wf(),
            r@.owners == Map::<Seq<char>, u64>::empty(),
            r@.serial == 1,
    {
        ExportShared::new()
    }
}

} // verus!
