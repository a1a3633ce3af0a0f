//! The bus directory watcher: one task per connected peer.
//!
//! Peers are tracked by their unique connection names only. The watcher
//! subscribes to name-owner changes before it lists the names on the bus,
//! takes the listing as a run of connect events, and then applies every
//! notification in order.

use vstd::prelude::*;
use crate::tasks::{TaskMap, started_by};

verus! {

/// A name on the bus, as the bus reports it.
#[derive(Debug)]
pub enum BusName {
    /// A connection's own name, unique for the lifetime of that connection.
    Unique(String),
    /// An alias that some connection owns; it names no lifetime of its own.
    WellKnown(String),
}

/// A change of peer presence.
#[derive(Debug)]
pub enum NameEvent {
    Add(String),
    Del(String),
}

/// A change of peer presence, in the mathematical view.
pub enum PeerChange {
    Add(Seq<char>),
    Del(Seq<char>),
}

impl PeerChange {
    pub open spec fn peer(self) -> Seq<char> {
        match self {
            PeerChange::Add(n) => n,
            PeerChange::Del(n) => n,
        }
    }
}

impl View for NameEvent {
    type V = PeerChange;

    open spec fn view(&self) -> PeerChange {
        match self {
            NameEvent::Add(n) => PeerChange::Add(n@),
            NameEvent::Del(n) => PeerChange::Del(n@),
        }
    }
}

/// The event that a name-owner change stands for: a unique name gaining its
/// first owner connects a peer, one losing its owner disconnects it; aliases
/// and changes of owner are no peer events.
pub open spec fn spec_event_of(name: BusName, old_owner: bool, new_owner: bool) -> Option<PeerChange> {
    match name {
        BusName::Unique(n) => if !old_owner && new_owner {
            Some(PeerChange::Add(n@))
        } else if old_owner && !new_owner {
            Some(PeerChange::Del(n@))
        } else {
            None
        },
        BusName::WellKnown(_) => None,
    }
}

/// The set of connected peers after one change.
pub open spec fn apply_change(peers: Set<Seq<char>>, change: PeerChange) -> Set<Seq<char>> {
    match change {
        PeerChange::Add(n) => peers.insert(n),
        PeerChange::Del(n) => peers.remove(n),
    }
}

/// The set of connected peers after a run of changes, in order.
pub open spec fn apply_changes(peers: Set<Seq<char>>, changes: Seq<PeerChange>) -> Set<
    Seq<char>,
>
    decreases changes.len(),
{
    if changes.len() == 0 {
        peers
    } else {
        apply_change(apply_changes(peers, changes.drop_last()), changes.last())
    }
}

/// A listing of peers taken as a run of connect events.
pub open spec fn connects(names: Seq<Seq<char>>) -> Seq<PeerChange> {
    names.map_values(|n: Seq<char>| PeerChange::Add(n))
}

/// The unique names of a listing, in order.
pub open spec fn unique_names_of(names: Seq<BusName>) -> Seq<Seq<char>>
    decreases names.len(),
{
    if names.len() == 0 {
        Seq::empty()
    } else {
        let rest = unique_names_of(names.drop_last());
        match names.last() {
            BusName::Unique(n) => rest.push(n@),
            BusName::WellKnown(_) => rest,
        }
    }
}

/// What the last change of `peer` in `changes` did: `Some(true)` if it
/// connected it, `Some(false)` if it disconnected it, `None` if none names it.
pub open spec fn last_change_of(changes: Seq<PeerChange>, peer: Seq<char>) -> Option<bool>
    decreases changes.len(),
{
    if changes.len() == 0 {
        None
    } else if changes.last().peer() == peer {
        Some(changes.last() is Add)
    } else {
        last_change_of(changes.drop_last(), peer)
    }
}

proof fn lemma_membership(peers: Set<Seq<char>>, changes: Seq<PeerChange>, peer: Seq<char>)
    ensures
        apply_changes(peers, changes).contains(peer) == match last_change_of(changes, peer) {
            Some(b) => b,
            None => peers.contains(peer),
        },
    decreases changes.len(),
{
    if changes.len() > 0 {
        lemma_membership(peers, changes.drop_last(), peer);
    }
}

proof fn lemma_untouched(changes: Seq<PeerChange>, peer: Seq<char>)
    ensures
        last_change_of(changes, peer) is None <==> forall|i: int|
            0 <= i < changes.len() ==> #[trigger] changes[i].peer() != peer,
    decreases changes.len(),
{
    if changes.len() > 0 {
        let init = changes.drop_last();
        lemma_untouched(init, peer);
        assert forall|i: int| 0 <= i < init.len() implies #[trigger] init[i] == changes[i] by {}
        let last = changes.len() - 1;
        if changes.last().peer() == peer {
            assert(changes[last].peer() == peer);
        } else if last_change_of(changes, peer) is None {
            assert forall|i: int| 0 <= i < changes.len() implies #[trigger] changes[i].peer()
                != peer by {
                if i < last {
                    assert(init[i] == changes[i]);
                }
            }
        }
    }
}

proof fn lemma_listing(names: Seq<Seq<char>>)
    ensures
        apply_changes(Set::empty(), connects(names)) == names.to_set(),
    decreases names.len(),
{
    if names.len() > 0 {
        let init = names.drop_last();
        lemma_listing(init);
        assert(connects(names).drop_last() =~= connects(init));
        assert(names.to_set() =~= init.to_set().insert(names.last())) by {
            assert forall|n: Seq<char>| #[trigger] names.to_set().contains(n) implies init.to_set().insert(
                names.last(),
            ).contains(n) by {
                let i = choose|i: int| 0 <= i < names.len() && names[i] == n;
                if i < names.len() - 1 {
                    assert(init[i] == names[i]);
                }
            }
            assert forall|n: Seq<char>| #[trigger] init.to_set().contains(n) implies names.to_set().contains(
                n,
            ) by {
                let i = choose|i: int| 0 <= i < init.len() && init[i] == n;
                assert(names[i] == init[i]);
            }
            assert(names.to_set().contains(names[names.len() - 1]));
        }
    } else {
        assert(names.to_set() =~= Set::empty());
    }
}

/// Only unique names are taken from a listing: every name it yields is a
/// connection's own name in the listing, never an alias.
pub proof fn lemma_listing_has_no_aliases(names: Seq<BusName>, n: Seq<char>)
    requires
        unique_names_of(names).contains(n),
    ensures
        exists|i: int| 0 <= i < names.len() && (#[trigger] names[i] matches BusName::Unique(s) && s@ == n),
    decreases names.len(),
{
    let init = names.drop_last();
    let rest = unique_names_of(init);
    let last = names.len() - 1;
    if rest.contains(n) {
        lemma_listing_has_no_aliases(init, n);
        let i = choose|i: int| 0 <= i < init.len() && (#[trigger] init[i] matches BusName::Unique(s) && s@ == n);
        assert(names[i] == init[i]);
    } else {
        let j = choose|j: int| 0 <= j < unique_names_of(names).len() && unique_names_of(names)[j] == n;
        match names.last() {
            BusName::Unique(s) => {
                assert(unique_names_of(names) == rest.push(s@));
                if j < rest.len() {
                    assert(rest[j] == n);
                }
                assert(names[last] matches BusName::Unique(t) && t@ == n);
            },
            BusName::WellKnown(_) => {
                assert(rest[j] == n);
            },
        }
    }
}

/// No peer is missed, whenever the listing is taken. The notification stream
/// is opened while `connected` are the peers on the bus; the listing is taken
/// once its first `k` changes have come about. A watcher that starts from the
/// listing and then applies every notification ends with exactly the peers
/// connected after all of them.
pub proof fn lemma_no_discovery_gaps(
    connected: Set<Seq<char>>,
    changes: Seq<PeerChange>,
    k: int,
    listing: Seq<Seq<char>>,
)
    requires
        0 <= k <= changes.len(),
        listing.to_set() == apply_changes(connected, changes.take(k)),
    ensures
        apply_changes(apply_changes(Set::empty(), connects(listing)), changes) == apply_changes(
            connected,
            changes,
        ),
{
    lemma_listing(listing);
    let snapshot = listing.to_set();
    assert forall|n: Seq<char>| #[trigger] apply_changes(snapshot, changes).contains(n)
        == apply_changes(connected, changes).contains(n) by {
        lemma_membership(snapshot, changes, n);
        lemma_membership(connected, changes, n);
        if last_change_of(changes, n) is None {
            lemma_untouched(changes, n);
            lemma_untouched(changes.take(k), n);
            lemma_membership(connected, changes.take(k), n);
        }
    }
    assert(apply_changes(snapshot, changes) =~= apply_changes(connected, changes));
}

impl NameEvent {
    /// The peer event that a name-owner change notification carries, given
    /// the name and whether it had an owner before and after.
    pub fn from_signal(name: BusName, old_owner: bool, new_owner: bool) -> (r: Option<NameEvent>)
        ensures
            match r {
                Some(e) => spec_event_of(name, old_owner, new_owner) == Some(e@),
                None => spec_event_of(name, old_owner, new_owner) is None,
            },
    {
        let uniq = match name {
            BusName::Unique(uniq) => uniq,
            BusName::WellKnown(_) => {
                return None;
            },
        };
        if !old_owner && new_owner {
            Some(NameEvent::Add(uniq))
        } else if old_owner && !new_owner {
            Some(NameEvent::Del(uniq))
        } else {
            None
        }
    }
}

/// The unique names of a listing of bus names, in order; aliases are dropped.
pub fn unique_names(names: Vec<BusName>) -> (r: Vec<String>)
    ensures
        r@.map_values(|s: String| s@) == unique_names_of(names@),
{
    let ghost all = names@;
    let mut out: Vec<String> = Vec::new();
    let mut i: usize = 0;
    while i < names.len()
        invariant
            i <= all.len(),
            all == names@,
            out@.map_values(|s: String| s@) == unique_names_of(all.take(i as int)),
        decreases all.len() - i,
    {
        proof {
            assert(all.take(i + 1).drop_last() =~= all.take(i as int));
            assert(all.take(i + 1).last() == all[i as int]);
        }
        match &names[i] {
            BusName::Unique(uniq) => {
                out.push(uniq.clone());
                assert(out@.map_values(|s: String| s@) =~= unique_names_of(all.take(i + 1)));
            },
            BusName::WellKnown(_) => {},
        }
        i = i + 1;
    }
    assert(all.take(all.len() as int) =~= all);
    out
}

/// The tasks that a listing displaces: for each name it mentions, at its
/// first mention, the task the name had, if any.
pub open spec fn displaced<T>(tasks: Map<Seq<char>, T>, names: Seq<Seq<char>>) -> Seq<T>
    decreases names.len(),
{
    if names.len() == 0 {
        Seq::empty()
    } else {
        let init = names.drop_last();
        let rest = displaced(tasks, init);
        let n = names.last();
        if tasks.contains_key(n) && !init.contains(n) {
            rest.push(tasks[n])
        } else {
            rest
        }
    }
}

/// Whether the name at `i` already stands earlier in `names`.
fn listed_before(names: &Vec<String>, i: usize) -> (r: bool)
    requires
        i < names@.len(),
    ensures
        r == names@.map_values(|s: String| s@).take(i as int).contains(names@[i as int]@),
{
    let ghost views = names@.map_values(|s: String| s@);
    let mut j: usize = 0;
    while j < i
        invariant
            i < names@.len(),
            j <= i,
            views == names@.map_values(|s: String| s@),
            forall|k: int| 0 <= k < j ==> names@[k]@ != names@[i as int]@,
        decreases i - j,
    {
        if names[j] == names[i] {
            assert(views.take(i as int)[j as int] == names@[i as int]@);
            return true;
        }
        j = j + 1;
    }
    proof {
        if views.take(i as int).contains(names@[i as int]@) {
            let k = choose|k: int|
                0 <= k < i && #[trigger] views.take(i as int)[k] == names@[i as int]@;
            assert(names@[k]@ == views.take(i as int)[k]);
        }
    }
    false
}

/// The tasks of the bus directory watcher, one per tracked peer.
pub struct Directory<T> {
    tasks: TaskMap<T>,
}

impl<T> Directory<T> {
    pub closed spec fn view(&self) -> Map<Seq<char>, T> {
        self.tasks@
    }

    pub closed spec fn wf(&self) -> bool {
        self.tasks.wf()
    }

    /// The peers that have a task.
    pub open spec fn peers(&self) -> Set<Seq<char>> {
        self@.dom()
    }

    /// A directory that tracks no peer.
    pub fn new() -> (r: Directory<T>)
        ensures
            r.wf(),
            r@ == Map::<Seq<char>, T>::empty(),
    {
        Directory { tasks: TaskMap::new() }
    }

    /// Whether `bus` has a task.
    pub fn contains(&self, bus: &String) -> (r: bool)
        requires
            self.wf(),
        ensures
            r == self.peers().contains(bus@),
    {
        self.tasks.contains(bus)
    }

    /// The task of `bus`, if any.
    pub fn get(&self, bus: &String) -> (r: Option<&T>)
        requires
            self.wf(),
        ensures
            match r {
                Some(t) => self@.contains_key(bus@) && *t == self@[bus@],
                None => !self@.contains_key(bus@),
            },
    {
        self.tasks.get(bus)
    }

    /// Applies one peer event: a connect starts a task for the peer,
    /// replacing any task it had; a disconnect removes its task. The task that
    /// was displaced comes back, for the caller to stop.
    pub fn on_event<F: Fn(&String) -> T>(&mut self, event: NameEvent, start: F) -> (r: Option<T>)
        requires
            old(self).wf(),
            forall|s: &String| #[trigger] start.requires((s,)),
        ensures
            final(self).wf(),
            final(self).peers() == apply_change(old(self).peers(), event@),
            event@ is Add ==> started_by(start, event@.peer(), final(self)@[event@.peer()]),
            forall|n: Seq<char>| #[trigger]
                final(self)@.contains_key(n) && n != event@.peer() ==> final(self)@[n]
                    == old(self)@[n],
            r == (if old(self)@.contains_key(event@.peer()) {
                Some(old(self)@[event@.peer()])
            } else {
                None::<T>
            }),
    {
        match event {
            NameEvent::Add(bus) => {
                let task = start(&bus);
                let r = self.tasks.insert(bus, task);
                assert(self.peers() =~= apply_change(old(self).peers(), event@));
                r
            },
            NameEvent::Del(bus) => {
                let r = self.tasks.remove(&bus);
                assert(self.peers() =~= apply_change(old(self).peers(), event@));
                r
            },
        }
    }

    /// Takes a listing of the names on the bus as connect events for its
    /// unique names, each name once, in order of first mention. The tasks
    /// that were displaced come back, for the caller to stop: for each listed
    /// name that was tracked, the task it had.
    pub fn on_listing<F: Fn(&String) -> T>(&mut self, names: Vec<BusName>, start: F) -> (r: Vec<T>)
        requires
            old(self).wf(),
            forall|s: &String| #[trigger] start.requires((s,)),
        ensures
            final(self).wf(),
            final(self).peers() == apply_changes(old(self).peers(), connects(unique_names_of(names@))),
            forall|n: Seq<char>| #[trigger]
                final(self)@.contains_key(n) ==> if unique_names_of(names@).contains(n) {
                    started_by(start, n, final(self)@[n])
                } else {
                    final(self)@[n] == old(self)@[n]
                },
            r@ == displaced(old(self)@, unique_names_of(names@)),
    {
        let uniq = unique_names(names);
        let ghost all = uniq@.map_values(|s: String| s@);
        let mut stopped: Vec<T> = Vec::new();
        let mut i: usize = 0;
        while i < uniq.len()
            invariant
                self.wf(),
                i <= uniq@.len(),
                all == uniq@.map_values(|s: String| s@),
                forall|s: &String| #[trigger] start.requires((s,)),
                self.peers() == apply_changes(old(self).peers(), connects(all.take(i as int))),
                forall|n: Seq<char>| #[trigger]
                    self@.contains_key(n) ==> if all.take(i as int).contains(n) {
                        started_by(start, n, self@[n])
                    } else {
                        old(self)@.contains_key(n) && self@[n] == old(self)@[n]
                    },
                forall|n: Seq<char>| #[trigger]
                    all.take(i as int).contains(n) ==> self@.contains_key(n),
                forall|n: Seq<char>| #[trigger]
                    old(self)@.contains_key(n) && !all.take(i as int).contains(n)
                        ==> self@.contains_key(n),
                stopped@ == displaced(old(self)@, all.take(i as int)),
            decreases uniq@.len() - i,
        {
            let ghost key = uniq@[i as int]@;
            let ghost prev = all.take(i as int);
            let ghost next = all.take(i + 1);
            proof {
                assert(next =~= prev.push(key));
                assert(connects(next).drop_last() =~= connects(prev));
                assert(connects(next).last() == PeerChange::Add(key));
                assert(next.drop_last() == prev);
                assert forall|n: Seq<char>| #[trigger] next.contains(n) <==> prev.contains(n) || n
                    == key by {
                    if prev.contains(n) {
                        let j = choose|j: int| 0 <= j < prev.len() && #[trigger] prev[j] == n;
                        assert(next[j] == n);
                    }
                    if next.contains(n) && n != key {
                        let j = choose|j: int| 0 <= j < next.len() && #[trigger] next[j] == n;
                        assert(prev[j] == n);
                    }
                    if n == key {
                        assert(next[i as int] == n);
                    }
                }
            }
            if listed_before(&uniq, i) {
                assert(self.peers() =~= apply_changes(old(self).peers(), connects(next)));
            } else {
                let bus = uniq[i].clone();
                let task = start(&bus);
                let ghost before = self@;
                match self.tasks.insert(bus, task) {
                    Some(prev_task) => stopped.push(prev_task),
                    None => {},
                }
                assert(self.peers() =~= apply_changes(old(self).peers(), connects(next)));
                assert forall|n: Seq<char>| #[trigger] self@.contains_key(n) implies if next.contains(
                    n,
                ) {
                    started_by(start, n, self@[n])
                } else {
                    old(self)@.contains_key(n) && self@[n] == old(self)@[n]
                } by {
                    if n != key {
                        assert(before.contains_key(n));
                    }
                }
                assert(stopped@ =~= displaced(old(self)@, next));
            }
            i = i + 1;
        }
        assert(all.take(all.len() as int) =~= all);
        assert(all == unique_names_of(names@));
        stopped
    }
}

} // verus!
