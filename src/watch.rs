//! The metric watcher: drives one advertised object.
//!
//! The watcher reads the object's name, subscribes to its value changes and
//! only then reads the current value, so that no change can fall between the
//! read and the subscription. It registers the name with the first value and
//! forwards every later value, in order. A failed call whose reply says that
//! the object lacks the probed interface or member is no fault: the object is
//! simply not of this metric type.

use vstd::prelude::*;
use crate::registry::MetricName;

verus! {

/// A failed bus call, with its description.
#[derive(Debug)]
pub enum BusFault {
    UnknownObject(String),
    UnknownMethod(String),
    UnknownInterface(String),
    UnknownProperty(String),
    /// Another standard error reply of the bus.
    Standard(String),
    /// A method error reply: its error name and description.
    MethodError(String, Option<String>),
    /// A transport or protocol failure.
    Other(String),
}

/// Whether an error name is one of the replies for a missing object,
/// method, interface or property.
pub open spec fn spec_is_unknown_dispatch_name(name: Seq<char>) -> bool {
    ||| name == "org.freedesktop.DBus.Error.UnknownInterface"@
    ||| name == "org.freedesktop.DBus.Error.UnknownObject"@
    ||| name == "org.freedesktop.DBus.Error.UnknownMethod"@
    ||| name == "org.freedesktop.DBus.Error.UnknownProperty"@
}

/// Whether a fault says only that the object lacks what was probed.
pub open spec fn spec_is_unknown_dispatch(err: BusFault) -> bool {
    match err {
        BusFault::UnknownObject(_) => true,
        BusFault::UnknownMethod(_) => true,
        BusFault::UnknownInterface(_) => true,
        BusFault::UnknownProperty(_) => true,
        BusFault::MethodError(name, _) => spec_is_unknown_dispatch_name(name@),
        _ => false,
    }
}

/// Whether `name` is the error name of a missing object, method, interface
/// or property.
pub fn is_unknown_dispatch_error_name(name: &String) -> (r: bool)
    ensures
        r == spec_is_unknown_dispatch_name(name@),
{
    *name == String::from_str("org.freedesktop.DBus.Error.UnknownInterface") || *name
        == String::from_str("org.freedesktop.DBus.Error.UnknownObject") || *name
        == String::from_str("org.freedesktop.DBus.Error.UnknownMethod") || *name
        == String::from_str("org.freedesktop.DBus.Error.UnknownProperty")
}

/// Whether a fault is a capability mismatch rather than a failure.
pub fn is_unknown_dispatch_error(err: &BusFault) -> (r: bool)
    ensures
        r == spec_is_unknown_dispatch(*err),
{
    match err {
        BusFault::UnknownObject(_) => true,
        BusFault::UnknownMethod(_) => true,
        BusFault::UnknownInterface(_) => true,
        BusFault::UnknownProperty(_) => true,
        BusFault::MethodError(name, _) => is_unknown_dispatch_error_name(name),
        _ => false,
    }
}

/// Turns a capability mismatch into `Ok(None)`; success and any other fault
/// pass through.
pub fn protect_unknown_dispatch<T>(result: Result<T, BusFault>) -> (r: Result<Option<T>, BusFault>)
    ensures
        match result {
            Ok(v) => r == Ok::<Option<T>, BusFault>(Some(v)),
            Err(e) => if spec_is_unknown_dispatch(e) {
                r == Ok::<Option<T>, BusFault>(None)
            } else {
                r == Err::<Option<T>, BusFault>(e)
            },
        },
{
    match result {
        Ok(val) => Ok(Some(val)),
        Err(e) => {
            if is_unknown_dispatch_error(&e) {
                Ok(None)
            } else {
                Err(e)
            }
        },
    }
}

/// How a watcher ended.
#[derive(Debug)]
pub enum Outcome {
    /// The value stream ended.
    Ended,
    /// The object is not a metric of any known type.
    UnknownType,
    /// A call failed.
    Failed(BusFault),
}

/// Where a watcher stands.
#[derive(PartialEq, Eq, Structural, Clone, Copy, Debug)]
pub enum Phase {
    /// Waiting for the object's name.
    Probing,
    /// Waiting for the subscription to value changes.
    Subscribing,
    /// Waiting for the current value.
    Reading,
    /// Forwarding value changes.
    Streaming,
    /// Done.
    Finished,
}

/// What came back from the bus.
#[derive(Debug)]
pub enum WatchEvent<V> {
    /// The object's name, or the failure to read it.
    Named(Result<String, BusFault>),
    /// The subscription to value changes is open.
    Subscribed,
    /// A value: the current one, or the next off the subscription.
    Value(Result<V, BusFault>),
    /// The subscription has ended.
    Ended,
}

/// What the watcher asks for next.
#[derive(Debug)]
pub enum WatchAction<V> {
    ReadName,
    Subscribe,
    ReadValue,
    /// Register the name, publish the first value under it, and wait for the
    /// next change.
    Register(MetricName, V),
    /// Publish a value and wait for the next change.
    Publish(V),
    /// Stop, discarding the registration if there is one.
    Stop(Outcome),
}

/// An action in the mathematical view.
pub enum ActionView<V> {
    ReadName,
    Subscribe,
    ReadValue,
    Register(Seq<char>, V),
    Publish(V),
    Stop(Outcome),
}

impl<V> View for WatchAction<V> {
    type V = ActionView<V>;

    open spec fn view(&self) -> ActionView<V> {
        match self {
            WatchAction::ReadName => ActionView::ReadName,
            WatchAction::Subscribe => ActionView::Subscribe,
            WatchAction::ReadValue => ActionView::ReadValue,
            WatchAction::Register(n, v) => ActionView::Register(n@, *v),
            WatchAction::Publish(v) => ActionView::Publish(*v),
            WatchAction::Stop(o) => ActionView::Stop(*o),
        }
    }
}

/// A watcher in the mathematical view: its phase and the name read.
pub struct WatchView {
    pub phase: Phase,
    pub name: Seq<char>,
}

/// How a watcher ends on a failed call.
pub open spec fn spec_outcome_of(err: BusFault) -> Outcome {
    if spec_is_unknown_dispatch(err) {
        Outcome::UnknownType
    } else {
        Outcome::Failed(err)
    }
}

/// The state a watcher starts in, and the action it starts with.
pub open spec fn spec_start<V>() -> (WatchView, ActionView<V>) {
    (WatchView { phase: Phase::Probing, name: Seq::empty() }, ActionView::ReadName)
}

/// Whether a watcher in phase `phase` is waiting for `event`.
pub open spec fn spec_accepts<V>(phase: Phase, event: WatchEvent<V>) -> bool {
    match event {
        WatchEvent::Named(_) => phase == Phase::Probing,
        WatchEvent::Subscribed => phase == Phase::Subscribing,
        WatchEvent::Value(_) => phase == Phase::Reading || phase == Phase::Streaming,
        WatchEvent::Ended => phase == Phase::Streaming,
    }
}

/// One step of a watcher: the next state and the next action.
pub open spec fn spec_step<V>(s: WatchView, event: WatchEvent<V>) -> (WatchView, ActionView<V>) {
    let done = WatchView { phase: Phase::Finished, name: s.name };
    match event {
        WatchEvent::Named(Ok(name)) => (
            WatchView { phase: Phase::Subscribing, name: name@ },
            ActionView::Subscribe,
        ),
        WatchEvent::Named(Err(e)) => (done, ActionView::Stop(spec_outcome_of(e))),
        WatchEvent::Subscribed => (
            WatchView { phase: Phase::Reading, name: s.name },
            ActionView::ReadValue,
        ),
        WatchEvent::Value(Ok(v)) => if s.phase == Phase::Reading {
            (WatchView { phase: Phase::Streaming, name: s.name }, ActionView::Register(s.name, v))
        } else {
            (s, ActionView::Publish(v))
        },
        WatchEvent::Value(Err(e)) => (done, ActionView::Stop(spec_outcome_of(e))),
        WatchEvent::Ended => (done, ActionView::Stop(Outcome::Ended)),
    }
}

/// The state after a run of events, and the actions asked for on the way.
pub open spec fn spec_run<V>(s: WatchView, events: Seq<WatchEvent<V>>) -> (WatchView, Seq<
    ActionView<V>,
>)
    decreases events.len(),
{
    if events.len() == 0 {
        (s, Seq::empty())
    } else {
        let (mid, acts) = spec_run(s, events.drop_last());
        let (next, act) = spec_step(mid, events.last());
        (next, acts.push(act))
    }
}

/// The watcher of one metric object.
pub struct GaugeWatch {
    phase: Phase,
    name: String,
}

impl View for GaugeWatch {
    type V = WatchView;

    closed spec fn view(&self) -> WatchView {
        WatchView { phase: self.phase, name: self.name@ }
    }
}

impl GaugeWatch {
    /// A new watcher, and its first action: read the object's name.
    pub fn start<V>() -> (r: (GaugeWatch, WatchAction<V>))
        ensures
            (r.0@, r.1@) == spec_start::<V>(),
    {
        let w = GaugeWatch { phase: Phase::Probing, name: String::new() };
        (w, WatchAction::ReadName)
    }

    /// The phase the watcher is in.
    pub fn phase(&self) -> (r: Phase)
        ensures
            r == self@.phase,
    {
        self.phase
    }

    /// Whether the watcher is waiting for `event`.
    pub fn accepts<V>(&self, event: &WatchEvent<V>) -> (r: bool)
        ensures
            r == spec_accepts(self@.phase, *event),
    {
        match event {
            WatchEvent::Named(_) => self.phase == Phase::Probing,
            WatchEvent::Subscribed => self.phase == Phase::Subscribing,
            WatchEvent::Value(_) => self.phase == Phase::Reading || self.phase == Phase::Streaming,
            WatchEvent::Ended => self.phase == Phase::Streaming,
        }
    }

    /// Takes the answer to the last action and decides the next one.
    pub fn step<V>(&mut self, event: WatchEvent<V>) -> (a: WatchAction<V>)
        requires
            spec_accepts(old(self)@.phase, event),
        ensures
            (final(self)@, a@) == spec_step(old(self)@, event),
    {
        match event {
            WatchEvent::Named(Ok(name)) => {
                self.phase = Phase::Subscribing;
                self.name = name;
                WatchAction::Subscribe
            },
            WatchEvent::Named(Err(e)) => {
                self.phase = Phase::Finished;
                WatchAction::Stop(outcome_of(e))
            },
            WatchEvent::Subscribed => {
                self.phase = Phase::Reading;
                WatchAction::ReadValue
            },
            WatchEvent::Value(Ok(v)) => {
                if self.phase == Phase::Reading {
                    self.phase = Phase::Streaming;
                    WatchAction::Register(MetricName::new(self.name.clone()), v)
                } else {
                    WatchAction::Publish(v)
                }
            },
            WatchEvent::Value(Err(e)) => {
                self.phase = Phase::Finished;
                WatchAction::Stop(outcome_of(e))
            },
            WatchEvent::Ended => {
                self.phase = Phase::Finished;
                WatchAction::Stop(Outcome::Ended)
            },
        }
    }
}

/// How a watcher ends on a failed call: a capability mismatch means the
/// object is of no known type, anything else is a failure.
pub fn outcome_of(err: BusFault) -> (r: Outcome)
    ensures
        r == spec_outcome_of(err),
{
    if is_unknown_dispatch_error(&err) {
        Outcome::UnknownType
    } else {
        Outcome::Failed(err)
    }
}

/// The events of a watcher whose object is a gauge: its name, the open
/// subscription, the value read after it, then each change that the
/// subscription delivers.
pub open spec fn gauge_events<V>(name: String, first: V, changes: Seq<V>) -> Seq<WatchEvent<V>> {
    seq![
        WatchEvent::Named(Ok(name)),
        WatchEvent::Subscribed,
        WatchEvent::Value(Ok(first)),
    ] + changes.map_values(|v: V| WatchEvent::Value(Ok(v)))
}

/// The actions that those events lead to.
pub open spec fn gauge_actions<V>(name: Seq<char>, first: V, changes: Seq<V>) -> Seq<ActionView<V>> {
    seq![ActionView::Subscribe, ActionView::ReadValue, ActionView::Register(name, first)]
        + changes.map_values(|v: V| ActionView::Publish(v))
}

/// The watcher subscribes before it reads the current value, and then hands
/// on the value read followed by every change the subscription delivers,
/// each exactly once and in order; it waits for each event it is given and
/// stays live while the stream goes on.
pub proof fn lemma_subscribe_before_read<V>(name: String, first: V, changes: Seq<V>)
    ensures
        ({
            let events = gauge_events(name, first, changes);
            let (end, actions) = spec_run(spec_start::<V>().0, events);
            &&& actions == gauge_actions(name@, first, changes)
            &&& end == WatchView { phase: Phase::Streaming, name: name@ }
            &&& forall|i: int|
                0 <= i < events.len() ==> spec_accepts(
                    #[trigger] spec_run(spec_start::<V>().0, events.take(i)).0.phase,
                    events[i],
                )
        }),
    decreases changes.len(),
{
    let s0 = spec_start::<V>().0;
    let events = gauge_events(name, first, changes);
    if changes.len() == 0 {
        let e = events;
        assert(e.take(0) =~= Seq::<WatchEvent<V>>::empty());
        assert(e.take(1).drop_last() =~= e.take(0));
        assert(e.take(2).drop_last() =~= e.take(1));
        assert(e.take(3).drop_last() =~= e.take(2));
        assert(e.take(3) =~= e);
        assert(e[0] == WatchEvent::<V>::Named(Ok(name)));
        assert(e[1] == WatchEvent::<V>::Subscribed);
        assert(e[2] == WatchEvent::<V>::Value(Ok(first)));
        assert(e.take(1).last() == e[0]);
        assert(e.take(2).last() == e[1]);
        assert(spec_run(s0, e.take(0)).1 == Seq::<ActionView<V>>::empty());
        let r1 = spec_run(s0, e.take(1));
        assert(r1.1 == Seq::<ActionView<V>>::empty().push(ActionView::<V>::Subscribe));
        assert(r1.0 == WatchView { phase: Phase::Subscribing, name: name@ });
        let r2 = spec_run(s0, e.take(2));
        assert(r2.0 == WatchView { phase: Phase::Reading, name: name@ });
        assert(spec_run(s0, e.take(1)).1 =~= seq![ActionView::<V>::Subscribe]);
        assert(spec_run(s0, e.take(2)).1 =~= seq![ActionView::<V>::Subscribe, ActionView::ReadValue]);
        assert(spec_run(s0, e).1 =~= gauge_actions(name@, first, changes));
    } else {
        let init = changes.drop_last();
        lemma_subscribe_before_read(name, first, init);
        let prev = gauge_events(name, first, init);
        assert(events.drop_last() =~= prev);
        assert(events.last() == WatchEvent::Value(Ok(changes.last())));
        assert(gauge_actions(name@, first, changes) =~= gauge_actions(name@, first, init).push(
            ActionView::Publish(changes.last()),
        ));
        assert forall|i: int| 0 <= i < events.len() implies spec_accepts(
            #[trigger] spec_run(s0, events.take(i)).0.phase,
            events[i],
        ) by {
            if i < prev.len() {
                assert(events.take(i) =~= prev.take(i));
                assert(events[i] == prev[i]);
            } else {
                assert(events.take(i) =~= prev);
            }
        }
    }
}

} // verus!
