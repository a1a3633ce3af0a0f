//! Configuration of the exporter and of the file gauge producer, and the
//! rules that a configuration must meet.

use vstd::prelude::*;

verus! {

/// The default of a flag that is on unless configured off.
pub fn bool_true() -> (r: bool)
    ensures
        r,
{
    true
}

/// The default of a flag that is off unless configured on.
pub fn bool_false() -> (r: bool)
    ensures
        !r,
{
    false
}

/// Which buses the exporter attaches to.
pub struct Dbus {
    pub system: bool,
    pub session: bool,
}

impl Dbus {
    /// The buses attached to when the configuration names none: the system
    /// bus only.
    pub fn new() -> (r: Dbus)
        ensures
            r.system,
            !r.session,
    {
        Dbus { system: bool_true(), session: bool_false() }
    }
}

/// A bus the exporter can attach to.
#[derive(PartialEq, Eq, Structural, Clone, Copy, Debug)]
pub enum BusKind {
    Session,
    System,
}

/// A configuration that names no bus to attach to.
#[derive(PartialEq, Eq, Structural, Clone, Copy, Debug)]
pub struct NoBusConfigured;

impl Dbus {
    /// The buses to attach to, session bus first; at least one is required.
    pub fn buses(&self) -> (r: Result<Vec<BusKind>, NoBusConfigured>)
        ensures
            match r {
                Ok(v) => {
                    &&& v@ == if self.session && self.system {
                        seq![BusKind::Session, BusKind::System]
                    } else if self.session {
                        seq![BusKind::Session]
                    } else {
                        seq![BusKind::System]
                    }
                    &&& (self.session || self.system)
                },
                Err(_) => !self.session && !self.system,
            },
    {
        let mut v: Vec<BusKind> = Vec::new();
        if self.session {
            v.push(BusKind::Session);
        }
        if self.system {
            v.push(BusKind::System);
        }
        if v.len() == 0 {
            return Err(NoBusConfigured);
        }
        assert(v@ =~= if self.session && self.system {
            seq![BusKind::Session, BusKind::System]
        } else if self.session {
            seq![BusKind::Session]
        } else {
            seq![BusKind::System]
        });
        Ok(v)
    }
}

/// TLS for the HTTP endpoint: server certificate and key files.
pub struct Tls {
    pub cert: String,
    pub key: String,
    /// Client certificates are required and checked when present.
    pub verify: Option<Verify>,
}

/// The trust root that client certificates are checked against.
pub struct Verify {
    pub ca: String,
}

/// The exporter run from a configuration file.
pub struct ConfigOpt {
    pub config: String,
}

/// A span of time: whole seconds and the nanoseconds beyond them.
#[derive(PartialEq, Eq, Structural, Clone, Copy, Debug)]
pub struct Interval {
    pub secs: u64,
    pub nanos: u32,
}

impl Interval {
    pub open spec fn wf(self) -> bool {
        self.nanos < 1_000_000_000
    }

    /// The interval in nanoseconds.
    pub open spec fn total_nanos(self) -> int {
        self.secs * 1_000_000_000 + self.nanos
    }

    /// `secs` whole seconds.
    pub fn from_secs(secs: u64) -> (r: Interval)
        ensures
            r.wf(),
            r.secs == secs,
            r.nanos == 0,
    {
        Interval { secs, nanos: 0 }
    }
}

/// The refresh interval used when the configuration gives none: five seconds.
pub fn default_refresh_secs() -> (r: Interval)
    ensures
        r.wf(),
        r.total_nanos() == 5_000_000_000,
{
    Interval::from_secs(5)
}

/// How the file gauge producer samples its files.
pub struct Watch {
    pub refresh_secs: Interval,
}

impl Watch {
    /// Sampling at the default interval.
    pub fn new() -> (r: Watch)
        ensures
            r.refresh_secs.wf(),
            r.refresh_secs.total_nanos() == 5_000_000_000,
    {
        Watch { refresh_secs: default_refresh_secs() }
    }
}

/// Whether a character may stand in a metric name: `[A-Za-z0-9_]`.
pub open spec fn is_name_char(c: char) -> bool {
    ||| ('A' <= c && c <= 'Z')
    ||| ('a' <= c && c <= 'z')
    ||| ('0' <= c && c <= '9')
    ||| c == '_'
}

/// Whether a string is a metric name: one or more characters of
/// `[A-Za-z0-9_]`.
pub open spec fn is_metric_name(s: Seq<char>) -> bool {
    s.len() > 0 && forall|i: int| 0 <= i < s.len() ==> is_name_char(#[trigger] s[i])
}

/// Why a string is no metric name.
#[derive(Debug)]
pub enum GaugeNameError {
    /// The name is empty.
    Empty,
    /// The name holds a character outside `[A-Za-z0-9_]`; the first such.
    InvalidChar { name: String, found: char },
}

/// A validated metric name of the file gauge producer.
#[derive(Debug)]
pub struct GaugeName {
    name: String,
}

impl View for GaugeName {
    type V = Seq<char>;

    closed spec fn view(&self) -> Seq<char> {
        self.name@
    }
}

impl GaugeName {
    #[verifier::type_invariant]
    closed spec fn inv(&self) -> bool {
        is_metric_name(self.name@)
    }

    pub fn as_str(&self) -> (r: &str)
        ensures
            r@ == self@,
            is_metric_name(r@),
    {
        proof {
            use_type_invariant(self);
        }
        self.name.as_str()
    }
}

impl Clone for GaugeName {
    fn clone(&self) -> (r: GaugeName)
        ensures
            r@ == self@,
    {
        proof {
            use_type_invariant(self);
        }
        GaugeName { name: self.name.clone() }
    }
}

fn is_name_char_exec(c: char) -> (r: bool)
    ensures
        r == is_name_char(c),
{
    ('A' <= c && c <= 'Z') || ('a' <= c && c <= 'z') || ('0' <= c && c <= '9') || c == '_'
}

/// Accepts `name` as a metric name if it is one; otherwise says why not,
/// naming the first character that may not stand in it.
pub fn parse_gauge_name(name: String) -> (r: Result<GaugeName, GaugeNameError>)
    ensures
        match r {
            Ok(g) => is_metric_name(name@) && g@ == name@,
            Err(GaugeNameError::Empty) => name@.len() == 0,
            Err(GaugeNameError::InvalidChar { name: n, found }) => {
                &&& n@ == name@
                &&& exists|i: int|
                    0 <= i < name@.len() && name@[i] == found && !is_name_char(found) && forall|
                        j: int,
                    | 0 <= j < i ==> is_name_char(#[trigger] name@[j])
            },
        },
        r is Ok <==> is_metric_name(name@),
{
    let len = name.as_str().unicode_len();
    if len == 0 {
        return Err(GaugeNameError::Empty);
    }
    let mut i: usize = 0;
    while i < len
        invariant
            len == name@.len(),
            i <= len,
            forall|j: int| 0 <= j < i ==> is_name_char(#[trigger] name@[j]),
        decreases len - i,
    {
        let c = name.as_str().get_char(i);
        if !is_name_char_exec(c) {
            return Err(GaugeNameError::InvalidChar { name, found: c });
        }
        i = i + 1;
    }
    Ok(GaugeName { name })
}

/// The gauges of the file gauge producer: each metric name with the file
/// its value is read from.
pub struct Gauges(pub Vec<(GaugeName, String)>);

} // verus!
