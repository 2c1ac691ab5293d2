//! Severities, causes and stutter events.

use crate::text::{copy_texts, starts_with, texts};
use crate::types::{briefs, copy_briefs, idle_readings, ProcessBrief, ProcessModel, Sample, SampleModel, Timestamp};
use vstd::prelude::*;

verus! {

/// How bad a stutter was.
#[derive(Clone, Copy, Debug, PartialEq, Eq, Structural)]
pub enum Severity {
    Minor,
    Major,
    Critical,
}

impl Default for Severity {
    fn default() -> (s: Severity)
        ensures
            s == Severity::Minor,
    {
        Severity::Minor
    }
}

/// The stored word of a severity.
pub open spec fn severity_word(s: Severity) -> Seq<char> {
    match s {
        Severity::Minor => "minor"@,
        Severity::Major => "major"@,
        Severity::Critical => "critical"@,
    }
}

impl Severity {
    /// The stored word.
    pub fn as_str(self) -> (w: &'static str)
        ensures
            w@ == severity_word(self),
    {
        match self {
            Severity::Minor => "minor",
            Severity::Major => "major",
            Severity::Critical => "critical",
        }
    }

    /// The stored word as a string of its own.
    pub fn to_text(self) -> (w: String)
        ensures
            w@ == severity_word(self),
    {
        String::from_str(self.as_str())
    }
}

/// The kind of a cause of a stutter.
#[derive(Clone, Copy, Debug, PartialEq, Eq, Hash, Structural)]
pub enum CauseKind {
    CpuHigh,
    /// A rise over the recent baseline, apart from the hard threshold of `CpuHigh`.
    CpuSpike,
    MemLow,
    DiskBusy,
    DiskSpike,
    /// Reserved; the detector does not report it.
    GpuHigh,
    ThermalThrottle,
    DpcInterrupt,
    InterruptStorm,
    ContextSwitchStorm,
    NetSpike,
    UiFrozen,
    ProcessHandleLeak,
    /// Many handles without a growing trend: a neutral hint, never the main cause.
    HandleHigh,
    GdiObjectLeak,
    DriverTimeout,
    ServiceCrash,
    DiskIoError,
    HardwareError,
}

/// The name of a kind, as it is stored.
pub open spec fn kind_name(k: CauseKind) -> Seq<char> {
    match k {
        CauseKind::CpuHigh => "CpuHigh"@,
        CauseKind::CpuSpike => "CpuSpike"@,
        CauseKind::MemLow => "MemLow"@,
        CauseKind::DiskBusy => "DiskBusy"@,
        CauseKind::DiskSpike => "DiskSpike"@,
        CauseKind::GpuHigh => "GpuHigh"@,
        CauseKind::ThermalThrottle => "ThermalThrottle"@,
        CauseKind::DpcInterrupt => "DpcInterrupt"@,
        CauseKind::InterruptStorm => "InterruptStorm"@,
        CauseKind::ContextSwitchStorm => "ContextSwitchStorm"@,
        CauseKind::NetSpike => "NetSpike"@,
        CauseKind::UiFrozen => "UiFrozen"@,
        CauseKind::ProcessHandleLeak => "ProcessHandleLeak"@,
        CauseKind::HandleHigh => "HandleHigh"@,
        CauseKind::GdiObjectLeak => "GdiObjectLeak"@,
        CauseKind::DriverTimeout => "DriverTimeout"@,
        CauseKind::ServiceCrash => "ServiceCrash"@,
        CauseKind::DiskIoError => "DiskIoError"@,
        CauseKind::HardwareError => "HardwareError"@,
    }
}

/// How many prefixes of cause texts are known.
pub const PREFIX_COUNT: usize = 17;

/// The prefix of cause texts with number `i`.
pub open spec fn prefix_text(i: int) -> Seq<char> {
    if i == 0 {
        "CPU usage"@
    } else if i == 1 {
        "CPU spike"@
    } else if i == 2 {
        "Disk write"@
    } else if i == 3 {
        "Disk busy"@
    } else if i == 4 {
        "DPC time"@
    } else if i == 5 {
        "Interrupt time"@
    } else if i == 6 {
        "Context switches"@
    } else if i == 7 {
        "Thermal throttle"@
    } else if i == 8 {
        "UI frozen"@
    } else if i == 9 {
        "Network"@
    } else if i == 10 {
        "Memory usage"@
    } else if i == 11 {
        "Memory available"@
    } else if i == 12 {
        "Available memory"@
    } else if i == 13 {
        "Commit charge"@
    } else if i == 14 {
        "Memory paging"@
    } else if i == 15 {
        "句柄泄漏"@
    } else {
        "句柄数偏高"@
    }
}

/// The kind of a cause text with prefix number `i`.
pub open spec fn prefix_kind(i: int) -> CauseKind {
    if i == 0 {
        CauseKind::CpuHigh
    } else if i == 1 {
        CauseKind::CpuSpike
    } else if i == 2 {
        CauseKind::DiskSpike
    } else if i == 3 {
        CauseKind::DiskBusy
    } else if i == 4 {
        CauseKind::DpcInterrupt
    } else if i == 5 {
        CauseKind::InterruptStorm
    } else if i == 6 {
        CauseKind::ContextSwitchStorm
    } else if i == 7 {
        CauseKind::ThermalThrottle
    } else if i == 8 {
        CauseKind::UiFrozen
    } else if i == 9 {
        CauseKind::NetSpike
    } else if i == 10 {
        CauseKind::MemLow
    } else if i == 11 {
        CauseKind::MemLow
    } else if i == 12 {
        CauseKind::MemLow
    } else if i == 13 {
        CauseKind::MemLow
    } else if i == 14 {
        CauseKind::MemLow
    } else if i == 15 {
        CauseKind::ProcessHandleLeak
    } else {
        CauseKind::HandleHigh
    }
}

/// The number of the first known prefix, from `i` on, that `cause` begins with; the count of
/// prefixes where there is none.
pub open spec fn first_prefix(cause: Seq<char>, i: int) -> int
    decreases PREFIX_COUNT - i,
{
    if i >= PREFIX_COUNT || prefix_text(i).is_prefix_of(cause) {
        i
    } else {
        first_prefix(cause, i + 1)
    }
}

/// The kind of a cause text, by its prefix.
pub open spec fn kind_of(cause: Seq<char>) -> Option<CauseKind> {
    let i = first_prefix(cause, 0);
    if i < PREFIX_COUNT {
        Some(prefix_kind(i))
    } else {
        None
    }
}

/// The stable key of a cause text: its known prefix, or the whole text where it has none.
pub open spec fn key_of(cause: Seq<char>) -> Seq<char> {
    let i = first_prefix(cause, 0);
    if i < PREFIX_COUNT {
        prefix_text(i)
    } else {
        cause
    }
}

/// Whether a kind comes from software, drivers or hardware rather than from a resource.
pub open spec fn software_kind(k: CauseKind) -> bool {
    match k {
        CauseKind::ProcessHandleLeak | CauseKind::HandleHigh | CauseKind::GdiObjectLeak
        | CauseKind::DriverTimeout | CauseKind::ServiceCrash | CauseKind::DiskIoError
        | CauseKind::HardwareError => true,
        _ => false,
    }
}

/// The rank of a software kind, the gravest first.
pub open spec fn software_rank(k: CauseKind) -> Option<u8> {
    match k {
        CauseKind::HardwareError => Some(0),
        CauseKind::DriverTimeout => Some(1),
        CauseKind::ServiceCrash => Some(2),
        CauseKind::DiskIoError => Some(3),
        CauseKind::ProcessHandleLeak => Some(4),
        CauseKind::GdiObjectLeak => Some(5),
        CauseKind::HandleHigh => Some(6),
        _ => None,
    }
}

/// Whether a kind is pressure on the system. Throughput alone (network, disk writes) is not.
pub open spec fn pressure_kind(k: CauseKind) -> bool {
    k != CauseKind::NetSpike && k != CauseKind::DiskSpike
}

fn prefix_at(i: usize) -> (p: &'static str)
    requires
        i < PREFIX_COUNT,
    ensures
        p@ == prefix_text(i as int),
{
    match i {
        0 => "CPU usage",
        1 => "CPU spike",
        2 => "Disk write",
        3 => "Disk busy",
        4 => "DPC time",
        5 => "Interrupt time",
        6 => "Context switches",
        7 => "Thermal throttle",
        8 => "UI frozen",
        9 => "Network",
        10 => "Memory usage",
        11 => "Memory available",
        12 => "Available memory",
        13 => "Commit charge",
        14 => "Memory paging",
        15 => "句柄泄漏",
        _ => "句柄数偏高",
    }
}

fn kind_at(i: usize) -> (k: CauseKind)
    requires
        i < PREFIX_COUNT,
    ensures
        k == prefix_kind(i as int),
{
    match i {
        0 => CauseKind::CpuHigh,
        1 => CauseKind::CpuSpike,
        2 => CauseKind::DiskSpike,
        3 => CauseKind::DiskBusy,
        4 => CauseKind::DpcInterrupt,
        5 => CauseKind::InterruptStorm,
        6 => CauseKind::ContextSwitchStorm,
        7 => CauseKind::ThermalThrottle,
        8 => CauseKind::UiFrozen,
        9 => CauseKind::NetSpike,
        10 => CauseKind::MemLow,
        11 => CauseKind::MemLow,
        12 => CauseKind::MemLow,
        13 => CauseKind::MemLow,
        14 => CauseKind::MemLow,
        15 => CauseKind::ProcessHandleLeak,
        _ => CauseKind::HandleHigh,
    }
}

fn find_prefix(cause: &str) -> (i: usize)
    ensures
        i <= PREFIX_COUNT,
        i == first_prefix(cause@, 0),
{
    let mut i: usize = 0;
    while i < PREFIX_COUNT && !starts_with(cause, prefix_at(i))
        invariant
            i <= PREFIX_COUNT,
            first_prefix(cause@, i as int) == first_prefix(cause@, 0),
        decreases PREFIX_COUNT - i,
    {
        i += 1;
    }
    i
}

impl CauseKind {
    /// The kind of a cause text, by its prefix; none where no known prefix fits.
    pub fn from_cause(cause: &str) -> (k: Option<CauseKind>)
        ensures
            k == kind_of(cause@),
    {
        let i = find_prefix(cause);
        if i < PREFIX_COUNT {
            Some(kind_at(i))
        } else {
            None
        }
    }

    /// Whether the kind comes from software, drivers or hardware.
    pub fn is_software(self) -> (r: bool)
        ensures
            r == software_kind(self),
    {
        matches!(
            self,
            CauseKind::ProcessHandleLeak | CauseKind::HandleHigh | CauseKind::GdiObjectLeak
                | CauseKind::DriverTimeout | CauseKind::ServiceCrash | CauseKind::DiskIoError
                | CauseKind::HardwareError
        )
    }

    /// The rank among software kinds, the gravest first; none for a resource kind.
    pub fn software_priority(self) -> (r: Option<u8>)
        ensures
            r == software_rank(self),
    {
        match self {
            CauseKind::HardwareError => Some(0),
            CauseKind::DriverTimeout => Some(1),
            CauseKind::ServiceCrash => Some(2),
            CauseKind::DiskIoError => Some(3),
            CauseKind::ProcessHandleLeak => Some(4),
            CauseKind::GdiObjectLeak => Some(5),
            CauseKind::HandleHigh => Some(6),
            _ => None,
        }
    }

    /// Whether the kind is pressure on the system rather than throughput alone.
    pub fn is_pressure(self) -> (r: bool)
        ensures
            r == pressure_kind(self),
    {
        match self {
            CauseKind::NetSpike | CauseKind::DiskSpike => false,
            _ => true,
        }
    }

    /// The name under which the kind is stored.
    pub fn name(self) -> (n: &'static str)
        ensures
            n@ == kind_name(self),
    {
        match self {
            CauseKind::CpuHigh => "CpuHigh",
            CauseKind::CpuSpike => "CpuSpike",
            CauseKind::MemLow => "MemLow",
            CauseKind::DiskBusy => "DiskBusy",
            CauseKind::DiskSpike => "DiskSpike",
            CauseKind::GpuHigh => "GpuHigh",
            CauseKind::ThermalThrottle => "ThermalThrottle",
            CauseKind::DpcInterrupt => "DpcInterrupt",
            CauseKind::InterruptStorm => "InterruptStorm",
            CauseKind::ContextSwitchStorm => "ContextSwitchStorm",
            CauseKind::NetSpike => "NetSpike",
            CauseKind::UiFrozen => "UiFrozen",
            CauseKind::ProcessHandleLeak => "ProcessHandleLeak",
            CauseKind::HandleHigh => "HandleHigh",
            CauseKind::GdiObjectLeak => "GdiObjectLeak",
            CauseKind::DriverTimeout => "DriverTimeout",
            CauseKind::ServiceCrash => "ServiceCrash",
            CauseKind::DiskIoError => "DiskIoError",
            CauseKind::HardwareError => "HardwareError",
        }
    }
}

/// The stable key of a cause text: its known prefix, or the whole text where it has none.
pub fn cause_key(cause: &str) -> (key: &str)
    ensures
        key@ == key_of(cause@),
{
    let i = find_prefix(cause);
    if i < PREFIX_COUNT {
        prefix_at(i)
    } else {
        cause
    }
}

/// When a cause was first seen, in milliseconds after the stutter began, by kind.
pub type FirstTouch = Vec<(CauseKind, i64)>;

/// A stutter that was recorded.
#[derive(Debug)]
pub struct StutterEvent {
    /// The row of the event; zero until it is stored.
    pub id: i64,
    /// When it ended.
    pub timestamp: Timestamp,
    pub duration_ms: u64,
    pub severity: Severity,
    pub causes: Vec<String>,
    /// The kinds of the causes, the earliest first.
    pub cause_kinds: Vec<CauseKind>,
    pub primary_cause: Option<CauseKind>,
    pub cause_first_touch: FirstTouch,
    /// When it began, in Unix milliseconds.
    pub onset_ts: Option<i64>,
    /// The sample that ended it.
    pub snapshot: Sample,
    pub culprits: Vec<ProcessBrief>,
}

/// What a [`StutterEvent`] holds.
pub struct EventModel {
    pub id: i64,
    pub timestamp: Timestamp,
    pub duration_ms: u64,
    pub severity: Severity,
    pub causes: Seq<Seq<char>>,
    pub cause_kinds: Seq<CauseKind>,
    pub primary_cause: Option<CauseKind>,
    pub cause_first_touch: Seq<(CauseKind, i64)>,
    pub onset_ts: Option<i64>,
    pub snapshot: SampleModel,
    pub culprits: Seq<ProcessModel>,
}

impl View for StutterEvent {
    type V = EventModel;

    open spec fn view(&self) -> EventModel {
        EventModel {
            id: self.id,
            timestamp: self.timestamp,
            duration_ms: self.duration_ms,
            severity: self.severity,
            causes: texts(self.causes@),
            cause_kinds: self.cause_kinds@,
            primary_cause: self.primary_cause,
            cause_first_touch: self.cause_first_touch@,
            onset_ts: self.onset_ts,
            snapshot: self.snapshot@,
            culprits: briefs(self.culprits@),
        }
    }
}

/// The moment at which Unix time begins.
pub open spec fn epoch() -> Timestamp {
    Timestamp { secs: 0, nanos: 0 }
}

impl Default for StutterEvent {
    fn default() -> (e: StutterEvent)
        ensures
            e@ == (EventModel {
                id: 0,
                timestamp: epoch(),
                duration_ms: 0,
                severity: Severity::Minor,
                causes: seq![],
                cause_kinds: seq![],
                primary_cause: None,
                cause_first_touch: seq![],
                onset_ts: None,
                snapshot: SampleModel {
                    timestamp: epoch(),
                    readings: idle_readings(),
                    cpu_per_core: seq![],
                    top_processes: seq![],
                },
                culprits: seq![],
            }),
    {
        let e = StutterEvent {
            id: 0,
            timestamp: Timestamp { secs: 0, nanos: 0 },
            duration_ms: 0,
            severity: Severity::Minor,
            causes: Vec::new(),
            cause_kinds: Vec::new(),
            primary_cause: None,
            cause_first_touch: Vec::new(),
            onset_ts: None,
            snapshot: Sample::at(Timestamp { secs: 0, nanos: 0 }),
            culprits: Vec::new(),
        };
        proof {
            assert(e@.causes =~= seq![]);
            assert(e@.cause_kinds =~= seq![]);
            assert(e@.cause_first_touch =~= seq![]);
            assert(e@.culprits =~= seq![]);
        }
        e
    }
}

impl StutterEvent {
    /// A copy.
    pub fn copy(&self) -> (e: StutterEvent)
        ensures
            e@ == self@,
    {
        let mut kinds: Vec<CauseKind> = Vec::new();
        let mut i: usize = 0;
        while i < self.cause_kinds.len()
            invariant
                i <= self.cause_kinds@.len(),
                kinds@ == self.cause_kinds@.take(i as int),
            decreases self.cause_kinds@.len() - i,
        {
            kinds.push(self.cause_kinds[i]);
            i += 1;
            proof {
                assert(kinds@ =~= self.cause_kinds@.take(i as int));
            }
        }
        let mut touches: FirstTouch = Vec::new();
        let mut j: usize = 0;
        while j < self.cause_first_touch.len()
            invariant
                j <= self.cause_first_touch@.len(),
                touches@ == self.cause_first_touch@.take(j as int),
            decreases self.cause_first_touch@.len() - j,
        {
            touches.push(self.cause_first_touch[j]);
            j += 1;
            proof {
                assert(touches@ =~= self.cause_first_touch@.take(j as int));
            }
        }
        proof {
            assert(kinds@ =~= self.cause_kinds@);
            assert(touches@ =~= self.cause_first_touch@);
        }
        StutterEvent {
            id: self.id,
            timestamp: self.timestamp,
            duration_ms: self.duration_ms,
            severity: self.severity,
            causes: copy_texts(&self.causes),
            cause_kinds: kinds,
            primary_cause: self.primary_cause,
            cause_first_touch: touches,
            onset_ts: self.onset_ts,
            snapshot: self.snapshot.copy(),
            culprits: copy_briefs(&self.culprits),
        }
    }
}

/// The number of a first-touch list for a kind: the one that stands first.
pub open spec fn touch_of(touches: Seq<(CauseKind, i64)>, k: CauseKind) -> Option<i64>
    decreases touches.len(),
{
    if touches.len() == 0 {
        None
    } else if touches[0].0 == k {
        Some(touches[0].1)
    } else {
        touch_of(touches.skip(1), k)
    }
}

/// When a kind was first seen, if it was.
pub fn first_touch(touches: &FirstTouch, k: CauseKind) -> (t: Option<i64>)
    ensures
        t == touch_of(touches@, k),
{
    let mut i: usize = 0;
    proof {
        assert(touches@.skip(0) =~= touches@);
    }
    while i < touches.len()
        invariant
            i <= touches@.len(),
            touch_of(touches@.skip(i as int), k) == touch_of(touches@, k),
        decreases touches@.len() - i,
    {
        let ghost rest = touches@.skip(i as int);
        proof {
            assert(rest.skip(1) =~= touches@.skip(i + 1));
        }
        if touches[i].0 == k {
            return Some(touches[i].1);
        }
        i += 1;
    }
    None
}

/// A cause text has a kind exactly where it has a known prefix, and two texts with the same
/// known prefix have the same key and the same kind.
pub proof fn lemma_key_and_kind_agree(a: Seq<char>, b: Seq<char>)
    requires
        kind_of(a) is Some,
        kind_of(b) is Some,
        key_of(a) == key_of(b),
    ensures
        kind_of(a) == kind_of(b),
        key_of(a).is_prefix_of(a),
        key_of(b).is_prefix_of(b),
{
    lemma_first_prefix(a, 0);
    lemma_first_prefix(b, 0);
    lemma_prefixes_exclude(a, first_prefix(a, 0), first_prefix(b, 0));
}

pub(crate) proof fn lemma_first_prefix(cause: Seq<char>, i: int)
    requires
        0 <= i <= PREFIX_COUNT,
    ensures
        i <= first_prefix(cause, i) <= PREFIX_COUNT,
        first_prefix(cause, i) < PREFIX_COUNT ==> prefix_text(first_prefix(cause, i)).is_prefix_of(cause),
    decreases PREFIX_COUNT - i,
{
    if i < PREFIX_COUNT && !prefix_text(i).is_prefix_of(cause) {
        lemma_first_prefix(cause, i + 1);
    }
}

/// No text begins with two known prefixes.
proof fn lemma_prefixes_exclude(cause: Seq<char>, i: int, j: int)
    requires
        0 <= i < PREFIX_COUNT,
        0 <= j < PREFIX_COUNT,
        prefix_text(i).is_prefix_of(cause),
        prefix_text(j).is_prefix_of(cause),
    ensures
        i == j,
{
    reveal_strlit("CPU usage");
    assert("CPU usage"@.len() == 9 && "CPU usage"@[0] == 'C' && "CPU usage"@[1] == 'P' && "CPU usage"@[2] == 'U' && "CPU usage"@[4] == 'u' && "CPU usage"@[5] == 's' && "CPU usage"@[7] == 'g');
    reveal_strlit("CPU spike");
    assert("CPU spike"@.len() == 9 && "CPU spike"@[0] == 'C' && "CPU spike"@[1] == 'P' && "CPU spike"@[2] == 'U' && "CPU spike"@[4] == 's' && "CPU spike"@[5] == 'p' && "CPU spike"@[7] == 'k');
    reveal_strlit("Disk write");
    assert("Disk write"@.len() == 10 && "Disk write"@[0] == 'D' && "Disk write"@[1] == 'i' && "Disk write"@[2] == 's' && "Disk write"@[4] == ' ' && "Disk write"@[5] == 'w' && "Disk write"@[7] == 'i');
    reveal_strlit("Disk busy");
    assert("Disk busy"@.len() == 9 && "Disk busy"@[0] == 'D' && "Disk busy"@[1] == 'i' && "Disk busy"@[2] == 's' && "Disk busy"@[4] == ' ' && "Disk busy"@[5] == 'b' && "Disk busy"@[7] == 's');
    reveal_strlit("DPC time");
    assert("DPC time"@.len() == 8 && "DPC time"@[0] == 'D' && "DPC time"@[1] == 'P' && "DPC time"@[2] == 'C' && "DPC time"@[4] == 't' && "DPC time"@[5] == 'i' && "DPC time"@[7] == 'e');
    reveal_strlit("Interrupt time");
    assert("Interrupt time"@.len() == 14 && "Interrupt time"@[0] == 'I' && "Interrupt time"@[1] == 'n' && "Interrupt time"@[2] == 't' && "Interrupt time"@[4] == 'r' && "Interrupt time"@[5] == 'r' && "Interrupt time"@[7] == 'p');
    reveal_strlit("Context switches");
    assert("Context switches"@.len() == 16 && "Context switches"@[0] == 'C' && "Context switches"@[1] == 'o' && "Context switches"@[2] == 'n' && "Context switches"@[4] == 'e' && "Context switches"@[5] == 'x' && "Context switches"@[7] == ' ');
    reveal_strlit("Thermal throttle");
    assert("Thermal throttle"@.len() == 16 && "Thermal throttle"@[0] == 'T' && "Thermal throttle"@[1] == 'h' && "Thermal throttle"@[2] == 'e' && "Thermal throttle"@[4] == 'm' && "Thermal throttle"@[5] == 'a' && "Thermal throttle"@[7] == ' ');
    reveal_strlit("UI frozen");
    assert("UI frozen"@.len() == 9 && "UI frozen"@[0] == 'U' && "UI frozen"@[1] == 'I' && "UI frozen"@[2] == ' ' && "UI frozen"@[4] == 'r' && "UI frozen"@[5] == 'o' && "UI frozen"@[7] == 'e');
    reveal_strlit("Network");
    assert("Network"@.len() == 7 && "Network"@[0] == 'N' && "Network"@[1] == 'e' && "Network"@[2] == 't' && "Network"@[4] == 'o' && "Network"@[5] == 'r');
    reveal_strlit("Memory usage");
    assert("Memory usage"@.len() == 12 && "Memory usage"@[0] == 'M' && "Memory usage"@[1] == 'e' && "Memory usage"@[2] == 'm' && "Memory usage"@[4] == 'r' && "Memory usage"@[5] == 'y' && "Memory usage"@[7] == 'u');
    reveal_strlit("Memory available");
    assert("Memory available"@.len() == 16 && "Memory available"@[0] == 'M' && "Memory available"@[1] == 'e' && "Memory available"@[2] == 'm' && "Memory available"@[4] == 'r' && "Memory available"@[5] == 'y' && "Memory available"@[7] == 'a');
    reveal_strlit("Available memory");
    assert("Available memory"@.len() == 16 && "Available memory"@[0] == 'A' && "Available memory"@[1] == 'v' && "Available memory"@[2] == 'a' && "Available memory"@[4] == 'l' && "Available memory"@[5] == 'a' && "Available memory"@[7] == 'l');
    reveal_strlit("Commit charge");
    assert("Commit charge"@.len() == 13 && "Commit charge"@[0] == 'C' && "Commit charge"@[1] == 'o' && "Commit charge"@[2] == 'm' && "Commit charge"@[4] == 'i' && "Commit charge"@[5] == 't' && "Commit charge"@[7] == 'c');
    reveal_strlit("Memory paging");
    assert("Memory paging"@.len() == 13 && "Memory paging"@[0] == 'M' && "Memory paging"@[1] == 'e' && "Memory paging"@[2] == 'm' && "Memory paging"@[4] == 'r' && "Memory paging"@[5] == 'y' && "Memory paging"@[7] == 'p');
    reveal_strlit("句柄泄漏");
    assert("句柄泄漏"@.len() == 4 && "句柄泄漏"@[0] == '句' && "句柄泄漏"@[1] == '柄' && "句柄泄漏"@[2] == '泄');
    reveal_strlit("句柄数偏高");
    assert("句柄数偏高"@.len() == 5 && "句柄数偏高"@[0] == '句' && "句柄数偏高"@[1] == '柄' && "句柄数偏高"@[2] == '数' && "句柄数偏高"@[4] == '高');
    assert(0 < prefix_text(i).len() ==> prefix_text(i)[0] == cause[0]);
    assert(0 < prefix_text(j).len() ==> prefix_text(j)[0] == cause[0]);
    assert(1 < prefix_text(i).len() ==> prefix_text(i)[1] == cause[1]);
    assert(1 < prefix_text(j).len() ==> prefix_text(j)[1] == cause[1]);
    assert(2 < prefix_text(i).len() ==> prefix_text(i)[2] == cause[2]);
    assert(2 < prefix_text(j).len() ==> prefix_text(j)[2] == cause[2]);
    assert(4 < prefix_text(i).len() ==> prefix_text(i)[4] == cause[4]);
    assert(4 < prefix_text(j).len() ==> prefix_text(j)[4] == cause[4]);
    assert(5 < prefix_text(i).len() ==> prefix_text(i)[5] == cause[5]);
    assert(5 < prefix_text(j).len() ==> prefix_text(j)[5] == cause[5]);
    assert(7 < prefix_text(i).len() ==> prefix_text(i)[7] == cause[7]);
    assert(7 < prefix_text(j).len() ==> prefix_text(j)[7] == cause[7]);
}

/// A text that begins with a known prefix has that prefix as its key, and its kind.
pub proof fn lemma_known_prefix(cause: Seq<char>, i: int)
    requires
        0 <= i < PREFIX_COUNT,
        prefix_text(i).is_prefix_of(cause),
    ensures
        first_prefix(cause, 0) == i,
        key_of(cause) == prefix_text(i),
        kind_of(cause) == Some(prefix_kind(i)),
{
    lemma_first_prefix(cause, 0);
    lemma_reaches(cause, 0, i);
    lemma_prefixes_exclude(cause, i, first_prefix(cause, 0));
}

proof fn lemma_reaches(cause: Seq<char>, from: int, i: int)
    requires
        0 <= from <= i < PREFIX_COUNT,
        prefix_text(i).is_prefix_of(cause),
    ensures
        first_prefix(cause, from) <= i,
    decreases i - from,
{
    if from < i && !prefix_text(from).is_prefix_of(cause) {
        lemma_reaches(cause, from + 1, i);
    }
}

/// Software kinds, and only they, have a rank, and no two share one.
pub proof fn lemma_software_ranks(a: CauseKind, b: CauseKind)
    ensures
        software_rank(a) is Some <==> software_kind(a),
        software_rank(a) is Some && software_rank(a) == software_rank(b) ==> a == b,
        software_rank(a) is Some ==> software_rank(a)->0 <= software_rank(CauseKind::HandleHigh)->0,
{
}

} // verus!
