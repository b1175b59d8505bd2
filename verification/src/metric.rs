//! The metric catalog: names, units, baselines and the range each metric is kept in.

use crate::text::same_text;
use vstd::prelude::*;

verus! {

/// Stored units per whole unit: a value `v` stands for `v / SCALE`.
pub const SCALE: i64 = 1_000_000;

/// Number of metrics in the catalog.
pub const METRIC_COUNT: usize = 7;

/// The unit a metric is reported in.
#[derive(Clone, Copy, Debug, PartialEq, Eq, Structural)]
pub enum Unit {
    Percent,
    MegabytesPerSecond,
    Celsius,
}

/// One of the seven metrics a host reports.
#[derive(Clone, Copy, Debug, PartialEq, Eq, Structural)]
pub enum Metric {
    CpuUsage,
    MemUsage,
    DiskIoRead,
    DiskIoWrite,
    NetIn,
    NetOut,
    CpuTemp,
}

impl Metric {
    /// Position of the metric in the catalog.
    pub open spec fn slot(self) -> int {
        match self {
            Metric::CpuUsage => 0,
            Metric::MemUsage => 1,
            Metric::DiskIoRead => 2,
            Metric::DiskIoWrite => 3,
            Metric::NetIn => 4,
            Metric::NetOut => 5,
            Metric::CpuTemp => 6,
        }
    }

    /// The metric at a catalog position; positions past the end give the last metric.
    pub open spec fn at(slot: int) -> Metric {
        if slot <= 0 {
            Metric::CpuUsage
        } else if slot == 1 {
            Metric::MemUsage
        } else if slot == 2 {
            Metric::DiskIoRead
        } else if slot == 3 {
            Metric::DiskIoWrite
        } else if slot == 4 {
            Metric::NetIn
        } else if slot == 5 {
            Metric::NetOut
        } else {
            Metric::CpuTemp
        }
    }

    /// Whether the metric is a share of a whole, reported in percent.
    pub open spec fn is_share(self) -> bool {
        self == Metric::CpuUsage || self == Metric::MemUsage
    }

    /// Whether the metric is a transfer rate.
    pub open spec fn is_rate(self) -> bool {
        self == Metric::DiskIoRead || self == Metric::DiskIoWrite || self == Metric::NetIn || self
            == Metric::NetOut
    }

    /// The value a metric starts from on a host that has not reported it yet.
    pub open spec fn baseline_spec(self) -> int {
        if self.is_share() {
            50 * SCALE
        } else if self.is_rate() {
            100 * SCALE
        } else {
            60 * SCALE
        }
    }

    /// The least value the metric can take.
    pub open spec fn floor_spec(self) -> int {
        if self == Metric::CpuTemp {
            20 * SCALE
        } else {
            0
        }
    }

    /// The greatest value the metric can take. Rates have no ceiling of their
    /// own: they stop at the largest value an `i64` holds.
    pub open spec fn ceiling_spec(self) -> int {
        if self.is_rate() {
            i64::MAX as int
        } else {
            100 * SCALE
        }
    }

    /// Whether `v` lies in the range the metric is kept in.
    pub open spec fn admits(self, v: int) -> bool {
        self.floor_spec() <= v <= self.ceiling_spec()
    }

    /// `v` moved to the nearest value the metric admits.
    pub open spec fn clamp_spec(self, v: int) -> int {
        if v < self.floor_spec() {
            self.floor_spec()
        } else if v > self.ceiling_spec() {
            self.ceiling_spec()
        } else {
            v
        }
    }

    pub open spec fn unit_spec(self) -> Unit {
        if self.is_share() {
            Unit::Percent
        } else if self.is_rate() {
            Unit::MegabytesPerSecond
        } else {
            Unit::Celsius
        }
    }

    pub fn index(self) -> (i: usize)
        ensures
            i == self.slot(),
            i < METRIC_COUNT,
    {
        match self {
            Metric::CpuUsage => 0,
            Metric::MemUsage => 1,
            Metric::DiskIoRead => 2,
            Metric::DiskIoWrite => 3,
            Metric::NetIn => 4,
            Metric::NetOut => 5,
            Metric::CpuTemp => 6,
        }
    }

    pub fn from_index(i: usize) -> (m: Metric)
        ensures
            m == Metric::at(i as int),
            i < METRIC_COUNT ==> m.slot() == i,
    {
        if i == 0 {
            Metric::CpuUsage
        } else if i == 1 {
            Metric::MemUsage
        } else if i == 2 {
            Metric::DiskIoRead
        } else if i == 3 {
            Metric::DiskIoWrite
        } else if i == 4 {
            Metric::NetIn
        } else if i == 5 {
            Metric::NetOut
        } else {
            Metric::CpuTemp
        }
    }

    pub fn baseline(self) -> (v: i64)
        ensures
            v == self.baseline_spec(),
    {
        match self {
            Metric::CpuUsage | Metric::MemUsage => 50 * SCALE,
            Metric::CpuTemp => 60 * SCALE,
            _ => 100 * SCALE,
        }
    }

    pub fn floor(self) -> (v: i64)
        ensures
            v == self.floor_spec(),
    {
        match self {
            Metric::CpuTemp => 20 * SCALE,
            _ => 0,
        }
    }

    pub fn ceiling(self) -> (v: i64)
        ensures
            v == self.ceiling_spec(),
    {
        match self {
            Metric::CpuUsage | Metric::MemUsage | Metric::CpuTemp => 100 * SCALE,
            _ => i64::MAX,
        }
    }

    /// Floors the value at the metric's least value and caps it at its greatest.
    pub fn clamp(self, v: i64) -> (r: i64)
        ensures
            r == self.clamp_spec(v as int),
            self.admits(r as int),
    {
        let lo: i64 = self.floor();
        let hi: i64 = self.ceiling();
        if v < lo {
            lo
        } else if v > hi {
            hi
        } else {
            v
        }
    }

    pub fn unit(self) -> (u: Unit)
        ensures
            u == self.unit_spec(),
    {
        match self {
            Metric::CpuUsage | Metric::MemUsage => Unit::Percent,
            Metric::CpuTemp => Unit::Celsius,
            _ => Unit::MegabytesPerSecond,
        }
    }
}

impl Unit {
    /// The unit as it is written.
    pub open spec fn symbol_spec(self) -> Seq<char> {
        match self {
            Unit::Percent => "%"@,
            Unit::MegabytesPerSecond => "MB/s"@,
            Unit::Celsius => "\u{b0}C"@,
        }
    }

    pub fn symbol(self) -> (s: &'static str)
        ensures
            s@ == self.symbol_spec(),
    {
        match self {
            Unit::Percent => "%",
            Unit::MegabytesPerSecond => "MB/s",
            Unit::Celsius => "\u{b0}C",
        }
    }
}

impl Metric {
    /// The name the metric is reported under.
    pub open spec fn name_spec(self) -> Seq<char> {
        match self {
            Metric::CpuUsage => "CPU_USAGE"@,
            Metric::MemUsage => "MEM_USAGE"@,
            Metric::DiskIoRead => "DISK_IO_READ"@,
            Metric::DiskIoWrite => "DISK_IO_WRITE"@,
            Metric::NetIn => "NET_IN"@,
            Metric::NetOut => "NET_OUT"@,
            Metric::CpuTemp => "CPU_TEMP"@,
        }
    }

    /// The metric reported under a name, if the catalog has one.
    pub open spec fn named(name: Seq<char>) -> Option<Metric> {
        if name == "CPU_USAGE"@ {
            Some(Metric::CpuUsage)
        } else if name == "MEM_USAGE"@ {
            Some(Metric::MemUsage)
        } else if name == "DISK_IO_READ"@ {
            Some(Metric::DiskIoRead)
        } else if name == "DISK_IO_WRITE"@ {
            Some(Metric::DiskIoWrite)
        } else if name == "NET_IN"@ {
            Some(Metric::NetIn)
        } else if name == "NET_OUT"@ {
            Some(Metric::NetOut)
        } else if name == "CPU_TEMP"@ {
            Some(Metric::CpuTemp)
        } else {
            None
        }
    }

    pub fn name(self) -> (s: &'static str)
        ensures
            s@ == self.name_spec(),
    {
        match self {
            Metric::CpuUsage => "CPU_USAGE",
            Metric::MemUsage => "MEM_USAGE",
            Metric::DiskIoRead => "DISK_IO_READ",
            Metric::DiskIoWrite => "DISK_IO_WRITE",
            Metric::NetIn => "NET_IN",
            Metric::NetOut => "NET_OUT",
            Metric::CpuTemp => "CPU_TEMP",
        }
    }

    /// Looks a metric up by its name.
    pub fn from_name(name: &str) -> (m: Option<Metric>)
        ensures
            m == Metric::named(name@),
    {
        if same_text(name, "CPU_USAGE") {
            Some(Metric::CpuUsage)
        } else if same_text(name, "MEM_USAGE") {
            Some(Metric::MemUsage)
        } else if same_text(name, "DISK_IO_READ") {
            Some(Metric::DiskIoRead)
        } else if same_text(name, "DISK_IO_WRITE") {
            Some(Metric::DiskIoWrite)
        } else if same_text(name, "NET_IN") {
            Some(Metric::NetIn)
        } else if same_text(name, "NET_OUT") {
            Some(Metric::NetOut)
        } else if same_text(name, "CPU_TEMP") {
            Some(Metric::CpuTemp)
        } else {
            None
        }
    }

    /// No two metrics share a name: looking a metric up by its own name finds it.
    pub proof fn lemma_name_finds_metric(self)
        ensures
            Metric::named(self.name_spec()) == Some(self),
    {
        reveal_strlit("CPU_USAGE");
        reveal_strlit("MEM_USAGE");
        reveal_strlit("DISK_IO_READ");
        reveal_strlit("DISK_IO_WRITE");
        reveal_strlit("NET_IN");
        reveal_strlit("NET_OUT");
        reveal_strlit("CPU_TEMP");
        assert("CPU_USAGE"@.len() == 9 && "MEM_USAGE"@.len() == 9);
        assert("DISK_IO_READ"@.len() == 12 && "DISK_IO_WRITE"@.len() == 13);
        assert("NET_IN"@.len() == 6 && "NET_OUT"@.len() == 7 && "CPU_TEMP"@.len() == 8);
        assert("CPU_USAGE"@[0] == 'C' && "MEM_USAGE"@[0] == 'M');
    }
}

/// The unit written beside a metric of the given name: nothing where the
/// catalog has no such metric.
pub open spec fn unit_of_spec(name: Seq<char>) -> Seq<char> {
    match Metric::named(name) {
        Some(m) => m.unit_spec().symbol_spec(),
        None => ""@,
    }
}

/// The value a metric of the given name starts from: zero where the catalog
/// has no such metric.
pub open spec fn baseline_of_spec(name: Seq<char>) -> int {
    match Metric::named(name) {
        Some(m) => m.baseline_spec(),
        None => 0,
    }
}

pub fn unit_of(name: &str) -> (s: &'static str)
    ensures
        s@ == unit_of_spec(name@),
{
    match Metric::from_name(name) {
        Some(m) => m.unit().symbol(),
        None => "",
    }
}

pub fn baseline_of(name: &str) -> (v: i64)
    ensures
        v == baseline_of_spec(name@),
{
    match Metric::from_name(name) {
        Some(m) => m.baseline(),
        None => 0,
    }
}

} // verus!
