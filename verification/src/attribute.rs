//! The ten attributes that are read from a disk, the order in which they are read, and the
//! metric each one is published under.

use vstd::prelude::*;

verus! {

/// One named measurement of a disk's health.
#[derive(Clone, Copy, Debug, PartialEq, Eq, Hash)]
pub enum Attribute {
    /// The size of the disk.
    DiskSize,
    /// Whether the disk is in sleep mode.
    SleepMode,
    /// The temperature of the disk.
    Temperature,
    /// The number of bad sectors.
    BadSectors,
    /// The number of power cycles.
    PowerCycles,
    /// For how long the disk has been powered on.
    PowerOn,
    /// The disk's own SMART status.
    Status,
    /// The overall SMART verdict.
    Overall,
    /// Whether the disk can identify itself.
    IdentifyAvailable,
    /// Whether the disk supports SMART.
    SmartAvailable,
}

/// What a successful read of an attribute hands over.
#[derive(Clone, Copy, Debug, PartialEq, Eq, Hash)]
pub enum ReadingKind {
    /// A number.
    Count,
    /// A yes or a no.
    Flag,
    /// The code of an overall verdict.
    Verdict,
}

/// By how much a raw temperature is divided when it is published.
pub const TEMPERATURE_DIVISOR: u64 = 10000;

/// The attributes in the order in which a disk is asked for them.
pub open spec fn read_order() -> Seq<Attribute> {
    seq![
        Attribute::DiskSize,
        Attribute::SleepMode,
        Attribute::Temperature,
        Attribute::BadSectors,
        Attribute::PowerCycles,
        Attribute::PowerOn,
        Attribute::Status,
        Attribute::Overall,
        Attribute::IdentifyAvailable,
        Attribute::SmartAvailable,
    ]
}

impl Attribute {
    /// The place of the attribute in the order of reading, from zero.
    pub open spec fn position(self) -> int {
        match self {
            Attribute::DiskSize => 0,
            Attribute::SleepMode => 1,
            Attribute::Temperature => 2,
            Attribute::BadSectors => 3,
            Attribute::PowerCycles => 4,
            Attribute::PowerOn => 5,
            Attribute::Status => 6,
            Attribute::Overall => 7,
            Attribute::IdentifyAvailable => 8,
            Attribute::SmartAvailable => 9,
        }
    }

    /// The attribute that is read after this one, if this is not the last.
    pub open spec fn successor(self) -> Option<Attribute> {
        if self.position() + 1 < read_order().len() {
            Some(read_order()[self.position() + 1])
        } else {
            None
        }
    }

    /// What a read of the attribute hands over.
    pub open spec fn kind(self) -> ReadingKind {
        match self {
            Attribute::SleepMode
            | Attribute::Status
            | Attribute::IdentifyAvailable
            | Attribute::SmartAvailable => ReadingKind::Flag,
            Attribute::Overall => ReadingKind::Verdict,
            _ => ReadingKind::Count,
        }
    }

    /// By how much a raw value of the attribute is divided when it is published.
    pub open spec fn divisor(self) -> u64 {
        if self == Attribute::Temperature {
            TEMPERATURE_DIVISOR
        } else {
            1
        }
    }

    /// The name of the metric that holds the attribute.
    pub open spec fn metric(self) -> Seq<char> {
        match self {
            Attribute::DiskSize => "atasmart_disk_size"@,
            Attribute::SleepMode => "atasmart_sleep_mode"@,
            Attribute::Temperature => "atasmart_temperature"@,
            Attribute::BadSectors => "atasmart_bad_sectors"@,
            Attribute::PowerCycles => "atasmart_power_cycles"@,
            Attribute::PowerOn => "atasmart_power_on"@,
            Attribute::Status => "atasmart_status"@,
            Attribute::Overall => "atasmart_overall"@,
            Attribute::IdentifyAvailable => "atasmart_identify_available"@,
            Attribute::SmartAvailable => "atasmart_smart_available"@,
        }
    }

    /// Whether the metric has a `status` label beside the `disk` label.
    pub open spec fn has_status_label(self) -> bool {
        self == Attribute::Overall
    }

    /// The names of the labels of the metric, in the order in which their values are given.
    pub open spec fn labels(self) -> Seq<Seq<char>> {
        if self.has_status_label() {
            seq!["disk"@, "status"@]
        } else {
            seq!["disk"@]
        }
    }

    /// All attributes, in the order in which a disk is asked for them.
    pub fn all() -> (all: Vec<Attribute>)
        ensures
            all@ == read_order(),
    {
        let mut all: Vec<Attribute> = Vec::new();
        all.push(Attribute::DiskSize);
        all.push(Attribute::SleepMode);
        all.push(Attribute::Temperature);
        all.push(Attribute::BadSectors);
        all.push(Attribute::PowerCycles);
        all.push(Attribute::PowerOn);
        all.push(Attribute::Status);
        all.push(Attribute::Overall);
        all.push(Attribute::IdentifyAvailable);
        all.push(Attribute::SmartAvailable);
        assert(all@ =~= read_order());
        all
    }

    /// The place of the attribute in the order of reading, from zero.
    pub fn index(self) -> (index: usize)
        ensures
            index == self.position(),
            index < read_order().len(),
            read_order()[index as int] == self,
    {
        match self {
            Attribute::DiskSize => 0,
            Attribute::SleepMode => 1,
            Attribute::Temperature => 2,
            Attribute::BadSectors => 3,
            Attribute::PowerCycles => 4,
            Attribute::PowerOn => 5,
            Attribute::Status => 6,
            Attribute::Overall => 7,
            Attribute::IdentifyAvailable => 8,
            Attribute::SmartAvailable => 9,
        }
    }

    /// The attribute that is read first.
    pub fn first() -> (first: Attribute)
        ensures
            first == read_order()[0],
    {
        Attribute::DiskSize
    }

    /// The attribute that is read after this one; none after the last.
    pub fn next(self) -> (next: Option<Attribute>)
        ensures
            next == self.successor(),
    {
        match self {
            Attribute::DiskSize => Some(Attribute::SleepMode),
            Attribute::SleepMode => Some(Attribute::Temperature),
            Attribute::Temperature => Some(Attribute::BadSectors),
            Attribute::BadSectors => Some(Attribute::PowerCycles),
            Attribute::PowerCycles => Some(Attribute::PowerOn),
            Attribute::PowerOn => Some(Attribute::Status),
            Attribute::Status => Some(Attribute::Overall),
            Attribute::Overall => Some(Attribute::IdentifyAvailable),
            Attribute::IdentifyAvailable => Some(Attribute::SmartAvailable),
            Attribute::SmartAvailable => None,
        }
    }

    /// What a read of the attribute hands over.
    pub fn reading_kind(self) -> (kind: ReadingKind)
        ensures
            kind == self.kind(),
    {
        match self {
            Attribute::SleepMode
            | Attribute::Status
            | Attribute::IdentifyAvailable
            | Attribute::SmartAvailable => ReadingKind::Flag,
            Attribute::Overall => ReadingKind::Verdict,
            _ => ReadingKind::Count,
        }
    }

    /// The name of the metric that holds the attribute.
    pub fn metric_name(self) -> (name: &'static str)
        ensures
            name@ == self.metric(),
    {
        match self {
            Attribute::DiskSize => "atasmart_disk_size",
            Attribute::SleepMode => "atasmart_sleep_mode",
            Attribute::Temperature => "atasmart_temperature",
            Attribute::BadSectors => "atasmart_bad_sectors",
            Attribute::PowerCycles => "atasmart_power_cycles",
            Attribute::PowerOn => "atasmart_power_on",
            Attribute::Status => "atasmart_status",
            Attribute::Overall => "atasmart_overall",
            Attribute::IdentifyAvailable => "atasmart_identify_available",
            Attribute::SmartAvailable => "atasmart_smart_available",
        }
    }

    /// The names of the labels of the metric, in the order in which their values are given.
    pub fn label_names(self) -> (names: Vec<&'static str>)
        ensures
            names.deep_view() == self.labels(),
    {
        let mut names: Vec<&'static str> = Vec::new();
        names.push("disk");
        if self.labelled_by_status() {
            names.push("status");
        }
        assert(names.deep_view() =~= self.labels());
        names
    }

    /// Whether the metric has a `status` label beside the `disk` label.
    pub fn labelled_by_status(self) -> (labelled: bool)
        ensures
            labelled == self.has_status_label(),
    {
        match self {
            Attribute::Overall => true,
            _ => false,
        }
    }
}

/// Every attribute stands in the order of reading, once, at its position.
pub proof fn lemma_read_order_is_complete(attribute: Attribute)
    ensures
        read_order().len() == 10,
        0 <= attribute.position() < read_order().len(),
        read_order()[attribute.position() as int] == attribute,
        forall|i: int|
            0 <= i < read_order().len() && read_order()[i] == attribute ==> i
                == attribute.position(),
{
}

/// No two attributes share a metric.
pub proof fn lemma_metrics_differ(one: Attribute, other: Attribute)
    ensures
        one != other ==> one.metric() != other.metric(),
{
    reveal_strlit("atasmart_disk_size");
    reveal_strlit("atasmart_sleep_mode");
    reveal_strlit("atasmart_temperature");
    reveal_strlit("atasmart_bad_sectors");
    reveal_strlit("atasmart_power_cycles");
    reveal_strlit("atasmart_power_on");
    reveal_strlit("atasmart_status");
    reveal_strlit("atasmart_overall");
    reveal_strlit("atasmart_identify_available");
    reveal_strlit("atasmart_smart_available");
    if one.metric().len() == other.metric().len() && one != other {
        assert(one.metric()[9] != other.metric()[9]);
    }
}

} // verus!
