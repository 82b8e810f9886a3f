//! What the host reports: devices as enumeration finds them and superblocks
//! as a probe reads them, held as plain values.
use vstd::prelude::*;
use crate::schema::text_opt;

verus! {

/// A partition as the enumeration of its disk reports it.
#[derive(Debug, Clone, PartialEq, Eq)]
pub struct SourcePartition {
    pub name: String,
    pub device: String,
    pub number: u32,
    pub start: u64,
    pub end: u64,
    pub size: u64,
}

/// View of a [`SourcePartition`].
pub struct SourcePartitionView {
    pub name: Seq<char>,
    pub device: Seq<char>,
    pub number: u32,
    pub start: u64,
    pub end: u64,
    pub size: u64,
}

impl View for SourcePartition {
    type V = SourcePartitionView;

    open spec fn view(&self) -> SourcePartitionView {
        SourcePartitionView {
            name: self.name@,
            device: self.device@,
            number: self.number,
            start: self.start,
            end: self.end,
            size: self.size,
        }
    }
}

impl SourcePartitionView {
    /// The extent of the partition agrees with its bounds.
    pub open spec fn consistent(self) -> bool {
        self.start <= self.end && self.size == self.end - self.start
    }
}

/// No partition number occurs twice.
pub open spec fn distinct_source_numbers(ps: Seq<SourcePartitionView>) -> bool {
    forall|i: int, j: int|
        0 <= i < j < ps.len() ==> (#[trigger] ps[i]).number != (#[trigger] ps[j]).number
}

/// Views of a sequence of source partitions, in order.
pub open spec fn source_partition_views(ps: Seq<SourcePartition>) -> Seq<SourcePartitionView> {
    ps.map_values(|p: SourcePartition| p@)
}

/// A physical disk: its device node, reported geometry, hardware model where
/// known, and partitions in physical order.
#[derive(Debug, Clone, PartialEq, Eq)]
pub struct Disk {
    pub device_path: String,
    pub size: u64,
    pub sectors: u64,
    pub model: Option<String>,
    pub partitions: Vec<SourcePartition>,
}

/// View of a [`Disk`].
pub struct DiskView {
    pub device_path: Seq<char>,
    pub size: u64,
    pub sectors: u64,
    pub model: Option<Seq<char>>,
    pub partitions: Seq<SourcePartitionView>,
}

impl View for Disk {
    type V = DiskView;

    open spec fn view(&self) -> DiskView {
        DiskView {
            device_path: self.device_path@,
            size: self.size,
            sectors: self.sectors,
            model: text_opt(self.model),
            partitions: source_partition_views(self.partitions@),
        }
    }
}

/// A loopback device: its device node, the file behind it where known, and
/// the disk it resolves to where there is one.
#[derive(Debug, Clone, PartialEq, Eq)]
pub struct Loopback {
    pub device_path: String,
    pub file_path: Option<String>,
    pub disk: Option<Disk>,
}

/// View of a [`Loopback`].
pub struct LoopbackView {
    pub device_path: Seq<char>,
    pub file_path: Option<Seq<char>>,
    pub disk: Option<DiskView>,
}

impl View for Loopback {
    type V = LoopbackView;

    open spec fn view(&self) -> LoopbackView {
        LoopbackView {
            device_path: self.device_path@,
            file_path: text_opt(self.file_path),
            disk: match self.disk {
                Some(d) => Some(d@),
                None => None,
            },
        }
    }
}

/// A device as enumeration finds it.
#[derive(Debug, Clone, PartialEq, Eq)]
pub enum Device {
    Disk(Disk),
    Loopback(Loopback),
}

/// View of a [`Device`].
pub enum DeviceView {
    Disk(DiskView),
    Loopback(LoopbackView),
}

impl View for Device {
    type V = DeviceView;

    open spec fn view(&self) -> DeviceView {
        match *self {
            Device::Disk(d) => DeviceView::Disk(d@),
            Device::Loopback(l) => DeviceView::Loopback(l@),
        }
    }
}

/// Views of a sequence of devices, in order.
pub open spec fn device_views(ds: Seq<Device>) -> Seq<DeviceView> {
    ds.map_values(|d: Device| d@)
}

/// One reading of an optional superblock field: the text, or why it could
/// not be read.
#[derive(Debug, Clone, PartialEq, Eq)]
pub enum FieldRead {
    Read(String),
    Failed(String),
}

/// View of a [`FieldRead`]: the text where it was read.
pub open spec fn field_text(r: FieldRead) -> Option<Seq<char>> {
    match r {
        FieldRead::Read(t) => Some(t@),
        FieldRead::Failed(_) => None,
    }
}

/// A superblock as a successful probe reports it. The identifier and the
/// label are read separately from the probe itself and either may fail.
#[derive(Debug, Clone, PartialEq, Eq)]
pub struct ProbedSuperblock {
    pub uuid: FieldRead,
    pub label: FieldRead,
    pub kind: String,
}

/// View of a [`ProbedSuperblock`]: failed readings are absent.
pub struct ProbedSuperblockView {
    pub uuid: Option<Seq<char>>,
    pub label: Option<Seq<char>>,
    pub kind: Seq<char>,
}

impl View for ProbedSuperblock {
    type V = ProbedSuperblockView;

    open spec fn view(&self) -> ProbedSuperblockView {
        ProbedSuperblockView {
            uuid: field_text(self.uuid),
            label: field_text(self.label),
            kind: self.kind@,
        }
    }
}

} // verus!
