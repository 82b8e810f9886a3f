//! The wire-level data model: what a client may ask and what a server answers.
//!
//! Every type has a mathematical view in which strings are sequences of
//! characters and vectors are sequences of views. All contracts of the crate
//! are stated over these views.
use vstd::prelude::*;

verus! {

/// View of an optional string.
pub open spec fn text_opt(s: Option<String>) -> Option<Seq<char>> {
    match s {
        Some(t) => Some(t@),
        None => None,
    }
}

/// The kind of a block device.
#[derive(Debug, Clone, PartialEq, Eq)]
pub enum BlockDeviceKind {
    /// A physical disk.
    Disk,
    /// A loopback device, with the file behind it where that is known.
    Loopback { backing_file: Option<String> },
}

/// View of a [`BlockDeviceKind`].
pub enum BlockDeviceKindView {
    Disk,
    Loopback { backing_file: Option<Seq<char>> },
}

impl View for BlockDeviceKind {
    type V = BlockDeviceKindView;

    open spec fn view(&self) -> BlockDeviceKindView {
        match *self {
            BlockDeviceKind::Disk => BlockDeviceKindView::Disk,
            BlockDeviceKind::Loopback { backing_file } => BlockDeviceKindView::Loopback {
                backing_file: text_opt(backing_file),
            },
        }
    }
}

/// A contiguous range of a block device. All quantities are in the units of
/// the device that reported them.
#[derive(Debug, Clone, PartialEq, Eq)]
pub struct Partition {
    pub name: String,
    pub path: String,
    pub number: u32,
    pub start: u64,
    pub end: u64,
    pub size: u64,
}

/// View of a [`Partition`].
pub struct PartitionView {
    pub name: Seq<char>,
    pub path: Seq<char>,
    pub number: u32,
    pub start: u64,
    pub end: u64,
    pub size: u64,
}

impl View for Partition {
    type V = PartitionView;

    open spec fn view(&self) -> PartitionView {
        PartitionView {
            name: self.name@,
            path: self.path@,
            number: self.number,
            start: self.start,
            end: self.end,
            size: self.size,
        }
    }
}

impl PartitionView {
    /// The extent of the partition agrees with its bounds.
    pub open spec fn consistent(self) -> bool {
        self.start <= self.end && self.size == self.end - self.start
    }
}

/// Views of a sequence of partitions, in order.
pub open spec fn partition_views(ps: Seq<Partition>) -> Seq<PartitionView> {
    ps.map_values(|p: Partition| p@)
}

/// No partition number occurs twice.
pub open spec fn distinct_numbers(ps: Seq<PartitionView>) -> bool {
    forall|i: int, j: int|
        0 <= i < j < ps.len() ==> (#[trigger] ps[i]).number != (#[trigger] ps[j]).number
}

/// A disk or loopback device with its partitions in physical order.
#[derive(Debug, Clone, PartialEq, Eq)]
pub struct BlockDevice {
    pub path: String,
    pub size: u64,
    pub sectors: u64,
    pub kind: BlockDeviceKind,
    pub model: Option<String>,
    pub partitions: Vec<Partition>,
}

/// View of a [`BlockDevice`].
pub struct BlockDeviceView {
    pub path: Seq<char>,
    pub size: u64,
    pub sectors: u64,
    pub kind: BlockDeviceKindView,
    pub model: Option<Seq<char>>,
    pub partitions: Seq<PartitionView>,
}

impl View for BlockDevice {
    type V = BlockDeviceView;

    open spec fn view(&self) -> BlockDeviceView {
        BlockDeviceView {
            path: self.path@,
            size: self.size,
            sectors: self.sectors,
            kind: self.kind@,
            model: text_opt(self.model),
            partitions: partition_views(self.partitions@),
        }
    }
}

/// Views of a sequence of block devices, in order.
pub open spec fn block_device_views(ds: Seq<BlockDevice>) -> Seq<BlockDeviceView> {
    ds.map_values(|d: BlockDevice| d@)
}

/// The identifying metadata of a filesystem.
#[derive(Debug, Clone, PartialEq, Eq)]
pub struct Superblock {
    pub uuid: Option<String>,
    pub label: Option<String>,
    pub filesystem: String,
}

/// View of a [`Superblock`].
pub struct SuperblockView {
    pub uuid: Option<Seq<char>>,
    pub label: Option<Seq<char>>,
    pub filesystem: Seq<char>,
}

impl View for Superblock {
    type V = SuperblockView;

    open spec fn view(&self) -> SuperblockView {
        SuperblockView {
            uuid: text_opt(self.uuid),
            label: text_opt(self.label),
            filesystem: self.filesystem@,
        }
    }
}

/// What a client may ask.
#[derive(Debug, Clone, PartialEq, Eq)]
pub enum Request {
    GetBlockDevices,
    Shutdown,
    GetSuperblock(String),
}

/// View of a [`Request`].
pub enum RequestView {
    GetBlockDevices,
    Shutdown,
    GetSuperblock(Seq<char>),
}

impl View for Request {
    type V = RequestView;

    open spec fn view(&self) -> RequestView {
        match *self {
            Request::GetBlockDevices => RequestView::GetBlockDevices,
            Request::Shutdown => RequestView::Shutdown,
            Request::GetSuperblock(path) => RequestView::GetSuperblock(path@),
        }
    }
}

/// What a server answers.
#[derive(Debug, Clone, PartialEq, Eq)]
pub enum Response {
    BlockDevices(Vec<BlockDevice>),
    Error(String),
    Superblock(Superblock),
}

/// View of a [`Response`].
pub enum ResponseView {
    BlockDevices(Seq<BlockDeviceView>),
    Error(Seq<char>),
    Superblock(SuperblockView),
}

impl View for Response {
    type V = ResponseView;

    open spec fn view(&self) -> ResponseView {
        match *self {
            Response::BlockDevices(devices) => ResponseView::BlockDevices(
                block_device_views(devices@),
            ),
            Response::Error(message) => ResponseView::Error(message@),
            Response::Superblock(superblock) => ResponseView::Superblock(superblock@),
        }
    }
}

} // verus!
