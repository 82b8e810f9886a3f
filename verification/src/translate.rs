//! The total, side-effect-free mapping from what the host reports to the
//! wire-level data model.
//!
//! Each pair of source and wire type has one mapping, stated as a spec
//! function over views and computed by an executable function that is proved
//! to agree with it. No mapping can fail: what could not be read on the host
//! is absent on the wire.
use vstd::prelude::*;
use crate::schema::{
    text_opt, partition_views, block_device_views, BlockDevice, BlockDeviceKind,
    BlockDeviceKindView, BlockDeviceView, Partition, PartitionView, Superblock, SuperblockView,
    distinct_numbers,
};
use crate::source::{
    distinct_source_numbers, source_partition_views, device_views, Device, DeviceView, Disk, DiskView, FieldRead,
    Loopback, LoopbackView, ProbedSuperblock, ProbedSuperblockView, SourcePartition,
    SourcePartitionView,
};

verus! {

/// The wire partition that stands for a source partition: every field copied,
/// no unit converted.
pub open spec fn partition_of(p: SourcePartitionView) -> PartitionView {
    PartitionView {
        name: p.name,
        path: p.device,
        number: p.number,
        start: p.start,
        end: p.end,
        size: p.size,
    }
}

/// The wire partitions that stand for a sequence of source partitions,
/// position by position.
pub open spec fn partitions_of(ps: Seq<SourcePartitionView>) -> Seq<PartitionView> {
    ps.map_values(|p: SourcePartitionView| partition_of(p))
}

/// The wire device that stands for a disk: geometry and model copied, the
/// partitions mapped in order.
pub open spec fn block_device_of_disk(d: DiskView) -> BlockDeviceView {
    BlockDeviceView {
        path: d.device_path,
        size: d.size,
        sectors: d.sectors,
        kind: BlockDeviceKindView::Disk,
        model: d.model,
        partitions: partitions_of(d.partitions),
    }
}

/// The wire device that stands for a loopback device: geometry and partitions
/// are those of the disk it resolves to, or zero and none where it resolves
/// to no disk. A loopback device never has a hardware model.
pub open spec fn block_device_of_loopback(l: LoopbackView) -> BlockDeviceView {
    BlockDeviceView {
        path: l.device_path,
        size: match l.disk {
            Some(d) => d.size,
            None => 0,
        },
        sectors: match l.disk {
            Some(d) => d.sectors,
            None => 0,
        },
        kind: BlockDeviceKindView::Loopback { backing_file: l.file_path },
        model: None,
        partitions: match l.disk {
            Some(d) => partitions_of(d.partitions),
            None => Seq::empty(),
        },
    }
}

/// The wire device that stands for a device of either kind.
pub open spec fn block_device_of(d: DeviceView) -> BlockDeviceView {
    match d {
        DeviceView::Disk(disk) => block_device_of_disk(disk),
        DeviceView::Loopback(loopback) => block_device_of_loopback(loopback),
    }
}

/// The wire devices that stand for a sequence of devices, position by
/// position.
pub open spec fn block_devices_of(ds: Seq<DeviceView>) -> Seq<BlockDeviceView> {
    ds.map_values(|d: DeviceView| block_device_of(d))
}

/// The wire superblock that stands for a probed one: a field that could not
/// be read is absent, the filesystem name is always there.
pub open spec fn superblock_of(s: ProbedSuperblockView) -> SuperblockView {
    SuperblockView { uuid: s.uuid, label: s.label, filesystem: s.kind }
}

/// A copy of an optional string.
fn copy_text_opt(text: &Option<String>) -> (out: Option<String>)
    ensures
        text_opt(out) == text_opt(*text),
{
    match text {
        Some(t) => Some(t.clone()),
        None => None,
    }
}

/// The text of a field reading, where there is one.
fn read_text(field: FieldRead) -> (out: Option<String>)
    ensures
        text_opt(out) == crate::source::field_text(field),
{
    match field {
        FieldRead::Read(text) => Some(text),
        FieldRead::Failed(_) => None,
    }
}

impl Partition {
    /// Copies a source partition field by field.
    pub fn from_source(val: &SourcePartition) -> (out: Partition)
        ensures
            out@ == partition_of(val@),
    {
        Partition {
            name: val.name.clone(),
            path: val.device.clone(),
            number: val.number,
            start: val.start,
            end: val.end,
            size: val.size,
        }
    }

    /// Maps every source partition, keeping the order.
    pub fn from_sources(vals: &Vec<SourcePartition>) -> (out: Vec<Partition>)
        ensures
            partition_views(out@) == partitions_of(source_partition_views(vals@)),
            out@.len() == vals@.len(),
            forall|i: int| 0 <= i < out@.len() ==> (#[trigger] out@[i])@ == partition_of(vals@[i]@),
    {
        let mut out: Vec<Partition> = Vec::new();
        let mut i: usize = 0;
        while i < vals.len()
            invariant
                i <= vals.len(),
                out.len() == i,
                forall|k: int| 0 <= k < i ==> (#[trigger] out[k])@ == partition_of(vals[k]@),
            decreases vals.len() - i,
        {
            out.push(Partition::from_source(&vals[i]));
            i += 1;
        }
        assert(partition_views(out@) =~= partitions_of(source_partition_views(vals@)));
        out
    }
}

impl BlockDevice {
    /// Maps a physical disk.
    pub fn from_disk(disk: &Disk) -> (out: BlockDevice)
        ensures
            out@ == block_device_of_disk(disk@),
            out.partitions@.len() == disk.partitions@.len(),
    {
        BlockDevice {
            path: disk.device_path.clone(),
            size: disk.size,
            sectors: disk.sectors,
            kind: BlockDeviceKind::Disk,
            model: copy_text_opt(&disk.model),
            partitions: Partition::from_sources(&disk.partitions),
        }
    }

    /// Maps a loopback device, with zero geometry and no partitions where it
    /// resolves to no disk.
    pub fn from_loopback(loopback: &Loopback) -> (out: BlockDevice)
        ensures
            out@ == block_device_of_loopback(loopback@),
            out.partitions@.len() == match loopback.disk {
                Some(disk) => disk.partitions@.len(),
                None => 0,
            },
    {
        let kind = BlockDeviceKind::Loopback { backing_file: copy_text_opt(&loopback.file_path) };
        match &loopback.disk {
            Some(disk) => BlockDevice {
                path: loopback.device_path.clone(),
                size: disk.size,
                sectors: disk.sectors,
                kind,
                model: None,
                partitions: Partition::from_sources(&disk.partitions),
            },
            None => {
                let partitions: Vec<Partition> = Vec::new();
                assert(partition_views(partitions@) =~= Seq::empty());
                BlockDevice {
                    path: loopback.device_path.clone(),
                    size: 0,
                    sectors: 0,
                    kind,
                    model: None,
                    partitions,
                }
            },
        }
    }

    /// Maps a device of either kind.
    pub fn from_device(device: &Device) -> (out: BlockDevice)
        ensures
            out@ == block_device_of(device@),
    {
        match device {
            Device::Disk(disk) => BlockDevice::from_disk(disk),
            Device::Loopback(loopback) => BlockDevice::from_loopback(loopback),
        }
    }

    /// Maps every device, keeping the order.
    pub fn from_devices(devices: &Vec<Device>) -> (out: Vec<BlockDevice>)
        ensures
            block_device_views(out@) == block_devices_of(device_views(devices@)),
            out@.len() == devices@.len(),
            forall|i: int|
                0 <= i < out@.len() ==> (#[trigger] out@[i])@ == block_device_of(devices@[i]@),
    {
        let mut out: Vec<BlockDevice> = Vec::new();
        let mut i: usize = 0;
        while i < devices.len()
            invariant
                i <= devices.len(),
                out.len() == i,
                forall|k: int| 0 <= k < i ==> (#[trigger] out[k])@ == block_device_of(devices[k]@),
            decreases devices.len() - i,
        {
            out.push(BlockDevice::from_device(&devices[i]));
            i += 1;
        }
        assert(block_device_views(out@) =~= block_devices_of(device_views(devices@)));
        out
    }
}

impl Superblock {
    /// Maps a probed superblock. A field whose reading failed is absent.
    pub fn from_probe(val: ProbedSuperblock) -> (out: Superblock)
        ensures
            out@ == superblock_of(val@),
    {
        Superblock {
            uuid: read_text(val.uuid),
            label: read_text(val.label),
            filesystem: val.kind,
        }
    }
}

/// A loopback device that resolves to no disk maps to zero size, zero
/// sectors, no partitions and no model.
pub proof fn lemma_loopback_defaults(l: LoopbackView)
    requires
        l.disk is None,
    ensures
        block_device_of_loopback(l).size == 0,
        block_device_of_loopback(l).sectors == 0,
        block_device_of_loopback(l).partitions == Seq::<PartitionView>::empty(),
        block_device_of_loopback(l).model == None::<Seq<char>>,
        block_device_of(DeviceView::Loopback(l)) == block_device_of_loopback(l),
{
}

/// A disk maps to as many partitions as it has, in the same order, each
/// equal field for field to the one it stands for.
pub proof fn lemma_disk_partition_order(d: DiskView)
    ensures
        block_device_of_disk(d).partitions.len() == d.partitions.len(),
        forall|i: int|
            0 <= i < d.partitions.len() ==> {
                let p = #[trigger] block_device_of_disk(d).partitions[i];
                let s = d.partitions[i];
                &&& p.name == s.name
                &&& p.path == s.device
                &&& p.number == s.number
                &&& p.start == s.start
                &&& p.end == s.end
                &&& p.size == s.size
            },
{
}

/// Mapping keeps the extents of partitions: where every source partition
/// has a size that agrees with its bounds, so has every wire partition.
pub proof fn lemma_partitions_stay_consistent(ps: Seq<SourcePartitionView>)
    requires
        forall|i: int| 0 <= i < ps.len() ==> (#[trigger] ps[i]).consistent(),
    ensures
        forall|i: int| 0 <= i < ps.len() ==> (#[trigger] partitions_of(ps)[i]).consistent(),
{
    assert forall|i: int| 0 <= i < ps.len() implies (#[trigger] partitions_of(
        ps,
    )[i]).consistent() by {
        assert(ps[i].consistent());
    }
}

/// Mapping keeps partition numbers apart: where no number occurs twice
/// among the source partitions, none occurs twice among the wire partitions.
pub proof fn lemma_partition_numbers_stay_distinct(ps: Seq<SourcePartitionView>)
    requires
        distinct_source_numbers(ps),
    ensures
        distinct_numbers(partitions_of(ps)),
{
}

/// Every probed superblock has a wire form, whatever became of the readings
/// of its identifier and label: a reading that failed is absent there, one
/// that succeeded is carried unchanged, and the filesystem name is always
/// carried.
pub proof fn lemma_superblock_total(s: ProbedSuperblock)
    ensures
        superblock_of(s@).filesystem == s.kind@,
        s.uuid is Failed ==> superblock_of(s@).uuid is None,
        s.label is Failed ==> superblock_of(s@).label is None,
        s.uuid is Read ==> superblock_of(s@).uuid == Some(s.uuid->Read_0@),
        s.label is Read ==> superblock_of(s@).label == Some(s.label->Read_0@),
{
}

} // verus!
