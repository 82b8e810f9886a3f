//! The encoding of sequences, partitions, devices and superblocks.
use vstd::prelude::*;
use vstd::bytes::{spec_u32_to_le_bytes, spec_u64_to_le_bytes};
use crate::schema::{BlockDeviceKindView, BlockDeviceView, PartitionView, SuperblockView};
use crate::wire::format::{
    fits, framed, lemma_take_framed, lemma_take_text, lemma_take_text_opt, lemma_take_u32,
    lemma_take_u64, take_framed, take_text, take_text_opt, take_u32, take_u64, text_bytes,
    text_fits, text_opt_bytes, text_opt_fits,
};

verus! {

/// The bytes of the elements of a sequence, one after the other.
pub open spec fn elements_bytes<T>(enc: spec_fn(T) -> Seq<u8>, items: Seq<T>) -> Seq<u8> {
    items.map_values(enc).flatten()
}

/// The bytes of a sequence: its length, then its elements.
pub open spec fn sequence_bytes<T>(enc: spec_fn(T) -> Seq<u8>, items: Seq<T>) -> Seq<u8> {
    spec_u64_to_le_bytes(items.len() as u64) + elements_bytes(enc, items)
}

/// Reads `n` elements from the front of `s`.
pub open spec fn take_repeated<T>(
    item: spec_fn(Seq<u8>) -> Option<(T, Seq<u8>)>,
    s: Seq<u8>,
    n: nat,
) -> Option<(Seq<T>, Seq<u8>)>
    decreases n,
{
    if n == 0 {
        Some((Seq::empty(), s))
    } else {
        match item(s) {
            Some((first, rest)) => match take_repeated(item, rest, (n - 1) as nat) {
                Some((others, end)) => Some((seq![first] + others, end)),
                None => None,
            },
            None => None,
        }
    }
}

/// Reads a sequence from the front of `s`.
pub open spec fn take_sequence<T>(item: spec_fn(Seq<u8>) -> Option<(T, Seq<u8>)>, s: Seq<u8>)
    -> Option<(Seq<T>, Seq<u8>)> {
    match take_u64(s) {
        Some((n, rest)) => take_repeated(item, rest, n as nat),
        None => None,
    }
}

/// The fields of a partition, in order.
pub open spec fn partition_fields(p: PartitionView) -> Seq<u8> {
    text_bytes(p.name) + text_bytes(p.path) + spec_u32_to_le_bytes(p.number)
        + spec_u64_to_le_bytes(p.start) + spec_u64_to_le_bytes(p.end) + spec_u64_to_le_bytes(
        p.size,
    )
}

/// A partition can be encoded.
pub open spec fn partition_fits(p: PartitionView) -> bool {
    &&& text_fits(p.name)
    &&& text_fits(p.path)
    &&& fits(partition_fields(p).len())
}

/// The bytes of a partition.
pub open spec fn partition_bytes(p: PartitionView) -> Seq<u8> {
    framed(partition_fields(p))
}

/// Reads the fields of a partition from the front of a record body.
pub open spec fn take_partition_fields(body: Seq<u8>) -> Option<PartitionView> {
    match take_text(body) {
        Some((name, s1)) => match take_text(s1) {
            Some((path, s2)) => match take_u32(s2) {
                Some((number, s3)) => match take_u64(s3) {
                    Some((start, s4)) => match take_u64(s4) {
                        Some((end, s5)) => match take_u64(s5) {
                            Some((size, _)) => Some(
                                PartitionView { name, path, number, start, end, size },
                            ),
                            None => None,
                        },
                        None => None,
                    },
                    None => None,
                },
                None => None,
            },
            None => None,
        },
        None => None,
    }
}

/// Reads a partition from the front of `s`.
pub open spec fn take_partition(s: Seq<u8>) -> Option<(PartitionView, Seq<u8>)> {
    match take_framed(s) {
        Some((body, rest)) => match take_partition_fields(body) {
            Some(p) => Some((p, rest)),
            None => None,
        },
        None => None,
    }
}

/// [`partition_bytes`] as a function value.
pub open spec fn partition_writer() -> spec_fn(PartitionView) -> Seq<u8> {
    |p: PartitionView| partition_bytes(p)
}

/// [`take_partition`] as a function value.
pub open spec fn partition_reader() -> spec_fn(Seq<u8>) -> Option<(PartitionView, Seq<u8>)> {
    |s: Seq<u8>| take_partition(s)
}

/// The payload of a device kind.
pub open spec fn kind_payload(k: BlockDeviceKindView) -> Seq<u8> {
    match k {
        BlockDeviceKindView::Disk => Seq::empty(),
        BlockDeviceKindView::Loopback { backing_file } => text_opt_bytes(backing_file),
    }
}

/// The tag of a device kind.
pub open spec fn kind_tag(k: BlockDeviceKindView) -> u8 {
    match k {
        BlockDeviceKindView::Disk => 0,
        BlockDeviceKindView::Loopback { .. } => 1,
    }
}

/// A device kind can be encoded.
pub open spec fn kind_fits(k: BlockDeviceKindView) -> bool {
    match k {
        BlockDeviceKindView::Disk => true,
        BlockDeviceKindView::Loopback { backing_file } => text_opt_fits(backing_file) && fits(
            text_opt_bytes(backing_file).len(),
        ),
    }
}

/// The bytes of a device kind: its tag, then its payload as a record.
pub open spec fn kind_bytes(k: BlockDeviceKindView) -> Seq<u8> {
    seq![kind_tag(k)] + framed(kind_payload(k))
}

/// Reads a device kind from the front of `s`.
pub open spec fn take_kind(s: Seq<u8>) -> Option<(BlockDeviceKindView, Seq<u8>)> {
    if s.len() == 0 {
        None
    } else {
        match take_framed(s.skip(1)) {
            Some((body, rest)) => if s[0] == 0 {
                Some((BlockDeviceKindView::Disk, rest))
            } else if s[0] == 1 {
                match take_text_opt(body) {
                    Some((backing_file, _)) => Some(
                        (BlockDeviceKindView::Loopback { backing_file }, rest),
                    ),
                    None => None,
                }
            } else {
                None
            },
            None => None,
        }
    }
}

/// The fields of a device, in order.
pub open spec fn block_device_fields(d: BlockDeviceView) -> Seq<u8> {
    text_bytes(d.path) + spec_u64_to_le_bytes(d.size) + spec_u64_to_le_bytes(d.sectors)
        + kind_bytes(d.kind) + text_opt_bytes(d.model) + sequence_bytes(
        partition_writer(),
        d.partitions,
    )
}

/// A device can be encoded.
pub open spec fn block_device_fits(d: BlockDeviceView) -> bool {
    &&& text_fits(d.path)
    &&& kind_fits(d.kind)
    &&& text_opt_fits(d.model)
    &&& fits(d.partitions.len())
    &&& forall|i: int| 0 <= i < d.partitions.len() ==> partition_fits(#[trigger] d.partitions[i])
    &&& fits(block_device_fields(d).len())
}

/// The bytes of a device.
pub open spec fn block_device_bytes(d: BlockDeviceView) -> Seq<u8> {
    framed(block_device_fields(d))
}

/// Reads the partitions of a device from what its record body holds after
/// the model. A body that ends there is one without partitions.
pub open spec fn take_partitions_field(s: Seq<u8>) -> Option<Seq<PartitionView>> {
    if s.len() == 0 {
        Some(Seq::empty())
    } else {
        match take_sequence(partition_reader(), s) {
            Some((partitions, _)) => Some(partitions),
            None => None,
        }
    }
}

/// Reads the fields of a device from the front of a record body.
pub open spec fn take_block_device_fields(body: Seq<u8>) -> Option<BlockDeviceView> {
    match take_text(body) {
        Some((path, s1)) => match take_u64(s1) {
            Some((size, s2)) => match take_u64(s2) {
                Some((sectors, s3)) => match take_kind(s3) {
                    Some((kind, s4)) => match take_text_opt(s4) {
                        Some((model, s5)) => match take_partitions_field(s5) {
                            Some(partitions) => Some(
                                BlockDeviceView { path, size, sectors, kind, model, partitions },
                            ),
                            None => None,
                        },
                        None => None,
                    },
                    None => None,
                },
                None => None,
            },
            None => None,
        },
        None => None,
    }
}

/// Reads a device from the front of `s`.
pub open spec fn take_block_device(s: Seq<u8>) -> Option<(BlockDeviceView, Seq<u8>)> {
    match take_framed(s) {
        Some((body, rest)) => match take_block_device_fields(body) {
            Some(d) => Some((d, rest)),
            None => None,
        },
        None => None,
    }
}

/// [`block_device_bytes`] as a function value.
pub open spec fn block_device_writer() -> spec_fn(BlockDeviceView) -> Seq<u8> {
    |d: BlockDeviceView| block_device_bytes(d)
}

/// [`take_block_device`] as a function value.
pub open spec fn block_device_reader() -> spec_fn(Seq<u8>) -> Option<(BlockDeviceView, Seq<u8>)> {
    |s: Seq<u8>| take_block_device(s)
}

/// The fields of a superblock, in order.
pub open spec fn superblock_fields(b: SuperblockView) -> Seq<u8> {
    text_opt_bytes(b.uuid) + text_opt_bytes(b.label) + text_bytes(b.filesystem)
}

/// A superblock can be encoded.
pub open spec fn superblock_fits(b: SuperblockView) -> bool {
    &&& text_opt_fits(b.uuid)
    &&& text_opt_fits(b.label)
    &&& text_fits(b.filesystem)
}

/// Reads the fields of a superblock from the front of a record body.
pub open spec fn take_superblock_fields(body: Seq<u8>) -> Option<SuperblockView> {
    match take_text_opt(body) {
        Some((uuid, s1)) => match take_text_opt(s1) {
            Some((label, s2)) => match take_text(s2) {
                Some((filesystem, _)) => Some(SuperblockView { uuid, label, filesystem }),
                None => None,
            },
            None => None,
        },
        None => None,
    }
}

/// Writing a sequence element by element: the bytes of a sequence with one
/// more element at its end are those of the sequence, then those of the
/// element.
pub proof fn lemma_elements_push<T>(enc: spec_fn(T) -> Seq<u8>, items: Seq<T>, last: T)
    ensures
        elements_bytes(enc, items.push(last)) == elements_bytes(enc, items) + enc(last),
{
    assert(items.push(last).map_values(enc) =~= items.map_values(enc).push(enc(last)));
    items.map_values(enc).lemma_flatten_push(enc(last));
}

/// Reading undoes writing, for the elements of a sequence, wherever reading
/// undoes writing for each element.
pub proof fn lemma_take_repeated<T>(
    item: spec_fn(Seq<u8>) -> Option<(T, Seq<u8>)>,
    enc: spec_fn(T) -> Seq<u8>,
    items: Seq<T>,
    rest: Seq<u8>,
)
    requires
        forall|i: int, r: Seq<u8>|
            0 <= i < items.len() ==> #[trigger] item(enc(items[i]) + r) == Some((items[i], r)),
    ensures
        take_repeated(item, elements_bytes(enc, items) + rest, items.len()) == Some((items, rest)),
    decreases items.len(),
{
    if items.len() == 0 {
        assert(elements_bytes(enc, items) + rest =~= rest);
        assert(items =~= Seq::empty());
    } else {
        let first = items[0];
        let others = items.drop_first();
        assert(items.map_values(enc).drop_first() =~= others.map_values(enc));
        assert(elements_bytes(enc, items) + rest =~= enc(first) + (elements_bytes(enc, others)
            + rest));
        assert(item(enc(items[0]) + (elements_bytes(enc, others) + rest)) == Some(
            (first, elements_bytes(enc, others) + rest),
        ));
        assert forall|i: int, r: Seq<u8>| 0 <= i < others.len() implies #[trigger] item(
            enc(others[i]) + r,
        ) == Some((others[i], r)) by {
            assert(others[i] == items[i + 1]);
        }
        lemma_take_repeated(item, enc, others, rest);
        assert(seq![first] + others =~= items);
    }
}

/// A reader of partitions passes over what a later writer adds behind the
/// fields of the record: the partition read is the same.
pub proof fn lemma_take_partition_extended(p: PartitionView, added: Seq<u8>, rest: Seq<u8>)
    requires
        text_fits(p.name),
        text_fits(p.path),
        fits(partition_fields(p).len() + added.len()),
    ensures
        take_partition(framed(partition_fields(p) + added) + rest) == Some((p, rest)),
{
    let f6 = spec_u64_to_le_bytes(p.size) + added;
    let f5 = spec_u64_to_le_bytes(p.end) + f6;
    let f4 = spec_u64_to_le_bytes(p.start) + f5;
    let f3 = spec_u32_to_le_bytes(p.number) + f4;
    let f2 = text_bytes(p.path) + f3;
    let body = partition_fields(p) + added;
    lemma_take_framed(body, rest);
    assert(body =~= text_bytes(p.name) + f2);
    lemma_take_text(p.name, f2);
    lemma_take_text(p.path, f3);
    lemma_take_u32(p.number, f4);
    lemma_take_u64(p.start, f5);
    lemma_take_u64(p.end, f6);
    lemma_take_u64(p.size, added);
}

/// Reading undoes writing, for partitions.
pub proof fn lemma_take_partition(p: PartitionView, rest: Seq<u8>)
    requires
        partition_fits(p),
    ensures
        take_partition(partition_bytes(p) + rest) == Some((p, rest)),
{
    assert(partition_fields(p) + Seq::<u8>::empty() =~= partition_fields(p));
    lemma_take_partition_extended(p, Seq::empty(), rest);
}

/// Reading undoes writing, for device kinds.
pub proof fn lemma_take_kind(k: BlockDeviceKindView, rest: Seq<u8>)
    requires
        kind_fits(k),
    ensures
        take_kind(kind_bytes(k) + rest) == Some((k, rest)),
{
    let s = kind_bytes(k) + rest;
    let payload = kind_payload(k);
    assert(s.skip(1) =~= framed(payload) + rest);
    assert(s[0] == kind_tag(k));
    lemma_take_framed(payload, rest);
    match k {
        BlockDeviceKindView::Disk => {},
        BlockDeviceKindView::Loopback { backing_file } => {
            assert(payload =~= text_opt_bytes(backing_file) + Seq::<u8>::empty());
            lemma_take_text_opt(backing_file, Seq::empty());
        },
    }
}

/// Reading undoes writing, for sequences of partitions.
pub proof fn lemma_take_partitions(ps: Seq<PartitionView>, rest: Seq<u8>)
    requires
        fits(ps.len()),
        forall|i: int| 0 <= i < ps.len() ==> partition_fits(#[trigger] ps[i]),
    ensures
        sequence_bytes(partition_writer(), ps).len() >= 8,
        take_sequence(partition_reader(), sequence_bytes(partition_writer(), ps) + rest) == Some(
            (ps, rest),
        ),
{
    let elements = elements_bytes(partition_writer(), ps);
    lemma_take_u64(ps.len() as u64, elements + rest);
    assert(sequence_bytes(partition_writer(), ps) + rest =~= spec_u64_to_le_bytes(ps.len() as u64)
        + (elements + rest));
    assert forall|i: int, r: Seq<u8>| 0 <= i < ps.len() implies #[trigger] partition_reader()(
        partition_writer()(ps[i]) + r,
    ) == Some((ps[i], r)) by {
        lemma_take_partition(ps[i], r);
    }
    lemma_take_repeated(partition_reader(), partition_writer(), ps, rest);
}

/// A reader of devices passes over what a later writer adds behind the
/// fields of the record: the device read is the same.
pub proof fn lemma_take_block_device_extended(d: BlockDeviceView, added: Seq<u8>, rest: Seq<u8>)
    requires
        text_fits(d.path),
        kind_fits(d.kind),
        text_opt_fits(d.model),
        fits(d.partitions.len()),
        forall|i: int| 0 <= i < d.partitions.len() ==> partition_fits(#[trigger] d.partitions[i]),
        fits(block_device_fields(d).len() + added.len()),
    ensures
        take_block_device(framed(block_device_fields(d) + added) + rest) == Some((d, rest)),
{
    let f6 = sequence_bytes(partition_writer(), d.partitions) + added;
    let f5 = text_opt_bytes(d.model) + f6;
    let f4 = kind_bytes(d.kind) + f5;
    let f3 = spec_u64_to_le_bytes(d.sectors) + f4;
    let f2 = spec_u64_to_le_bytes(d.size) + f3;
    let body = block_device_fields(d) + added;
    lemma_take_framed(body, rest);
    assert(body =~= text_bytes(d.path) + f2);
    lemma_take_text(d.path, f2);
    lemma_take_u64(d.size, f3);
    lemma_take_u64(d.sectors, f4);
    lemma_take_kind(d.kind, f5);
    lemma_take_text_opt(d.model, f6);
    lemma_take_partitions(d.partitions, added);
}

/// Reading undoes writing, for devices.
pub proof fn lemma_take_block_device(d: BlockDeviceView, rest: Seq<u8>)
    requires
        block_device_fits(d),
    ensures
        take_block_device(block_device_bytes(d) + rest) == Some((d, rest)),
{
    assert(block_device_fields(d) + Seq::<u8>::empty() =~= block_device_fields(d));
    lemma_take_block_device_extended(d, Seq::empty(), rest);
}

/// Reading undoes writing, for sequences of devices.
pub proof fn lemma_take_block_devices(ds: Seq<BlockDeviceView>, rest: Seq<u8>)
    requires
        fits(ds.len()),
        forall|i: int| 0 <= i < ds.len() ==> block_device_fits(#[trigger] ds[i]),
    ensures
        take_sequence(block_device_reader(), sequence_bytes(block_device_writer(), ds) + rest)
            == Some((ds, rest)),
{
    let elements = elements_bytes(block_device_writer(), ds);
    lemma_take_u64(ds.len() as u64, elements + rest);
    assert(sequence_bytes(block_device_writer(), ds) + rest =~= spec_u64_to_le_bytes(
        ds.len() as u64,
    ) + (elements + rest));
    assert forall|i: int, r: Seq<u8>| 0 <= i < ds.len() implies #[trigger] block_device_reader()(
        block_device_writer()(ds[i]) + r,
    ) == Some((ds[i], r)) by {
        lemma_take_block_device(ds[i], r);
    }
    lemma_take_repeated(block_device_reader(), block_device_writer(), ds, rest);
}

/// Reading undoes writing, for the fields of a superblock, whatever a later
/// writer adds behind them.
pub proof fn lemma_take_superblock_fields(b: SuperblockView, rest: Seq<u8>)
    requires
        superblock_fits(b),
    ensures
        take_superblock_fields(superblock_fields(b) + rest) == Some(b),
{
    let f3 = text_bytes(b.filesystem) + rest;
    let f2 = text_opt_bytes(b.label) + f3;
    assert(superblock_fields(b) + rest =~= text_opt_bytes(b.uuid) + f2);
    lemma_take_text_opt(b.uuid, f2);
    lemma_take_text_opt(b.label, f3);
    lemma_take_text(b.filesystem, rest);
}

} // verus!
