//! Reading values back from bytes.
//!
//! Every reader takes a buffer and a position in it and answers with the
//! value that starts there and the position behind it, or with nothing where
//! no value starts there.
use vstd::prelude::*;
use vstd::bytes::{u32_from_le_bytes, u64_from_le_bytes};
use vstd::slice::{slice_subrange, slice_to_vec};
use vstd::utf8::{decode_utf8, valid_utf8};
use crate::schema::{
    block_device_views, partition_views, text_opt, BlockDevice, BlockDeviceKind, Partition,
    Request, Response, Superblock,
};
use crate::wire::format::{take_framed, take_text, take_text_opt, take_u32, take_u64};
use crate::wire::message::{parse_request, parse_response};
use crate::wire::records::{
    block_device_reader, partition_reader, take_block_device, take_block_device_fields,
    take_kind, take_partition, take_partition_fields, take_partitions_field, take_repeated,
    take_sequence, take_superblock_fields,
};

verus! {

/// The string that a byte vector holds in UTF-8, where it holds one.
///
/// Calls `String::from_utf8` of the standard library, which accepts exactly
/// the well-formed UTF-8 byte sequences and then yields the string with
/// those bytes. Nothing here is proved: the contract restates that
/// documentation over `valid_utf8` and `decode_utf8`.
#[verifier::external_body]
fn string_from_utf8(bytes: Vec<u8>) -> (out: Option<String>)
    ensures
        out is Some <==> valid_utf8(bytes@),
        out is Some ==> out->0@ == decode_utf8(bytes@),
{
    String::from_utf8(bytes).ok()
}

/// Reads one byte.
fn get_byte(buf: &[u8], pos: usize) -> (out: Option<(u8, usize)>)
    requires
        pos <= buf@.len(),
    ensures
        match out {
            Some((b, next)) => pos < buf@.len() && b == buf@[pos as int] && next == pos + 1,
            None => pos == buf@.len(),
        },
{
    if pos < buf.len() {
        Some((buf[pos], pos + 1))
    } else {
        None
    }
}

/// Reads a 32-bit integer.
fn get_u32(buf: &[u8], pos: usize) -> (out: Option<(u32, usize)>)
    requires
        pos <= buf@.len(),
    ensures
        match out {
            Some((x, next)) => pos <= next <= buf@.len() && take_u32(buf@.skip(pos as int))
                == Some((x, buf@.skip(next as int))),
            None => take_u32(buf@.skip(pos as int)) is None,
        },
{
    if buf.len() - pos < 4 {
        return None;
    }
    let x = u32_from_le_bytes(slice_subrange(buf, pos, pos + 4));
    assert(buf@.skip(pos as int).subrange(0, 4) =~= buf@.subrange(pos as int, pos + 4));
    assert(buf@.skip(pos as int).skip(4) =~= buf@.skip(pos + 4));
    Some((x, pos + 4))
}

/// Reads a 64-bit integer.
fn get_u64(buf: &[u8], pos: usize) -> (out: Option<(u64, usize)>)
    requires
        pos <= buf@.len(),
    ensures
        match out {
            Some((x, next)) => pos <= next <= buf@.len() && take_u64(buf@.skip(pos as int))
                == Some((x, buf@.skip(next as int))),
            None => take_u64(buf@.skip(pos as int)) is None,
        },
{
    if buf.len() - pos < 8 {
        return None;
    }
    let x = u64_from_le_bytes(slice_subrange(buf, pos, pos + 8));
    assert(buf@.skip(pos as int).subrange(0, 8) =~= buf@.subrange(pos as int, pos + 8));
    assert(buf@.skip(pos as int).skip(8) =~= buf@.skip(pos + 8));
    Some((x, pos + 8))
}

/// Reads a length and the body of that length.
fn get_framed<'a>(buf: &'a [u8], pos: usize) -> (out: Option<(&'a [u8], usize)>)
    requires
        pos <= buf@.len(),
    ensures
        match out {
            Some((body, next)) => pos <= next <= buf@.len() && take_framed(buf@.skip(pos as int))
                == Some((body@, buf@.skip(next as int))),
            None => take_framed(buf@.skip(pos as int)) is None,
        },
{
    match get_u64(buf, pos) {
        Some((n, start)) => {
            if n > (buf.len() - start) as u64 {
                return None;
            }
            let end = start + n as usize;
            let body = slice_subrange(buf, start, end);
            assert(buf@.skip(start as int).take(n as int) =~= buf@.subrange(
                start as int,
                end as int,
            ));
            assert(buf@.skip(start as int).skip(n as int) =~= buf@.skip(end as int));
            Some((body, end))
        },
        None => None,
    }
}

/// Reads a string.
fn get_text(buf: &[u8], pos: usize) -> (out: Option<(String, usize)>)
    requires
        pos <= buf@.len(),
    ensures
        match out {
            Some((text, next)) => pos <= next <= buf@.len() && take_text(buf@.skip(pos as int))
                == Some((text@, buf@.skip(next as int))),
            None => take_text(buf@.skip(pos as int)) is None,
        },
{
    match get_framed(buf, pos) {
        Some((body, next)) => match string_from_utf8(slice_to_vec(body)) {
            Some(text) => Some((text, next)),
            None => None,
        },
        None => None,
    }
}

/// Reads an optional string.
fn get_text_opt(buf: &[u8], pos: usize) -> (out: Option<(Option<String>, usize)>)
    requires
        pos <= buf@.len(),
    ensures
        match out {
            Some((text, next)) => pos <= next <= buf@.len() && take_text_opt(
                buf@.skip(pos as int),
            ) == Some((text_opt(text), buf@.skip(next as int))),
            None => take_text_opt(buf@.skip(pos as int)) is None,
        },
{
    match get_byte(buf, pos) {
        Some((tag, start)) => {
            assert(buf@.skip(pos as int).skip(1) =~= buf@.skip(start as int));
            if tag == 0 {
                Some((None, start))
            } else if tag == 1 {
                match get_text(buf, start) {
                    Some((text, next)) => Some((Some(text), next)),
                    None => None,
                }
            } else {
                None
            }
        },
        None => None,
    }
}

/// Reads the fields of a partition from a record body.
fn get_partition_fields(body: &[u8]) -> (out: Option<Partition>)
    ensures
        match out {
            Some(p) => take_partition_fields(body@) == Some(p@),
            None => take_partition_fields(body@) is None,
        },
{
    assert(body@.skip(0) =~= body@);
    let (name, pos) = match get_text(body, 0) {
        Some(r) => r,
        None => { return None; },
    };
    let (path, pos) = match get_text(body, pos) {
        Some(r) => r,
        None => { return None; },
    };
    let (number, pos) = match get_u32(body, pos) {
        Some(r) => r,
        None => { return None; },
    };
    let (start, pos) = match get_u64(body, pos) {
        Some(r) => r,
        None => { return None; },
    };
    let (end, pos) = match get_u64(body, pos) {
        Some(r) => r,
        None => { return None; },
    };
    let (size, _) = match get_u64(body, pos) {
        Some(r) => r,
        None => { return None; },
    };
    Some(Partition { name, path, number, start, end, size })
}

/// Reads a partition.
fn get_partition(buf: &[u8], pos: usize) -> (out: Option<(Partition, usize)>)
    requires
        pos <= buf@.len(),
    ensures
        match out {
            Some((p, next)) => pos <= next <= buf@.len() && take_partition(buf@.skip(pos as int))
                == Some((p@, buf@.skip(next as int))),
            None => take_partition(buf@.skip(pos as int)) is None,
        },
{
    match get_framed(buf, pos) {
        Some((body, next)) => match get_partition_fields(body) {
            Some(p) => Some((p, next)),
            None => None,
        },
        None => None,
    }
}

/// Reads a sequence of partitions.
fn get_partitions(buf: &[u8], pos: usize) -> (out: Option<(Vec<Partition>, usize)>)
    requires
        pos <= buf@.len(),
    ensures
        match out {
            Some((ps, next)) => pos <= next <= buf@.len() && take_sequence(
                partition_reader(),
                buf@.skip(pos as int),
            ) == Some((partition_views(ps@), buf@.skip(next as int))),
            None => take_sequence(partition_reader(), buf@.skip(pos as int)) is None,
        },
{
    let (n, start) = match get_u64(buf, pos) {
        Some(r) => r,
        None => { return None; },
    };
    let ghost whole = take_repeated(partition_reader(), buf@.skip(start as int), n as nat);
    let mut ps: Vec<Partition> = Vec::new();
    let mut cur = start;
    let mut i: u64 = 0;
    assert(partition_views(ps@) =~= Seq::empty());
    assert(whole == match take_repeated(partition_reader(), buf@.skip(cur as int), n as nat) {
        Some((others, end)) => Some((partition_views(ps@) + others, end)),
        None => None,
    }) by {
        match take_repeated(partition_reader(), buf@.skip(cur as int), n as nat) {
            Some((others, end)) => {
                assert(partition_views(ps@) + others =~= others);
            },
            None => {},
        }
    }
    while i < n
        invariant
            i <= n,
            pos <= start <= cur <= buf@.len(),
            take_sequence(partition_reader(), buf@.skip(pos as int)) == whole,
            whole == match take_repeated(
                partition_reader(),
                buf@.skip(cur as int),
                (n - i) as nat,
            ) {
                Some((others, end)) => Some((partition_views(ps@) + others, end)),
                None => None,
            },
        decreases n - i,
    {
        let ghost before = partition_views(ps@);
        match get_partition(buf, cur) {
            Some((p, next)) => {
                ps.push(p);
                proof {
                    let later = take_repeated(
                        partition_reader(),
                        buf@.skip(next as int),
                        (n - i - 1) as nat,
                    );
                    assert(partition_views(ps@) =~= before.push(p@));
                    match later {
                        Some((others, end)) => {
                            assert(before + (seq![p@] + others) =~= partition_views(ps@)
                                + others);
                        },
                        None => {},
                    }
                }
                cur = next;
                i += 1;
            },
            None => {
                return None;
            },
        }
    }
    assert(partition_views(ps@) + Seq::<crate::schema::PartitionView>::empty()
        =~= partition_views(ps@));
    Some((ps, cur))
}

/// Reads a device kind.
fn get_kind(buf: &[u8], pos: usize) -> (out: Option<(BlockDeviceKind, usize)>)
    requires
        pos <= buf@.len(),
    ensures
        match out {
            Some((kind, next)) => pos <= next <= buf@.len() && take_kind(buf@.skip(pos as int))
                == Some((kind@, buf@.skip(next as int))),
            None => take_kind(buf@.skip(pos as int)) is None,
        },
{
    let (tag, start) = match get_byte(buf, pos) {
        Some(r) => r,
        None => { return None; },
    };
    assert(buf@.skip(pos as int).skip(1) =~= buf@.skip(start as int));
    let (body, next) = match get_framed(buf, start) {
        Some(r) => r,
        None => { return None; },
    };
    if tag == 0 {
        Some((BlockDeviceKind::Disk, next))
    } else if tag == 1 {
        assert(body@.skip(0) =~= body@);
        match get_text_opt(body, 0) {
            Some((backing_file, _)) => Some((BlockDeviceKind::Loopback { backing_file }, next)),
            None => None,
        }
    } else {
        None
    }
}

/// Reads the fields of a device from a record body.
fn get_block_device_fields(body: &[u8]) -> (out: Option<BlockDevice>)
    ensures
        match out {
            Some(d) => take_block_device_fields(body@) == Some(d@),
            None => take_block_device_fields(body@) is None,
        },
{
    assert(body@.skip(0) =~= body@);
    let (path, pos) = match get_text(body, 0) {
        Some(r) => r,
        None => { return None; },
    };
    let (size, pos) = match get_u64(body, pos) {
        Some(r) => r,
        None => { return None; },
    };
    let (sectors, pos) = match get_u64(body, pos) {
        Some(r) => r,
        None => { return None; },
    };
    let (kind, pos) = match get_kind(body, pos) {
        Some(r) => r,
        None => { return None; },
    };
    let (model, pos) = match get_text_opt(body, pos) {
        Some(r) => r,
        None => { return None; },
    };
    let partitions = if pos == body.len() {
        let none: Vec<Partition> = Vec::new();
        assert(partition_views(none@) =~= Seq::empty());
        none
    } else {
        match get_partitions(body, pos) {
            Some((ps, _)) => ps,
            None => { return None; },
        }
    };
    assert(take_partitions_field(body@.skip(pos as int)) == Some(partition_views(partitions@)));
    Some(BlockDevice { path, size, sectors, kind, model, partitions })
}

/// Reads a device.
fn get_block_device(buf: &[u8], pos: usize) -> (out: Option<(BlockDevice, usize)>)
    requires
        pos <= buf@.len(),
    ensures
        match out {
            Some((d, next)) => pos <= next <= buf@.len() && take_block_device(
                buf@.skip(pos as int),
            ) == Some((d@, buf@.skip(next as int))),
            None => take_block_device(buf@.skip(pos as int)) is None,
        },
{
    match get_framed(buf, pos) {
        Some((body, next)) => match get_block_device_fields(body) {
            Some(d) => Some((d, next)),
            None => None,
        },
        None => None,
    }
}

/// Reads a sequence of devices.
fn get_block_devices(buf: &[u8], pos: usize) -> (out: Option<(Vec<BlockDevice>, usize)>)
    requires
        pos <= buf@.len(),
    ensures
        match out {
            Some((ds, next)) => pos <= next <= buf@.len() && take_sequence(
                block_device_reader(),
                buf@.skip(pos as int),
            ) == Some((block_device_views(ds@), buf@.skip(next as int))),
            None => take_sequence(block_device_reader(), buf@.skip(pos as int)) is None,
        },
{
    let (n, start) = match get_u64(buf, pos) {
        Some(r) => r,
        None => { return None; },
    };
    let ghost whole = take_repeated(block_device_reader(), buf@.skip(start as int), n as nat);
    let mut ds: Vec<BlockDevice> = Vec::new();
    let mut cur = start;
    let mut i: u64 = 0;
    assert(block_device_views(ds@) =~= Seq::empty());
    assert(whole == match take_repeated(block_device_reader(), buf@.skip(cur as int), n as nat) {
        Some((others, end)) => Some((block_device_views(ds@) + others, end)),
        None => None,
    }) by {
        match take_repeated(block_device_reader(), buf@.skip(cur as int), n as nat) {
            Some((others, end)) => {
                assert(block_device_views(ds@) + others =~= others);
            },
            None => {},
        }
    }
    while i < n
        invariant
            i <= n,
            pos <= start <= cur <= buf@.len(),
            take_sequence(block_device_reader(), buf@.skip(pos as int)) == whole,
            whole == match take_repeated(
                block_device_reader(),
                buf@.skip(cur as int),
                (n - i) as nat,
            ) {
                Some((others, end)) => Some((block_device_views(ds@) + others, end)),
                None => None,
            },
        decreases n - i,
    {
        let ghost before = block_device_views(ds@);
        match get_block_device(buf, cur) {
            Some((d, next)) => {
                ds.push(d);
                proof {
                    let later = take_repeated(
                        block_device_reader(),
                        buf@.skip(next as int),
                        (n - i - 1) as nat,
                    );
                    assert(block_device_views(ds@) =~= before.push(d@));
                    match later {
                        Some((others, end)) => {
                            assert(before + (seq![d@] + others) =~= block_device_views(ds@)
                                + others);
                        },
                        None => {},
                    }
                }
                cur = next;
                i += 1;
            },
            None => {
                return None;
            },
        }
    }
    assert(block_device_views(ds@) + Seq::<crate::schema::BlockDeviceView>::empty()
        =~= block_device_views(ds@));
    Some((ds, cur))
}

/// Reads the fields of a superblock from a record body.
fn get_superblock_fields(body: &[u8]) -> (out: Option<Superblock>)
    ensures
        match out {
            Some(b) => take_superblock_fields(body@) == Some(b@),
            None => take_superblock_fields(body@) is None,
        },
{
    assert(body@.skip(0) =~= body@);
    let (uuid, pos) = match get_text_opt(body, 0) {
        Some(r) => r,
        None => { return None; },
    };
    let (label, pos) = match get_text_opt(body, pos) {
        Some(r) => r,
        None => { return None; },
    };
    let (filesystem, _) = match get_text(body, pos) {
        Some(r) => r,
        None => { return None; },
    };
    Some(Superblock { uuid, label, filesystem })
}

/// Decodes the request that a message holds. Answers with nothing exactly
/// where the message holds none: where it is cut short, has bytes behind its
/// record, carries an unknown tag, or holds a string that is not UTF-8.
pub fn decode_request(bytes: &[u8]) -> (out: Option<Request>)
    ensures
        match out {
            Some(request) => parse_request(bytes@) == Some(request@),
            None => parse_request(bytes@) is None,
        },
{
    let (tag, start) = match get_byte(bytes, 0) {
        Some(r) => r,
        None => { return None; },
    };
    let (body, next) = match get_framed(bytes, start) {
        Some(r) => r,
        None => { return None; },
    };
    assert(bytes@.skip(next as int).len() == bytes@.len() - next);
    if next != bytes.len() {
        return None;
    }
    if tag == 0 {
        Some(Request::GetBlockDevices)
    } else if tag == 1 {
        Some(Request::Shutdown)
    } else if tag == 2 {
        assert(body@.skip(0) =~= body@);
        match get_text(body, 0) {
            Some((path, _)) => Some(Request::GetSuperblock(path)),
            None => None,
        }
    } else {
        None
    }
}

/// Decodes the response that a message holds. Answers with nothing exactly
/// where the message holds none.
pub fn decode_response(bytes: &[u8]) -> (out: Option<Response>)
    ensures
        match out {
            Some(response) => parse_response(bytes@) == Some(response@),
            None => parse_response(bytes@) is None,
        },
{
    let (tag, start) = match get_byte(bytes, 0) {
        Some(r) => r,
        None => { return None; },
    };
    let (body, next) = match get_framed(bytes, start) {
        Some(r) => r,
        None => { return None; },
    };
    assert(bytes@.skip(next as int).len() == bytes@.len() - next);
    if next != bytes.len() {
        return None;
    }
    assert(body@.skip(0) =~= body@);
    if tag == 0 {
        match get_block_devices(body, 0) {
            Some((devices, _)) => Some(Response::BlockDevices(devices)),
            None => None,
        }
    } else if tag == 1 {
        match get_text(body, 0) {
            Some((message, _)) => Some(Response::Error(message)),
            None => None,
        }
    } else if tag == 2 {
        match get_superblock_fields(body) {
            Some(superblock) => Some(Response::Superblock(superblock)),
            None => None,
        }
    } else {
        None
    }
}

} // verus!
