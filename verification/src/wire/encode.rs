//! Writing values as bytes.
use vstd::prelude::*;
use vstd::bytes::{spec_u32_to_le_bytes, spec_u64_to_le_bytes, u32_to_le_bytes, u64_to_le_bytes};
use vstd::slice::slice_to_vec;
use crate::schema::{
    block_device_views, partition_views, text_opt, BlockDevice, BlockDeviceKind, Partition,
    Request, Response, Superblock,
};
use crate::wire::format::{fits, framed, text_bytes, text_fits, text_opt_bytes, text_opt_fits};
use crate::wire::message::{
    lemma_request_round_trip, lemma_response_round_trip, parse_request, parse_response,
    request_bytes, request_fits, response_bytes, response_fits,
};
use crate::wire::records::{
    block_device_bytes, block_device_fits, block_device_writer, elements_bytes, kind_bytes,
    kind_fits, lemma_elements_push, partition_bytes, partition_fits, partition_writer,
    sequence_bytes, superblock_fields, superblock_fits,
};

verus! {

/// Appends one byte.
fn put_byte(out: &mut Vec<u8>, b: u8)
    ensures
        final(out)@ == old(out)@ + seq![b],
{
    out.push(b);
    assert(out@ =~= old(out)@ + seq![b]);
}

/// Appends a 32-bit integer.
fn put_u32(out: &mut Vec<u8>, x: u32)
    ensures
        final(out)@ == old(out)@ + spec_u32_to_le_bytes(x),
{
    let mut bytes = u32_to_le_bytes(x);
    out.append(&mut bytes);
}

/// Appends a 64-bit integer.
fn put_u64(out: &mut Vec<u8>, x: u64)
    ensures
        final(out)@ == old(out)@ + spec_u64_to_le_bytes(x),
{
    let mut bytes = u64_to_le_bytes(x);
    out.append(&mut bytes);
}

/// Appends a body behind its length.
fn put_framed(out: &mut Vec<u8>, body: Vec<u8>)
    ensures
        final(out)@ == old(out)@ + framed(body@),
        fits(body@.len()),
{
    let mut rest = body;
    put_u64(out, rest.len() as u64);
    out.append(&mut rest);
    assert(out@ =~= old(out)@ + framed(body@));
}

/// Appends a string.
fn put_text(out: &mut Vec<u8>, text: &String)
    ensures
        final(out)@ == old(out)@ + text_bytes(text@),
        text_fits(text@),
{
    let bytes = slice_to_vec(text.as_str().as_bytes());
    put_framed(out, bytes);
}

/// Appends an optional string.
fn put_text_opt(out: &mut Vec<u8>, text: &Option<String>)
    ensures
        final(out)@ == old(out)@ + text_opt_bytes(text_opt(*text)),
        text_opt_fits(text_opt(*text)),
{
    match text {
        Some(t) => {
            put_byte(out, 1);
            put_text(out, t);
            assert(out@ =~= old(out)@ + text_opt_bytes(text_opt(*text)));
        },
        None => {
            put_byte(out, 0);
        },
    }
}

/// Appends a partition.
fn put_partition(out: &mut Vec<u8>, p: &Partition)
    ensures
        final(out)@ == old(out)@ + partition_bytes(p@),
        partition_fits(p@),
{
    let mut body: Vec<u8> = Vec::new();
    put_text(&mut body, &p.name);
    put_text(&mut body, &p.path);
    put_u32(&mut body, p.number);
    put_u64(&mut body, p.start);
    put_u64(&mut body, p.end);
    put_u64(&mut body, p.size);
    assert(body@ =~= crate::wire::records::partition_fields(p@));
    put_framed(out, body);
}

/// Appends a sequence of partitions.
fn put_partitions(out: &mut Vec<u8>, ps: &Vec<Partition>)
    ensures
        final(out)@ == old(out)@ + sequence_bytes(partition_writer(), partition_views(ps@)),
        fits(ps@.len()),
        forall|i: int| 0 <= i < ps@.len() ==> partition_fits(#[trigger] partition_views(ps@)[i]),
{
    let ghost views = partition_views(ps@);
    put_u64(out, ps.len() as u64);
    let ghost head = out@;
    let mut i: usize = 0;
    assert(views.take(0) =~= Seq::empty());
    while i < ps.len()
        invariant
            i <= ps.len(),
            views == partition_views(ps@),
            out@ == head + elements_bytes(partition_writer(), views.take(i as int)),
            forall|k: int| 0 <= k < i ==> partition_fits(#[trigger] views[k]),
        decreases ps.len() - i,
    {
        put_partition(out, &ps[i]);
        proof {
            lemma_elements_push(partition_writer(), views.take(i as int), views[i as int]);
            assert(views.take(i as int).push(views[i as int]) =~= views.take(i + 1));
        }
        i += 1;
    }
    assert(views.take(ps@.len() as int) =~= views);
    assert(out@ =~= old(out)@ + sequence_bytes(partition_writer(), views));
}

/// Appends a device kind.
fn put_kind(out: &mut Vec<u8>, kind: &BlockDeviceKind)
    ensures
        final(out)@ == old(out)@ + kind_bytes(kind@),
        kind_fits(kind@),
{
    let mut payload: Vec<u8> = Vec::new();
    match kind {
        BlockDeviceKind::Disk => {
            put_byte(out, 0);
        },
        BlockDeviceKind::Loopback { backing_file } => {
            put_byte(out, 1);
            put_text_opt(&mut payload, backing_file);
        },
    }
    assert(payload@ =~= crate::wire::records::kind_payload(kind@));
    put_framed(out, payload);
    assert(out@ =~= old(out)@ + kind_bytes(kind@));
}

/// Appends a device.
fn put_block_device(out: &mut Vec<u8>, d: &BlockDevice)
    ensures
        final(out)@ == old(out)@ + block_device_bytes(d@),
        block_device_fits(d@),
{
    let mut body: Vec<u8> = Vec::new();
    put_text(&mut body, &d.path);
    put_u64(&mut body, d.size);
    put_u64(&mut body, d.sectors);
    put_kind(&mut body, &d.kind);
    put_text_opt(&mut body, &d.model);
    put_partitions(&mut body, &d.partitions);
    assert(body@ =~= crate::wire::records::block_device_fields(d@));
    put_framed(out, body);
}

/// Appends a sequence of devices.
fn put_block_devices(out: &mut Vec<u8>, ds: &Vec<BlockDevice>)
    ensures
        final(out)@ == old(out)@ + sequence_bytes(block_device_writer(), block_device_views(ds@)),
        fits(ds@.len()),
        forall|i: int|
            0 <= i < ds@.len() ==> block_device_fits(#[trigger] block_device_views(ds@)[i]),
{
    let ghost views = block_device_views(ds@);
    put_u64(out, ds.len() as u64);
    let ghost head = out@;
    let mut i: usize = 0;
    assert(views.take(0) =~= Seq::empty());
    while i < ds.len()
        invariant
            i <= ds.len(),
            views == block_device_views(ds@),
            out@ == head + elements_bytes(block_device_writer(), views.take(i as int)),
            forall|k: int| 0 <= k < i ==> block_device_fits(#[trigger] views[k]),
        decreases ds.len() - i,
    {
        put_block_device(out, &ds[i]);
        proof {
            lemma_elements_push(block_device_writer(), views.take(i as int), views[i as int]);
            assert(views.take(i as int).push(views[i as int]) =~= views.take(i + 1));
        }
        i += 1;
    }
    assert(views.take(ds@.len() as int) =~= views);
    assert(out@ =~= old(out)@ + sequence_bytes(block_device_writer(), views));
}

/// Appends the fields of a superblock.
fn put_superblock_fields(out: &mut Vec<u8>, b: &Superblock)
    ensures
        final(out)@ == old(out)@ + superblock_fields(b@),
        superblock_fits(b@),
{
    put_text_opt(out, &b.uuid);
    put_text_opt(out, &b.label);
    put_text(out, &b.filesystem);
    assert(out@ =~= old(out)@ + superblock_fields(b@));
}

/// Encodes a request as one message. Decoding the message gives the request
/// back.
pub fn encode_request(request: &Request) -> (out: Vec<u8>)
    ensures
        out@ == request_bytes(request@),
        request_fits(request@),
        parse_request(out@) == Some(request@),
{
    let mut out: Vec<u8> = Vec::new();
    let mut payload: Vec<u8> = Vec::new();
    match request {
        Request::GetBlockDevices => {
            put_byte(&mut out, 0);
        },
        Request::Shutdown => {
            put_byte(&mut out, 1);
        },
        Request::GetSuperblock(path) => {
            put_byte(&mut out, 2);
            put_text(&mut payload, path);
        },
    }
    assert(payload@ =~= crate::wire::message::request_payload(request@));
    put_framed(&mut out, payload);
    assert(out@ =~= request_bytes(request@));
    proof {
        lemma_request_round_trip(request@);
    }
    out
}

/// Encodes a response as one message. Decoding the message gives the
/// response back.
pub fn encode_response(response: &Response) -> (out: Vec<u8>)
    ensures
        out@ == response_bytes(response@),
        response_fits(response@),
        parse_response(out@) == Some(response@),
{
    let mut out: Vec<u8> = Vec::new();
    let mut payload: Vec<u8> = Vec::new();
    match response {
        Response::BlockDevices(devices) => {
            put_byte(&mut out, 0);
            put_block_devices(&mut payload, devices);
        },
        Response::Error(message) => {
            put_byte(&mut out, 1);
            put_text(&mut payload, message);
        },
        Response::Superblock(superblock) => {
            put_byte(&mut out, 2);
            put_superblock_fields(&mut payload, superblock);
        },
    }
    assert(payload@ =~= crate::wire::message::response_payload(response@));
    put_framed(&mut out, payload);
    assert(out@ =~= response_bytes(response@));
    proof {
        lemma_response_round_trip(response@);
    }
    out
}

} // verus!
