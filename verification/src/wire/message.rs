//! The encoding of whole messages: one tag byte, then the payload as a
//! record that fills the rest of the message.
use vstd::prelude::*;
use crate::schema::{RequestView, ResponseView};
use crate::wire::format::{
    fits, framed, lemma_take_framed, lemma_take_text, take_framed, take_text, text_bytes,
    text_fits,
};
use crate::wire::records::{
    block_device_fits, block_device_reader, block_device_writer, lemma_take_block_devices,
    lemma_take_superblock_fields, sequence_bytes, superblock_fields, superblock_fits,
    take_sequence, take_superblock_fields,
};

verus! {

/// The tag of a request.
pub open spec fn request_tag(r: RequestView) -> u8 {
    match r {
        RequestView::GetBlockDevices => 0,
        RequestView::Shutdown => 1,
        RequestView::GetSuperblock(_) => 2,
    }
}

/// The payload of a request.
pub open spec fn request_payload(r: RequestView) -> Seq<u8> {
    match r {
        RequestView::GetBlockDevices => Seq::empty(),
        RequestView::Shutdown => Seq::empty(),
        RequestView::GetSuperblock(path) => text_bytes(path),
    }
}

/// A request can be encoded: every length in it fits its 64-bit prefix.
pub open spec fn request_fits(r: RequestView) -> bool {
    &&& r matches RequestView::GetSuperblock(path) ==> text_fits(path)
    &&& fits(request_payload(r).len())
}

/// The bytes of a request.
pub open spec fn request_bytes(r: RequestView) -> Seq<u8> {
    seq![request_tag(r)] + framed(request_payload(r))
}

/// The request that a message holds, where it holds one.
pub open spec fn parse_request(s: Seq<u8>) -> Option<RequestView> {
    if s.len() == 0 {
        None
    } else {
        match take_framed(s.skip(1)) {
            Some((body, rest)) => if rest.len() != 0 {
                None
            } else if s[0] == 0 {
                Some(RequestView::GetBlockDevices)
            } else if s[0] == 1 {
                Some(RequestView::Shutdown)
            } else if s[0] == 2 {
                match take_text(body) {
                    Some((path, _)) => Some(RequestView::GetSuperblock(path)),
                    None => None,
                }
            } else {
                None
            },
            None => None,
        }
    }
}

/// The tag of a response.
pub open spec fn response_tag(r: ResponseView) -> u8 {
    match r {
        ResponseView::BlockDevices(_) => 0,
        ResponseView::Error(_) => 1,
        ResponseView::Superblock(_) => 2,
    }
}

/// The payload of a response.
pub open spec fn response_payload(r: ResponseView) -> Seq<u8> {
    match r {
        ResponseView::BlockDevices(devices) => sequence_bytes(block_device_writer(), devices),
        ResponseView::Error(message) => text_bytes(message),
        ResponseView::Superblock(superblock) => superblock_fields(superblock),
    }
}

/// A response can be encoded: every length in it fits its 64-bit prefix.
pub open spec fn response_fits(r: ResponseView) -> bool {
    &&& match r {
        ResponseView::BlockDevices(devices) => {
            &&& fits(devices.len())
            &&& forall|i: int| 0 <= i < devices.len() ==> block_device_fits(#[trigger] devices[i])
        },
        ResponseView::Error(message) => text_fits(message),
        ResponseView::Superblock(superblock) => superblock_fits(superblock),
    }
    &&& fits(response_payload(r).len())
}

/// The bytes of a response.
pub open spec fn response_bytes(r: ResponseView) -> Seq<u8> {
    seq![response_tag(r)] + framed(response_payload(r))
}

/// The response that a message holds, where it holds one.
pub open spec fn parse_response(s: Seq<u8>) -> Option<ResponseView> {
    if s.len() == 0 {
        None
    } else {
        match take_framed(s.skip(1)) {
            Some((body, rest)) => if rest.len() != 0 {
                None
            } else if s[0] == 0 {
                match take_sequence(block_device_reader(), body) {
                    Some((devices, _)) => Some(ResponseView::BlockDevices(devices)),
                    None => None,
                }
            } else if s[0] == 1 {
                match take_text(body) {
                    Some((message, _)) => Some(ResponseView::Error(message)),
                    None => None,
                }
            } else if s[0] == 2 {
                match take_superblock_fields(body) {
                    Some(superblock) => Some(ResponseView::Superblock(superblock)),
                    None => None,
                }
            } else {
                None
            },
            None => None,
        }
    }
}

/// A request can be encoded with `added` behind its payload.
pub open spec fn request_fits_with(r: RequestView, added: Seq<u8>) -> bool {
    &&& r matches RequestView::GetSuperblock(path) ==> text_fits(path)
    &&& fits(request_payload(r).len() + added.len())
}

/// A response can be encoded with `added` behind its payload.
pub open spec fn response_fits_with(r: ResponseView, added: Seq<u8>) -> bool {
    &&& match r {
        ResponseView::BlockDevices(devices) => {
            &&& fits(devices.len())
            &&& forall|i: int| 0 <= i < devices.len() ==> block_device_fits(#[trigger] devices[i])
        },
        ResponseView::Error(message) => text_fits(message),
        ResponseView::Superblock(superblock) => superblock_fits(superblock),
    }
    &&& fits(response_payload(r).len() + added.len())
}

/// A reader of requests passes over what a later writer adds behind the
/// payload it knows: the request read is the same.
pub proof fn lemma_request_forward_compatible(r: RequestView, added: Seq<u8>)
    requires
        request_fits_with(r, added),
    ensures
        parse_request(seq![request_tag(r)] + framed(request_payload(r) + added)) == Some(r),
{
    let payload = request_payload(r) + added;
    let s = seq![request_tag(r)] + framed(payload);
    assert(s[0] == request_tag(r));
    assert(s.skip(1) =~= framed(payload) + Seq::<u8>::empty());
    lemma_take_framed(payload, Seq::empty());
    match r {
        RequestView::GetSuperblock(path) => {
            lemma_take_text(path, added);
        },
        _ => {},
    }
}

/// A reader of responses passes over what a later writer adds behind the
/// payload it knows: the response read is the same.
pub proof fn lemma_response_forward_compatible(r: ResponseView, added: Seq<u8>)
    requires
        response_fits_with(r, added),
    ensures
        parse_response(seq![response_tag(r)] + framed(response_payload(r) + added)) == Some(r),
{
    let payload = response_payload(r) + added;
    let s = seq![response_tag(r)] + framed(payload);
    assert(s[0] == response_tag(r));
    assert(s.skip(1) =~= framed(payload) + Seq::<u8>::empty());
    lemma_take_framed(payload, Seq::empty());
    match r {
        ResponseView::BlockDevices(devices) => {
            lemma_take_block_devices(devices, added);
        },
        ResponseView::Error(message) => {
            lemma_take_text(message, added);
        },
        ResponseView::Superblock(superblock) => {
            lemma_take_superblock_fields(superblock, added);
        },
    }
}

/// Encoding a request and decoding the bytes gives the request back.
pub proof fn lemma_request_round_trip(r: RequestView)
    requires
        request_fits(r),
    ensures
        parse_request(request_bytes(r)) == Some(r),
{
    assert(request_payload(r) + Seq::<u8>::empty() =~= request_payload(r));
    lemma_request_forward_compatible(r, Seq::empty());
}

/// Encoding a response and decoding the bytes gives the response back.
pub proof fn lemma_response_round_trip(r: ResponseView)
    requires
        response_fits(r),
    ensures
        parse_response(response_bytes(r)) == Some(r),
{
    assert(response_payload(r) + Seq::<u8>::empty() =~= response_payload(r));
    lemma_response_forward_compatible(r, Seq::empty());
}

/// A message holds at most one request: two requests with the same bytes
/// are the same request.
pub proof fn lemma_request_bytes_injective(a: RequestView, b: RequestView)
    requires
        request_fits(a),
        request_fits(b),
        request_bytes(a) == request_bytes(b),
    ensures
        a == b,
{
    lemma_request_round_trip(a);
    lemma_request_round_trip(b);
}

/// A message holds at most one response: two responses with the same bytes
/// are the same response.
pub proof fn lemma_response_bytes_injective(a: ResponseView, b: ResponseView)
    requires
        response_fits(a),
        response_fits(b),
        response_bytes(a) == response_bytes(b),
    ensures
        a == b,
{
    lemma_response_round_trip(a);
    lemma_response_round_trip(b);
}

} // verus!
