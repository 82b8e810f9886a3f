//! The encoding as mathematics: for each type the bytes that stand for a
//! value, the partial function that reads a value back from the front of a
//! byte sequence, and the proof that the second undoes the first.
use vstd::prelude::*;
use vstd::bytes::{
    lemma_auto_spec_u32_to_from_le_bytes, lemma_auto_spec_u64_to_from_le_bytes,
    spec_u32_from_le_bytes, spec_u32_to_le_bytes, spec_u64_from_le_bytes, spec_u64_to_le_bytes,
};
use vstd::utf8::{decode_utf8, encode_utf8, encode_utf8_decode_utf8, encode_utf8_valid_utf8, valid_utf8};

verus! {

/// A length or count that a 64-bit integer can hold.
pub open spec fn fits(n: nat) -> bool {
    n <= u64::MAX
}

/// Reads a 32-bit integer from the front of `s`.
pub open spec fn take_u32(s: Seq<u8>) -> Option<(u32, Seq<u8>)> {
    if s.len() >= 4 {
        Some((spec_u32_from_le_bytes(s.subrange(0, 4)), s.skip(4)))
    } else {
        None
    }
}

/// Reads a 64-bit integer from the front of `s`.
pub open spec fn take_u64(s: Seq<u8>) -> Option<(u64, Seq<u8>)> {
    if s.len() >= 8 {
        Some((spec_u64_from_le_bytes(s.subrange(0, 8)), s.skip(8)))
    } else {
        None
    }
}

/// A body behind its length.
pub open spec fn framed(body: Seq<u8>) -> Seq<u8> {
    spec_u64_to_le_bytes(body.len() as u64) + body
}

/// Reads a length and the body of that length from the front of `s`.
pub open spec fn take_framed(s: Seq<u8>) -> Option<(Seq<u8>, Seq<u8>)> {
    match take_u64(s) {
        Some((n, rest)) => if n <= rest.len() {
            Some((rest.take(n as int), rest.skip(n as int)))
        } else {
            None
        },
        None => None,
    }
}

/// A string's UTF-8 bytes can be framed.
pub open spec fn text_fits(t: Seq<char>) -> bool {
    fits(encode_utf8(t).len())
}

/// The bytes of a string.
pub open spec fn text_bytes(t: Seq<char>) -> Seq<u8> {
    framed(encode_utf8(t))
}

/// Reads a string from the front of `s`.
pub open spec fn take_text(s: Seq<u8>) -> Option<(Seq<char>, Seq<u8>)> {
    match take_framed(s) {
        Some((body, rest)) => if valid_utf8(body) {
            Some((decode_utf8(body), rest))
        } else {
            None
        },
        None => None,
    }
}

/// An optional string can be encoded.
pub open spec fn text_opt_fits(t: Option<Seq<char>>) -> bool {
    match t {
        Some(text) => text_fits(text),
        None => true,
    }
}

/// The bytes of an optional string.
pub open spec fn text_opt_bytes(t: Option<Seq<char>>) -> Seq<u8> {
    match t {
        Some(text) => seq![1u8] + text_bytes(text),
        None => seq![0u8],
    }
}

/// Reads an optional string from the front of `s`.
pub open spec fn take_text_opt(s: Seq<u8>) -> Option<(Option<Seq<char>>, Seq<u8>)> {
    if s.len() == 0 {
        None
    } else if s[0] == 0 {
        Some((None, s.skip(1)))
    } else if s[0] == 1 {
        match take_text(s.skip(1)) {
            Some((text, rest)) => Some((Some(text), rest)),
            None => None,
        }
    } else {
        None
    }
}

/// Reading undoes writing, for 32-bit integers.
pub proof fn lemma_take_u32(x: u32, rest: Seq<u8>)
    ensures
        spec_u32_to_le_bytes(x).len() == 4,
        take_u32(spec_u32_to_le_bytes(x) + rest) == Some((x, rest)),
{
    lemma_auto_spec_u32_to_from_le_bytes();
    let b = spec_u32_to_le_bytes(x);
    assert((b + rest).subrange(0, 4) =~= b);
    assert((b + rest).skip(4) =~= rest);
}

/// Reading undoes writing, for 64-bit integers.
pub proof fn lemma_take_u64(x: u64, rest: Seq<u8>)
    ensures
        spec_u64_to_le_bytes(x).len() == 8,
        take_u64(spec_u64_to_le_bytes(x) + rest) == Some((x, rest)),
{
    lemma_auto_spec_u64_to_from_le_bytes();
    let b = spec_u64_to_le_bytes(x);
    assert((b + rest).subrange(0, 8) =~= b);
    assert((b + rest).skip(8) =~= rest);
}

/// Reading undoes writing, for framed bodies.
pub proof fn lemma_take_framed(body: Seq<u8>, rest: Seq<u8>)
    requires
        fits(body.len()),
    ensures
        framed(body).len() == 8 + body.len(),
        take_framed(framed(body) + rest) == Some((body, rest)),
{
    let n = body.len() as u64;
    lemma_take_u64(n, body + rest);
    assert(framed(body) + rest =~= spec_u64_to_le_bytes(n) + (body + rest));
    assert((body + rest).take(n as int) =~= body);
    assert((body + rest).skip(n as int) =~= rest);
}

/// Reading undoes writing, for strings.
pub proof fn lemma_take_text(t: Seq<char>, rest: Seq<u8>)
    requires
        text_fits(t),
    ensures
        take_text(text_bytes(t) + rest) == Some((t, rest)),
{
    lemma_take_framed(encode_utf8(t), rest);
    encode_utf8_valid_utf8(t);
    encode_utf8_decode_utf8(t);
}

/// Reading undoes writing, for optional strings.
pub proof fn lemma_take_text_opt(t: Option<Seq<char>>, rest: Seq<u8>)
    requires
        text_opt_fits(t),
    ensures
        take_text_opt(text_opt_bytes(t) + rest) == Some((t, rest)),
{
    let s = text_opt_bytes(t) + rest;
    match t {
        Some(text) => {
            lemma_take_text(text, rest);
            assert(s.skip(1) =~= text_bytes(text) + rest);
        },
        None => {
            assert(s.skip(1) =~= rest);
        },
    }
}

} // verus!
