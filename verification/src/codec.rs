//! Primitives of the deterministic binary wire encoding.
//!
//! Wire values use fixed-width big-endian integers, and variable-length
//! fields carry an explicit byte-length prefix (1, 2 or 4 bytes wide,
//! declared per field) followed by the field's bytes. Every encoder appends
//! to an output buffer and is pinned to a spec-level encoding function, so
//! that equal values encode to equal bytes.

use vstd::prelude::*;

verus! {

/// The two-byte big-endian encoding of `n` (meaningful for `0 <= n < 0x10000`).
pub open spec fn be2(n: int) -> Seq<u8> {
    seq![((n / 0x100) % 0x100) as u8, (n % 0x100) as u8]
}

/// The four-byte big-endian encoding of `n` (meaningful for `0 <= n < 0x1_0000_0000`).
pub open spec fn be4(n: int) -> Seq<u8> {
    seq![
        ((n / 0x100_0000) % 0x100) as u8,
        ((n / 0x1_0000) % 0x100) as u8,
        ((n / 0x100) % 0x100) as u8,
        (n % 0x100) as u8,
    ]
}

/// `body` behind a one-byte length prefix.
pub open spec fn with_len_u8(body: Seq<u8>) -> Seq<u8> {
    seq![body.len() as u8] + body
}

/// `body` behind a two-byte big-endian length prefix.
pub open spec fn with_len_u16(body: Seq<u8>) -> Seq<u8> {
    be2(body.len() as int) + body
}

/// `body` behind a four-byte big-endian length prefix.
pub open spec fn with_len_u32(body: Seq<u8>) -> Seq<u8> {
    be4(body.len() as int) + body
}

/// Appends one byte.
pub fn append_u8(out: &mut Vec<u8>, b: u8)
    ensures
        final(out)@ == old(out)@ + seq![b],
{
    out.push(b);
}

/// Appends the two-byte big-endian encoding of `n`.
pub fn append_be2(out: &mut Vec<u8>, n: u16)
    ensures
        final(out)@ == old(out)@ + be2(n as int),
{
    out.push((n / 0x100) as u8);
    out.push((n % 0x100) as u8);
    proof {
        assert(out@ =~= old(out)@ + be2(n as int));
    }
}

/// Appends the four-byte big-endian encoding of `n`.
pub fn append_be4(out: &mut Vec<u8>, n: u32)
    ensures
        final(out)@ == old(out)@ + be4(n as int),
{
    out.push((n / 0x100_0000) as u8);
    out.push(((n / 0x1_0000) % 0x100) as u8);
    out.push(((n / 0x100) % 0x100) as u8);
    out.push((n % 0x100) as u8);
    proof {
        assert(out@ =~= old(out)@ + be4(n as int));
    }
}

/// Appends the bytes of `data` with no prefix.
pub fn append_raw(out: &mut Vec<u8>, data: &Vec<u8>)
    ensures
        final(out)@ == old(out)@ + data@,
{
    let n = data.len();
    let mut i: usize = 0;
    while i < n
        invariant
            n == data@.len(),
            i <= n,
            out@ == old(out)@ + data@.take(i as int),
        decreases n - i,
    {
        out.push(data[i]);
        i += 1;
        proof {
            assert(out@ =~= old(out)@ + data@.take(i as int));
        }
    }
    proof {
        assert(data@.take(n as int) =~= data@);
    }
}

/// Appends `body` behind a one-byte length prefix. Fails, appending nothing,
/// exactly when `body` is too long for the prefix.
pub fn append_with_len_u8(out: &mut Vec<u8>, body: &Vec<u8>) -> (ok: bool)
    ensures
        ok <==> body@.len() < 0x100,
        ok ==> final(out)@ == old(out)@ + with_len_u8(body@),
        !ok ==> final(out)@ == old(out)@,
{
    if body.len() >= 0x100 {
        return false;
    }
    out.push(body.len() as u8);
    append_raw(out, body);
    proof {
        assert(out@ =~= old(out)@ + with_len_u8(body@));
    }
    true
}

/// Appends `body` behind a two-byte length prefix. Fails, appending nothing,
/// exactly when `body` is too long for the prefix.
pub fn append_with_len_u16(out: &mut Vec<u8>, body: &Vec<u8>) -> (ok: bool)
    ensures
        ok <==> body@.len() < 0x10000,
        ok ==> final(out)@ == old(out)@ + with_len_u16(body@),
        !ok ==> final(out)@ == old(out)@,
{
    if body.len() >= 0x10000 {
        return false;
    }
    append_be2(out, body.len() as u16);
    append_raw(out, body);
    true
}

/// Appends `body` behind a four-byte length prefix. Fails, appending nothing,
/// exactly when `body` is too long for the prefix.
pub fn append_with_len_u32(out: &mut Vec<u8>, body: &Vec<u8>) -> (ok: bool)
    ensures
        ok <==> body@.len() < 0x1_0000_0000,
        ok ==> final(out)@ == old(out)@ + with_len_u32(body@),
        !ok ==> final(out)@ == old(out)@,
{
    if body.len() as u64 >= 0x1_0000_0000u64 {
        return false;
    }
    append_be4(out, body.len() as u32);
    append_raw(out, body);
    true
}

} // verus!
