use vstd::prelude::*;
use vstd::slice::{slice_subrange, slice_to_vec};
use vstd::utf8::{decode_utf8, encode_utf8, valid_utf8};

use crate::error::Error;

verus! {

broadcast use {
    vstd::utf8::encode_utf8_valid_utf8,
    vstd::utf8::encode_utf8_decode_utf8,
    vstd::utf8::decode_utf8_encode_utf8,
};

/// The number of bytes in the UTF-8 form of a string: the unit in which
/// every bound on a stored string is counted.
pub open spec fn byte_len(s: Seq<char>) -> nat {
    encode_utf8(s).len()
}

pub fn string_byte_len(s: &String) -> (r: usize)
    ensures
        r == byte_len(s@),
{
    s.as_str().as_bytes().len()
}

/// `n` in four bytes, least significant first.
pub open spec fn u32_bytes(n: u32) -> Seq<u8> {
    seq![n as u8, (n >> 8u32) as u8, (n >> 16u32) as u8, (n >> 24u32) as u8]
}

pub open spec fn u32_of(b: Seq<u8>) -> u32 {
    (b[0] as u32) | ((b[1] as u32) << 8u32) | ((b[2] as u32) << 16u32) | ((b[3] as u32) << 24u32)
}

/// `n` in eight bytes, least significant first.
pub open spec fn u64_bytes(n: u64) -> Seq<u8> {
    seq![
        n as u8,
        (n >> 8u64) as u8,
        (n >> 16u64) as u8,
        (n >> 24u64) as u8,
        (n >> 32u64) as u8,
        (n >> 40u64) as u8,
        (n >> 48u64) as u8,
        (n >> 56u64) as u8,
    ]
}

pub open spec fn u64_of(b: Seq<u8>) -> u64 {
    (b[0] as u64) | ((b[1] as u64) << 8u64) | ((b[2] as u64) << 16u64) | ((b[3] as u64) << 24u64)
        | ((b[4] as u64) << 32u64) | ((b[5] as u64) << 40u64) | ((b[6] as u64) << 48u64) | ((
    b[7] as u64) << 56u64)
}

/// A string as stored: its byte length in four bytes, then its UTF-8 bytes.
#[verifier::opaque]
pub open spec fn str_bytes(s: Seq<char>) -> Seq<u8> {
    u32_bytes(byte_len(s) as u32) + encode_utf8(s)
}

/// A string that a four-byte length prefix can describe.
pub open spec fn storable(s: Seq<char>) -> bool {
    byte_len(s) <= u32::MAX
}

pub open spec fn parse_u32(b: Seq<u8>) -> Option<(u32, int)> {
    if b.len() < 4 {
        None
    } else {
        Some((u32_of(b), 4))
    }
}

pub open spec fn parse_u64(b: Seq<u8>) -> Option<(u64, int)> {
    if b.len() < 8 {
        None
    } else {
        Some((u64_of(b), 8))
    }
}

/// Reads a stored string from the front of `b`: the string and the number of
/// bytes it took, or `None` where the bytes run out or are not UTF-8.
#[verifier::opaque]
pub open spec fn parse_str(b: Seq<u8>) -> Option<(Seq<char>, int)> {
    if b.len() < 4 {
        None
    } else {
        let n = u32_of(b) as int;
        if b.len() - 4 < n {
            None
        } else if !valid_utf8(b.subrange(4, 4 + n)) {
            None
        } else {
            Some((decode_utf8(b.subrange(4, 4 + n)), 4 + n))
        }
    }
}

pub proof fn lemma_u32_round_trip(n: u32, rest: Seq<u8>)
    ensures
        parse_u32(u32_bytes(n) + rest) == Some((n, 4int)),
{
    let b = u32_bytes(n) + rest;
    assert(b[0] == n as u8 && b[1] == (n >> 8u32) as u8 && b[2] == (n >> 16u32) as u8 && b[3] == (n
        >> 24u32) as u8);
    assert(((n as u8) as u32) | ((((n >> 8u32) as u8) as u32) << 8u32) | ((((n >> 16u32) as u8) as u32)
        << 16u32) | ((((n >> 24u32) as u8) as u32) << 24u32) == n) by (bit_vector);
}

pub proof fn lemma_u32_canonical(b: Seq<u8>)
    requires
        b.len() >= 4,
    ensures
        b.take(4) == u32_bytes(u32_of(b)),
{
    let (b0, b1, b2, b3) = (b[0], b[1], b[2], b[3]);
    let n = u32_of(b);
    assert(n == (b0 as u32) | ((b1 as u32) << 8u32) | ((b2 as u32) << 16u32) | ((b3 as u32)
        << 24u32));
    assert(n as u8 == b0 && (n >> 8u32) as u8 == b1 && (n >> 16u32) as u8 == b2 && (n >> 24u32) as u8
        == b3) by (bit_vector)
        requires
            n == (b0 as u32) | ((b1 as u32) << 8u32) | ((b2 as u32) << 16u32) | ((b3 as u32)
                << 24u32),
    ;
    assert(b.take(4) =~= u32_bytes(n));
}

pub proof fn lemma_u64_round_trip(n: u64, rest: Seq<u8>)
    ensures
        parse_u64(u64_bytes(n) + rest) == Some((n, 8int)),
{
    let b = u64_bytes(n) + rest;
    assert(b[0] == n as u8 && b[1] == (n >> 8u64) as u8 && b[2] == (n >> 16u64) as u8 && b[3] == (n
        >> 24u64) as u8 && b[4] == (n >> 32u64) as u8 && b[5] == (n >> 40u64) as u8 && b[6] == (n
        >> 48u64) as u8 && b[7] == (n >> 56u64) as u8);
    assert(((n as u8) as u64) | ((((n >> 8u64) as u8) as u64) << 8u64) | ((((n >> 16u64) as u8) as u64)
        << 16u64) | ((((n >> 24u64) as u8) as u64) << 24u64) | ((((n >> 32u64) as u8) as u64)
        << 32u64) | ((((n >> 40u64) as u8) as u64) << 40u64) | ((((n >> 48u64) as u8) as u64)
        << 48u64) | ((((n >> 56u64) as u8) as u64) << 56u64) == n) by (bit_vector);
}

pub proof fn lemma_u64_canonical(b: Seq<u8>)
    requires
        b.len() >= 8,
    ensures
        b.take(8) == u64_bytes(u64_of(b)),
{
    let (b0, b1, b2, b3, b4, b5, b6, b7) = (b[0], b[1], b[2], b[3], b[4], b[5], b[6], b[7]);
    let n = u64_of(b);
    assert(n as u8 == b0 && (n >> 8u64) as u8 == b1 && (n >> 16u64) as u8 == b2 && (n >> 24u64) as u8
        == b3 && (n >> 32u64) as u8 == b4 && (n >> 40u64) as u8 == b5 && (n >> 48u64) as u8 == b6 && (n
        >> 56u64) as u8 == b7) by (bit_vector)
        requires
            n == (b0 as u64) | ((b1 as u64) << 8u64) | ((b2 as u64) << 16u64) | ((b3 as u64)
                << 24u64) | ((b4 as u64) << 32u64) | ((b5 as u64) << 40u64) | ((b6 as u64)
                << 48u64) | ((b7 as u64) << 56u64),
    ;
    assert(b.take(8) =~= u64_bytes(n));
}

pub proof fn lemma_str_round_trip(s: Seq<char>, rest: Seq<u8>)
    requires
        storable(s),
    ensures
        parse_str(str_bytes(s) + rest) == Some((s, 4 + byte_len(s) as int)),
        str_bytes(s).len() == 4 + byte_len(s),
{
    reveal(parse_str);
    reveal(str_bytes);
    let n = byte_len(s) as u32;
    let b = str_bytes(s) + rest;
    lemma_u32_round_trip(n, encode_utf8(s) + rest);
    assert(b =~= u32_bytes(n) + (encode_utf8(s) + rest));
    assert(b.subrange(4, 4 + n as int) =~= encode_utf8(s));
}

pub proof fn lemma_str_bytes_len(s: Seq<char>)
    ensures
        str_bytes(s).len() == 4 + byte_len(s),
{
    reveal(str_bytes);
}

pub proof fn lemma_str_canonical(b: Seq<u8>)
    requires
        parse_str(b) is Some,
    ensures
        ({
            let (s, n) = parse_str(b)->Some_0;
            &&& storable(s)
            &&& n == 4 + byte_len(s)
            &&& n <= b.len()
            &&& b.take(n) == str_bytes(s)
        }),
{
    reveal(parse_str);
    reveal(str_bytes);
    let (s, n) = parse_str(b)->Some_0;
    lemma_u32_canonical(b);
    let body = b.subrange(4, n);
    assert(encode_utf8(s) == body);
    assert(b.take(n) =~= b.take(4) + body);
}

pub proof fn lemma_split(b: Seq<u8>, n: int)
    requires
        0 <= n <= b.len(),
    ensures
        b == b.take(n) + b.skip(n),
{
    assert(b =~= b.take(n) + b.skip(n));
}

pub proof fn lemma_take_concat(b: Seq<u8>, n1: int, n2: int)
    requires
        0 <= n1,
        0 <= n2,
        n1 + n2 <= b.len(),
    ensures
        b.take(n1 + n2) == b.take(n1) + b.skip(n1).take(n2),
{
    assert(b.take(n1 + n2) =~= b.take(n1) + b.skip(n1).take(n2));
}

pub proof fn lemma_take_prefix5(a: Seq<u8>, b: Seq<u8>, c: Seq<u8>, d: Seq<u8>, x: Seq<u8>, n: int)
    requires
        0 <= n <= x.len(),
    ensures
        (a + (b + (c + (d + x)))).take(a.len() + b.len() + c.len() + d.len() + n) == a + b + c + d
            + x.take(n),
{
    assert((a + (b + (c + (d + x)))).take(a.len() + b.len() + c.len() + d.len() + n) =~= a + b + c
        + d + x.take(n));
}

pub proof fn lemma_concat5(a: Seq<u8>, b: Seq<u8>, c: Seq<u8>, d: Seq<u8>, e: Seq<u8>)
    ensures
        a + (b + (c + (d + e))) == a + b + c + d + e,
{
    assert(a + (b + (c + (d + e))) =~= a + b + c + d + e);
}

pub proof fn lemma_concat3(a: Seq<u8>, b: Seq<u8>, c: Seq<u8>)
    ensures
        a + (b + c) == a + b + c,
{
    assert(a + (b + c) =~= a + b + c);
}

/// The bytes of `b` from `pos` on.
pub open spec fn rest_of(b: Seq<u8>, pos: int) -> Seq<u8> {
    b.subrange(pos, b.len() as int)
}

/// Relies on std's `String::from_utf8`: it accepts exactly the byte sequences
/// that are valid UTF-8, and the string then holds the characters they encode.
#[verifier::external_body]
fn string_from_utf8(bytes: Vec<u8>) -> (r: Option<String>)
    ensures
        match r {
            Some(s) => valid_utf8(bytes@) && s@ == decode_utf8(bytes@),
            None => !valid_utf8(bytes@),
        },
{
    String::from_utf8(bytes).ok()
}

pub fn write_u32(out: &mut Vec<u8>, n: u32)
    ensures
        final(out)@ == old(out)@ + u32_bytes(n),
{
    out.push(n as u8);
    out.push((n >> 8u32) as u8);
    out.push((n >> 16u32) as u8);
    out.push((n >> 24u32) as u8);
    assert(out@ =~= old(out)@ + u32_bytes(n));
}

pub fn write_u64(out: &mut Vec<u8>, n: u64)
    ensures
        final(out)@ == old(out)@ + u64_bytes(n),
{
    out.push(n as u8);
    out.push((n >> 8u64) as u8);
    out.push((n >> 16u64) as u8);
    out.push((n >> 24u64) as u8);
    out.push((n >> 32u64) as u8);
    out.push((n >> 40u64) as u8);
    out.push((n >> 48u64) as u8);
    out.push((n >> 56u64) as u8);
    assert(out@ =~= old(out)@ + u64_bytes(n));
}

pub fn write_bytes(out: &mut Vec<u8>, bytes: &[u8])
    ensures
        final(out)@ == old(out)@ + bytes@,
{
    let mut i: usize = 0;
    while i < bytes.len()
        invariant
            i <= bytes@.len(),
            out@ == old(out)@ + bytes@.take(i as int),
        decreases bytes@.len() - i,
    {
        out.push(bytes[i]);
        i = i + 1;
        assert(out@ =~= old(out)@ + bytes@.take(i as int));
    }
    assert(bytes@.take(i as int) =~= bytes@);
}

pub fn write_str(out: &mut Vec<u8>, s: &String)
    requires
        storable(s@),
    ensures
        final(out)@ == old(out)@ + str_bytes(s@),
{
    reveal(str_bytes);
    let bytes = s.as_str().as_bytes();
    write_u32(out, bytes.len() as u32);
    write_bytes(out, bytes);
    assert(out@ =~= old(out)@ + str_bytes(s@));
}

pub fn read_u32(b: &[u8], pos: usize) -> (r: Option<(u32, usize)>)
    requires
        pos <= b@.len(),
    ensures
        match r {
            Some((v, p)) => pos <= p <= b@.len() && parse_u32(rest_of(b@, pos as int)) == Some(
                (v, p - pos),
            ),
            None => parse_u32(rest_of(b@, pos as int)) is None,
        },
{
    if b.len() - pos < 4 {
        return None;
    }
    let v = (b[pos] as u32) | ((b[pos + 1] as u32) << 8u32) | ((b[pos + 2] as u32) << 16u32) | ((
    b[pos + 3] as u32) << 24u32);
    Some((v, pos + 4))
}

pub fn read_u64(b: &[u8], pos: usize) -> (r: Option<(u64, usize)>)
    requires
        pos <= b@.len(),
    ensures
        match r {
            Some((v, p)) => pos <= p <= b@.len() && parse_u64(rest_of(b@, pos as int)) == Some(
                (v, p - pos),
            ),
            None => parse_u64(rest_of(b@, pos as int)) is None,
        },
{
    if b.len() - pos < 8 {
        return None;
    }
    let v = (b[pos] as u64) | ((b[pos + 1] as u64) << 8u64) | ((b[pos + 2] as u64) << 16u64) | ((
    b[pos + 3] as u64) << 24u64) | ((b[pos + 4] as u64) << 32u64) | ((b[pos + 5] as u64) << 40u64)
        | ((b[pos + 6] as u64) << 48u64) | ((b[pos + 7] as u64) << 56u64);
    Some((v, pos + 8))
}

pub fn read_str(b: &[u8], pos: usize) -> (r: Option<(String, usize)>)
    requires
        pos <= b@.len(),
    ensures
        match r {
            Some((s, p)) => pos <= p <= b@.len() && parse_str(rest_of(b@, pos as int)) == Some(
                (s@, p - pos),
            ),
            None => parse_str(rest_of(b@, pos as int)) is None,
        },
{
    reveal(parse_str);
    let ghost rest = rest_of(b@, pos as int);
    let (n, p) = match read_u32(b, pos) {
        Some(x) => x,
        None => return None,
    };
    if b.len() - p < n as usize {
        return None;
    }
    let end = p + n as usize;
    let body = slice_to_vec(slice_subrange(b, p, end));
    assert(body@ =~= rest.subrange(4, 4 + n as int));
    match string_from_utf8(body) {
        Some(s) => Some((s, end)),
        None => None,
    }
}

/// The bytes at the start of every slot that the ledger keeps for its own
/// bookkeeping; a record starts after them.
pub const RECORD_OFFSET: usize = 8;

/// `slot` holds `record`: after the reserved bytes comes the record, and
/// every byte after the record is zero.
pub open spec fn holds_record(slot: Seq<u8>, record: Seq<u8>) -> bool {
    &&& RECORD_OFFSET + record.len() <= slot.len()
    &&& slot.subrange(RECORD_OFFSET as int, RECORD_OFFSET + record.len()) == record
    &&& forall|i: int| RECORD_OFFSET + record.len() <= i < slot.len() ==> #[trigger] slot[i] == 0
}

/// Writes `record` into `slot`, after the reserved bytes, and zeroes the rest;
/// `AccountTooSmall`, with the slot untouched, where it has no room.
pub fn store_record(slot: &mut Vec<u8>, record: &[u8]) -> (r: Result<(), Error>)
    ensures
        match r {
            Ok(()) => final(slot)@.len() == old(slot)@.len() && final(slot)@.take(
                RECORD_OFFSET as int,
            ) == old(slot)@.take(RECORD_OFFSET as int) && holds_record(final(slot)@, record@),
            Err(e) => e == Error::AccountTooSmall && final(slot)@ == old(slot)@ && old(
                slot,
            )@.len() < RECORD_OFFSET + record@.len(),
        },
{
    if slot.len() < RECORD_OFFSET || slot.len() - RECORD_OFFSET < record.len() {
        return Err(Error::AccountTooSmall);
    }
    let end = RECORD_OFFSET + record.len();
    let mut i: usize = RECORD_OFFSET;
    while i < slot.len()
        invariant
            RECORD_OFFSET <= i <= slot@.len(),
            end == RECORD_OFFSET + record@.len(),
            end <= slot@.len(),
            slot@.len() == old(slot)@.len(),
            slot@.take(RECORD_OFFSET as int) == old(slot)@.take(RECORD_OFFSET as int),
            forall|j: int| RECORD_OFFSET <= j < i && j < end ==> slot@[j] == record@[j - RECORD_OFFSET],
            forall|j: int| end <= j < i ==> #[trigger] slot@[j] == 0,
        decreases slot@.len() - i,
    {
        let ghost before = slot@;
        if i < end {
            slot[i] = record[i - RECORD_OFFSET];
        } else {
            slot[i] = 0;
        }
        assert(slot@.take(RECORD_OFFSET as int) =~= before.take(RECORD_OFFSET as int));
        i = i + 1;
    }
    assert(slot@.subrange(RECORD_OFFSET as int, end as int) =~= record@);
    Ok(())
}

/// Checks that the slot's bytes after `end` are all zero.
pub fn zero_from(slot: &[u8], end: usize) -> (r: bool)
    requires
        end <= slot@.len(),
    ensures
        r == forall|i: int| end <= i < slot@.len() ==> #[trigger] slot@[i] == 0,
{
    let mut i: usize = end;
    while i < slot.len()
        invariant
            end <= i <= slot@.len(),
            forall|j: int| end <= j < i ==> #[trigger] slot@[j] == 0,
        decreases slot@.len() - i,
    {
        if slot[i] != 0 {
            return false;
        }
        i = i + 1;
    }
    true
}

/// The record of `len` bytes that `slot` holds; `MalformedRecord` where the
/// slot is too short or a byte after the record is not zero.
pub fn fixed_record_in_slot(slot: &[u8], len: usize) -> (r: Result<Vec<u8>, Error>)
    ensures
        match r {
            Ok(record) => record@.len() == len && holds_record(slot@, record@),
            Err(e) => e == Error::MalformedRecord && forall|record: Seq<u8>|
                record.len() == len ==> !holds_record(slot@, record),
        },
{
    if slot.len() < RECORD_OFFSET || slot.len() - RECORD_OFFSET < len {
        return Err(Error::MalformedRecord);
    }
    let end = RECORD_OFFSET + len;
    if !zero_from(slot, end) {
        assert forall|record: Seq<u8>| record.len() == len implies !holds_record(slot@, record) by {
            let i = choose|i: int| end <= i < slot@.len() && slot@[i] != 0;
            assert(slot@[i] != 0);
        }
        return Err(Error::MalformedRecord);
    }
    let record = slice_to_vec(slice_subrange(slot, RECORD_OFFSET, end));
    Ok(record)
}

} // verus!
