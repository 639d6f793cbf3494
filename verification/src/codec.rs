//! The binary envelope of every by-square payload: header nibbles, CRC32,
//! raw LZMA and Base32hex.

use vstd::prelude::*;

use vstd::utf8::{decode_utf8, encode_utf8, valid_utf8};

use crate::checksum::{crc32, crc32_of};
use crate::error::{text, Error, Result};
use crate::lzma::{lzma_compress, lzma_decompress, lzma_raw_decoded, lzma_raw_encoded, LzmaSettings};
use crate::text::{string_from_chars, string_from_utf8};

verus! {

// ---------------------------------------------------------------------------
// Base32hex alphabet
// ---------------------------------------------------------------------------

/// The Base32hex character of a five-bit value.
pub open spec fn digit_char(v: u8) -> char {
    if v < 10 {
        ((48 + v) as u8) as char
    } else {
        ((55 + v) as u8) as char
    }
}

/// The value of a Base32hex character byte, or `None` for any other byte.
pub open spec fn digit_value(c: u8) -> Option<u8> {
    if 48 <= c <= 57 {
        Some((c - 48) as u8)
    } else if 65 <= c <= 86 {
        Some((c - 55) as u8)
    } else {
        None
    }
}

// ---------------------------------------------------------------------------
// Base32hex as five-byte groups of eight characters
// ---------------------------------------------------------------------------

/// The eight five-bit values that encode five bytes.
pub open spec fn encode_group(b0: u8, b1: u8, b2: u8, b3: u8, b4: u8) -> Seq<u8> {
    seq![
        b0 >> 3u8,
        ((b0 & 7u8) << 2u8) | (b1 >> 6u8),
        (b1 >> 1u8) & 31u8,
        ((b1 & 1u8) << 4u8) | (b2 >> 4u8),
        ((b2 & 15u8) << 1u8) | (b3 >> 7u8),
        (b3 >> 2u8) & 31u8,
        ((b3 & 3u8) << 3u8) | (b4 >> 5u8),
        b4 & 31u8,
    ]
}

/// The five bytes that eight five-bit values encode.
pub open spec fn decode_group(v0: u8, v1: u8, v2: u8, v3: u8, v4: u8, v5: u8, v6: u8, v7: u8) -> Seq<u8> {
    seq![
        (v0 << 3u8) | (v1 >> 2u8),
        (v1 << 6u8) | (v2 << 1u8) | (v3 >> 4u8),
        (v3 << 4u8) | (v4 >> 1u8),
        (v4 << 7u8) | (v5 << 2u8) | (v6 >> 3u8),
        (v6 << 5u8) | v7,
    ]
}

/// Byte `i` of `bytes`, or zero past its end.
pub open spec fn byte_or_zero(bytes: Seq<u8>, i: int) -> u8 {
    if 0 <= i < bytes.len() {
        bytes[i]
    } else {
        0
    }
}

/// Number of characters that a final group of `n` bytes (1 to 4) needs.
pub open spec fn tail_char_count(n: int) -> int {
    if n == 1 {
        2
    } else if n == 2 {
        4
    } else if n == 3 {
        5
    } else {
        7
    }
}

/// Number of whole bytes that a final group of `k` characters (1 to 7) carries.
pub open spec fn tail_byte_count(k: int) -> int {
    if k <= 1 {
        0
    } else if k <= 3 {
        1
    } else if k == 4 {
        2
    } else if k <= 6 {
        3
    } else {
        4
    }
}

/// The five-bit values of the Base32hex encoding of `bytes`; a final partial
/// group is padded with zero bits.
pub open spec fn encoded_values(bytes: Seq<u8>) -> Seq<u8>
    decreases bytes.len(),
{
    if bytes.len() == 0 {
        seq![]
    } else if bytes.len() >= 5 {
        encode_group(bytes[0], bytes[1], bytes[2], bytes[3], bytes[4]) + encoded_values(
            bytes.skip(5),
        )
    } else {
        encode_group(
            bytes[0],
            byte_or_zero(bytes, 1),
            byte_or_zero(bytes, 2),
            byte_or_zero(bytes, 3),
            0,
        ).take(tail_char_count(bytes.len() as int))
    }
}

/// The unpadded Base32hex text of `bytes`.
pub open spec fn base32hex(bytes: Seq<u8>) -> Seq<char> {
    encoded_values(bytes).map_values(|v: u8| digit_char(v))
}

/// Whether the bits left over after the last whole byte of a final group of
/// `k` values are all zero.
pub open spec fn zero_padding(v: Seq<u8>, k: int) -> bool {
    if k == 1 {
        v[0] == 0
    } else if k == 2 {
        v[1] & 3u8 == 0
    } else if k == 3 {
        v[1] & 3u8 == 0 && v[2] == 0
    } else if k == 4 {
        v[3] & 15u8 == 0
    } else if k == 5 {
        v[4] & 1u8 == 0
    } else if k == 6 {
        v[4] & 1u8 == 0 && v[5] == 0
    } else if k == 7 {
        v[6] & 7u8 == 0
    } else {
        true
    }
}

/// The bytes that a sequence of five-bit values decodes to, or `None` when
/// its final group has non-zero padding bits.
pub open spec fn decoded_values(v: Seq<u8>) -> Option<Seq<u8>>
    decreases v.len(),
{
    if v.len() == 0 {
        Some(seq![])
    } else if v.len() >= 8 {
        match decoded_values(v.skip(8)) {
            Some(rest) => Some(decode_group(v[0], v[1], v[2], v[3], v[4], v[5], v[6], v[7]) + rest),
            None => None,
        }
    } else if zero_padding(v, v.len() as int) {
        Some(
            decode_group(
                v[0],
                byte_or_zero(v, 1),
                byte_or_zero(v, 2),
                byte_or_zero(v, 3),
                byte_or_zero(v, 4),
                byte_or_zero(v, 5),
                byte_or_zero(v, 6),
                0,
            ).take(tail_byte_count(v.len() as int)),
        )
    } else {
        None
    }
}

/// Whether every byte of `text` is a Base32hex character.
pub open spec fn all_digits(text: Seq<u8>) -> bool {
    forall|i: int| 0 <= i < text.len() ==> (#[trigger] digit_value(text[i])) is Some
}

/// The bytes that Base32hex text decodes to: `None` when it holds another
/// character or non-zero padding bits.
pub open spec fn base32hex_decoded(text: Seq<u8>) -> Option<Seq<u8>> {
    if all_digits(text) {
        decoded_values(text.map_values(|c: u8| digit_value(c)->0))
    } else {
        None
    }
}


// ---------------------------------------------------------------------------
// Proofs: decoding inverts encoding
// ---------------------------------------------------------------------------

proof fn lemma_group_round_trip(b0: u8, b1: u8, b2: u8, b3: u8, b4: u8)
    ensures
        ({
            let v = encode_group(b0, b1, b2, b3, b4);
            &&& v.len() == 8
            &&& forall|j: int| 0 <= j < 8 ==> v[j] < 32
            &&& decode_group(v[0], v[1], v[2], v[3], v[4], v[5], v[6], v[7]) == seq![b0, b1, b2, b3, b4]
        }),
{
    let v = encode_group(b0, b1, b2, b3, b4);
    assert(b0 >> 3u8 < 32 && ((b0 & 7u8) << 2u8) | (b1 >> 6u8) < 32 && (b1 >> 1u8) & 31u8 < 32
        && ((b1 & 1u8) << 4u8) | (b2 >> 4u8) < 32 && ((b2 & 15u8) << 1u8) | (b3 >> 7u8) < 32
        && (b3 >> 2u8) & 31u8 < 32 && ((b3 & 3u8) << 3u8) | (b4 >> 5u8) < 32 && b4 & 31u8 < 32)
        by (bit_vector);
    let (v0, v1, v2, v3, v4, v5, v6, v7) = (
        b0 >> 3u8,
        ((b0 & 7u8) << 2u8) | (b1 >> 6u8),
        (b1 >> 1u8) & 31u8,
        ((b1 & 1u8) << 4u8) | (b2 >> 4u8),
        ((b2 & 15u8) << 1u8) | (b3 >> 7u8),
        (b3 >> 2u8) & 31u8,
        ((b3 & 3u8) << 3u8) | (b4 >> 5u8),
        b4 & 31u8,
    );
    assert((v0 << 3u8) | (v1 >> 2u8) == b0) by (bit_vector)
        requires
            v0 == b0 >> 3u8,
            v1 == ((b0 & 7u8) << 2u8) | (b1 >> 6u8),
    ;
    assert((v1 << 6u8) | (v2 << 1u8) | (v3 >> 4u8) == b1) by (bit_vector)
        requires
            v1 == ((b0 & 7u8) << 2u8) | (b1 >> 6u8),
            v2 == (b1 >> 1u8) & 31u8,
            v3 == ((b1 & 1u8) << 4u8) | (b2 >> 4u8),
    ;
    assert((v3 << 4u8) | (v4 >> 1u8) == b2) by (bit_vector)
        requires
            v3 == ((b1 & 1u8) << 4u8) | (b2 >> 4u8),
            v4 == ((b2 & 15u8) << 1u8) | (b3 >> 7u8),
    ;
    assert((v4 << 7u8) | (v5 << 2u8) | (v6 >> 3u8) == b3) by (bit_vector)
        requires
            v4 == ((b2 & 15u8) << 1u8) | (b3 >> 7u8),
            v5 == (b3 >> 2u8) & 31u8,
            v6 == ((b3 & 3u8) << 3u8) | (b4 >> 5u8),
    ;
    assert((v6 << 5u8) | v7 == b4) by (bit_vector)
        requires
            v6 == ((b3 & 3u8) << 3u8) | (b4 >> 5u8),
            v7 == b4 & 31u8,
    ;
    assert(decode_group(v[0], v[1], v[2], v[3], v[4], v[5], v[6], v[7]) =~= seq![b0, b1, b2, b3, b4]);
}

proof fn lemma_tail_round_trip(bytes: Seq<u8>)
    requires
        1 <= bytes.len() <= 4,
    ensures
        ({
            let k = tail_char_count(bytes.len() as int);
            let v = encoded_values(bytes);
            &&& v.len() == k
            &&& tail_byte_count(k) == bytes.len()
            &&& forall|j: int| 0 <= j < k ==> v[j] < 32
            &&& zero_padding(v, k)
            &&& decode_group(
                v[0],
                byte_or_zero(v, 1),
                byte_or_zero(v, 2),
                byte_or_zero(v, 3),
                byte_or_zero(v, 4),
                byte_or_zero(v, 5),
                byte_or_zero(v, 6),
                0,
            ).take(tail_byte_count(k)) == bytes
        }),
{
    let b0 = bytes[0];
    let b1 = byte_or_zero(bytes, 1);
    let b2 = byte_or_zero(bytes, 2);
    let b3 = byte_or_zero(bytes, 3);
    let full = encode_group(b0, b1, b2, b3, 0);
    lemma_group_round_trip(b0, b1, b2, b3, 0);
    let k = tail_char_count(bytes.len() as int);
    let v = encoded_values(bytes);
    assert(v == full.take(k));
    let d = decode_group(
        v[0],
        byte_or_zero(v, 1),
        byte_or_zero(v, 2),
        byte_or_zero(v, 3),
        byte_or_zero(v, 4),
        byte_or_zero(v, 5),
        byte_or_zero(v, 6),
        0,
    );
    if bytes.len() == 1 {
        assert(b1 == 0);
        assert((((b0 & 7u8) << 2u8) | (0u8 >> 6u8)) & 3u8 == 0) by (bit_vector);
        assert((((b0 & 7u8) << 2u8) | (0u8 >> 6u8)) >> 2u8 == b0 & 7u8) by (bit_vector);
        assert(((b0 >> 3u8) << 3u8) | (b0 & 7u8) == b0) by (bit_vector);
        assert(d.take(1) =~= bytes);
    } else if bytes.len() == 2 {
        assert(b2 == 0);
        assert((((b1 & 1u8) << 4u8) | (0u8 >> 4u8)) & 15u8 == 0) by (bit_vector);
        assert(full[3] == ((b1 & 1u8) << 4u8) | (b2 >> 4u8));
        assert(d[0] == full.take(8)[0] << 3u8 | full[1] >> 2u8);
        assert(d.take(2) =~= bytes);
    } else if bytes.len() == 3 {
        assert(b3 == 0);
        assert((((b2 & 15u8) << 1u8) | (0u8 >> 7u8)) & 1u8 == 0) by (bit_vector);
        assert(d.take(3) =~= bytes);
    } else {
        assert((((b3 & 3u8) << 3u8) | (0u8 >> 5u8)) & 7u8 == 0) by (bit_vector);
        assert(d.take(4) =~= bytes);
    }
}

proof fn lemma_values_round_trip(bytes: Seq<u8>)
    ensures
        forall|j: int| 0 <= j < encoded_values(bytes).len() ==> encoded_values(bytes)[j] < 32,
        decoded_values(encoded_values(bytes)) == Some(bytes),
    decreases bytes.len(),
{
    let v = encoded_values(bytes);
    if bytes.len() == 0 {
    } else if bytes.len() >= 5 {
        lemma_group_round_trip(bytes[0], bytes[1], bytes[2], bytes[3], bytes[4]);
        lemma_values_round_trip(bytes.skip(5));
        let g = encode_group(bytes[0], bytes[1], bytes[2], bytes[3], bytes[4]);
        let r = encoded_values(bytes.skip(5));
        assert(v == g + r);
        assert(v.skip(8) =~= r);
        assert forall|j: int| 0 <= j < v.len() implies v[j] < 32 by {
            if j >= 8 {
                assert(v[j] == r[j - 8]);
            }
        }
        assert(bytes =~= seq![bytes[0], bytes[1], bytes[2], bytes[3], bytes[4]] + bytes.skip(5));
    } else {
        lemma_tail_round_trip(bytes);
    }
}

/// The Base32hex text of any bytes consists of Base32hex characters only and
/// decodes back to those bytes.
pub proof fn lemma_base32hex_round_trip(bytes: Seq<u8>)
    ensures
        base32hex_decoded(base32hex(bytes).map_values(|c: char| c as u8)) == Some(bytes),
        vstd::utf8::is_ascii_chars(base32hex(bytes)),
{
    lemma_values_round_trip(bytes);
    let v = encoded_values(bytes);
    let text = base32hex(bytes).map_values(|c: char| c as u8);
    assert forall|i: int| 0 <= i < text.len() implies (#[trigger] digit_value(text[i])) == Some(v[i]) by {
        assert(v[i] < 32);
    }
    assert(all_digits(text));
    assert(text.map_values(|c: u8| digit_value(c)->0) =~= v);
    assert forall|i: int| 0 <= i < base32hex(bytes).len() implies '\0' <= #[trigger] base32hex(bytes)[i] <= '\u{7f}' by {
        assert(v[i] < 32);
    }
}


// ---------------------------------------------------------------------------
// Executable Base32hex
// ---------------------------------------------------------------------------

fn digit_for(v: u8) -> (c: char)
    requires
        v < 32,
    ensures
        c == digit_char(v),
{
    if v < 10 {
        (48 + v) as char
    } else {
        (55 + v) as char
    }
}

fn value_of(c: u8) -> (v: Option<u8>)
    ensures
        v == digit_value(c),
{
    if 48 <= c && c <= 57 {
        Some(c - 48)
    } else if 65 <= c && c <= 86 {
        Some(c - 55)
    } else {
        None
    }
}

fn push_group(values: &mut Vec<u8>, b0: u8, b1: u8, b2: u8, b3: u8, b4: u8, count: usize)
    requires
        count <= 8,
    ensures
        final(values)@ == old(values)@ + encode_group(b0, b1, b2, b3, b4).take(count as int),
{
    let g = [
        b0 >> 3u8,
        ((b0 & 7u8) << 2u8) | (b1 >> 6u8),
        (b1 >> 1u8) & 31u8,
        ((b1 & 1u8) << 4u8) | (b2 >> 4u8),
        ((b2 & 15u8) << 1u8) | (b3 >> 7u8),
        (b3 >> 2u8) & 31u8,
        ((b3 & 3u8) << 3u8) | (b4 >> 5u8),
        b4 & 31u8,
    ];
    assert(g@ =~= encode_group(b0, b1, b2, b3, b4));
    let mut j: usize = 0;
    while j < count
        invariant
            j <= count <= 8,
            g@ == encode_group(b0, b1, b2, b3, b4),
            values@ == old(values)@ + g@.take(j as int),
        decreases count - j,
    {
        values.push(g[j]);
        assert(g@.take(j + 1) =~= g@.take(j as int).push(g@[j as int]));
        j = j + 1;
    }
}

/// Base32hex text of `input`, without padding characters.
pub fn base32hex_encode(input: &[u8]) -> (text: String)
    ensures
        text@ == base32hex(input@),
{
    let mut values: Vec<u8> = Vec::new();
    let n = input.len();
    let mut i: usize = 0;
    assert(input@.skip(0) =~= input@);
    while i < n
        invariant
            i <= n == input@.len(),
            encoded_values(input@) == values@ + encoded_values(input@.skip(i as int)),
        decreases n - i,
    {
        let ghost rest = input@.skip(i as int);
        if n - i >= 5 {
            push_group(&mut values, input[i], input[i + 1], input[i + 2], input[i + 3], input[i + 4], 8);
            assert(rest.skip(5) =~= input@.skip(i + 5));
            assert(encode_group(rest[0], rest[1], rest[2], rest[3], rest[4]).take(8)
                =~= encode_group(rest[0], rest[1], rest[2], rest[3], rest[4]));
            i = i + 5;
        } else {
            let b1 = if n - i > 1 { input[i + 1] } else { 0 };
            let b2 = if n - i > 2 { input[i + 2] } else { 0 };
            let b3 = if n - i > 3 { input[i + 3] } else { 0 };
            let count: usize = if n - i == 1 { 2 } else if n - i == 2 { 4 } else if n - i == 3 { 5 } else { 7 };
            push_group(&mut values, input[i], b1, b2, b3, 0, count);
            assert(encoded_values(input@.skip(n as int)) =~= seq![]) by {
                assert(input@.skip(n as int).len() == 0);
            }
            assert(values@ =~= values@ + encoded_values(input@.skip(n as int)));
            i = n;
        }
    }
    assert(input@.skip(n as int).len() == 0);
    assert(values@ =~= encoded_values(input@));
    proof { lemma_values_round_trip(input@); }
    let mut chars: Vec<char> = Vec::new();
    let mut j: usize = 0;
    while j < values.len()
        invariant
            j <= values.len(),
            values@ == encoded_values(input@),
            forall|k: int| 0 <= k < values@.len() ==> values@[k] < 32,
            chars@ == values@.take(j as int).map_values(|v: u8| digit_char(v)),
        decreases values.len() - j,
    {
        let c = digit_for(values[j]);
        chars.push(c);
        assert(values@.take(j + 1).map_values(|v: u8| digit_char(v))
            =~= values@.take(j as int).map_values(|v: u8| digit_char(v)).push(c));
        j = j + 1;
    }
    assert(values@.take(values@.len() as int) =~= values@);
    string_from_chars(chars.as_slice())
}


/// `Some(prefix + rest)` when `rest` is present.
pub open spec fn prepend_bytes(prefix: Seq<u8>, rest: Option<Seq<u8>>) -> Option<Seq<u8>> {
    match rest {
        Some(r) => Some(prefix + r),
        None => None,
    }
}

/// The digit values of every byte of `text`.
pub open spec fn text_values(text: Seq<u8>) -> Seq<u8> {
    text.map_values(|c: u8| digit_value(c)->0)
}

fn read_group(text: &[u8], start: usize, count: usize) -> (res: Option<Vec<u8>>)
    requires
        start + count <= text@.len(),
        count <= 8,
    ensures
        res is Some <==> all_digits(text@.subrange(start as int, start + count)),
        res matches Some(v) ==> {
            &&& v@.len() == 8
            &&& forall|j: int| 0 <= j < count ==> v@[j] == digit_value(text@[start + j])->0
            &&& forall|j: int| count <= j < 8 ==> v@[j] == 0
            &&& forall|j: int| 0 <= j < 8 ==> v@[j] < 32
        },
{
    let mut v: Vec<u8> = Vec::new();
    let mut j: usize = 0;
    while j < 8
        invariant
            j <= 8,
            count <= 8,
            start + count <= text.len(),
            v@.len() == j,
            forall|k: int| 0 <= k < j && k < count ==> v@[k] == digit_value(text@[start + k])->0,
            forall|k: int| count <= k < j ==> v@[k] == 0,
            forall|k: int| 0 <= k < j ==> v@[k] < 32,
            forall|k: int| 0 <= k < j && k < count ==> (#[trigger] digit_value(text@[start + k])) is Some,
        decreases 8 - j,
    {
        if j < count {
            match value_of(text[start + j]) {
                Some(d) => v.push(d),
                None => {
                    assert(!all_digits(text@.subrange(start as int, start + count))) by {
                        assert(text@.subrange(start as int, start + count)[j as int] == text@[start + j]);
                    }
                    return None;
                },
            }
        } else {
            v.push(0);
        }
        j = j + 1;
    }
    assert(all_digits(text@.subrange(start as int, start + count))) by {
        assert forall|k: int| 0 <= k < count implies (#[trigger] digit_value(text@.subrange(start as int, start + count)[k])) is Some by {
            assert(text@.subrange(start as int, start + count)[k] == text@[start + k]);
        }
    }
    Some(v)
}

fn push_bytes(out: &mut Vec<u8>, v: &Vec<u8>, count: usize)
    requires
        v@.len() == 8,
        count <= 5,
    ensures
        final(out)@ == old(out)@ + decode_group(v@[0], v@[1], v@[2], v@[3], v@[4], v@[5], v@[6], v@[7]).take(count as int),
{
    let g = [
        (v[0] << 3u8) | (v[1] >> 2u8),
        (v[1] << 6u8) | (v[2] << 1u8) | (v[3] >> 4u8),
        (v[3] << 4u8) | (v[4] >> 1u8),
        (v[4] << 7u8) | (v[5] << 2u8) | (v[6] >> 3u8),
        (v[6] << 5u8) | v[7],
    ];
    assert(g@ =~= decode_group(v@[0], v@[1], v@[2], v@[3], v@[4], v@[5], v@[6], v@[7]));
    let mut j: usize = 0;
    while j < count
        invariant
            j <= count <= 5,
            g@ == decode_group(v@[0], v@[1], v@[2], v@[3], v@[4], v@[5], v@[6], v@[7]),
            out@ == old(out)@ + g@.take(j as int),
        decreases count - j,
    {
        out.push(g[j]);
        assert(g@.take(j + 1) =~= g@.take(j as int).push(g@[j as int]));
        j = j + 1;
    }
}

fn padding_is_zero(v: &Vec<u8>, k: usize) -> (ok: bool)
    requires
        v@.len() == 8,
        1 <= k <= 7,
    ensures
        ok == zero_padding(v@, k as int),
{
    if k == 1 {
        v[0] == 0
    } else if k == 2 {
        v[1] & 3u8 == 0
    } else if k == 3 {
        v[1] & 3u8 == 0 && v[2] == 0
    } else if k == 4 {
        v[3] & 15u8 == 0
    } else if k == 5 {
        v[4] & 1u8 == 0
    } else if k == 6 {
        v[4] & 1u8 == 0 && v[5] == 0
    } else {
        v[6] & 7u8 == 0
    }
}

/// The bytes of Base32hex `text`; `None` for a character outside the
/// alphabet or non-zero padding bits.
pub fn base32hex_decode(text: &[u8]) -> (res: Option<Vec<u8>>)
    ensures
        res matches Some(b) ==> base32hex_decoded(text@) == Some(b@),
        res is None ==> base32hex_decoded(text@) is None,
{
    let ghost vals = text_values(text@);
    let n = text.len();
    let mut out: Vec<u8> = Vec::new();
    let mut i: usize = 0;
    assert(vals.skip(0) =~= vals);
    while i < n
        invariant
            i <= n == text@.len(),
            vals == text_values(text@),
            vals.len() == n,
            all_digits(text@.take(i as int)),
            decoded_values(vals) == prepend_bytes(out@, decoded_values(vals.skip(i as int))),
        decreases n - i,
    {
        let ghost rest = vals.skip(i as int);
        let count: usize = if n - i >= 8 { 8 } else { n - i };
        let group = read_group(text, i, count);
        match group {
            None => {
                assert(!all_digits(text@)) by {
                    let sub = text@.subrange(i as int, i + count);
                    let k = choose|k: int| 0 <= k < sub.len() && !(#[trigger] digit_value(sub[k]) is Some);
                    assert(sub[k] == text@[i + k]);
                }
                return None;
            },
            Some(v) => {
                assert forall|j: int| 0 <= j < count implies #[trigger] rest[j] == v@[j] by {
                    assert(rest[j] == vals[i + j]);
                }
                assert(all_digits(text@.take(i + count))) by {
                    assert forall|k: int| 0 <= k < i + count implies (#[trigger] digit_value(text@.take(i + count)[k])) is Some by {
                        if k < i {
                            assert(text@.take(i as int)[k] == text@[k]);
                        } else {
                            assert(text@.subrange(i as int, i + count)[k - i] == text@[k]);
                        }
                    }
                }
                if count == 8 {
                    push_bytes(&mut out, &v, 5);
                    assert(rest.skip(8) =~= vals.skip(i + 8));
                    assert(decode_group(v@[0], v@[1], v@[2], v@[3], v@[4], v@[5], v@[6], v@[7]).take(5)
                        =~= decode_group(v@[0], v@[1], v@[2], v@[3], v@[4], v@[5], v@[6], v@[7]));
                    assert(decoded_values(rest) == prepend_bytes(
                        decode_group(v@[0], v@[1], v@[2], v@[3], v@[4], v@[5], v@[6], v@[7]),
                        decoded_values(vals.skip(i + 8)),
                    ));
                    i = i + 8;
                } else {
                    if !padding_is_zero(&v, count) {
                        assert(!zero_padding(rest, count as int)) by {
                            assert(v@.subrange(0, count as int) =~= rest.subrange(0, count as int));
                        }
                        assert(decoded_values(rest) is None);
                        assert(all_digits(text@)) by {
                            assert(text@.take(n as int) =~= text@);
                        }
                        return None;
                    }
                    assert(zero_padding(rest, count as int));
                    let nbytes: usize = if count <= 1 { 0 } else if count <= 3 { 1 } else if count == 4 { 2 } else if count <= 6 { 3 } else { 4 };
                    push_bytes(&mut out, &v, nbytes);
                    assert(decode_group(v@[0], v@[1], v@[2], v@[3], v@[4], v@[5], v@[6], v@[7]).take(nbytes as int)
                        =~= decode_group(
                            rest[0],
                            byte_or_zero(rest, 1),
                            byte_or_zero(rest, 2),
                            byte_or_zero(rest, 3),
                            byte_or_zero(rest, 4),
                            byte_or_zero(rest, 5),
                            byte_or_zero(rest, 6),
                            0,
                        ).take(tail_byte_count(count as int)));
                    assert(vals.skip(n as int).len() == 0);
                    assert(decoded_values(vals.skip(n as int)) == Some(Seq::<u8>::empty()));
                    assert(out@ + Seq::<u8>::empty() =~= out@);
                    i = n;
                }
            },
        }
    }
    assert(text@.take(n as int) =~= text@);
    assert(vals.skip(n as int).len() == 0);
    assert(out@ + Seq::<u8>::empty() =~= out@);
    Some(out)
}


// ---------------------------------------------------------------------------
// Header
// ---------------------------------------------------------------------------

/// The four four-bit fields that open every by-square payload.
#[derive(Clone, Copy, Debug, PartialEq, Eq, Structural)]
pub struct Header {
    pub by_square_type: u8,
    pub version: u8,
    pub document_type: u8,
    pub reserved: u8,
}

/// The header of PAY by square: every field zero.
pub open spec fn pay_header() -> Header {
    Header { by_square_type: 0, version: 0, document_type: 0, reserved: 0 }
}

impl Header {
    /// The PAY by square header `0/0/0/0`.
    pub fn pay() -> (h: Header)
        ensures
            h == pay_header(),
    {
        Header { by_square_type: 0, version: 0, document_type: 0, reserved: 0 }
    }

    /// Whether every field fits in four bits.
    pub open spec fn fits(self) -> bool {
        self.by_square_type <= 15 && self.version <= 15 && self.document_type <= 15
            && self.reserved <= 15
    }

    /// The two big-endian header bytes of a header whose fields fit.
    pub open spec fn packed(self) -> Seq<u8> {
        seq![
            (self.by_square_type * 16 + self.version) as u8,
            (self.document_type * 16 + self.reserved) as u8,
        ]
    }

    /// The header that two bytes hold.
    pub open spec fn unpacked(b0: u8, b1: u8) -> Header {
        Header {
            by_square_type: b0 / 16,
            version: b0 % 16,
            document_type: b1 / 16,
            reserved: b1 % 16,
        }
    }

    fn to_bytes(self) -> (res: Result<(u8, u8)>)
        ensures
            self.fits() ==> (res matches Ok((b0, b1)) && seq![b0, b1] == self.packed()),
            !self.fits() ==> res matches Err(Error::InvalidPayload(_)),
    {
        if self.by_square_type > 15 {
            return Err(Error::InvalidPayload(text("by square type value does not fit in four bits")));
        }
        if self.version > 15 {
            return Err(Error::InvalidPayload(text("version value does not fit in four bits")));
        }
        if self.document_type > 15 {
            return Err(Error::InvalidPayload(text("document type value does not fit in four bits")));
        }
        if self.reserved > 15 {
            return Err(Error::InvalidPayload(text("reserved value does not fit in four bits")));
        }
        Ok((self.by_square_type * 16 + self.version, self.document_type * 16 + self.reserved))
    }

    fn from_bytes(b0: u8, b1: u8) -> (h: Header)
        ensures
            h == Header::unpacked(b0, b1),
            h.fits(),
    {
        Header { by_square_type: b0 / 16, version: b0 % 16, document_type: b1 / 16, reserved: b1 % 16 }
    }
}

/// Reading back the packed bytes of a header whose fields fit gives the header.
pub proof fn lemma_header_round_trip(header: Header)
    requires
        header.fits(),
    ensures
        Header::unpacked(header.packed()[0], header.packed()[1]) == header,
{
}

// ---------------------------------------------------------------------------
// Payload envelope
// ---------------------------------------------------------------------------

/// Largest uncompressed payload that the 16-bit length field can declare.
pub const MAX_UNCOMPRESSED_BYTES: usize = 65535;

/// The raw LZMA1 configuration of the by-square specification: preset 6 with
/// lc=3, lp=0, pb=2 and a 128 KiB dictionary.
pub open spec fn codec_settings() -> LzmaSettings {
    LzmaSettings {
        preset: 6,
        literal_context_bits: 3,
        literal_position_bits: 0,
        position_bits: 2,
        dictionary_size: 131072,
    }
}

fn settings() -> (s: LzmaSettings)
    ensures
        s == codec_settings(),
{
    LzmaSettings {
        preset: 6,
        literal_context_bits: 3,
        literal_position_bits: 0,
        position_bits: 2,
        dictionary_size: 131072,
    }
}

/// Little-endian bytes of a 32-bit value.
pub open spec fn le32(v: u32) -> Seq<u8> {
    seq![(v % 256) as u8, ((v / 256) % 256) as u8, ((v / 65536) % 256) as u8, (v / 16777216) as u8]
}

/// The 32-bit value of four little-endian bytes.
pub open spec fn from_le32(b: Seq<u8>) -> u32 {
    (b[0] + 256 * b[1] + 65536 * b[2] + 16777216 * b[3]) as u32
}

/// CRC32 of the UTF-8 sequence followed by that sequence.
pub open spec fn uncompressed_payload(sequence: Seq<char>) -> Seq<u8> {
    le32(crc32_of(encode_utf8(sequence))) + encode_utf8(sequence)
}

/// The compressed stream of an uncompressed payload.
pub open spec fn compressed(uncompressed: Seq<u8>) -> Seq<u8> {
    lzma_raw_encoded(6, 3, 0, 2, 131072, uncompressed)
}

/// Header, little-endian uncompressed length and compressed stream.
pub open spec fn payload_bytes(header: Header, sequence: Seq<char>) -> Seq<u8> {
    let u = uncompressed_payload(sequence);
    header.packed() + seq![(u.len() % 256) as u8, (u.len() / 256) as u8] + compressed(u)
}

/// What decoding the raw LZMA stream `input` reports when `capacity` bytes of
/// output are available.
pub open spec fn decompressed(input: Seq<u8>, capacity: nat) -> Option<(bool, u64, u64, Seq<u8>)> {
    lzma_raw_decoded(6, 3, 0, 2, 131072, input, capacity)
}

/// The header and sequence that payload bytes carry, or `None` when the
/// envelope, the LZMA stream, the CRC32 or the UTF-8 is invalid.
pub open spec fn envelope_decoded(payload: Seq<u8>) -> Option<(Header, Seq<char>)> {
    if payload.len() < 5 {
        None
    } else {
        let header = Header::unpacked(payload[0], payload[1]);
        let length = payload[2] + 256 * payload[3];
        if length < 4 {
            None
        } else {
            match decompressed(payload.skip(4), (length + 1) as nat) {
                None => None,
                Some((end, consumed, produced, output)) => {
                    if end && consumed != payload.len() - 4 {
                        None
                    } else if produced != length {
                        None
                    } else {
                        let u = output.take(length);
                        let body = u.skip(4);
                        if from_le32(u) != crc32_of(body) {
                            None
                        } else if !valid_utf8(body) {
                            None
                        } else {
                            Some((header, decode_utf8(body)))
                        }
                    }
                },
            }
        }
    }
}

/// The header and sequence that Base32hex payload text carries.
pub open spec fn payload_decoded(text: Seq<char>) -> Option<(Header, Seq<char>)> {
    match base32hex_decoded(encode_utf8(text)) {
        None => None,
        Some(payload) => envelope_decoded(payload),
    }
}

/// Why payload text does not decode, by the first check it fails.
#[derive(Clone, Copy, Debug, PartialEq, Eq, Structural)]
pub enum PayloadFault {
    /// A character outside Base32hex, or non-zero padding bits.
    Alphabet,
    /// Fewer than five bytes: no room for the header, length and stream.
    Short,
    /// A declared uncompressed length that cannot hold the CRC32.
    DeclaredLength,
    /// `liblzma` rejects the compressed stream.
    Stream,
    /// The stream ends before the last compressed byte.
    Trailing,
    /// The stream decodes to another length than the declared one.
    LengthMismatch,
    /// The CRC32 differs from that of the sequence.
    Checksum,
    /// The sequence is not UTF-8.
    Utf8,
}

/// The first check that payload bytes fail, in the order in which they are
/// made; `None` when they carry a header and sequence.
pub open spec fn envelope_fault(payload: Seq<u8>) -> Option<PayloadFault> {
    if payload.len() < 5 {
        Some(PayloadFault::Short)
    } else {
        let length = payload[2] + 256 * payload[3];
        if length < 4 {
            Some(PayloadFault::DeclaredLength)
        } else {
            match decompressed(payload.skip(4), (length + 1) as nat) {
                None => Some(PayloadFault::Stream),
                Some((end, consumed, produced, output)) => {
                    if end && consumed != payload.len() - 4 {
                        Some(PayloadFault::Trailing)
                    } else if produced != length {
                        Some(PayloadFault::LengthMismatch)
                    } else {
                        let u = output.take(length);
                        let body = u.skip(4);
                        if from_le32(u) != crc32_of(body) {
                            Some(PayloadFault::Checksum)
                        } else if !valid_utf8(body) {
                            Some(PayloadFault::Utf8)
                        } else {
                            None
                        }
                    }
                },
            }
        }
    }
}

/// The first check that Base32hex payload text fails.
pub open spec fn payload_fault(text: Seq<char>) -> Option<PayloadFault> {
    match base32hex_decoded(encode_utf8(text)) {
        None => Some(PayloadFault::Alphabet),
        Some(payload) => envelope_fault(payload),
    }
}

/// The error reported for a fault: the envelope and alphabet faults are
/// invalid payloads, a rejected stream a compression error, a wrong CRC32 a
/// checksum mismatch and bad UTF-8 a UTF-8 error.
pub open spec fn fault_error(f: PayloadFault, e: Error) -> bool {
    match f {
        PayloadFault::Stream => e is Compression,
        PayloadFault::Checksum => e is ChecksumMismatch,
        PayloadFault::Utf8 => e is Utf8,
        _ => e is InvalidPayload,
    }
}

/// Payload text decodes exactly when it fails no check.
pub proof fn lemma_fault_decoded(text: Seq<char>)
    ensures
        payload_fault(text) is None <==> payload_decoded(text) is Some,
{
}

/// A decoded envelope: the header and the uncompressed sequence.
#[derive(Debug)]
pub struct DecodedPayload {
    pub header: Header,
    pub sequence: String,
}

fn push_all(out: &mut Vec<u8>, bytes: &[u8])
    ensures
        final(out)@ == old(out)@ + bytes@,
{
    let mut i: usize = 0;
    while i < bytes.len()
        invariant
            i <= bytes.len(),
            out@ == old(out)@ + bytes@.take(i as int),
        decreases bytes.len() - i,
    {
        out.push(bytes[i]);
        assert(bytes@.take(i + 1) =~= bytes@.take(i as int).push(bytes@[i as int]));
        i = i + 1;
    }
    assert(bytes@.take(bytes.len() as int) =~= bytes@);
}

fn push_le32(out: &mut Vec<u8>, v: u32)
    ensures
        final(out)@ == old(out)@ + le32(v),
{
    out.push((v % 256) as u8);
    out.push(((v / 256) % 256) as u8);
    out.push(((v / 65536) % 256) as u8);
    out.push((v / 16777216) as u8);
    assert(final(out)@ =~= old(out)@ + le32(v));
}

proof fn lemma_le32_round_trip(v: u32)
    ensures
        from_le32(le32(v)) == v,
{
}

proof fn lemma_envelope_round_trip(header: Header, sequence: Seq<char>)
    requires
        header.fits(),
        uncompressed_payload(sequence).len() <= MAX_UNCOMPRESSED_BYTES,
        0 < compressed(uncompressed_payload(sequence)).len() <= usize::MAX,
        decompressed(
            compressed(uncompressed_payload(sequence)),
            (uncompressed_payload(sequence).len() + 1) as nat,
        ) == Some((
            true,
            compressed(uncompressed_payload(sequence)).len() as u64,
            uncompressed_payload(sequence).len() as u64,
            uncompressed_payload(sequence).push(0u8),
        )),
    ensures
        envelope_decoded(payload_bytes(header, sequence)) == Some((header, sequence)),
{
    let u = uncompressed_payload(sequence);
    let packed = compressed(u);
    let payload = payload_bytes(header, sequence);
    let checksum = crc32_of(encode_utf8(sequence));
    assert(payload.skip(4) =~= packed);
    assert(payload[0] == header.packed()[0] && payload[1] == header.packed()[1]);
    lemma_header_round_trip(header);
    let length = payload[2] + 256 * payload[3];
    assert(length == u.len());
    assert(u.push(0u8).take(length) =~= u);
    assert(u.skip(4) =~= encode_utf8(sequence));
    assert(from_le32(u) == from_le32(le32(checksum))) by {
        assert(u[0] == le32(checksum)[0]);
        assert(u[1] == le32(checksum)[1]);
        assert(u[2] == le32(checksum)[2]);
        assert(u[3] == le32(checksum)[3]);
    }
    lemma_le32_round_trip(checksum);
    vstd::utf8::encode_utf8_valid_utf8(sequence);
    vstd::utf8::encode_utf8_decode_utf8(sequence);
    assert(payload.len() >= 5);
    assert(payload.len() - 4 == packed.len());
    assert(decompressed(payload.skip(4), (length + 1) as nat) == Some((true, packed.len() as u64, u.len() as u64, u.push(0u8))));
}

/// Encode a header and an uncompressed sequence into Base32hex payload text.
///
/// The payload decodes back to the same header and sequence.
pub fn encode_payload(header: Header, sequence: &str) -> (res: Result<String>)
    ensures
        uncompressed_payload(sequence@).len() > MAX_UNCOMPRESSED_BYTES <==> res matches Err(
            Error::PayloadTooLong(_),
        ),
        res matches Err(Error::PayloadTooLong(n)) ==> n == uncompressed_payload(sequence@).len(),
        res matches Ok(t) ==> {
            &&& header.fits()
            &&& uncompressed_payload(sequence@).len() <= MAX_UNCOMPRESSED_BYTES
            &&& t@ == base32hex(payload_bytes(header, sequence@))
            &&& payload_decoded(t@) == Some((header, sequence@))
        },
        header.fits() && uncompressed_payload(sequence@).len() <= MAX_UNCOMPRESSED_BYTES
            ==> res is Ok,
        res matches Err(e) ==> e is PayloadTooLong || (e is InvalidPayload && !header.fits()),
{
    let bytes = sequence.as_bytes();
    let checksum = crc32(bytes);
    let mut uncompressed: Vec<u8> = Vec::new();
    push_le32(&mut uncompressed, checksum);
    push_all(&mut uncompressed, bytes);
    assert(uncompressed@ == uncompressed_payload(sequence@));
    let length = uncompressed.len();
    if length > MAX_UNCOMPRESSED_BYTES {
        return Err(Error::PayloadTooLong(length));
    }
    let cfg = settings();
    let compressed_result = lzma_compress(cfg, uncompressed.as_slice());
    let packed = match compressed_result {
        Ok(c) => c,
        Err(message) => return Err(Error::Compression(message)),
    };
    assert(lzma_raw_decoded(6, 3, 0, 2, 131072, packed@, uncompressed@.len() + 1) == Some((
        true,
        packed@.len() as u64,
        uncompressed@.len() as u64,
        uncompressed@.push(0u8),
    )));
    let packed_length = packed.len();
    let (h0, h1) = header.to_bytes()?;
    let mut payload: Vec<u8> = Vec::new();
    payload.push(h0);
    payload.push(h1);
    payload.push((length % 256) as u8);
    payload.push((length / 256) as u8);
    push_all(&mut payload, packed.as_slice());
    assert(payload@ =~= payload_bytes(header, sequence@));
    let encoded = base32hex_encode(payload.as_slice());
    proof {
        assert(packed@ == compressed(uncompressed@));
        assert(packed@.len() <= usize::MAX);
        assert(decompressed(packed@, (uncompressed@.len() + 1) as nat) == Some((
            true,
            packed@.len() as u64,
            uncompressed@.len() as u64,
            uncompressed@.push(0u8),
        )));
        lemma_envelope_round_trip(header, sequence@);
        lemma_base32hex_round_trip(payload@);
        let chars = base32hex(payload@);
        vstd::utf8::is_ascii_chars_encode_utf8(chars);
        assert(encode_utf8(chars) =~= chars.map_values(|c: char| c as u8));
    }
    Ok(encoded)
}

/// Decode Base32hex payload text into its header and sequence.
pub fn decode_payload(encoded: &str) -> (res: Result<DecodedPayload>)
    ensures
        res matches Ok(d) ==> payload_decoded(encoded@) == Some((d.header, d.sequence@)),
        res is Ok <==> payload_decoded(encoded@) is Some,
        res is Ok <==> payload_fault(encoded@) is None,
        res matches Err(e) ==> (payload_fault(encoded@) matches Some(f) && fault_error(f, e)),
{
    let payload = match base32hex_decode(encoded.as_bytes()) {
        Some(p) => p,
        None => return Err(Error::InvalidPayload(text("invalid Base32hex text"))),
    };
    if payload.len() < 5 {
        return Err(Error::InvalidPayload(text("payload is shorter than its four-byte header")));
    }
    let header = Header::from_bytes(payload[0], payload[1]);
    let length: usize = payload[2] as usize + 256 * (payload[3] as usize);
    if length < 4 {
        return Err(Error::InvalidPayload(text("declared uncompressed length cannot contain CRC32")));
    }
    let mut input: Vec<u8> = Vec::new();
    let mut i: usize = 4;
    while i < payload.len()
        invariant
            4 <= i <= payload.len(),
            input@ == payload@.subrange(4, i as int),
        decreases payload.len() - i,
    {
        input.push(payload[i]);
        assert(payload@.subrange(4, i + 1) =~= payload@.subrange(4, i as int).push(payload@[i as int]));
        i = i + 1;
    }
    assert(input@ =~= payload@.skip(4));
    let decoded = match lzma_decompress(settings(), input.as_slice(), length + 1) {
        Ok(d) => d,
        Err(message) => return Err(Error::Compression(message)),
    };
    if decoded.stream_end && decoded.consumed != input.len() as u64 {
        return Err(Error::InvalidPayload(text("compressed stream contains trailing bytes")));
    }
    if decoded.produced != length as u64 {
        return Err(Error::InvalidPayload(text("declared uncompressed length differs from the decoded length")));
    }
    let expected = (decoded.output[0] as u32) + 256 * (decoded.output[1] as u32) + 65536
        * (decoded.output[2] as u32) + 16777216 * (decoded.output[3] as u32);
    let mut body: Vec<u8> = Vec::new();
    let mut j: usize = 4;
    while j < length
        invariant
            4 <= j <= length <= decoded.output@.len(),
            body@ == decoded.output@.subrange(4, j as int),
        decreases length - j,
    {
        body.push(decoded.output[j]);
        assert(decoded.output@.subrange(4, j + 1) =~= decoded.output@.subrange(4, j as int).push(decoded.output@[j as int]));
        j = j + 1;
    }
    assert(body@ =~= decoded.output@.take(length as int).skip(4));
    let actual = crc32(body.as_slice());
    if expected != actual {
        return Err(Error::ChecksumMismatch { expected, actual });
    }
    match string_from_utf8(body) {
        Ok(sequence) => Ok(DecodedPayload { header, sequence }),
        Err(message) => Err(Error::Utf8(message)),
    }
}

} // verus!
