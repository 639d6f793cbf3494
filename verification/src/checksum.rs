//! CRC32 of the uncompressed payload, computed by `crc32fast`.

use vstd::prelude::*;

verus! {

/// One bit step of the reflected CRC32 register: shift right, and fold in
/// the reversed IEEE 802.3 polynomial `0xEDB88320` when a one leaves.
pub open spec fn crc_bit(c: u32) -> u32 {
    if c & 1 == 1 {
        (c >> 1) ^ 0xEDB88320u32
    } else {
        c >> 1
    }
}

/// The register after `n` bit steps.
pub open spec fn crc_bits(c: u32, n: nat) -> u32
    decreases n,
{
    if n == 0 {
        c
    } else {
        crc_bits(crc_bit(c), (n - 1) as nat)
    }
}

/// The register after every byte of `bytes`, starting from all ones: each
/// byte is folded into the low bits and shifted out in eight steps.
pub open spec fn crc_register(bytes: Seq<u8>) -> u32
    decreases bytes.len(),
{
    if bytes.len() == 0 {
        0xFFFF_FFFFu32
    } else {
        crc_bits(crc_register(bytes.drop_last()) ^ (bytes.last() as u32), 8)
    }
}

/// The CRC32 (IEEE 802.3, reflected, initial and final value all ones) of
/// `bytes`.
pub open spec fn crc32_of(bytes: Seq<u8>) -> u32 {
    crc_register(bytes) ^ 0xFFFF_FFFFu32
}

/// `crc32fast::hash`: the CRC32 of `bytes`, the IEEE 802.3 checksum that
/// `crc32_of` writes bit by bit (`crc32fast` computes it with tables).
#[verifier::external_body]
pub(crate) fn crc32(bytes: &[u8]) -> (res: u32)
    ensures
        res == crc32_of(bytes@),
{
    crc32fast::hash(bytes)
}

} // verus!
