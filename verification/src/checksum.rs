//! CRC-32 (IEEE 802.3, reflected polynomial `0xEDB88320`) over byte strings.

use vstd::prelude::*;

verus! {

/// One shift of the reflected CRC register.
pub open spec fn crc_shift(reg: u32) -> u32 {
    if reg & 1u32 == 1u32 {
        (reg >> 1u32) ^ 0xEDB8_8320u32
    } else {
        reg >> 1u32
    }
}

/// The register after one more input byte.
pub open spec fn crc_feed(reg: u32, byte: u8) -> u32 {
    let r0 = reg ^ (byte as u32);
    crc_shift(crc_shift(crc_shift(crc_shift(crc_shift(crc_shift(crc_shift(crc_shift(r0))))))))
}

/// The register after all of `bytes`, starting from all ones.
pub open spec fn crc_register(bytes: Seq<u8>) -> u32
    decreases bytes.len(),
{
    if bytes.len() == 0 {
        0xFFFF_FFFFu32
    } else {
        crc_feed(crc_register(bytes.drop_last()), bytes.last())
    }
}

/// The CRC-32 checksum of `bytes`: the final register, inverted.
pub open spec fn crc32(bytes: Seq<u8>) -> u32 {
    crc_register(bytes) ^ 0xFFFF_FFFFu32
}

fn shift(reg: u32) -> (out: u32)
    ensures
        out == crc_shift(reg),
{
    if (reg & 1u32) == 1u32 {
        (reg >> 1u32) ^ 0xEDB8_8320u32
    } else {
        reg >> 1u32
    }
}

fn feed(reg: u32, byte: u8) -> (out: u32)
    ensures
        out == crc_feed(reg, byte),
{
    let r0: u32 = reg ^ (byte as u32);
    shift(shift(shift(shift(shift(shift(shift(shift(r0))))))))
}

/// Computes the CRC-32 checksum of `bytes`.
pub fn checksum(bytes: &Vec<u8>) -> (sum: u32)
    ensures
        sum == crc32(bytes@),
{
    let mut reg: u32 = 0xFFFF_FFFFu32;
    let mut i: usize = 0;
    while i < bytes.len()
        invariant
            i <= bytes.len(),
            reg == crc_register(bytes@.subrange(0, i as int)),
        decreases bytes.len() - i,
    {
        proof {
            assert(bytes@.subrange(0, i + 1).drop_last() =~= bytes@.subrange(0, i as int));
        }
        reg = feed(reg, bytes[i]);
        i = i + 1;
    }
    proof {
        assert(bytes@.subrange(0, i as int) =~= bytes@);
    }
    reg ^ 0xFFFF_FFFFu32
}

} // verus!
