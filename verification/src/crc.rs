//! CRC-32 (IEEE 802.3, reflected polynomial 0xEDB88320) as used by ZIP.

use vstd::prelude::*;

verus! {

/// One bit step of the reflected CRC-32 register.
pub open spec fn crc_step(c: u32) -> u32 {
    if c & 1u32 != 0u32 { 0xEDB8_8320u32 ^ (c >> 1u32) } else { c >> 1u32 }
}

/// Eight bit steps: the register after absorbing one byte.
pub open spec fn crc_shift8(c: u32) -> u32 {
    crc_step(crc_step(crc_step(crc_step(crc_step(crc_step(crc_step(crc_step(c))))))))
}

/// `k` bit steps.
pub open spec fn crc_iter(c: u32, k: nat) -> u32
    decreases k,
{
    if k == 0 { c } else { crc_step(crc_iter(c, (k - 1) as nat)) }
}

/// The register after absorbing `data` starting from `c`.
pub open spec fn crc_fold(c: u32, data: Seq<u8>) -> u32
    decreases data.len(),
{
    if data.len() == 0 {
        c
    } else {
        crc_shift8(crc_fold(c, data.drop_last()) ^ (data.last() as u32))
    }
}

/// The CRC-32 checksum of `data`.
pub open spec fn crc32_of(data: Seq<u8>) -> u32 {
    crc_fold(0xFFFF_FFFFu32, data) ^ 0xFFFF_FFFFu32
}

/// A lookup table holding the one-byte register update of every index.
pub open spec fn is_crc_table(t: [u32; 256]) -> bool {
    forall|i: int| 0 <= i < 256 ==> #[trigger] t@[i] == crc_shift8(i as u32)
}

proof fn lemma_iter8(c: u32)
    ensures
        crc_iter(c, 8) == crc_shift8(c),
{
    reveal_with_fuel(crc_iter, 9);
}

/// The table-driven update agrees with the bitwise one.
proof fn lemma_table_update(c: u32, b: u8)
    ensures
        crc_shift8((c ^ (b as u32)) & 0xFFu32) ^ (c >> 8u32) == crc_shift8(c ^ (b as u32)),
{
    assert(crc_shift8((c ^ (b as u32)) & 0xFFu32) ^ (c >> 8u32) == crc_shift8(c ^ (b as u32)))
        by (bit_vector);
}

/// The 256-entry CRC-32 lookup table.
pub fn crc32_table() -> (t: [u32; 256])
    ensures
        is_crc_table(t),
{
    let mut table = [0u32; 256];
    let mut i: usize = 0;
    while i < 256
        invariant
            i <= 256,
            forall|k: int| 0 <= k < i ==> #[trigger] table@[k] == crc_shift8(k as u32),
        decreases 256 - i,
    {
        let mut c = i as u32;
        let mut k: usize = 0;
        while k < 8
            invariant
                k <= 8,
                i < 256,
                c == crc_iter(i as u32, k as nat),
            decreases 8 - k,
        {
            c = if c & 1 != 0 { 0xEDB8_8320 ^ (c >> 1) } else { c >> 1 };
            k = k + 1;
        }
        proof {
            lemma_iter8(i as u32);
        }
        table.set(i, c);
        i = i + 1;
    }
    table
}

/// CRC-32 of `data` using the lookup table.
pub fn crc32(table: &[u32; 256], data: &[u8]) -> (r: u32)
    requires
        is_crc_table(*table),
    ensures
        r == crc32_of(data@),
{
    let mut c = 0xFFFF_FFFFu32;
    let mut i: usize = 0;
    while i < data.len()
        invariant
            i <= data.len(),
            is_crc_table(*table),
            c == crc_fold(0xFFFF_FFFFu32, data@.take(i as int)),
        decreases data.len() - i,
    {
        let b = data[i];
        let idx = ((c ^ b as u32) & 0xFF) as usize;
        assert(((c ^ b as u32) & 0xFFu32) < 256u32) by (bit_vector);
        proof {
            lemma_table_update(c, b);
            assert(data@.take(i + 1).drop_last() == data@.take(i as int));
        }
        c = table[idx] ^ (c >> 8);
        i = i + 1;
    }
    assert(data@.take(data.len() as int) == data@);
    c ^ 0xFFFF_FFFF
}

} // verus!
