//! CRC32 (IEEE, reflected polynomial 0xEDB88320) computed with a lookup
//! table, to check that stored data was not damaged.
use vstd::prelude::*;

verus! {

/// The reflected CRC-32 polynomial.
pub const POLY: u32 = 0xEDB88320u32;

/// One bit of CRC division.
pub open spec fn crc_step(c: u32) -> u32 {
    if c & 1u32 == 1u32 {
        (c >> 1u32) ^ POLY
    } else {
        c >> 1u32
    }
}

/// Eight bits of CRC division: the contribution of one byte.
pub open spec fn crc_byte(c: u32) -> u32 {
    crc_step(crc_step(crc_step(crc_step(crc_step(crc_step(crc_step(crc_step(c))))))))
}

/// `k` bits of CRC division.
pub open spec fn crc_steps(c: u32, k: nat) -> u32
    decreases k,
{
    if k == 0 {
        c
    } else {
        crc_steps(crc_step(c), (k - 1) as nat)
    }
}

/// The CRC register after feeding `data` into register value `init`.
pub open spec fn crc_fold(init: u32, data: Seq<u8>) -> u32
    decreases data.len(),
{
    if data.len() == 0 {
        init
    } else {
        crc_byte(crc_fold(init, data.drop_last()) ^ (data.last() as u32))
    }
}

/// The CRC32 (IEEE) checksum of `data`.
#[verifier::opaque]
pub open spec fn crc32_spec(data: Seq<u8>) -> u32 {
    crc_fold(0xFFFFFFFFu32, data) ^ 0xFFFFFFFFu32
}

/// The table entry for byte value `i`.
pub open spec fn table_entry(i: int) -> u32 {
    crc_byte(i as u32)
}

proof fn lemma_crc_steps_8(c: u32)
    ensures
        crc_steps(c, 8) == crc_byte(c),
{
    reveal_with_fuel(crc_steps, 9);
}

/// The table-driven update equals feeding the byte bit by bit.
proof fn lemma_table_update(crc: u32, b: u8)
    ensures
        (crc >> 8u32) ^ crc_byte((crc ^ (b as u32)) & 0xFFu32) == crc_byte(crc ^ (b as u32)),
{
    assert((crc >> 8u32) ^ crc_byte((crc ^ (b as u32)) & 0xFFu32) == crc_byte(crc ^ (b as u32)))
        by (bit_vector);
}

/// CRC32 calculator holding its lookup table.
#[derive(Debug, Clone)]
pub struct Crc32 {
    table: Vec<u32>,
}

impl Crc32 {
    /// The table is the 256 byte contributions.
    pub closed spec fn wf(&self) -> bool {
        &&& self.table@.len() == 256
        &&& forall|i: int| 0 <= i < 256 ==> #[trigger] self.table@[i] == table_entry(i)
    }

    /// A calculator with its table built.
    pub fn new() -> (r: Self)
        ensures
            r.wf(),
    {
        Crc32 { table: Self::make_table() }
    }

    /// The 256 entries of the lookup table.
    fn make_table() -> (r: Vec<u32>)
        ensures
            r@.len() == 256,
            forall|i: int| 0 <= i < 256 ==> #[trigger] r@[i] == table_entry(i),
    {
        let mut table: Vec<u32> = Vec::new();
        let mut i: u32 = 0;
        while i < 256
            invariant
                i <= 256,
                table@.len() == i,
                forall|k: int| 0 <= k < i ==> #[trigger] table@[k] == table_entry(k),
            decreases 256 - i,
        {
            let mut crc = i;
            let mut j: u32 = 0;
            while j < 8
                invariant
                    j <= 8,
                    crc_steps(crc, (8 - j) as nat) == crc_steps(i, 8),
                decreases 8 - j,
            {
                if crc & 1 == 1 {
                    crc = (crc >> 1) ^ POLY;
                } else {
                    crc = crc >> 1;
                }
                j = j + 1;
            }
            proof {
                lemma_crc_steps_8(i);
            }
            table.push(crc);
            i = i + 1;
        }
        table
    }

    /// The CRC32 checksum of `data`.
    pub fn checksum(&self, data: &[u8]) -> (r: u32)
        requires
            self.wf(),
        ensures
            r == crc32_spec(data@),
    {
        let mut crc: u32 = 0xFFFFFFFF;
        let mut i: usize = 0;
        while i < data.len()
            invariant
                self.wf(),
                i <= data@.len(),
                crc == crc_fold(0xFFFFFFFFu32, data@.take(i as int)),
            decreases data@.len() - i,
        {
            let byte = data[i];
            let index = ((crc ^ byte as u32) & 0xFF) as usize;
            proof {
                lemma_table_update(crc, byte);
                assert(data@.take(i + 1).drop_last() =~= data@.take(i as int));
                assert(((crc ^ byte as u32) & 0xFFu32) < 256) by (bit_vector);
            }
            crc = (crc >> 8) ^ self.table[index];
            i = i + 1;
        }
        assert(data@.take(i as int) =~= data@);
        proof {
            reveal(crc32_spec);
        }
        crc ^ 0xFFFFFFFF
    }

    /// Whether `data` has checksum `expected`.
    pub fn verify(&self, data: &[u8], expected: u32) -> (r: bool)
        requires
            self.wf(),
        ensures
            r == (crc32_spec(data@) == expected),
    {
        self.checksum(data) == expected
    }
}

impl Default for Crc32 {
    fn default() -> (r: Self)
        ensures
            r.wf(),
    {
        Self::new()
    }
}

/// The CRC32 checksum of `data`.
pub fn crc32(data: &[u8]) -> (r: u32)
    ensures
        r == crc32_spec(data@),
{
    Crc32::new().checksum(data)
}

/// Whether `data` has CRC32 checksum `expected`.
pub fn verify_crc32(data: &[u8], expected: u32) -> (r: bool)
    ensures
        r == (crc32_spec(data@) == expected),
{
    crc32(data) == expected
}

} // verus!
