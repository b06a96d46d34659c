//! Memory value ids and the part of the memory that the id -> value tables read.
use vstd::prelude::*;

verus! {

/// The M31 prime `2^31 - 1`; a trace cell holds a value below it.
pub const P: u32 = 0x7fff_ffff;

/// Upper bound on the number of memory values (and so of memory ids).
pub const MEMORY_ADDRESS_BOUND: usize = 0x800_0000;

/// Encoded ids of full-size field elements start here.
pub const LARGE_MEMORY_VALUE_ID_BASE: u32 = 0x4000_0000;

/// Encoded ids of relocatable values start here; below it are small values.
pub const RELOCATABLE_ID_BASE: u32 = 0x2000_0000;

/// The encoding of an empty memory cell.
pub const EMPTY_MEMORY_VALUE_ID: u32 = 0x8000_0000;

/// Encoded ids below this bound decode; the tag above it is not used.
pub const ENCODED_ID_BOUND: u32 = 0xc000_0000;

/// A decoded memory id: which table the value lives in, and its index there.
#[derive(Clone, Copy, Debug, PartialEq, Eq, Structural)]
pub enum MemoryValueId {
    Small(u32),
    F252(u32),
    MemoryRelocatable(u32),
    Empty,
}

/// A memory id as it is stored in a trace cell.
#[derive(Clone, Copy, Debug, PartialEq, Eq, Structural)]
pub struct EncodedMemoryValueId(pub u32);

/// The id that the encoding `x` stands for.
pub open spec fn decode_spec(x: u32) -> MemoryValueId {
    if x < RELOCATABLE_ID_BASE {
        MemoryValueId::Small(x)
    } else if x < LARGE_MEMORY_VALUE_ID_BASE {
        MemoryValueId::MemoryRelocatable((x - RELOCATABLE_ID_BASE) as u32)
    } else if x < EMPTY_MEMORY_VALUE_ID {
        MemoryValueId::F252((x - LARGE_MEMORY_VALUE_ID_BASE) as u32)
    } else {
        MemoryValueId::Empty
    }
}

/// Whether `id` can be encoded: its index fits the range of its table.
pub open spec fn encodable(id: MemoryValueId) -> bool {
    match id {
        MemoryValueId::Small(i) => i < RELOCATABLE_ID_BASE,
        MemoryValueId::MemoryRelocatable(i) => i < LARGE_MEMORY_VALUE_ID_BASE
            - RELOCATABLE_ID_BASE,
        MemoryValueId::F252(i) => i < EMPTY_MEMORY_VALUE_ID - LARGE_MEMORY_VALUE_ID_BASE,
        MemoryValueId::Empty => true,
    }
}

/// The encoding of `id`.
pub open spec fn encode_spec(id: MemoryValueId) -> u32 {
    match id {
        MemoryValueId::Small(i) => i,
        MemoryValueId::MemoryRelocatable(i) => (i + RELOCATABLE_ID_BASE) as u32,
        MemoryValueId::F252(i) => (i + LARGE_MEMORY_VALUE_ID_BASE) as u32,
        MemoryValueId::Empty => EMPTY_MEMORY_VALUE_ID,
    }
}

impl EncodedMemoryValueId {
    /// Encodes a memory id: the tag sits in the high bits, the index below.
    pub fn encode(id: MemoryValueId) -> (r: EncodedMemoryValueId)
        requires
            encodable(id),
        ensures
            r.0 == encode_spec(id),
    {
        match id {
            MemoryValueId::Small(i) => EncodedMemoryValueId(i),
            MemoryValueId::MemoryRelocatable(i) => EncodedMemoryValueId(i + RELOCATABLE_ID_BASE),
            MemoryValueId::F252(i) => {
                assert(i < 0x4000_0000 ==> i | 0x4000_0000u32 == i + 0x4000_0000) by (bit_vector);
                EncodedMemoryValueId(i | LARGE_MEMORY_VALUE_ID_BASE)
            },
            MemoryValueId::Empty => EncodedMemoryValueId(EMPTY_MEMORY_VALUE_ID),
        }
    }

    /// Decodes a memory id. The two high bits are the tag: 0 for small and
    /// relocatable values (told apart by `RELOCATABLE_ID_BASE`), 1 for full-size
    /// values, 2 for an empty cell; the tag 3 is not an id.
    pub fn decode(&self) -> (r: MemoryValueId)
        requires
            self.0 < ENCODED_ID_BOUND,
        ensures
            r == decode_spec(self.0),
    {
        let x = self.0;
        let tag = x >> 30u32;
        let val = x & 0x3fff_ffff;
        proof {
            assert(tag == 0 ==> val == x && x < 0x4000_0000) by (bit_vector)
                requires
                    tag == x >> 30u32,
                    val == x & 0x3fff_ffff,
            ;
            assert(tag == 1 ==> val == x - 0x4000_0000 && 0x4000_0000 <= x < 0x8000_0000)
                by (bit_vector)
                requires
                    tag == x >> 30u32,
                    val == x & 0x3fff_ffff,
            ;
            assert(tag == 2 ==> 0x8000_0000 <= x) by (bit_vector)
                requires
                    tag == x >> 30u32,
            ;
            assert(x < 0xc000_0000 ==> tag < 3) by (bit_vector)
                requires
                    tag == x >> 30u32,
            ;
        }
        if tag == 0 {
            if val >= RELOCATABLE_ID_BASE {
                MemoryValueId::MemoryRelocatable(val - RELOCATABLE_ID_BASE)
            } else {
                MemoryValueId::Small(val)
            }
        } else if tag == 1 {
            MemoryValueId::F252(val)
        } else {
            MemoryValueId::Empty
        }
    }
}

/// Law: the ranges of encoded ids. Ids below `2^29` name small values,
/// ids in `2^29 .. 2^30` relocatable values (index `x - 2^29`), ids in
/// `2^30 .. 2^31` full-size values (index `x - 2^30`), and `2^31` an empty
/// cell.
pub proof fn lemma_id_ranges(x: u32)
    ensures
        x < 0x2000_0000 ==> decode_spec(x) == MemoryValueId::Small(x),
        0x2000_0000 <= x < 0x4000_0000 ==> decode_spec(x) == MemoryValueId::MemoryRelocatable(
            (x - 0x2000_0000) as u32,
        ),
        0x4000_0000 <= x < 0x8000_0000 ==> decode_spec(x) == MemoryValueId::F252(
            (x - 0x4000_0000) as u32,
        ),
        x == 0x8000_0000 ==> decode_spec(x) == MemoryValueId::Empty,
{
}

/// Law: decoding an encoded id gives the id back.
pub proof fn lemma_decode_encode(id: MemoryValueId)
    requires
        encodable(id),
    ensures
        decode_spec(encode_spec(id)) == id,
{
}

/// Law: encoding a decoded id gives the encoding back, for every encoding of
/// a value (an empty cell has the one encoding `EMPTY_MEMORY_VALUE_ID`).
pub proof fn lemma_encode_decode(x: u32)
    requires
        x < EMPTY_MEMORY_VALUE_ID || x == EMPTY_MEMORY_VALUE_ID,
    ensures
        encodable(decode_spec(x)),
        encode_spec(decode_spec(x)) == x,
{
}

/// Law: an id held in a trace cell (an M31 value) never decodes to an empty cell.
pub proof fn lemma_m31_id_not_empty(x: u32)
    requires
        x < P,
    ensures
        decode_spec(x) != MemoryValueId::Empty,
        x < ENCODED_ID_BOUND,
{
}

/// The values of the memory that the id -> value tables are built from.
pub struct Memory {
    /// Full-size field elements, as eight little-endian 32-bit words each.
    pub f252_values: Vec<[u32; 8]>,
    /// Values below 2^128 (at most 72 bits are used).
    pub small_values: Vec<u128>,
    /// Relocatable values, as two 32-bit words each.
    pub relocatable_values: Vec<[u32; 2]>,
}

} // verus!
