//! The public memory addresses of a run, as the prover input lists them.
use vstd::prelude::*;

verus! {

/// A memory address: a segment and an offset in it.
#[derive(Clone, Copy, Debug, PartialEq, Eq, Structural)]
pub struct Relocatable {
    pub segment_index: usize,
    pub offset: u32,
}

/// The addresses of one segment's public memory offsets, in order; each
/// offset is cut to its low 32 bits (`as u32`).
pub open spec fn segment_addresses(segment_index: usize, offsets: Seq<usize>) -> Seq<Relocatable> {
    Seq::new(
        offsets.len(),
        |i: int| Relocatable { segment_index, offset: (offsets[i] as int % 0x1_0000_0000) as u32 },
    )
}

/// The addresses of the first `n` segments' public memory offsets, segment
/// after segment.
pub open spec fn public_addresses(segments: Seq<(usize, Vec<usize>)>, n: nat) -> Seq<Relocatable>
    decreases n,
{
    if n == 0 {
        Seq::empty()
    } else {
        public_addresses(segments, (n - 1) as nat) + segment_addresses(
            segments[n - 1].0,
            segments[n - 1].1@,
        )
    }
}

/// Lists the public memory addresses: for each segment (in the order given,
/// which is the order of the segment indices in the prover input's map), one
/// address per public offset in that segment, in order.
pub fn public_memory_addresses(public_memory_offsets: &Vec<(usize, Vec<usize>)>) -> (r: Vec<
    Relocatable,
>)
    ensures
        r@ == public_addresses(public_memory_offsets@, public_memory_offsets@.len()),
{
    let mut r: Vec<Relocatable> = Vec::new();
    let mut s: usize = 0;
    while s < public_memory_offsets.len()
        invariant
            s <= public_memory_offsets@.len(),
            r@ == public_addresses(public_memory_offsets@, s as nat),
        decreases public_memory_offsets@.len() - s,
    {
        let segment_index = public_memory_offsets[s].0;
        let offsets = &public_memory_offsets[s].1;
        let ghost before = r@;
        let mut i: usize = 0;
        while i < offsets.len()
            invariant
                i <= offsets@.len(),
                offsets@ == public_memory_offsets@[s as int].1@,
                segment_index == public_memory_offsets@[s as int].0,
                r@ == before + segment_addresses(segment_index, offsets@).take(i as int),
            decreases offsets@.len() - i,
        {
            let o = offsets[i];
            let offset = #[verifier::truncate] (o as u32);
            proof {
                assert(#[verifier::truncate] (o as u32) as u64 == (o as u64) % 0x1_0000_0000)
                    by (bit_vector);
            }
            r.push(Relocatable { segment_index, offset });
            assert(segment_addresses(segment_index, offsets@).take(i + 1) =~= segment_addresses(
                segment_index,
                offsets@,
            ).take(i as int).push(Relocatable { segment_index, offset }));
            i = i + 1;
        }
        assert(segment_addresses(segment_index, offsets@).take(offsets@.len() as int)
            =~= segment_addresses(segment_index, offsets@));
        s = s + 1;
    }
    r
}

} // verus!
