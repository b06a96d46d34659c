use memory_id_to_big::claim::ClaimGenerator;
use memory_id_to_big::interaction::{
    gen_big_memory_interaction_lookups, gen_small_memory_interaction_lookups, Relation,
};
use memory_id_to_big::memory::{EncodedMemoryValueId, Memory, MemoryValueId, P};

fn memory() -> Memory {
    Memory {
        f252_values: (0..32u32).map(|i| [i, 1, 2, 3, 4, 5, 6, 7]).collect(),
        small_values: (0..16u128).map(|v| v * 7).collect(),
        relocatable_values: vec![[1, 2], [3, 4]],
    }
}

#[test]
fn interaction_lookups_yield_ids_and_limbs() {
    let mut g = ClaimGenerator::new(&memory());
    g.add_inputs(&[3, 3, 0x4000_0005, 0x4000_0000 + 20, 0x2000_0001]);
    let out = g.write_trace(4);
    assert_eq!(out.big_traces.len(), 2);
    let ic = &out.interaction_claim_generator;
    let l = ic.interaction_lookups();
    // Small table: four range-check pairs, then the yield.
    assert_eq!(l.small.columns.len(), 5);
    assert_eq!(l.small.log_size, 4);
    assert_eq!(l.small.columns[0].relation, Relation::RangeCheck99);
    assert_eq!(l.small.columns[3].relation, Relation::RangeCheck99D);
    let y = &l.small.columns[4];
    assert_eq!(y.relation, Relation::MemoryIdToBig);
    assert_eq!(y.values.len(), 9);
    assert_eq!(y.values[0][0][3], 3);
    assert_eq!(y.values[1][0][3], 21);
    assert_eq!(y.numerators[0][3], P - 2);
    assert_eq!(y.numerators[0][4], 0);
    // Relocatable ids get the relocatable tag.
    let r = &l.relocatable.columns[4];
    assert_eq!(r.values[0][0][1], 0x2000_0001);
    assert_eq!(EncodedMemoryValueId(r.values[0][0][1]).decode(), MemoryValueId::MemoryRelocatable(1));
    assert!(l.relocatable.columns[..4].iter().all(|c| c.relation == Relation::RangeCheck99));
    // Large tables: one per 16 values; the second starts at id 16.
    assert_eq!(l.big.len(), 2);
    assert_eq!(l.big[0].columns.len(), 15);
    assert_eq!(l.big[0].columns[14].values[0][0][5], 0x4000_0005);
    assert_eq!(l.big[1].columns[14].values[0][0][4], 0x4000_0000 + 20);
    assert_eq!(
        EncodedMemoryValueId(l.big[1].columns[14].values[0][0][4]).decode(),
        MemoryValueId::F252(20)
    );
    assert_eq!(l.big[1].columns[14].values[1][0][4], 20);
    assert_eq!(l.big[0].columns[2].relation, Relation::RangeCheck99C);
    assert_eq!(l.big[0].columns[13].relation, Relation::RangeCheck99F);
}

#[test]
fn big_lookups_pair_limbs_into_range_checks() {
    let limbs: Vec<Vec<[u32; 16]>> = (0..28u32).map(|j| vec![[j; 16]]).collect();
    let ids = vec![[0u32; 16]];
    let mults = vec![[1u32; 16]];
    let t = gen_big_memory_interaction_lookups(&limbs, &ids, &mults, 48);
    assert_eq!(t.columns.len(), 15);
    for i in 0..7 {
        assert_eq!(t.columns[2 * i].values[0], vec![[4 * i as u32; 16]]);
        assert_eq!(t.columns[2 * i + 1].values[1], vec![[4 * i as u32 + 3; 16]]);
        assert_eq!(t.columns[2 * i].numerators, vec![[1u32; 16]]);
    }
    assert_eq!(t.columns[14].values[0][0][0], 0x4000_0000 + 48);
    assert_eq!(t.columns[14].numerators[0][0], P - 1);
}

#[test]
fn small_lookups_cover_a_power_of_two_of_rows() {
    let limbs: Vec<Vec<[u32; 16]>> = (0..8u32).map(|j| vec![[j; 16]; 3]).collect();
    let ids = vec![[5u32; 16]; 3];
    let mults = vec![[2u32; 16]; 3];
    let t = gen_small_memory_interaction_lookups(&limbs, &ids, &mults);
    assert_eq!(t.log_size, 5);
    assert_eq!(t.columns[4].values[0].len(), 2);
    assert_eq!(t.columns[1].relation, Relation::RangeCheck99B);
}
