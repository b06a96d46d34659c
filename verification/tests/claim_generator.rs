use memory_id_to_big::claim::ClaimGenerator;
use memory_id_to_big::felt::{split_f252, u128_to_4_limbs};
use memory_id_to_big::memory::Memory;

fn memory() -> Memory {
    Memory {
        f252_values: vec![[1, 2, 3, 4, 5, 6, 7, 8], [0xffff_ffff, 1, 0, 0, 0, 0, 0, 9]],
        small_values: vec![10, 20, 30],
        relocatable_values: vec![[2, 7]],
    }
}

fn small_limbs(x: u128) -> [u32; 28] {
    let l = u128_to_4_limbs(x);
    split_f252([l[0], l[1], l[2], l[3], 0, 0, 0, 0])
}

#[test]
fn deduce_output_gives_the_limbs_of_each_lane() {
    let g = ClaimGenerator::new(&memory());
    let mut ids = [1u32; 16];
    ids[0] = 0x4000_0001;
    ids[2] = 0x2000_0000;
    ids[3] = 2;
    ids[4] = 5; // padding value: zero
    ids[5] = 0x4000_0000;
    let out = g.deduce_output(&ids);
    let big1 = split_f252([0xffff_ffff, 1, 0, 0, 0, 0, 0, 9]);
    let big0 = split_f252([1, 2, 3, 4, 5, 6, 7, 8]);
    let small20 = small_limbs(20);
    let small30 = small_limbs(30);
    let reloc = split_f252([7, 2, 0, 0, 0, 0, 0, 0]);
    for k in 0..28 {
        assert_eq!(out.value[k][0], big1[k]);
        assert_eq!(out.value[k][1], small20[k]);
        assert_eq!(out.value[k][2], reloc[k]);
        assert_eq!(out.value[k][3], small30[k]);
        assert_eq!(out.value[k][4], 0);
        assert_eq!(out.value[k][5], big0[k]);
    }
    assert_eq!(out.value[0][2], 7);
    assert_eq!(out.value[3][2], 64);
}

#[test]
fn write_trace_counts_lookups() {
    let mut g = ClaimGenerator::new(&memory());
    g.add_inputs(&[1, 1, 0x4000_0001, 0x2000_0000]);
    let out = g.write_trace(4);
    assert_eq!(out.big_traces.len(), 1);
    assert_eq!(out.claim.big_log_sizes, vec![0]);
    assert_eq!(out.claim.small_log_size, 4);
    assert_eq!(out.claim.relocatable_log_size, 4);
    let mut small_mults = [0u32; 16];
    small_mults[1] = 2;
    assert_eq!(out.small_trace[9].data, vec![small_mults]);
    let mut big_mults = [0u32; 16];
    big_mults[1] = 1;
    assert_eq!(out.big_traces[0][29].data, vec![big_mults]);
    let mut reloc_mults = [0u32; 16];
    reloc_mults[0] = 1;
    assert_eq!(out.relocatable_trace[9].data, vec![reloc_mults]);
    // The padding values are zero.
    assert_eq!(out.small_trace[0].data[0][5], 0);
    assert_eq!(out.small_trace[0].data[0][2], small_limbs(30)[0]);
}

#[test]
fn write_trace_sends_every_limb_pair_to_a_range_check() {
    let mut g = ClaimGenerator::new(&memory());
    g.add_inputs(&[1, 0x4000_0001, 0x2000_0000]);
    let out = g.write_trace(4);
    let r = &out.range_check_inputs;
    assert_eq!(r.len(), 8);
    let sizes: Vec<usize> = r.iter().map(|v| v.len()).collect();
    assert_eq!(sizes, vec![7, 3, 3, 3, 2, 2, 1, 1]);
    for list in r {
        for (a, b) in list {
            assert!(a.iter().chain(b.iter()).all(|v| *v < 512));
        }
    }
    // Check 1 gets limbs 2 and 3 of the large values first.
    assert_eq!(r[1][0].0, out.big_traces[0][2].data[0]);
    assert_eq!(r[1][0].1, out.big_traces[0][3].data[0]);
}

#[test]
fn write_trace_hands_the_columns_to_the_interaction() {
    let mut g = ClaimGenerator::new(&memory());
    g.add_inputs(&[0x4000_0000, 3]);
    let out = g.write_trace(5);
    let ic = &out.interaction_claim_generator;
    assert_eq!(ic.big_components_values.len(), 1);
    assert_eq!(ic.big_components_values[0].len(), 28);
    for j in 0..28 {
        assert_eq!(ic.big_components_values[0][j], out.big_traces[0][j].data);
    }
    assert_eq!(ic.big_ids[0], out.big_traces[0][28].data);
    assert_eq!(ic.small_values.len(), 8);
    assert_eq!(ic.small_ids, out.small_trace[8].data);
    assert_eq!(ic.relocatable_multiplicities, out.relocatable_trace[9].data);
}

#[test]
fn packed_inputs_count_as_their_lanes() {
    let mut row = [1u32; 16];
    row[0] = 0x4000_0001;
    row[7] = 0x2000_0000;
    let mut a = ClaimGenerator::new(&memory());
    a.add_packed_inputs(&[row, row]);
    let mut b = ClaimGenerator::new(&memory());
    b.add_inputs(&row);
    b.add_packed_m31(&row);
    let ta = a.write_trace(4);
    let tb = b.write_trace(4);
    assert_eq!(ta.small_trace[9].data, tb.small_trace[9].data);
    assert_eq!(ta.big_traces[0][29].data, tb.big_traces[0][29].data);
    assert_eq!(ta.relocatable_trace[9].data, tb.relocatable_trace[9].data);
    assert_eq!(ta.small_trace[9].data[0][1], 28);
}

#[test]
fn lookup_counting_is_order_free() {
    let ids = [1u32, 0x4000_0001, 2, 1, 0x2000_0000, 0];
    let mut a = ClaimGenerator::new(&memory());
    a.add_inputs(&ids);
    let mut rev = ids;
    rev.reverse();
    let mut b = ClaimGenerator::new(&memory());
    b.add_inputs(&rev);
    let ta = a.write_trace(4);
    let tb = b.write_trace(4);
    assert_eq!(ta.small_trace[9].data, tb.small_trace[9].data);
    assert_eq!(ta.big_traces[0][29].data, tb.big_traces[0][29].data);
}

#[test]
fn new_pads_every_table_to_whole_rows() {
    let mem = Memory {
        f252_values: vec![[0; 8]; 17],
        small_values: vec![1; 16],
        relocatable_values: vec![],
    };
    let mut g = ClaimGenerator::new(&mem);
    g.add_inputs(&[0x4000_0000 + 31, 15]);
    let out = g.write_trace(5);
    // 17 large values are padded to 32: one table of two rows.
    assert_eq!(out.big_traces.len(), 1);
    assert_eq!(out.big_traces[0][29].data[0], [0u32; 16]);
    assert_eq!(out.relocatable_trace[8].data, vec![[0u32; 16]]);
    assert_eq!(out.small_trace[0].data[0][15], 1);
}

#[test]
fn trace_rows_answer_lookups_as_deduce_output_does() {
    let inputs = [1u32, 2, 0x4000_0001, 0x2000_0000];
    let mut g = ClaimGenerator::new(&memory());
    g.add_inputs(&inputs);
    let out = g.write_trace(4);
    let reference = ClaimGenerator::new(&memory());

    let small_ids = out.small_trace[8].data[0];
    let small = reference.deduce_output(&small_ids);
    for j in 0..8 {
        assert_eq!(out.small_trace[j].data[0], small.value[j]);
    }

    let mut reloc_ids = out.relocatable_trace[8].data[0];
    for id in reloc_ids.iter_mut() {
        *id += 0x2000_0000;
    }
    let reloc = reference.deduce_output(&reloc_ids);
    for j in 0..8 {
        assert_eq!(out.relocatable_trace[j].data[0], reloc.value[j]);
    }

    let mut big_ids = out.big_traces[0][28].data[0];
    for id in big_ids.iter_mut() {
        *id += 0x4000_0000;
    }
    let big = reference.deduce_output(&big_ids);
    for j in 0..28 {
        assert_eq!(out.big_traces[0][j].data[0], big.value[j]);
    }
    assert_eq!(big.value[0][1], 0x1ff);
}
