use memory_id_to_big::felt::{split_f252, u128_to_4_limbs};
use memory_id_to_big::trace::{
    gen_big_memory_traces, gen_relocatable_memory_trace, gen_single_big_memory_trace,
    gen_small_memory_trace,
};

fn big_value(e: u32) -> [u32; 8] {
    [e, e * 3, 0, 0, 0, 0, 0, e % 5]
}

#[test]
fn small_trace_keeps_looked_up_rows() {
    let values: Vec<u128> = (0..32u128).map(|v| v * 1000 + (v << 70)).collect();
    let mut row1 = [0u32; 16];
    row1[3] = 5;
    let mults = vec![[0u32; 16], row1];
    let cols = gen_small_memory_trace(values.clone(), mults);
    assert_eq!(cols.len(), 10);
    for j in 0..8 {
        assert_eq!(cols[j].length, 16);
        assert_eq!(cols[j].data.len(), 1);
        for y in 0..16 {
            let l = u128_to_4_limbs(values[16 + y]);
            let limbs = split_f252([l[0], l[1], l[2], l[3], 0, 0, 0, 0]);
            assert_eq!(cols[j].data[0][y], limbs[j]);
        }
    }
    let ids: Vec<u32> = (16..32).collect();
    assert_eq!(cols[8].data, vec![<[u32; 16]>::try_from(ids).unwrap()]);
    assert_eq!(cols[8].length, 16);
    assert_eq!(cols[9].data, vec![row1]);
}

#[test]
fn small_trace_pads_to_a_power_of_two() {
    let values: Vec<u128> = (0..48u128).collect();
    let mults = vec![[1u32; 16], [0u32; 16], [2u32; 16]];
    let cols = gen_small_memory_trace(values, mults);
    // Two kept rows: the column length is 2 packed rows.
    assert_eq!(cols[0].data.len(), 2);
    assert_eq!(cols[8].data.len(), 2);
    assert_eq!(cols[8].data[0][0], 0);
    assert_eq!(cols[8].data[1][0], 32);
    assert_eq!(cols[9].data[1], [2u32; 16]);
    assert_eq!(cols[0].data[1][5], 37);
}

#[test]
fn small_trace_of_no_lookups_is_one_zero_row() {
    let values: Vec<u128> = (0..16u128).collect();
    let cols = gen_small_memory_trace(values, vec![[0u32; 16]]);
    assert_eq!(cols.len(), 10);
    for c in &cols {
        assert_eq!(c.data, vec![[0u32; 16]]);
    }
}

#[test]
fn relocatable_trace_puts_the_second_word_first() {
    let values: Vec<[u32; 2]> = (0..16u32).map(|i| [2, 100 + i]).collect();
    let cols = gen_relocatable_memory_trace(&values, &vec![[1u32; 16]]);
    assert_eq!(cols.len(), 10);
    for y in 0..16 {
        let limbs = split_f252([100 + y as u32, 2, 0, 0, 0, 0, 0, 0]);
        for j in 0..8 {
            assert_eq!(cols[j].data[0][y], limbs[j]);
        }
    }
    assert_eq!(cols[3].data[0][0], 64);
}

#[test]
fn big_trace_of_one_looked_up_row() {
    let values: Vec<[u32; 8]> = (0..32u32).map(big_value).collect();
    let mults = vec![[7u32; 16], [0u32; 16]];
    let cols = gen_single_big_memory_trace(&values, &mults);
    assert_eq!(cols.len(), 30);
    assert_eq!(cols[0].length, 1);
    assert_eq!(cols[0].data.len(), 1);
    for y in 0..16 {
        let limbs = split_f252(values[y]);
        for j in 0..28 {
            assert_eq!(cols[j].data[0][y], limbs[j]);
        }
        assert_eq!(cols[28].data[0][y], y as u32);
    }
    assert_eq!(cols[28].length, 16);
    assert_eq!(cols[29].data, vec![[7u32; 16]]);
}

#[test]
fn big_trace_reads_only_column_length_rows() {
    // One looked-up row makes a column length of one packed row, so only the
    // first row of the table is read: the looked-up second row is not kept.
    let values: Vec<[u32; 8]> = (0..32u32).map(big_value).collect();
    let mults = vec![[0u32; 16], [1u32; 16]];
    let cols = gen_single_big_memory_trace(&values, &mults);
    assert_eq!(cols.len(), 30);
    for c in &cols {
        assert!(c.data.iter().all(|r| *r == [0u32; 16]));
    }
}

#[test]
fn big_traces_are_cut_into_tables() {
    let values: Vec<[u32; 8]> = (0..64u32).map(big_value).collect();
    let mut mults = vec![[0u32; 16]; 4];
    mults[0] = [1u32; 16];
    mults[2] = [3u32; 16];
    let traces = gen_big_memory_traces(values.clone(), mults, 5);
    assert_eq!(traces.len(), 2);
    for (t, trace) in traces.iter().enumerate() {
        assert_eq!(trace.len(), 30);
        for y in 0..16 {
            // Each table counts ids from zero.
            assert_eq!(trace[28].data[0][y], y as u32);
            let limbs = split_f252(values[32 * t + y]);
            assert_eq!(trace[1].data[0][y], limbs[1]);
        }
    }
    assert_eq!(traces[1][29].data[0], [3u32; 16]);
}
