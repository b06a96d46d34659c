use memory_id_to_big::column::{row_is_zero, BaseColumn, MultiplicityColumn};

#[test]
fn zeros_column_has_rounded_up_packed_rows() {
    let c = BaseColumn::zeros(17);
    assert_eq!(c.length, 17);
    assert_eq!(c.len(), 17);
    assert_eq!(c.data.len(), 2);
    assert!(c.data.iter().all(|r| row_is_zero(r)));
    assert_eq!(BaseColumn::zeros(16).data.len(), 1);
    assert_eq!(BaseColumn::zeros(0).data.len(), 0);
}

#[test]
fn from_simd_counts_all_lanes() {
    let c = BaseColumn::from_simd(vec![[1u32; 16], [2u32; 16], [3u32; 16]]);
    assert_eq!(c.len(), 48);
    assert_eq!(c.data[2], [3u32; 16]);
}

#[test]
fn multiplicity_column_counts_and_packs() {
    let mut m = MultiplicityColumn::new(20);
    assert_eq!(m.len(), 20);
    m.increase_at(3);
    m.increase_at(3);
    m.increase_at(19);
    let rows = m.into_simd_vec();
    assert_eq!(rows.len(), 2);
    let mut row0 = [0u32; 16];
    row0[3] = 2;
    let mut row1 = [0u32; 16];
    row1[3] = 1;
    assert_eq!(rows[0], row0);
    assert_eq!(rows[1], row1);
}

#[test]
fn row_is_zero_looks_at_every_lane() {
    assert!(row_is_zero(&[0u32; 16]));
    let mut r = [0u32; 16];
    r[15] = 1;
    assert!(!row_is_zero(&r));
}
