use memory_id_to_big::adapter::{public_memory_addresses, Relocatable};

#[test]
fn public_memory_addresses_follow_segments_and_offsets() {
    let offsets = vec![(0usize, vec![1usize, 2]), (3, vec![]), (4, vec![5])];
    let r = public_memory_addresses(&offsets);
    assert_eq!(
        r,
        vec![
            Relocatable { segment_index: 0, offset: 1 },
            Relocatable { segment_index: 0, offset: 2 },
            Relocatable { segment_index: 4, offset: 5 },
        ]
    );
}

#[test]
fn public_memory_addresses_of_no_segments() {
    assert!(public_memory_addresses(&vec![]).is_empty());
}

#[test]
fn public_memory_offsets_keep_their_low_32_bits() {
    let big = (u32::MAX as usize).wrapping_add(8);
    let r = public_memory_addresses(&vec![(1usize, vec![big])]);
    assert_eq!(r, vec![Relocatable { segment_index: 1, offset: big as u32 }]);
}
