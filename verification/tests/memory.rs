use memory_id_to_big::memory::{
    EncodedMemoryValueId, MemoryValueId, EMPTY_MEMORY_VALUE_ID, LARGE_MEMORY_VALUE_ID_BASE,
    RELOCATABLE_ID_BASE,
};

#[test]
fn decode_small_relocatable_large_and_empty() {
    assert_eq!(EncodedMemoryValueId(5).decode(), MemoryValueId::Small(5));
    assert_eq!(
        EncodedMemoryValueId(RELOCATABLE_ID_BASE + 3).decode(),
        MemoryValueId::MemoryRelocatable(3)
    );
    assert_eq!(
        EncodedMemoryValueId(LARGE_MEMORY_VALUE_ID_BASE + 7).decode(),
        MemoryValueId::F252(7)
    );
    assert_eq!(EncodedMemoryValueId(EMPTY_MEMORY_VALUE_ID).decode(), MemoryValueId::Empty);
    assert_eq!(EncodedMemoryValueId(0x7fff_fffe).decode(), MemoryValueId::F252(0x3fff_fffe));
}

#[test]
fn encode_then_decode_gives_the_id_back() {
    for id in [
        MemoryValueId::Small(0),
        MemoryValueId::Small(RELOCATABLE_ID_BASE - 1),
        MemoryValueId::MemoryRelocatable(0),
        MemoryValueId::MemoryRelocatable(12345),
        MemoryValueId::F252(0),
        MemoryValueId::F252(0x3fff_ffff),
        MemoryValueId::Empty,
    ] {
        assert_eq!(EncodedMemoryValueId::encode(id).decode(), id);
    }
}

#[test]
fn encode_of_large_sets_the_tag() {
    assert_eq!(EncodedMemoryValueId::encode(MemoryValueId::F252(9)).0, 0x4000_0009);
    assert_eq!(EncodedMemoryValueId::encode(MemoryValueId::MemoryRelocatable(9)).0, 0x2000_0009);
    assert_eq!(EncodedMemoryValueId::encode(MemoryValueId::Empty).0, 0x8000_0000);
}
