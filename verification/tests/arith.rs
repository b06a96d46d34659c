use memory_id_to_big::arith::{ilog2, next_multiple_of, next_power_of_two};

#[test]
fn next_power_of_two_rounds_up() {
    assert_eq!(next_power_of_two(0), 1);
    assert_eq!(next_power_of_two(1), 1);
    assert_eq!(next_power_of_two(2), 2);
    assert_eq!(next_power_of_two(5), 8);
    assert_eq!(next_power_of_two(16), 16);
    assert_eq!(next_power_of_two(17), 32);
    for n in 0..1000usize {
        assert_eq!(next_power_of_two(n), n.next_power_of_two());
    }
}

#[test]
fn next_multiple_of_rounds_up() {
    assert_eq!(next_multiple_of(0, 16), 0);
    assert_eq!(next_multiple_of(1, 16), 16);
    assert_eq!(next_multiple_of(16, 16), 16);
    assert_eq!(next_multiple_of(17, 16), 32);
    for n in 0..1000usize {
        assert_eq!(next_multiple_of(n, 16), n.next_multiple_of(16));
    }
}

#[test]
fn ilog2_rounds_down() {
    assert_eq!(ilog2(1), 0);
    assert_eq!(ilog2(2), 1);
    assert_eq!(ilog2(16), 4);
    assert_eq!(ilog2(17), 4);
    assert_eq!(ilog2(usize::MAX), usize::BITS - 1);
    for n in 1..1000usize {
        assert_eq!(ilog2(n), n.ilog2());
    }
}
