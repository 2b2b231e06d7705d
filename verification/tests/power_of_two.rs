use exhibits::power_of_two::is_power_of_two_usize;

#[test]
fn powers_of_two() {
    for k in 0..usize::BITS {
        assert!(is_power_of_two_usize(1usize << k));
    }
}

#[test]
fn not_powers_of_two() {
    for n in [0usize, 3, 5, 6, 7, 12, 100, 129, usize::MAX, (1usize << 40) + 1] {
        assert!(!is_power_of_two_usize(n));
    }
}
