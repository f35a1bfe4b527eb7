use dartsim::simulation::seeding::{aggregate, samples, MIX};

#[test]
fn aggregate_seed_mixes_the_offset_index() {
    assert_eq!(aggregate(0, 0), 0);
    assert_eq!(aggregate(1, 0), 0x9E37_79B9_7F4A_7C15);
    assert_eq!(aggregate(2027, 3), 2030u64.wrapping_mul(0x9E37_79B9_7F4A_7C15));
    assert_eq!(MIX, 0x9E37_79B9_7F4A_7C15);
}

#[test]
fn samples_seed_offsets_the_index() {
    assert_eq!(samples(2027, 0), 2027);
    assert_eq!(samples(2027, 5), 2032);
}

#[test]
fn seeds_wrap_around_at_the_top_of_the_range() {
    assert_eq!(samples(u64::MAX, 1), 0);
    assert_eq!(samples(u64::MAX, 3), 2);
    assert_eq!(aggregate(u64::MAX, 1), 0);
    assert_eq!(aggregate(u64::MAX, 2), 0x9E37_79B9_7F4A_7C15);
}

#[test]
fn seeds_are_pure_functions_of_base_and_index() {
    for i in 0..64usize {
        assert_eq!(aggregate(7, i), aggregate(7, i));
        assert_eq!(samples(7, i), samples(7, i));
    }
    // The two streams differ for any base seed but 0-at-index-0 cases.
    assert_ne!(aggregate(7, 0), samples(7, 0));
}
