use netfault::seed::{derive_seed, CONNECTION_FACTOR, DIRECTION_FACTOR};

#[test]
fn seeds_have_these_values() {
    assert_eq!(derive_seed(0, 0, 0), 0);
    assert_eq!(derive_seed(1, 0, 0), 6238072747940578789);
    assert_eq!(derive_seed(42, 1, 0), 13679457532755275413);
    assert_eq!(derive_seed(42, 1, 1), 17475799391445563543);
    assert_eq!(derive_seed(42, 2, 0), 15664533255536094640);
}

#[test]
fn nearby_inputs_have_distinct_seeds() {
    let mut seeds = Vec::new();
    for conn in 1..200 {
        for tag in 0..2 {
            seeds.push(derive_seed(7, conn, tag));
        }
    }
    let n = seeds.len();
    seeds.sort();
    seeds.dedup();
    assert_eq!(seeds.len(), n);
    for master in 0..200 {
        assert_ne!(derive_seed(master, 1, 0), derive_seed(master + 1, 1, 0));
    }
}

#[test]
fn far_apart_ids_can_cancel_the_direction() {
    let other = 9525176889066840572u64;
    assert_eq!(
        1u64.wrapping_mul(CONNECTION_FACTOR) ^ other.wrapping_mul(CONNECTION_FACTOR),
        DIRECTION_FACTOR
    );
    assert_eq!(derive_seed(42, 1, 1), derive_seed(42, other, 0));
}
