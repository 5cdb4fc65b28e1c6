use quartz::random::{seeded_draws, Draws};
use rand::rngs::{SmallRng, StdRng};
use rand::{RngCore, SeedableRng};

#[test]
fn numbers_are_taken_in_the_order_of_the_generator() {
    for seed in [0, 5, u64::MAX] {
        let mut draws = Draws::new(seed);
        let mut generator = StdRng::seed_from_u64(seed);
        for _ in 0..1000 {
            assert_eq!(draws.next(), generator.next_u64());
        }
    }
}

#[test]
fn the_first_numbers_are_those_of_the_small_generator() {
    for seed in [0, 7, u64::MAX] {
        let mut generator = SmallRng::seed_from_u64(seed);
        for draw in seeded_draws(seed, 1000) {
            assert_eq!(draw, generator.next_u64());
        }
    }
    assert!(seeded_draws(7, 0).is_empty());
}

#[test]
fn draws_repeat_with_the_seed() {
    assert_eq!(seeded_draws(7, 5), seeded_draws(7, 5));
    assert_ne!(seeded_draws(7, 5), seeded_draws(8, 5));
    assert_eq!(seeded_draws(7, 5)[..3], seeded_draws(7, 3)[..]);
}
