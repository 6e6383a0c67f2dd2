use simulator::Rng;

#[test]
fn seeded_draws_follow_the_recurrence() {
    let mut rng = Rng::from_seed(0);
    assert_eq!(rng.usize(0..10), 1);
    assert_eq!(rng.usize(0..10), 6);
    assert_eq!(rng.usize(0..10), 9);
    assert_eq!(rng.usize(5..15), 11);
}

#[test]
fn draws_stay_in_range() {
    let mut rng = Rng::new();
    for _ in 0..100 {
        let v = rng.usize(3..8);
        assert!((3..8).contains(&v));
    }
    let mut one = Rng::from_seed(42);
    assert_eq!(one.usize(7..8), 7);
}
