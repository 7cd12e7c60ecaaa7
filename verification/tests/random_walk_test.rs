use monte_carlo::applications::random_walk::RandomWalk;
use monte_carlo::rng::RngSource;

#[test]
fn test_random_walk() {
    let mut walk = RandomWalk::new(1000);
    let mut rng = RngSource::from_seed(7);
    walk.simulate(&mut rng);
    let position = walk.get_position();
    assert!(position.abs() <= 1000, "Final position out of bounds");
}

#[test]
fn test_random_walk_parity() {
    // After an even number of unit steps the position is even.
    let mut walk = RandomWalk::new(10);
    let mut rng = RngSource::from_seed(11);
    walk.simulate(&mut rng);
    assert!(walk.get_position().rem_euclid(2) == 0);
    assert!(walk.get_position().abs() <= 10);
}

#[test]
fn test_random_walk_zero_steps() {
    let mut walk = RandomWalk::new(0);
    let mut rng = RngSource::from_seed(3);
    walk.simulate(&mut rng);
    assert_eq!(walk.get_position(), 0);
}
