use particle_sim::config::ConfigError;
use particle_sim::spawn::Spawner;

fn spawner(capacity: usize, rate: u64, steps_per_second: u64) -> Spawner {
    match Spawner::new(capacity, rate, steps_per_second) {
        Ok(spawner) => spawner,
        Err(fault) => panic!("unexpected fault {:?}", fault),
    }
}

#[test]
fn spawner_starts_empty() {
    let s = spawner(1500, 300, 600);
    assert_eq!(s.capacity(), 1500);
    assert_eq!(s.population(), 0);
}

#[test]
fn spawner_rejects_zero_slices_per_second() {
    assert_eq!(Spawner::new(10, 5, 0).err(), Some(ConfigError::ZeroStepRate));
}

#[test]
fn accumulator_loses_no_particle() {
    let mut s = spawner(2000, 1500, 600);
    let mut entered = 0;
    for _ in 0..600 {
        entered += s.tick();
    }
    assert_eq!(entered, 1500);
    assert_eq!(s.population(), 1500);
}

#[test]
fn accumulator_is_exact_with_capacity_equal_to_the_final_count() {
    let mut s = spawner(1500, 1500, 600);
    for _ in 0..600 {
        s.tick();
    }
    assert_eq!(s.population(), 1500);
}

#[test]
fn half_particles_carry_over_to_the_next_slice() {
    let mut s = spawner(100, 1500, 600);
    let entered: Vec<usize> = (0..6).map(|_| s.tick()).collect();
    assert_eq!(entered, vec![2, 3, 2, 3, 2, 3]);
    assert_eq!(s.population(), 15);
}

#[test]
fn slow_rate_matures_after_several_slices() {
    let mut s = spawner(100, 1, 3);
    let entered: Vec<usize> = (0..7).map(|_| s.tick()).collect();
    assert_eq!(entered, vec![0, 0, 1, 0, 0, 1, 0]);
}

#[test]
fn population_after_slices_is_the_whole_part_of_rate_times_time() {
    for &(rate, steps) in &[(300u64, 600u64), (7, 3), (1, 1000), (1000, 1), (0, 60), (999, 1000)] {
        let mut s = spawner(usize::MAX, rate, steps);
        for k in 1..=250u64 {
            s.tick();
            assert_eq!(s.population() as u64, k * rate / steps);
        }
    }
}

#[test]
fn ten_slices_of_the_default_rate_let_five_particles_in() {
    let mut s = spawner(1500, 300, 600);
    let mut entered = 0;
    for _ in 0..10 {
        entered += s.tick();
    }
    assert_eq!(entered, 5);
}

#[test]
fn population_never_exceeds_capacity() {
    let mut s = spawner(100, 1500, 600);
    for _ in 0..600 {
        s.tick();
        assert!(s.population() <= 100);
    }
    assert_eq!(s.population(), 100);
    assert_eq!(s.tick(), 0);
    assert_eq!(s.population(), 100);
}

#[test]
fn a_slice_that_matures_more_than_fits_fills_up_to_capacity() {
    let mut s = spawner(7, 1000, 1);
    assert_eq!(s.tick(), 7);
    assert_eq!(s.population(), 7);
    assert_eq!(s.tick(), 0);
}

#[test]
fn zero_capacity_admits_nothing() {
    let mut s = spawner(0, 1500, 600);
    for _ in 0..100 {
        assert_eq!(s.tick(), 0);
    }
    assert_eq!(s.spawn_particles(5), 0);
    assert_eq!(s.population(), 0);
}

#[test]
fn spawn_particles_admits_what_is_asked_while_there_is_room() {
    let mut s = spawner(10, 0, 1);
    assert_eq!(s.spawn_particles(4), 4);
    assert_eq!(s.population(), 4);
    assert_eq!(s.spawn_particles(0), 0);
    assert_eq!(s.population(), 4);
    assert_eq!(s.spawn_particles(6), 6);
    assert_eq!(s.population(), 10);
}

#[test]
fn spawn_particles_stops_at_capacity() {
    let mut s = spawner(10, 0, 1);
    assert_eq!(s.spawn_particles(8), 8);
    assert_eq!(s.spawn_particles(5), 2);
    assert_eq!(s.population(), 10);
    assert_eq!(s.spawn_particles(usize::MAX), 0);
    assert_eq!(s.population(), 10);
}

#[test]
fn credit_is_kept_while_the_population_is_full() {
    // One particle every other slice; the capacity is reached after the
    // second slice, and the half particle of the third slice still counts
    // when the fourth is added.
    let mut s = spawner(1, 1, 2);
    assert_eq!(s.tick(), 0);
    assert_eq!(s.tick(), 1);
    assert_eq!(s.tick(), 0);
    assert_eq!(s.tick(), 0);
    assert_eq!(s.population(), 1);
}

#[test]
fn extreme_rates_do_not_overflow() {
    let mut s = spawner(usize::MAX, u64::MAX, 1);
    assert_eq!(s.tick() as u128, u64::MAX as u128);
    let mut t = spawner(5, u64::MAX, u64::MAX);
    assert_eq!(t.tick(), 1);
    assert_eq!(t.tick(), 1);
    let mut u = spawner(5, u64::MAX - 1, u64::MAX);
    assert_eq!(u.tick(), 0);
    assert_eq!(u.tick(), 1);
}
