use rand::Rng;
use rand::SeedableRng;
use task_server::task::Task;

const DATA_SIZE: usize = 1024 * 1024;
const MULTIPLIERS: [usize; 16] = [1, 1, 1, 1, 1, 1, 1, 1, 1, 1, 1, 1, 4, 16, 64, 256];

// The CPU-bound body computed directly with the generator crates, the way a
// plain implementation would write it.
fn cpu_reference(seed: u64) -> u8 {
    let mut data = vec![0u8; DATA_SIZE];
    let mut rng = rand_xoshiro::Xoshiro256StarStar::seed_from_u64(seed);
    let total_rounds = MULTIPLIERS[rng.gen::<usize>() % 16] * 4 * 1024;
    let mut dep = 0u8;
    for _ in 0..total_rounds {
        let index = (rng.gen::<usize>().wrapping_add(dep as usize)) % DATA_SIZE;
        data[index] = data[index].wrapping_add(rng.gen::<u8>());
        dep = dep.wrapping_add(data[index]);
    }
    let index = (rng.gen::<usize>().wrapping_add(dep as usize)) % DATA_SIZE;
    data[index]
}

// The I/O-bound body's draws computed directly with the generator crates,
// without performing the pause.
fn io_reference(seed: u64) -> (u64, u8) {
    let mut rng = rand_chacha::ChaCha20Rng::seed_from_u64(seed);
    let duration: u64 = rng.gen_range(0..=2000u64);
    (duration, rng.gen::<u8>())
}

#[test]
fn cpu_task_matches_a_direct_computation() {
    for seed in [0u64, 1, 7, 42, 12345] {
        assert_eq!(Task::do_cpu_intensive_task(seed), cpu_reference(seed));
    }
}

#[test]
fn io_task_matches_a_direct_computation() {
    for seed in [0u64, 1, 7, 42, 12345, u64::MAX] {
        let (duration, byte) = io_reference(seed);
        assert_eq!(Task::do_io_intensive_task(seed), byte);
        assert_eq!(Task::io_pause_ms(seed), duration);
    }
}

#[test]
fn io_pause_never_passes_two_seconds() {
    for seed in 0..200u64 {
        assert!(Task::io_pause_ms(seed) <= 2000);
    }
}

#[test]
fn execute_dispatches_on_the_ordinal() {
    assert_eq!(Task::execute(0, 11), Task::do_cpu_intensive_task(11));
    assert_eq!(Task::execute(1, 11), Task::do_io_intensive_task(11));
}

#[test]
fn execute_is_deterministic() {
    assert_eq!(Task::execute(0, 5), Task::execute(0, 5));
    assert_eq!(Task::execute(1, 42), Task::execute(1, 42));
}
