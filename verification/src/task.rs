//! Task types and the deterministic task bodies.
//!
//! A task is described by a type ordinal and a 64-bit seed. Both task bodies
//! are deterministic functions of the seed: the CPU-bound body runs a
//! non-yielding compute loop over a large scratch buffer, and the I/O-bound
//! body draws a pause length and a result byte. The pseudo-random draws come
//! from outside generators; the streams they produce are named abstractly and
//! everything built on top of the draws is verified.

use vstd::prelude::*;
use rand::Rng;
use rand::SeedableRng;

verus! {

/// The two classes of work a request can ask for.
#[derive(Debug, Copy, Clone, PartialEq, Eq, Structural)]
pub enum TaskType {
    CpuIntensiveTask,
    IOIntensiveTask,
}

impl TaskType {
    /// The ordinal decoding: 0 is CPU-bound, 1 is I/O-bound, all else invalid.
    pub open spec fn spec_from_u8(value: u8) -> Option<TaskType> {
        if value == 0 {
            Some(TaskType::CpuIntensiveTask)
        } else if value == 1 {
            Some(TaskType::IOIntensiveTask)
        } else {
            None
        }
    }

    pub fn from_u8(value: u8) -> (r: Option<TaskType>)
        ensures
            r == Self::spec_from_u8(value),
    {
        match value {
            0 => Some(TaskType::CpuIntensiveTask),
            1 => Some(TaskType::IOIntensiveTask),
            _ => None,
        }
    }
}

/// The abstract output stream of a xoshiro256** generator seeded from a
/// 64-bit seed: `xoshiro_u64(seed, i)` is the i-th value the generator
/// returns from `RngCore::next_u64`. The stream is a pure function of the
/// seed; its values are not stated, only named.
pub uninterp spec fn xoshiro_u64(seed: u64, i: nat) -> u64;

#[verifier::external_type_specification]
#[verifier::external_body]
pub struct ExXoshiro256StarStar(rand_xoshiro::Xoshiro256StarStar);

/// A xoshiro256** generator together with the seed it was built from and a
/// count of the values drawn so far, so that contracts can tie each draw to
/// a position in the named stream.
pub(crate) struct CpuRng {
    inner: rand_xoshiro::Xoshiro256StarStar,
    seed: u64,
    drawn: u64,
}

impl CpuRng {
    pub(crate) closed spec fn seed(self) -> u64 {
        self.seed
    }

    pub(crate) closed spec fn drawn(self) -> u64 {
        self.drawn
    }

    /// Relies on rand_xoshiro::Xoshiro256StarStar::seed_from_u64: the
    /// generator state is a deterministic function of `seed` (expanded
    /// through SplitMix64), so its output stream is `xoshiro_u64(seed, _)`.
    #[verifier::external_body]
    pub(crate) fn new(seed: u64) -> (r: CpuRng)
        ensures
            r.seed() == seed,
            r.drawn() == 0,
    {
        CpuRng {
            inner: rand_xoshiro::Xoshiro256StarStar::seed_from_u64(seed),
            seed,
            drawn: 0,
        }
    }

    /// Relies on rand::Rng::gen::<u64>: the Standard distribution for u64
    /// returns exactly one RngCore::next_u64 output of the generator.
    #[verifier::external_body]
    pub(crate) fn gen_u64(&mut self) -> (r: u64)
        requires
            old(self).drawn() < u64::MAX,
        ensures
            r == xoshiro_u64(old(self).seed(), old(self).drawn() as nat),
            final(self).seed() == old(self).seed(),
            final(self).drawn() == old(self).drawn() + 1,
    {
        self.drawn += 1;
        self.inner.gen::<u64>()
    }

    /// Relies on rand::Rng::gen::<u8>: the Standard distribution for u8 is
    /// RngCore::next_u32 truncated to u8, and Xoshiro256StarStar::next_u32
    /// is its next_u64 output shifted right by 32 bits, so one draw of the
    /// named stream is consumed.
    #[verifier::external_body]
    pub(crate) fn gen_u8(&mut self) -> (r: u8)
        requires
            old(self).drawn() < u64::MAX,
        ensures
            r == (xoshiro_u64(old(self).seed(), old(self).drawn() as nat) >> 32) as u8,
            final(self).seed() == old(self).seed(),
            final(self).drawn() == old(self).drawn() + 1,
    {
        self.drawn += 1;
        self.inner.gen::<u8>()
    }
}

/// Size of the scratch buffer the CPU-bound body works over.
pub const DATA_SIZE: usize = 1024 * 1024;

/// The spread of round multipliers: indices 0 through 11 give 1, then 4, 16,
/// 64 and 256, so most seeds run a short loop and a few run a long one.
pub open spec fn multiplier_of(i: int) -> nat {
    if i < 12 {
        1
    } else if i == 12 {
        4
    } else if i == 13 {
        16
    } else if i == 14 {
        64
    } else {
        256
    }
}

fn multiplier(i: u64) -> (r: usize)
    requires
        i < 16,
    ensures
        r == multiplier_of(i as int),
{
    if i < 12 {
        1
    } else if i == 12 {
        4
    } else if i == 13 {
        16
    } else if i == 14 {
        64
    } else {
        256
    }
}

/// How many update rounds the CPU-bound body runs for a given seed: the
/// first draw picks one of the sixteen multipliers, scaled by 4096.
pub open spec fn cpu_rounds(seed: u64) -> nat {
    multiplier_of(xoshiro_u64(seed, 0) as int % 16) * 4096
}

/// The scratch buffer and running dependency byte after `n` update rounds.
/// Round `j` consumes stream positions `1 + 2*j` (an index draw) and
/// `2 + 2*j` (a byte draw): the drawn byte is added into the buffer cell the
/// index draw selects, offset by the dependency byte, and the new cell value
/// is folded back into the dependency byte. All byte arithmetic wraps.
pub open spec fn cpu_state(seed: u64, n: nat) -> (Seq<u8>, u8)
    decreases n,
{
    if n == 0 {
        (Seq::new(DATA_SIZE as nat, |i: int| 0u8), 0u8)
    } else {
        let (data, dep) = cpu_state(seed, (n - 1) as nat);
        let idx = (xoshiro_u64(seed, (2 * n - 1) as nat) + dep) % (DATA_SIZE as int);
        let cell = ((data[idx] + ((xoshiro_u64(seed, 2 * n) >> 32) as u8)) % 256) as u8;
        (data.update(idx, cell), ((dep + cell) % 256) as u8)
    }
}

/// The byte the CPU-bound body returns: the cell a final index draw selects
/// in the buffer left by the full run of rounds.
pub open spec fn cpu_task_byte(seed: u64) -> u8 {
    let n = cpu_rounds(seed);
    let (data, dep) = cpu_state(seed, n);
    data[(xoshiro_u64(seed, 1 + 2 * n) + dep) % (DATA_SIZE as int)]
}

fn zero_buffer() -> (r: Vec<u8>)
    ensures
        r@ == Seq::new(DATA_SIZE as nat, |i: int| 0u8),
{
    let mut v: Vec<u8> = Vec::new();
    let mut i: usize = 0;
    while i < DATA_SIZE
        invariant
            i <= DATA_SIZE,
            v@ =~= Seq::new(i as nat, |j: int| 0u8),
        decreases DATA_SIZE - i,
    {
        v.push(0);
        i = i + 1;
    }
    proof {
        assert(v@ =~= Seq::new(DATA_SIZE as nat, |j: int| 0u8));
    }
    v
}

/// The pair an I/O-bound task draws for a seed: the pause length in
/// milliseconds and the result byte. Both are pure functions of the seed;
/// their values are not stated, only named.
pub uninterp spec fn io_draw_of(seed: u64) -> (u64, u8);

/// The pause an I/O-bound task performs before returning, in milliseconds.
pub open spec fn io_sleep_ms(seed: u64) -> u64 {
    io_draw_of(seed).0
}

/// The byte an I/O-bound task returns.
pub open spec fn io_task_byte(seed: u64) -> u8 {
    io_draw_of(seed).1
}

/// Relies on rand_chacha::ChaCha20Rng through rand_core::SeedableRng::
/// seed_from_u64, rand::Rng::gen_range and rand::Rng::gen::<u8>: the ChaCha20
/// output stream is a deterministic, machine-independent function of the
/// 64-bit seed, so the duration drawn from the inclusive range 0..=2000 and
/// the byte drawn right after it are a function of the seed alone, and
/// gen_range returns a value inside its range. The generator state between
/// the two draws cannot be spoken of directly, which is why the chain of
/// calls stands in one trusted body.
#[verifier::external_body]
fn io_task_draw(seed: u64) -> (r: (u64, u8))
    ensures
        r == io_draw_of(seed),
        r.0 <= 2000,
{
    let mut rng = rand_chacha::ChaCha20Rng::seed_from_u64(seed);
    let duration: u64 = rng.gen_range(0..=2000u64);
    (duration, rng.gen::<u8>())
}

pub struct Task;

impl Task {
    /// The byte a task of the given type and seed computes.
    pub open spec fn task_byte(t: TaskType, seed: u64) -> u8 {
        match t {
            TaskType::CpuIntensiveTask => cpu_task_byte(seed),
            TaskType::IOIntensiveTask => io_task_byte(seed),
        }
    }

    /// The CPU-bound task body: a non-yielding compute loop whose result is
    /// exactly the modelled `cpu_task_byte` of the seed.
    pub fn do_cpu_intensive_task(seed: u64) -> (r: u8)
        ensures
            r == cpu_task_byte(seed),
    {
        let mut rng = CpuRng::new(seed);
        let first = rng.gen_u64();
        let total_rounds: usize = multiplier(first % 16) * 4096;
        let mut data = zero_buffer();
        let mut dep: u8 = 0;
        let mut j: usize = 0;
        assert(total_rounds == cpu_rounds(seed));
        while j < total_rounds
            invariant
                j <= total_rounds,
                total_rounds == cpu_rounds(seed),
                total_rounds <= 256 * 4096,
                rng.seed() == seed,
                rng.drawn() == 1 + 2 * j,
                data@.len() == DATA_SIZE,
                (data@, dep) == cpu_state(seed, j as nat),
            decreases total_rounds - j,
        {
            let draw = rng.gen_u64();
            let idx: usize = (((draw % (DATA_SIZE as u64)) as usize) + (dep as usize)) % DATA_SIZE;
            let byte_draw = rng.gen_u8();
            proof {
                vstd::arithmetic::div_mod::lemma_small_mod(dep as nat, DATA_SIZE as nat);
                vstd::arithmetic::div_mod::lemma_add_mod_noop(
                    draw as int,
                    dep as int,
                    DATA_SIZE as int,
                );
                assert(idx == (xoshiro_u64(seed, (2 * (j + 1) - 1) as nat) + dep) % (DATA_SIZE as int));
            }
            let cell = (((data[idx] as u16) + (byte_draw as u16)) % 256) as u8;
            data.set(idx, cell);
            dep = (((dep as u16) + (cell as u16)) % 256) as u8;
            j = j + 1;
            proof {
                let (sd, sp) = cpu_state(seed, j as nat);
                assert(data@ =~= sd);
                assert(dep == sp);
            }
        }
        let last = rng.gen_u64();
        let idx: usize = (((last % (DATA_SIZE as u64)) as usize) + (dep as usize)) % DATA_SIZE;
        proof {
            vstd::arithmetic::div_mod::lemma_small_mod(dep as nat, DATA_SIZE as nat);
            vstd::arithmetic::div_mod::lemma_add_mod_noop(
                last as int,
                dep as int,
                DATA_SIZE as int,
            );
        }
        data[idx]
    }

    /// The I/O-bound task body without its pause: the byte it computes for
    /// the seed. The pause itself is a suspension point and is carried out
    /// by the caller; `io_pause_ms` says how long it lasts.
    pub fn do_io_intensive_task(seed: u64) -> (r: u8)
        ensures
            r == io_task_byte(seed),
    {
        io_task_draw(seed).1
    }

    /// How long the I/O-bound task for this seed pauses, in milliseconds;
    /// never more than two seconds.
    pub fn io_pause_ms(seed: u64) -> (r: u64)
        ensures
            r == io_sleep_ms(seed),
            r <= 2000,
    {
        io_task_draw(seed).0
    }

    /// Run the task body for a type ordinal and a seed. Only the two valid
    /// ordinals are accepted; the pause of the I/O-bound variant is the
    /// caller's to carry out.
    pub fn execute(typ: u8, seed: u64) -> (r: u8)
        requires
            TaskType::spec_from_u8(typ) is Some,
        ensures
            r == Self::task_byte(TaskType::spec_from_u8(typ)->Some_0, seed),
    {
        match TaskType::from_u8(typ) {
            Some(TaskType::CpuIntensiveTask) => Self::do_cpu_intensive_task(seed),
            Some(TaskType::IOIntensiveTask) => Self::do_io_intensive_task(seed),
            None => {
                proof {
                    assert(false);
                }
                0
            },
        }
    }
}

} // verus!

