//! Sizing of the mesh worker pool: how many worker threads to run and how
//! many queued requests to take in per batch.
use vstd::prelude::*;

verus! {

/// Share of the detected CPUs used for workers: numerator.
pub const THREAD_CPU_NUMERATOR: usize = 3;

/// Share of the detected CPUs used for workers: denominator.
pub const THREAD_CPU_DENOMINATOR: usize = 4;

/// Fewest worker threads chosen automatically.
pub const MIN_WORKER_THREADS: usize = 2;

/// Fewest requests taken in per batch.
pub const MIN_BATCH_SIZE: usize = 16;

/// Capacity of the request and result channels of a default pool.
pub const DEFAULT_CHANNEL_CAPACITY: usize = 256;

/// Worker threads for a pool asked for `num_threads` threads on a machine
/// with `detected_cpus` CPUs: the number asked for, or, when that is zero,
/// three quarters of the CPUs but at least `MIN_WORKER_THREADS`.
pub open spec fn spec_thread_count(num_threads: int, detected_cpus: int) -> int {
    if num_threads == 0 {
        let share = (detected_cpus * THREAD_CPU_NUMERATOR) / THREAD_CPU_DENOMINATOR as int;
        if share >= MIN_WORKER_THREADS {
            share
        } else {
            MIN_WORKER_THREADS as int
        }
    } else {
        num_threads
    }
}

/// Worker threads for a pool asked for `num_threads` threads on a machine
/// with `detected_cpus` CPUs.
pub fn thread_count_for(num_threads: usize, detected_cpus: usize) -> (n: usize)
    requires
        num_threads == 0 ==> detected_cpus * THREAD_CPU_NUMERATOR <= usize::MAX,
    ensures
        n == spec_thread_count(num_threads as int, detected_cpus as int),
        n >= 1 || num_threads == 0,
{
    if num_threads == 0 {
        let share = (detected_cpus * THREAD_CPU_NUMERATOR) / THREAD_CPU_DENOMINATOR;
        if share >= MIN_WORKER_THREADS {
            share
        } else {
            MIN_WORKER_THREADS
        }
    } else {
        num_threads
    }
}

/// Calls `num_cpus::get`, the number of logical CPUs of this machine, which
/// its documentation promises is at least one. The count itself depends on
/// the machine and is not stated.
#[verifier::external_body]
fn detected_cpus() -> (n: usize)
    ensures
        n >= 1,
{
    num_cpus::get()
}

/// Worker threads for a pool asked for `num_threads` threads on a machine
/// with `cpus` CPUs: `num_threads` itself when it is not zero; otherwise
/// three quarters of the CPUs, at least `MIN_WORKER_THREADS`; `None` when
/// the CPU count is too large to scale in a `usize`.
pub open spec fn spec_threads_for_cpus(num_threads: int, cpus: int) -> Option<usize> {
    if num_threads != 0 {
        Some(num_threads as usize)
    } else if cpus * THREAD_CPU_NUMERATOR <= usize::MAX {
        Some(spec_thread_count(0, cpus) as usize)
    } else {
        None
    }
}

/// Worker threads for a pool asked for `num_threads` threads on a machine
/// with `cpus` CPUs.
pub fn threads_for_cpus(num_threads: usize, cpus: usize) -> (n: Option<usize>)
    ensures
        n == spec_threads_for_cpus(num_threads as int, cpus as int),
{
    if num_threads != 0 {
        Some(num_threads)
    } else if cpus > usize::MAX / THREAD_CPU_NUMERATOR {
        None
    } else {
        Some(thread_count_for(0, cpus))
    }
}

/// Worker threads for a pool asked for `num_threads` threads on this
/// machine: what [`threads_for_cpus`] gives for the detected CPU count.
pub fn worker_thread_count(num_threads: usize) -> (n: Option<usize>)
    ensures
        exists|cpus: int| cpus >= 1 && cpus <= usize::MAX && n == #[trigger] spec_threads_for_cpus(
            num_threads as int,
            cpus,
        ),
        num_threads != 0 ==> n == Some(num_threads),
        n matches Some(k) ==> k >= 1 && (num_threads == 0 ==> k >= MIN_WORKER_THREADS),
{
    if num_threads != 0 {
        let r = Some(num_threads);
        assert(r == spec_threads_for_cpus(num_threads as int, 1));
        return r;
    }
    let cpus = detected_cpus();
    let r = threads_for_cpus(num_threads, cpus);
    assert(r == spec_threads_for_cpus(num_threads as int, cpus as int));
    r
}

/// Requests taken in per batch when the pool runs `threads` threads: one per
/// thread, but at least `MIN_BATCH_SIZE`.
pub fn batch_size_for(threads: usize) -> (n: usize)
    ensures
        n == if threads >= MIN_BATCH_SIZE {
            threads
        } else {
            MIN_BATCH_SIZE
        },
{
    if threads >= MIN_BATCH_SIZE {
        threads
    } else {
        MIN_BATCH_SIZE
    }
}

/// Calls `rayon::current_num_threads`, the number of threads of the current
/// rayon pool. The count depends on the machine and on how the pool was
/// built, and is not stated.
#[verifier::external_body]
fn rayon_threads() -> (n: usize) {
    rayon::current_num_threads()
}

/// Requests to take in per batch on the current rayon pool: its thread
/// count, but at least `MIN_BATCH_SIZE`.
pub fn current_batch_size() -> (n: usize)
    ensures
        n >= MIN_BATCH_SIZE,
{
    batch_size_for(rayon_threads())
}

} // verus!
