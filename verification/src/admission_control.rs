//! What the admission-control service computes when it is set up.

use vstd::prelude::*;

verus! {

/// The most completion queues that the service asks for.
pub const MAX_COMPLETION_QUEUES: usize = 32;

/// The number of completion queues for a machine with `cpus` processors:
/// two for each processor, and 32 at most.
pub open spec fn queue_count(cpus: int) -> int {
    if 2 * cpus < 32 {
        2 * cpus
    } else {
        32
    }
}

/// Calls `num_cpus::get`, which returns the number of processors that the
/// process may use. Its documentation says that this is 1 at least; the
/// contract says no more.
#[verifier::external_body]
fn available_cpus() -> (n: usize)
    ensures
        n >= 1,
{
    num_cpus::get()
}

/// The number of completion queues for a machine with `cpus` processors.
pub fn completion_queue_count(cpus: usize) -> (n: usize)
    ensures
        n == queue_count(cpus as int),
{
    if cpus >= 16 {
        MAX_COMPLETION_QUEUES
    } else {
        cpus * 2
    }
}

/// The number of completion queues for this machine. Whatever the number
/// of its processors, there are two queues at least, 32 at most, and an
/// even number of them.
pub fn completion_queues() -> (n: usize)
    ensures
        2 <= n <= 32,
        n % 2 == 0,
{
    completion_queue_count(available_cpus())
}

} // verus!
