//! The staggered start: before each worker is launched, the launcher waits for
//! a random time, so worker `i` starts when the first `i + 1` delays have
//! passed.

use rand::Rng;
use vstd::prelude::*;

verus! {

/// Start delays are drawn from zero up to, but not including, this many
/// milliseconds.
pub const START_DELAY_BOUND_MS: u64 = 1500;

/// The time that the first `count` delays take together.
pub open spec fn elapsed(delays: Seq<u64>, count: int) -> nat
    decreases count,
{
    if count <= 0 {
        0
    } else {
        elapsed(delays, count - 1) + delays[count - 1] as nat
    }
}

/// The instant at which the worker at `index` starts: when its own delay and
/// all delays before it have passed, or the last instant there is.
pub open spec fn start_of(delays: Seq<u64>, index: int) -> u64 {
    if elapsed(delays, index + 1) > u64::MAX {
        u64::MAX
    } else {
        elapsed(delays, index + 1) as u64
    }
}

/// The generator of the current thread, of the `rand` crate. Nothing of what
/// is inside it is known here.
#[verifier::external_type_specification]
#[verifier::external_body]
pub struct ExThreadRng(rand::rngs::ThreadRng);

/// `rand::thread_rng` hands out the generator of the current thread. It takes
/// no argument and panics only where the system cannot seed the generator.
/// Nothing is claimed of what it returns.
pub assume_specification[ rand::thread_rng ]() -> (rng: rand::rngs::ThreadRng);

/// Calls `Rng::gen_range` of the `rand` crate. The crate documents that the
/// value lies in `[low, high)` and that the call panics unless `low < high`;
/// which value comes out is left open.
#[verifier::external_body]
fn gen_range(rng: &mut rand::rngs::ThreadRng, low: u64, high: u64) -> (value: u64)
    requires
        low < high,
    ensures
        low <= value < high,
{
    rng.gen_range(low, high)
}

/// Draws one start delay for each of `n` workers. Nothing is known of the
/// delays but their number and that each is below the bound.
pub fn draw_start_delays(n: usize) -> (delays: Vec<u64>)
    ensures
        delays.len() == n,
        forall|i: int| 0 <= i < n ==> #[trigger] delays[i] < START_DELAY_BOUND_MS,
{
    let mut rng = rand::thread_rng();
    let mut delays: Vec<u64> = Vec::new();
    let mut i: usize = 0;
    while i < n
        invariant
            i <= n,
            delays.len() == i,
            forall|j: int| 0 <= j < i ==> #[trigger] delays[j] < START_DELAY_BOUND_MS,
        decreases n - i,
    {
        let delay = gen_range(&mut rng, 0, START_DELAY_BOUND_MS);
        delays.push(delay);
        i += 1;
    }
    delays
}

/// The start instants that a sequence of delays leads to: the running sums of
/// the delays.
pub fn start_times(delays: &Vec<u64>) -> (starts: Vec<u64>)
    ensures
        starts.len() == delays.len(),
        forall|i: int| 0 <= i < delays.len() ==> #[trigger] starts[i] == start_of(delays@, i),
{
    let mut starts: Vec<u64> = Vec::new();
    let mut now: u64 = 0;
    let mut i: usize = 0;
    while i < delays.len()
        invariant
            i <= delays.len(),
            starts.len() == i,
            now == if elapsed(delays@, i as int) > u64::MAX {
                u64::MAX
            } else {
                elapsed(delays@, i as int) as u64
            },
            forall|j: int| 0 <= j < i ==> #[trigger] starts[j] == start_of(delays@, j),
        decreases delays.len() - i,
    {
        now = now.saturating_add(delays[i]);
        starts.push(now);
        i += 1;
    }
    starts
}

} // verus!
