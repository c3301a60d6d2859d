//! Random sequences to sort.

use rand::distributions::Uniform;
use rand::Rng;
use vstd::prelude::*;

verus! {

/// `Rng::sample` of rand, on the generator of the thread that
/// `thread_rng` gives, with the distribution `Uniform::new(floor, ceil)`:
/// a value of the half-open range from `floor` to `ceil`. `Uniform::new`
/// panics where `floor` is not below `ceil`, which the `requires` leaves
/// out; the generator of the thread panics where the system gives it no
/// entropy when it is made, when it takes a new seed, or when it is set up
/// to take one after a fork.
/// Which value of the range comes out is up to the generator.
#[verifier::external_body]
fn sample_uniform(floor: usize, ceil: usize) -> (r: usize)
    requires
        floor < ceil,
    ensures
        floor <= r < ceil,
{
    rand::thread_rng().sample(Uniform::new(floor, ceil))
}

/// A sequence of `n` random values, each at least `floor` and below `ceil`.
pub fn gen_random_vector(floor: usize, ceil: usize, n: usize) -> (v: Vec<usize>)
    requires
        floor < ceil,
    ensures
        v@.len() == n,
        forall|i: int| 0 <= i < n ==> floor <= #[trigger] v@[i] < ceil,
{
    let mut v: Vec<usize> = Vec::new();
    let mut i: usize = 0;
    while i < n
        invariant
            floor < ceil,
            i <= n,
            v@.len() == i,
            forall|k: int| 0 <= k < i ==> floor <= #[trigger] v@[k] < ceil,
        decreases n - i,
    {
        let x = sample_uniform(floor, ceil);
        v.push(x);
        i = i + 1;
    }
    v
}

} // verus!
