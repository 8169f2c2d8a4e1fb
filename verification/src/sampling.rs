//! Random orders, and bounded samples taken in such an order.

use vstd::prelude::*;

verus! {

/// Whether `order` lists the indices below `n`, each once.
pub open spec fn is_permutation(order: Seq<usize>, n: int) -> bool {
    &&& order.len() == n
    &&& forall|i: int| 0 <= i < order.len() ==> #[trigger] order[i] < n
    &&& forall|i: int, j: int|
        0 <= i < j < order.len() ==> #[trigger] order[i] != #[trigger] order[j]
}

/// The order of `n` items that the seeded generator shuffles them into.
pub uninterp spec fn seeded_order(seed: u64, n: nat) -> Seq<usize>;

/// `SliceRandom::shuffle` of the indices below `n` with `StdRng::seed_from_u64`: each
/// index once, in an order that depends on the seed and on `n` alone.
#[verifier::external_body]
pub(crate) fn seeded_shuffle(seed: u64, n: usize) -> (r: Vec<usize>)
    ensures
        r@ == seeded_order(seed, n as nat),
        is_permutation(r@, n as int),
{
    let mut order: Vec<usize> = (0..n).collect();
    let mut rng = <rand::rngs::StdRng as rand::SeedableRng>::seed_from_u64(seed);
    rand::seq::SliceRandom::shuffle(&mut order[..], &mut rng);
    order
}

/// `SliceRandom::shuffle` of the indices below `n` with the thread's generator: each
/// index once. Which order comes out is left to chance.
#[verifier::external_body]
pub(crate) fn random_order(n: usize) -> (r: Vec<usize>)
    ensures
        is_permutation(r@, n as int),
{
    let mut order: Vec<usize> = (0..n).collect();
    rand::seq::SliceRandom::shuffle(&mut order[..], &mut rand::thread_rng());
    order
}

} // verus!
