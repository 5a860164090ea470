//! Alternative way to instantiate [`HashRng`]: pick the seed and the hash
//! function in either order. Both paths are plain factories that delegate
//! to [`HashRng::from_seed`], so a generator built here behaves exactly
//! like one built directly.

use core::marker::PhantomData;

use vstd::prelude::*;

use crate::hashes::BlockDigest;
use crate::rng::HashRng;
use crate::seed::Seed;

verus! {

/// Specifies a seed to use.
pub fn with_seed(seed: Seed) -> (r: WithSeed)
    ensures
        r.seed@ == seed@,
{
    WithSeed { seed }
}

/// Specifies a hash function to use.
pub fn with_digest<D: BlockDigest>() -> (r: WithDigest<D>) {
    WithDigest { hash: PhantomData }
}

/// Builder that holds a seed.
pub struct WithSeed {
    /// The seed the generator will be constructed from.
    pub seed: Seed,
}

impl WithSeed {
    /// Specifies a choice of hash function and returns the generator, the
    /// same one direct construction from the seed yields.
    pub fn with_digest<D: BlockDigest>(self) -> (r: HashRng<D>)
        ensures
            r.wf(),
            r.seed_model() == self.seed@,
            r.consumed() == 0,
    {
        HashRng::<D>::from_seed(self.seed)
    }
}

/// Builder that holds a choice of hash function.
pub struct WithDigest<D: BlockDigest> {
    hash: PhantomData<D>,
}

impl<D: BlockDigest> WithDigest<D> {
    /// Specifies a seed to use and returns the generator, the same one
    /// direct construction from the seed yields.
    pub fn with_seed(&self, seed: Seed) -> (r: HashRng<D>)
        ensures
            r.wf(),
            r.seed_model() == seed@,
            r.consumed() == 0,
    {
        HashRng::<D>::from_seed(seed)
    }
}

} // verus!
