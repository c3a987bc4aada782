//! Random numbers. They come from the thread's generator, which cannot be set
//! up where the system has no randomness to give.
use rand::{Rng, RngCore};
use vstd::prelude::*;

verus! {

/// `Rng::gen_range` on the thread's generator: an index below `n`, whichever
/// it is. It panics on an empty range.
#[verifier::external_body]
pub(crate) fn random_index(n: usize) -> (r: usize)
    requires
        0 < n,
    ensures
        r < n,
{
    rand::thread_rng().gen_range(0, n)
}

/// `RngCore::next_u32` on the thread's generator: any number may come out.
#[verifier::external_body]
pub(crate) fn random_u32() -> (r: u32) {
    rand::thread_rng().next_u32()
}

/// Whether an index below `n` was drawn, and came out as `r`. Two draws may
/// come out differently.
pub closed spec fn index_drawn(n: usize, r: usize) -> bool {
    call_ensures(random_index, (n,), r)
}

/// Whether a number was drawn, and came out as `r`. Two draws may come out
/// differently.
pub closed spec fn number_drawn(r: u32) -> bool {
    call_ensures(random_u32, (), r)
}

/// An index was drawn exactly if drawing one returned it.
pub(crate) proof fn lemma_index_drawn(n: usize, r: usize)
    ensures
        index_drawn(n, r) <==> call_ensures(random_index, (n,), r),
{
}

/// A number was drawn exactly if drawing one returned it.
pub(crate) proof fn lemma_number_drawn(r: u32)
    ensures
        number_drawn(r) <==> call_ensures(random_u32, (), r),
{
}

} // verus!
