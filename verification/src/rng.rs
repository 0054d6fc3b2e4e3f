use vstd::prelude::*;

verus! {

/// The pseudo-random source threaded through one render call. A fresh one is
/// built per render, never shared across calls.
#[verifier::external_type_specification]
#[verifier::external_body]
pub struct ExStdRng(rand::rngs::StdRng);

/// Relies on `rand::SeedableRng::seed_from_u64` for `StdRng`: builds a
/// generator from the seed. Its output stream depends on the process's rand
/// build, so nothing is assumed of the values it will yield.
#[verifier::external_body]
pub fn rng_from_seed(seed: u64) -> (r: rand::rngs::StdRng) {
    <rand::rngs::StdRng as rand::SeedableRng>::seed_from_u64(seed)
}

/// Relies on `rand::SeedableRng::from_rng` and `rand::rng`: a fresh
/// generator seeded from the thread-local entropy source, one per render
/// call, exactly as drawing from `rand::rng` directly would be.
#[verifier::external_body]
pub fn rng_from_entropy() -> (r: rand::rngs::StdRng) {
    <rand::rngs::StdRng as rand::SeedableRng>::from_rng(&mut rand::rng())
}

/// Relies on `rand::RngExt::random_range` over an `i64` range: the sample
/// always lies in `[lo, hi)`; beyond that the draw is random and nothing is
/// assumed of it. The non-empty-range bound is required because the call
/// panics on an empty range.
#[verifier::external_body]
pub fn sample_range(rng: &mut rand::rngs::StdRng, lo: i64, hi: i64) -> (r: i64)
    requires
        lo < hi,
    ensures
        lo <= r < hi,
{
    rand::RngExt::random_range(rng, lo..hi)
}

/// Relies on `chrono::Local::now` and `chrono::Datelike::year`: the calendar
/// year of the local wall clock. The result depends on the clock, so nothing
/// is assumed of it.
#[verifier::external_body]
pub fn current_year() -> (y: i32) {
    chrono::Datelike::year(&chrono::Local::now())
}

} // verus!
