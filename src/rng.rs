//! Random draws for track generation.
use vstd::prelude::*;
use rand::rngs::StdRng;
use rand::seq::SliceRandom;
use rand::Rng;
use rand::SeedableRng;
use crate::config::{kinds_wf, ObstacleKind};

verus! {

/// Whether some entry of the catalogue has a positive spawn weight.
pub open spec fn has_weight(kinds: Seq<ObstacleKind>) -> bool {
    exists|i: int| 0 <= i < kinds.len() && kinds[i].spawn_weight > 0
}

#[verifier::external_type_specification]
#[verifier::external_body]
pub struct ExStdRng(StdRng);

/// Relies on rand's `SeedableRng::seed_from_u64` for `StdRng`: a generator
/// whose draws are fixed by the seed.
#[verifier::external_body]
pub(crate) fn seeded(seed: u64) -> StdRng {
    StdRng::seed_from_u64(seed)
}

/// Relies on rand's `Rng::gen_range` over `lo..=hi`: a value of that range.
/// It panics on an empty range, which `requires` leaves out.
#[verifier::external_body]
pub(crate) fn draw_between(rng: &mut StdRng, lo: i64, hi: i64) -> (r: i64)
    requires
        lo <= hi,
    ensures
        lo <= r <= hi,
{
    rng.gen_range(lo..=hi)
}

/// Relies on rand's `SliceRandom::choose_weighted`, weighted by `spawn_weight`:
/// one entry of the catalogue, or none when no entry has a positive weight.
/// The limits of `kinds_wf` keep the sum of the weights within `u64`.
#[verifier::external_body]
pub(crate) fn draw_kind(rng: &mut StdRng, kinds: &Vec<ObstacleKind>) -> (r: Option<ObstacleKind>)
    requires
        kinds_wf(kinds@),
    ensures
        r.is_some() == has_weight(kinds@),
        r matches Some(k) ==> kinds@.contains(k),
{
    kinds.choose_weighted(rng, |k| k.spawn_weight).ok().copied()
}

} // verus!
