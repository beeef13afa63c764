//! The seeded stream of random numbers that placement draws from.
//!
//! The generator is the xorshift generator of the `rand_xorshift` crate,
//! sampled through the `rand` crate. What it returns is not specified here
//! beyond its range: every function that draws is proved for whatever value
//! comes back, and the stream keeps a record of the values drawn so that
//! results can be stated in terms of them.

use vstd::prelude::*;
use rand::{Rng, SeedableRng};
use rand_xorshift::XorShiftRng;
use crate::error::ProcgenError;

verus! {

/// `rand_xorshift::XorShiftRng`. Nothing inside it is visible here.
#[verifier::external_type_specification]
#[verifier::external_body]
pub struct ExXorShiftRng(XorShiftRng);

/// `SeedableRng::seed_from_u64` for `XorShiftRng`: a generator whose state
/// is derived from `seed`. Nothing is claimed of the state.
#[verifier::external_body]
fn xorshift_from_seed(seed: u64) -> XorShiftRng {
    XorShiftRng::seed_from_u64(seed)
}

/// `Rng::gen_range` on a half-open range of `i64`. The call panics on an
/// empty range; on any other it returns a value of the range.
#[verifier::external_body]
fn xorshift_gen_range(rng: &mut XorShiftRng, low: i64, high: i64) -> (v: i64)
    requires
        low < high,
    ensures
        low <= v < high,
{
    rng.gen_range(low..high)
}

/// A stream of random numbers with a record of what was drawn from it.
pub struct RandomStream {
    rng: XorShiftRng,
    drawn: Ghost<Seq<i64>>,
}

impl View for RandomStream {
    type V = Seq<i64>;

    /// The values drawn so far, oldest first.
    closed spec fn view(&self) -> Seq<i64> {
        self.drawn@
    }
}

impl RandomStream {
    /// A stream seeded with `seed`, from which nothing has been drawn.
    pub fn seeded(seed: u64) -> (stream: RandomStream)
        ensures
            stream@ == Seq::<i64>::empty(),
    {
        RandomStream { rng: xorshift_from_seed(seed), drawn: Ghost(Seq::empty()) }
    }

    /// Draws a value from `low` up to, but not including, `high`.
    pub fn gen_range(&mut self, low: i64, high: i64) -> (v: i64)
        requires
            low < high,
        ensures
            low <= v < high,
            final(self)@ == old(self)@.push(v),
    {
        let v: i64 = xorshift_gen_range(&mut self.rng, low, high);
        proof {
            self.drawn@ = self.drawn@.push(v);
        }
        v
    }
}

/// Draws a distance from `low` up to, but not including, `high`. An empty
/// range is refused with `InvalidRange`, and nothing is drawn.
pub fn rand_dist(rng: &mut RandomStream, low: i64, high: i64) -> (r: Result<i64, ProcgenError>)
    ensures
        r.is_err() <==> high <= low,
        r matches Err(e) ==> e == ProcgenError::InvalidRange && final(rng)@ == old(rng)@,
        r matches Ok(v) ==> low <= v < high && final(rng)@ == old(rng)@.push(v),
{
    if high <= low {
        return Err(ProcgenError::InvalidRange);
    }
    Ok(rng.gen_range(low, high))
}

} // verus!
