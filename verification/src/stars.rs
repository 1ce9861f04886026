//! The fixed star field: positions sampled once at startup, uniformly
//! over the screen, and never mutated afterward. The field always holds
//! exactly the requested number of stars, each within the screen bounds —
//! the construction establishes the size invariant rather than checking
//! it after the fact.

use vstd::prelude::*;

verus! {

/// Relies on rand::random_range over `0..n`: a sample from the
/// thread-local generator, uniform over the half-open range; it panics
/// only on an empty range, which the precondition excludes. Nothing more
/// is assumed of the value than its range.
#[verifier::external_body]
fn random_below(n: u64) -> (r: u64)
    requires
        n >= 1,
    ensures
        r < n,
{
    rand::random_range(0..n)
}

/// The immutable star field, in pixels times SCALE.
pub struct StarField {
    pub points: Vec<(i64, i64)>,
}

impl StarField {
    /// All positions within the square screen of the given pixel size.
    pub open spec fn wf(self, screen: int) -> bool {
        forall|k: int|
            0 <= k < self.points@.len() ==> (0 <= #[trigger] self.points@[k].0 < screen * 10000
                && 0 <= self.points@[k].1 < screen * 10000)
    }

    /// Sample `count` positions uniformly over the screen. The result
    /// holds exactly `count` stars, each within bounds, whatever the
    /// generator returns.
    pub fn random_sky(count: usize, screen: i64) -> (s: StarField)
        requires
            1 <= screen <= 100000,
        ensures
            s.points@.len() == count,
            s.wf(screen as int),
    {
        let bound: u64 = (screen as u64) * 10000;
        let mut points: Vec<(i64, i64)> = Vec::new();
        let mut k: usize = 0;
        while k < count
            invariant
                k <= count,
                points@.len() == k,
                bound == screen * 10000,
                1 <= screen <= 100000,
                forall|m: int|
                    0 <= m < k ==> (0 <= #[trigger] points@[m].0 < screen * 10000 && 0
                        <= points@[m].1 < screen * 10000),
            decreases count - k,
        {
            let x = random_below(bound);
            let y = random_below(bound);
            points.push(((x as i64), (y as i64)));
            k = k + 1;
        }
        StarField { points }
    }

    /// The sampled positions, for the renderer.
    pub fn points(&self) -> (r: &Vec<(i64, i64)>)
        ensures
            r == &self.points,
    {
        &self.points
    }
}

} // verus!
