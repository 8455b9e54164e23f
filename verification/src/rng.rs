use rand::rngs::StdRng;
use rand::Rng;
use vstd::prelude::*;

verus! {

#[verifier::external_type_specification]
#[verifier::external_body]
pub struct ExStdRng(StdRng);

/// Calls `Rng::random_range` with the range `0..=max`.
/// Trusted: the draw lies in that range; which value comes is left to chance.
#[verifier::external_body]
pub(crate) fn random_up_to(rng: &mut StdRng, max: usize) -> (r: usize)
    ensures
        r <= max,
{
    rng.random_range(0..=max)
}

/// A record of the draws made through it, oldest first, each as the pair `(max, value)` of
/// its range `0..=max` and the value drawn: a draw is the only way to add one.
pub struct DrawLog {
    drawn: Ghost<Seq<(usize, usize)>>,
}

impl DrawLog {
    /// The draws made so far, oldest first, each as `(max, value)`.
    pub closed spec fn draws(&self) -> Seq<(usize, usize)> {
        self.drawn@
    }

    /// A record with no draws.
    pub fn new() -> (log: Self)
        ensures
            log.draws() == Seq::<(usize, usize)>::empty(),
    {
        DrawLog { drawn: Ghost(Seq::empty()) }
    }

    /// Draws a value in `0..=max` from `rng` and records it.
    pub fn draw(&mut self, rng: &mut StdRng, max: usize) -> (r: usize)
        ensures
            r <= max,
            final(self).draws() == old(self).draws().push((max, r)),
    {
        let r = random_up_to(rng, max);
        self.drawn = Ghost(self.drawn@.push((max, r)));
        r
    }
}

} // verus!
