use rand::rngs::StdRng;
use rand::{Rng, SeedableRng};
use vstd::prelude::*;

verus! {

#[verifier::external_type_specification]
#[verifier::external_body]
pub struct ExStdRng(StdRng);

/// A name for what rand 0.8's `gen_range(lo..=hi)` (on `u64`) returns from a
/// `StdRng` seeded by `StdRng::seed_from_u64(seed)` after the calls listed in
/// `history`.
pub uninterp spec fn range_draw(seed: u64, history: Seq<(int, int)>, lo: u64, hi: u64) -> u64;

/// A name for the order in which rand 0.8's `SliceRandom::shuffle` leaves a
/// slice of `len` items, on a `StdRng` seeded by `StdRng::seed_from_u64(seed)`
/// after the calls listed in `history`: item `k` afterwards is the one that
/// stood at index `order[k]` before.
pub uninterp spec fn shuffle_order(seed: u64, history: Seq<(int, int)>, len: nat) -> Seq<int>;

/// `s` rearranged so that item `k` is `s[order[k]]`.
pub open spec fn permuted<T>(s: Seq<T>, order: Seq<int>) -> Seq<T> {
    Seq::new(s.len(), |k: int| s[order[k]])
}

/// Relies on rand 0.8's `StdRng::seed_from_u64`.
#[verifier::external_body]
fn seeded_std_rng(seed: u64) -> (r: StdRng) {
    StdRng::seed_from_u64(seed)
}

/// A seeded generator that records, as ghost state, its seed and the calls
/// made on it so far: `(lo, hi)` for a draw from `lo..=hi`, `(-1, len)` for
/// a shuffle of `len` items. Each draw is then a function of the seed and
/// that history.
pub struct SeededRng {
    rng: StdRng,
    seed: Ghost<u64>,
    history: Ghost<Seq<(int, int)>>,
}

impl SeededRng {
    pub closed spec fn spec_seed(&self) -> u64 {
        self.seed@
    }

    pub closed spec fn history(&self) -> Seq<(int, int)> {
        self.history@
    }

    pub fn new(seed: u64) -> (r: SeededRng)
        ensures
            r.spec_seed() == seed,
            r.history() == Seq::<(int, int)>::empty(),
    {
        SeededRng { rng: seeded_std_rng(seed), seed: Ghost(seed), history: Ghost(Seq::empty()) }
    }

    /// Relies on rand 0.8's `Rng::gen_range` over `lo..=hi`: a value in that
    /// range, fixed by the seed and the calls before.
    #[verifier::external_body]
    pub fn gen_range_inclusive(&mut self, lo: u64, hi: u64) -> (r: u64)
        requires
            lo <= hi,
        ensures
            r == range_draw(old(self).spec_seed(), old(self).history(), lo, hi),
            lo <= r <= hi,
            final(self).spec_seed() == old(self).spec_seed(),
            final(self).history() == old(self).history().push((lo as int, hi as int)),
    {
        let r = self.rng.gen_range(lo..=hi);
        self.history = Ghost(self.history@.push((lo as int, hi as int)));
        r
    }

    /// Relies on rand 0.8's `SliceRandom::shuffle`: the same items, in an
    /// order fixed by the seed, the calls before and the length.
    #[verifier::external_body]
    pub fn shuffle<T>(&mut self, v: &mut Vec<T>)
        ensures
            final(v)@ == permuted(
                old(v)@,
                shuffle_order(old(self).spec_seed(), old(self).history(), old(v)@.len()),
            ),
            final(v)@.to_multiset() == old(v)@.to_multiset(),
            final(self).spec_seed() == old(self).spec_seed(),
            final(self).history() == old(self).history().push((-1, old(v)@.len() as int)),
    {
        let len = v.len();
        rand::seq::SliceRandom::shuffle(v.as_mut_slice(), &mut self.rng);
        self.history = Ghost(self.history@.push((-1, len as int)));
    }
}

} // verus!
