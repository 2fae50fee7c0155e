use crate::color::{hue_of, Color};
use crate::rng::{permuted, shuffle_order, SeededRng};
use vstd::prelude::*;

verus! {

/// Relies on std's `slice::sort_by_key`, a stable sort, keyed by `Color::hue`:
/// the same colors, by non-decreasing hue.
#[verifier::external_body]
fn sort_by_hue(colors: &mut Vec<Color>)
    ensures
        final(colors)@.to_multiset() == old(colors)@.to_multiset(),
        forall|i: int, j: int|
            0 <= i < j < final(colors)@.len() ==> hue_of(final(colors)@[i]) <= hue_of(
                final(colors)@[j],
            ),
{
    colors.sort_by_key(|c| c.hue());
}

/// Puts the colors into the order in which they are placed.
pub trait ColorSorter {
    /// `after` is an order this sorter may give `before`.
    spec fn orders(&self, before: Seq<Color>, after: Seq<Color>) -> bool;

    fn sort_colors(&self, colors: &mut Vec<Color>)
        ensures
            final(colors)@.to_multiset() == old(colors)@.to_multiset(),
            self.orders(old(colors)@, final(colors)@),
    ;
}

/// A shuffle by a fresh generator with a fixed seed.
#[derive(Debug, Clone, Copy, PartialEq, Eq, Structural)]
pub struct RandColorSorter {
    pub seed: u64,
}

impl RandColorSorter {
    pub fn new(seed: u64) -> (r: RandColorSorter)
        ensures
            r.seed == seed,
    {
        RandColorSorter { seed }
    }
}

impl ColorSorter for RandColorSorter {
    open spec fn orders(&self, before: Seq<Color>, after: Seq<Color>) -> bool {
        after == permuted(before, shuffle_order(self.seed, Seq::empty(), before.len()))
    }

    fn sort_colors(&self, colors: &mut Vec<Color>) {
        let mut rng = SeededRng::new(self.seed);
        rng.shuffle(colors);
    }
}

/// Orders by hue.
#[derive(Debug, Clone, Copy, PartialEq, Eq, Structural)]
pub struct HueColorSorter;

impl HueColorSorter {
    /// The hue of a color in degrees.
    pub fn fast_hue(color: &Color) -> (r: usize)
        ensures
            r == hue_of(*color),
    {
        color.hue()
    }
}

impl ColorSorter for HueColorSorter {
    open spec fn orders(&self, before: Seq<Color>, after: Seq<Color>) -> bool {
        forall|i: int, j: int| 0 <= i < j < after.len() ==> hue_of(after[i]) <= hue_of(after[j])
    }

    fn sort_colors(&self, colors: &mut Vec<Color>) {
        sort_by_hue(colors);
    }
}

/// Keeps the given order.
#[derive(Debug, Clone, Copy, PartialEq, Eq, Structural)]
pub struct NoSorter;

impl ColorSorter for NoSorter {
    open spec fn orders(&self, before: Seq<Color>, after: Seq<Color>) -> bool {
        after == before
    }

    fn sort_colors(&self, colors: &mut Vec<Color>) {
    }
}

} // verus!
