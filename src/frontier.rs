use crate::color::Color;
use crate::fitness::{FitPolicy, PixelFitter};
use crate::geometry::{point_in, Point};
use crate::grid::Grid;
use rayon::iter::{IntoParallelRefIterator, ParallelIterator};
use rustc_hash::{FxHashSet, FxHasher};
use vstd::prelude::*;

verus! {

#[verifier::external_type_specification]
#[verifier::external_body]
pub struct ExFxHasher(FxHasher);

#[verifier::external_type_specification]
#[verifier::external_body]
#[verifier::reject_recursive_types(H)]
pub struct ExBuildHasherDefault<H>(std::hash::BuildHasherDefault<H>);

/// Relies on `HashSet::insert` (hashing with rustc_hash's `FxHasher`): the
/// set gains the key.
#[verifier::external_body]
fn set_insert(s: &mut FxHashSet<usize>, k: usize)
    ensures
        final(s)@ == old(s)@.insert(k),
{
    s.insert(k);
}

/// Relies on `HashSet::remove` (hashing with rustc_hash's `FxHasher`): the
/// set loses the key.
#[verifier::external_body]
fn set_remove(s: &mut FxHashSet<usize>, k: usize)
    ensures
        final(s)@ == old(s)@.remove(k),
{
    s.remove(&k);
}

/// Relies on `HashSet::contains` (hashing with rustc_hash's `FxHasher`).
#[verifier::external_body]
fn set_contains(s: &FxHashSet<usize>, k: usize) -> (r: bool)
    ensures
        r == s@.contains(k),
{
    s.contains(&k)
}

/// The score of placing `c` at the cell with linear index `i`.
pub open spec fn index_score(
    fitter: FitPolicy,
    cells: Seq<Option<Color>>,
    adj: Seq<Seq<Point>>,
    width: int,
    i: int,
    c: Color,
) -> usize {
    fitter.spec_fit(cells, adj[i], width, crate::geometry::point_of(i, width), c)
}

/// `(score, index)` pairs ordered lexicographically: lower score first,
/// then lower index.
pub open spec fn key_le(s1: usize, i1: int, s2: usize, i2: int) -> bool {
    s1 < s2 || (s1 == s2 && i1 <= i2)
}

/// The member of `fr` below `n` with the least `(score, index)`, if any.
pub open spec fn best_below(
    fitter: FitPolicy,
    cells: Seq<Option<Color>>,
    adj: Seq<Seq<Point>>,
    width: int,
    fr: Set<usize>,
    c: Color,
    n: int,
) -> Option<usize>
    decreases n,
{
    if n <= 0 {
        None
    } else {
        let b = best_below(fitter, cells, adj, width, fr, c, n - 1);
        if fr.contains((n - 1) as usize) {
            match b {
                None => Some((n - 1) as usize),
                Some(i) => if index_score(fitter, cells, adj, width, n - 1, c) < index_score(
                    fitter,
                    cells,
                    adj,
                    width,
                    i as int,
                    c,
                ) {
                    Some((n - 1) as usize)
                } else {
                    Some(i)
                },
            }
        } else {
            b
        }
    }
}

/// `i` is a member of `fr` whose `(score, index)` is least.
pub open spec fn is_best(
    fitter: FitPolicy,
    cells: Seq<Option<Color>>,
    adj: Seq<Seq<Point>>,
    width: int,
    fr: Set<usize>,
    c: Color,
    i: usize,
) -> bool {
    &&& fr.contains(i)
    &&& forall|j: usize|
        #[trigger] fr.contains(j) ==> key_le(
            index_score(fitter, cells, adj, width, i as int, c),
            i as int,
            index_score(fitter, cells, adj, width, j as int, c),
            j as int,
        )
}

/// `best_below` finds the least member below `n`, and only when there is one.
pub proof fn lemma_best_below(
    fitter: FitPolicy,
    cells: Seq<Option<Color>>,
    adj: Seq<Seq<Point>>,
    width: int,
    fr: Set<usize>,
    c: Color,
    n: int,
)
    requires
        0 <= n <= usize::MAX + 1,
    ensures
        best_below(fitter, cells, adj, width, fr, c, n) matches Some(b) ==> {
            &&& fr.contains(b)
            &&& b < n
            &&& forall|j: usize|
                #[trigger] fr.contains(j) && j < n ==> key_le(
                    index_score(fitter, cells, adj, width, b as int, c),
                    b as int,
                    index_score(fitter, cells, adj, width, j as int, c),
                    j as int,
                )
        },
        best_below(fitter, cells, adj, width, fr, c, n) is None ==> forall|j: usize|
            #[trigger] fr.contains(j) ==> j >= n,
    decreases n,
{
    if n > 0 {
        lemma_best_below(fitter, cells, adj, width, fr, c, n - 1);
    }
}

/// Among members of `fr` below `n`, a least one is `best_below`'s.
pub proof fn lemma_best_unique(
    fitter: FitPolicy,
    cells: Seq<Option<Color>>,
    adj: Seq<Seq<Point>>,
    width: int,
    fr: Set<usize>,
    c: Color,
    i: usize,
    n: int,
)
    requires
        is_best(fitter, cells, adj, width, fr, c, i),
        i < n <= usize::MAX + 1,
    ensures
        best_below(fitter, cells, adj, width, fr, c, n) == Some(i),
{
    lemma_best_below(fitter, cells, adj, width, fr, c, n);
    let b = best_below(fitter, cells, adj, width, fr, c, n);
    assert(fr.contains(i));
    let bb = b.unwrap();
    assert(fr.contains(bb));
}

/// The pair that the scan orders candidates by: score, then index.
fn scan_key(grid: &Grid, fitter: &FitPolicy, i: usize, color: &Color) -> (r: (usize, usize))
    requires
        grid.wf(),
        i < grid.cells().len(),
    ensures
        r == (index_score(*fitter, grid.cells(), grid.adj(), grid.spec_width(), i as int, *color), i),
{
    let size = grid.size();
    let p = point_in(&size, i);
    proof {
        crate::geometry::lemma_point_index(size, i as int);
    }
    (fitter.calculate_fit(grid, &p, color), i)
}

/// Relies on rayon's parallel iteration over a `HashSet` and its
/// `ParallelIterator::min_by_key`: `None` for an empty set, else an item
/// whose key is least. The key `(score, index)` differs for distinct
/// indices, so the least one is unique whatever order the reduction takes.
#[verifier::external_body]
fn par_min_key(s: &FxHashSet<usize>, grid: &Grid, fitter: &FitPolicy, color: &Color) -> (r: Option<usize>)
    requires
        grid.wf(),
        forall|k: usize| #[trigger] s@.contains(k) ==> k < grid.cells().len(),
    ensures
        r is None <==> s@.is_empty(),
        r matches Some(i) ==> is_best(
            *fitter,
            grid.cells(),
            grid.adj(),
            grid.spec_width(),
            s@,
            *color,
            i,
        ),
{
    s.par_iter().min_by_key(|i| scan_key(grid, fitter, **i, color)).copied()
}

/// The frontier: uncolored cells (by linear index) next to colored ones.
pub struct Frontier {
    points: FxHashSet<usize>,
}

impl View for Frontier {
    type V = Set<usize>;

    closed spec fn view(&self) -> Set<usize> {
        self.points@
    }
}

impl Frontier {
    pub fn new() -> (r: Frontier)
        ensures
            r@ == Set::<usize>::empty(),
    {
        Frontier { points: FxHashSet::default() }
    }

    /// Adds a cell; adding it again changes nothing.
    pub fn insert(&mut self, index: usize)
        ensures
            final(self)@ == old(self)@.insert(index),
    {
        set_insert(&mut self.points, index);
    }

    pub fn remove(&mut self, index: usize)
        ensures
            final(self)@ == old(self)@.remove(index),
    {
        set_remove(&mut self.points, index);
    }

    pub fn contains(&self, index: usize) -> (r: bool)
        ensures
            r == self@.contains(index),
    {
        set_contains(&self.points, index)
    }

    pub fn is_empty(&self) -> (r: bool)
        ensures
            r == self@.is_empty(),
    {
        self.points.is_empty()
    }

    /// Scores every member in parallel and returns the one with the least
    /// score, the lowest index among equal scores; `None` when empty.
    pub fn best_position(&self, grid: &Grid, fitter: &FitPolicy, color: &Color) -> (r: Option<usize>)
        requires
            grid.wf(),
            forall|k: usize| #[trigger] self@.contains(k) ==> k < grid.cells().len(),
        ensures
            r == best_below(
                *fitter,
                grid.cells(),
                grid.adj(),
                grid.spec_width(),
                self@,
                *color,
                grid.cells().len() as int,
            ),
    {
        let r = par_min_key(&self.points, grid, fitter, color);
        proof {
            let n = grid.cells().len() as int;
            match r {
                Some(i) => {
                    lemma_best_unique(*fitter, grid.cells(), grid.adj(), grid.spec_width(), self@, *color, i, n);
                },
                None => {
                    lemma_best_below(*fitter, grid.cells(), grid.adj(), grid.spec_width(), self@, *color, n);
                    if best_below(*fitter, grid.cells(), grid.adj(), grid.spec_width(), self@, *color, n) is Some {
                        let b = best_below(*fitter, grid.cells(), grid.adj(), grid.spec_width(), self@, *color, n).unwrap();
                        assert(self@.contains(b));
                    }
                },
            }
        }
        r
    }
}

} // verus!
