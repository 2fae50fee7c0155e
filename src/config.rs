use crate::color::Color;
use crate::errors::AllColorsError;
use crate::fitness::FitPolicy;
use crate::geometry::{Point, Size};
use crate::neighbors::{adjacency, OffsetNeighborComponent};
use vstd::prelude::*;

verus! {

/// What is wrong with the initial point at `j`, if anything: outside the
/// grid, or equal to an earlier one.
pub open spec fn point_problem(size: Size, pts: Seq<Point>, j: int) -> Option<AllColorsError> {
    if !size.contains(pts[j]) {
        Some(AllColorsError::InvalidPoint(pts[j]))
    } else if exists|i: int| 0 <= i < j && pts[i] == pts[j] {
        Some(AllColorsError::DuplicateInitialPoint(pts[j]))
    } else {
        None
    }
}

/// The problem of the first of the first `n` initial points that has one.
pub open spec fn first_point_problem(size: Size, pts: Seq<Point>, n: int) -> Option<
    AllColorsError,
>
    decreases n,
{
    if n <= 0 {
        None
    } else {
        match first_point_problem(size, pts, n - 1) {
            Some(e) => Some(e),
            None => point_problem(size, pts, n - 1),
        }
    }
}

proof fn lemma_first_problem_stays(size: Size, pts: Seq<Point>, j: int, n: int)
    requires
        0 <= j < n,
        first_point_problem(size, pts, j + 1) is Some,
    ensures
        first_point_problem(size, pts, n) == first_point_problem(size, pts, j + 1),
    decreases n - j,
{
    if n > j + 1 {
        lemma_first_problem_stays(size, pts, j, n - 1);
    }
}

/// The initial points that a run uses: the given ones, or the grid's center.
pub open spec fn effective_points(size: Size, pts: Seq<Point>) -> Seq<Point> {
    if pts.len() == 0 {
        seq![Point { x: (size.width / 2) as usize, y: (size.height / 2) as usize }]
    } else {
        pts
    }
}

/// The configuration error of a run, if any, in the order in which they are checked.
pub open spec fn config_problem(size: Size, n_colors: int, pts: Seq<Point>) -> Option<AllColorsError> {
    let eff = effective_points(size, pts);
    if !size.valid() {
        Some(AllColorsError::InvalidSize)
    } else if n_colors != size.spec_area() {
        Some(AllColorsError::ColorCountMismatch)
    } else if eff.len() > n_colors {
        Some(AllColorsError::TooManyInitialPoints)
    } else {
        first_point_problem(size, eff, eff.len() as int)
    }
}

/// Everything a run needs: the grid size, the colors in placement order,
/// the initial points, the neighborhood, the fitness policy and the seed
/// of the fallback draw.
pub struct ColorPlacerConfig {
    pub seed: u64,
    pub image_size: Size,
    pub initial_points: Vec<Point>,
    pub colors: Vec<Color>,
    pub neighbors: OffsetNeighborComponent,
    pub fitter: FitPolicy,
}

impl ColorPlacerConfig {
    pub open spec fn wf(&self) -> bool {
        &&& self.image_size.valid()
        &&& self.colors@.len() == self.image_size.spec_area()
        &&& self.initial_points@.len() <= self.colors@.len()
        &&& forall|j: int|
            0 <= j < self.initial_points@.len() ==> self.image_size.contains(
                #[trigger] self.initial_points@[j],
            )
        &&& self.initial_points@.no_duplicates()
    }

    /// The neighbor list of every cell.
    pub open spec fn spec_adj(&self) -> Seq<Seq<Point>> {
        adjacency(self.image_size, self.neighbors.offsets@, self.neighbors.wrap)
    }

    /// Checks a configuration; with no initial points the center is used.
    pub fn new(
        seed: u64,
        image_size: Size,
        colors: Vec<Color>,
        initial_points: Vec<Point>,
        neighbors: OffsetNeighborComponent,
        fitter: FitPolicy,
    ) -> (r: Result<ColorPlacerConfig, AllColorsError>)
        ensures
            config_problem(image_size, colors@.len() as int, initial_points@) matches Some(e) ==> r
                == Err::<ColorPlacerConfig, AllColorsError>(e),
            config_problem(image_size, colors@.len() as int, initial_points@) is None ==> (
            r matches Ok(c) && c.wf() && c.seed == seed && c.image_size == image_size
                && c.colors@ == colors@ && c.initial_points@ == effective_points(
                image_size,
                initial_points@,
            ) && c.neighbors == neighbors && c.fitter == fitter),
    {
        if image_size.width == 0 || image_size.height == 0 || image_size.height > usize::MAX
            / image_size.width {
            proof {
                if image_size.width > 0 && image_size.height > usize::MAX / image_size.width {
                    let w = image_size.width as int;
                    let h = image_size.height as int;
                    vstd::arithmetic::div_mod::lemma_fundamental_div_mod(usize::MAX as int, w);
                    vstd::arithmetic::div_mod::lemma_mod_pos_bound(usize::MAX as int, w);
                    let q = usize::MAX as int / w;
                    assert(w * h > usize::MAX) by (nonlinear_arith)
                        requires
                            h >= q + 1,
                            usize::MAX as int == w * q + (usize::MAX as int % w),
                            usize::MAX as int % w < w,
                            w > 0,
                    ;
                }
            }
            return Err(AllColorsError::InvalidSize);
        }
        proof {
            let w = image_size.width as int;
            let h = image_size.height as int;
            vstd::arithmetic::div_mod::lemma_fundamental_div_mod(usize::MAX as int, w);
            vstd::arithmetic::div_mod::lemma_mod_pos_bound(usize::MAX as int, w);
            let q = usize::MAX as int / w;
            assert(w * h <= usize::MAX) by (nonlinear_arith)
                requires
                    h <= q,
                    usize::MAX as int == w * q + (usize::MAX as int % w),
                    0 <= usize::MAX as int % w,
                    w > 0,
            ;
        }
        if colors.len() != image_size.area() {
            return Err(AllColorsError::ColorCountMismatch);
        }
        let mut points = initial_points;
        if points.len() == 0 {
            points.push(Point::new(image_size.width / 2, image_size.height / 2));
            assert(points@ =~= effective_points(image_size, initial_points@));
        }
        if points.len() > colors.len() {
            return Err(AllColorsError::TooManyInitialPoints);
        }
        let ghost eff = points@;
        assert(eff == effective_points(image_size, initial_points@));
        let mut j: usize = 0;
        while j < points.len()
            invariant
                eff == points@,
                eff == effective_points(image_size, initial_points@),
                image_size.valid(),
                colors@.len() == image_size.spec_area(),
                eff.len() <= colors@.len(),
                j <= points@.len(),
                first_point_problem(image_size, eff, j as int) is None,
                forall|i: int| 0 <= i < j ==> image_size.contains(#[trigger] eff[i]),
                forall|a: int, b: int| 0 <= a < b < j ==> eff[a] != eff[b],
            decreases points.len() - j,
        {
            let p = points[j];
            if p.x >= image_size.width || p.y >= image_size.height {
                proof {
                    lemma_first_problem_stays(image_size, eff, j as int, eff.len() as int);
                }
                return Err(AllColorsError::InvalidPoint(p));
            }
            let mut i: usize = 0;
            while i < j
                invariant
                    eff == points@,
                    i <= j < points@.len(),
                    p == eff[j as int],
                    image_size.contains(p),
                    image_size.valid(),
                    colors@.len() == image_size.spec_area(),
                    eff.len() <= colors@.len(),
                    first_point_problem(image_size, eff, j as int) is None,
                    eff == effective_points(image_size, initial_points@),
                    forall|a: int| 0 <= a < i ==> eff[a] != p,
                decreases j - i,
            {
                if points[i] == p {
                    proof {
                        assert(eff[i as int] == eff[j as int]);
                        assert(point_problem(image_size, eff, j as int) == Some(
                            AllColorsError::DuplicateInitialPoint(p),
                        ));
                        lemma_first_problem_stays(image_size, eff, j as int, eff.len() as int);
                    }
                    return Err(AllColorsError::DuplicateInitialPoint(p));
                }
                i = i + 1;
            }
            assert(point_problem(image_size, eff, j as int) is None);
            j = j + 1;
        }
        assert(points@.no_duplicates());
        Ok(ColorPlacerConfig { seed, image_size, initial_points: points, colors, neighbors, fitter })
    }
}

} // verus!
