use crate::color::{color_dist, Color};
use crate::geometry::Point;
use crate::grid::{colored_neighbors, Grid};
use vstd::prelude::*;

verus! {

pub open spec fn min_usize(a: usize, b: usize) -> usize {
    if a <= b {
        a
    } else {
        b
    }
}

pub open spec fn sat(v: int) -> usize {
    if v > usize::MAX {
        usize::MAX
    } else {
        v as usize
    }
}

/// The least squared distance from `c` to any of `colors`; `usize::MAX` for none.
pub open spec fn least_dist(colors: Seq<Color>, c: Color) -> usize
    decreases colors.len(),
{
    if colors.len() == 0 {
        usize::MAX
    } else {
        min_usize(least_dist(colors.drop_last(), c), color_dist(colors.last(), c) as usize)
    }
}

/// Squared distance between two points.
pub open spec fn point_dist(a: Point, b: Point) -> int {
    let dx = if a.x >= b.x {
        a.x - b.x
    } else {
        b.x - a.x
    };
    let dy = if a.y >= b.y {
        a.y - b.y
    } else {
        b.y - a.y
    };
    dx * dx + dy * dy
}

/// Scores how well a color fits a position of a grid; lower is better.
pub trait PixelFitter {
    /// The score of `color` at the cell `pos`, whose neighbor list is `nbrs`.
    spec fn spec_fit(
        &self,
        cells: Seq<Option<Color>>,
        nbrs: Seq<Point>,
        width: int,
        pos: Point,
        color: Color,
    ) -> usize;

    fn calculate_fit(&self, grid: &Grid, pos: &Point, color: &Color) -> (r: usize)
        requires
            grid.wf(),
            grid.spec_size().contains(*pos),
        ensures
            r == self.spec_fit(
                grid.cells(),
                grid.neighbors_of(*pos),
                grid.spec_width(),
                *pos,
                *color,
            ),
    ;
}

fn sat_add(a: usize, b: usize) -> (r: usize)
    ensures
        r == sat(a + b),
{
    a.saturating_add(b)
}

fn sat_mul(a: usize, b: usize) -> (r: usize)
    ensures
        r == sat(a * b),
{
    match a.checked_mul(b) {
        Some(v) => v,
        None => usize::MAX,
    }
}

/// Squared distance between two points, saturating at `usize::MAX`.
pub fn point_distance(start_pos: &Point, pos: &Point) -> (r: usize)
    ensures
        r == sat(point_dist(*start_pos, *pos)),
{
    let dx = if start_pos.x >= pos.x {
        start_pos.x - pos.x
    } else {
        pos.x - start_pos.x
    };
    let dy = if start_pos.y >= pos.y {
        start_pos.y - pos.y
    } else {
        pos.y - start_pos.y
    };
    sat_add(sat_mul(dx, dx), sat_mul(dy, dy))
}

/// Squared channel distance of two colors.
pub fn color_distance(first: &Color, second: &Color) -> (r: usize)
    ensures
        r == color_dist(*first, *second),
        r <= 195075,
{
    first.dist(second)
}

/// Scores by the least color distance to the position's colored neighbors.
#[derive(Debug, Clone, Copy, PartialEq, Eq, Structural)]
pub struct ColorDistPixelFitter;

/// The least squared distance from `color` to any of `colors`; `usize::MAX`
/// for none.
pub fn least_color_distance(colors: &Vec<Color>, color: &Color) -> (r: usize)
    ensures
        r == least_dist(colors@, *color),
        colors@.len() > 0 ==> r <= 195075,
{
    let mut best: usize = usize::MAX;
    let mut j: usize = 0;
    while j < colors.len()
        invariant
            j <= colors@.len(),
            best == least_dist(colors@.take(j as int), *color),
            j > 0 ==> best <= 195075,
        decreases colors.len() - j,
    {
        assert(colors@.take(j + 1).drop_last() =~= colors@.take(j as int));
        let d = color_distance(color, &colors[j]);
        proof {
            assert(color_dist(*color, colors@[j as int]) == color_dist(colors@[j as int], *color))
                by (nonlinear_arith);
        }
        if d < best {
            best = d;
        }
        j = j + 1;
    }
    assert(colors@.take(colors@.len() as int) =~= colors@);
    best
}

impl PixelFitter for ColorDistPixelFitter {
    open spec fn spec_fit(
        &self,
        cells: Seq<Option<Color>>,
        nbrs: Seq<Point>,
        width: int,
        pos: Point,
        color: Color,
    ) -> usize {
        least_dist(colored_neighbors(cells, nbrs, width), color)
    }

    fn calculate_fit(&self, grid: &Grid, pos: &Point, color: &Color) -> (r: usize) {
        let colors = grid.get_neighbor_colors(pos);
        least_color_distance(&colors, color)
    }
}

/// Scores by the least color distance to the position's colored neighbors
/// plus the position's squared distance from a fixed start position.
#[derive(Debug, Clone, Copy, PartialEq, Eq, Structural)]
pub struct ColorAndPixelDistPixelFitter {
    pub start_pos: Point,
}

impl ColorAndPixelDistPixelFitter {
    pub fn new(start_pos: Point) -> (r: ColorAndPixelDistPixelFitter)
        ensures
            r.start_pos == start_pos,
    {
        ColorAndPixelDistPixelFitter { start_pos }
    }
}

impl PixelFitter for ColorAndPixelDistPixelFitter {
    /// `usize::MAX` when no neighbor of `pos` is colored; else the least
    /// color distance over the colored neighbors plus the squared distance
    /// of `pos` from the start position, saturating.
    open spec fn spec_fit(
        &self,
        cells: Seq<Option<Color>>,
        nbrs: Seq<Point>,
        width: int,
        pos: Point,
        color: Color,
    ) -> usize {
        let colors = colored_neighbors(cells, nbrs, width);
        if colors.len() == 0 {
            usize::MAX
        } else {
            sat(least_dist(colors, color) + point_dist(pos, self.start_pos))
        }
    }

    fn calculate_fit(&self, grid: &Grid, pos: &Point, color: &Color) -> (r: usize) {
        let colors = grid.get_neighbor_colors(pos);
        if colors.len() == 0 {
            return usize::MAX;
        }
        let d = least_color_distance(&colors, color);
        proof {
            assert(point_dist(*pos, self.start_pos) == point_dist(self.start_pos, *pos))
                by (nonlinear_arith);
        }
        sat_add(d, point_distance(&self.start_pos, pos))
    }
}

/// The fitness policies, as one closed set.
#[derive(Debug, Clone, Copy, PartialEq, Eq, Structural)]
pub enum FitPolicy {
    ColorDist(ColorDistPixelFitter),
    ColorAndPixelDist(ColorAndPixelDistPixelFitter),
}

impl PixelFitter for FitPolicy {
    open spec fn spec_fit(
        &self,
        cells: Seq<Option<Color>>,
        nbrs: Seq<Point>,
        width: int,
        pos: Point,
        color: Color,
    ) -> usize {
        match self {
            FitPolicy::ColorDist(f) => f.spec_fit(cells, nbrs, width, pos, color),
            FitPolicy::ColorAndPixelDist(f) => f.spec_fit(cells, nbrs, width, pos, color),
        }
    }

    fn calculate_fit(&self, grid: &Grid, pos: &Point, color: &Color) -> (r: usize) {
        match self {
            FitPolicy::ColorDist(f) => f.calculate_fit(grid, pos, color),
            FitPolicy::ColorAndPixelDist(f) => f.calculate_fit(grid, pos, color),
        }
    }
}

} // verus!
