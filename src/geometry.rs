use crate::errors::AllColorsError;
use vstd::prelude::*;

verus! {

/// A grid coordinate.
#[derive(Debug, Clone, Copy, PartialEq, Eq, Structural, Hash)]
pub struct Point {
    pub x: usize,
    pub y: usize,
}

impl Point {
    pub fn new(x: usize, y: usize) -> (r: Point)
        ensures
            r.x == x,
            r.y == y,
    {
        Point { x, y }
    }
}

/// Width and height of a grid.
#[derive(Debug, Clone, Copy, PartialEq, Eq, Structural, Hash)]
pub struct Size {
    pub width: usize,
    pub height: usize,
}

/// Euclidean (never negative) remainder of `v` by a positive `m`.
pub open spec fn euclid_mod(v: int, m: int) -> int {
    v % m
}

/// Linear index of a point in a row-major grid of the given width.
pub open spec fn index_of(p: Point, width: int) -> int {
    p.x + p.y * width
}

/// Point of a linear index in a row-major grid of the given width.
pub open spec fn point_of(i: int, width: int) -> Point {
    Point { x: (i % width) as usize, y: (i / width) as usize }
}

impl Size {
    /// Neither side is zero and the area fits in `usize`.
    pub open spec fn valid(self) -> bool {
        &&& self.width > 0
        &&& self.height > 0
        &&& self.width * self.height <= usize::MAX
    }

    pub open spec fn spec_area(self) -> int {
        self.width * self.height
    }

    pub open spec fn contains(self, p: Point) -> bool {
        p.x < self.width && p.y < self.height
    }

    pub open spec fn contains_xy(self, x: int, y: int) -> bool {
        0 <= x < self.width && 0 <= y < self.height
    }

    /// The point of `(x, y)` on the torus of this size.
    pub open spec fn wrapped(self, x: int, y: int) -> Point {
        Point {
            x: euclid_mod(x, self.width as int) as usize,
            y: euclid_mod(y, self.height as int) as usize,
        }
    }

    pub fn new(width: usize, height: usize) -> (r: Size)
        ensures
            r.width == width,
            r.height == height,
    {
        Size { width, height }
    }

    pub fn area(&self) -> (r: usize)
        requires
            self.width * self.height <= usize::MAX,
        ensures
            r == self.spec_area(),
    {
        self.width * self.height
    }

    /// The point `(x, y)` if it lies inside the grid.
    pub fn validate_xy(&self, x: isize, y: isize) -> (r: Result<Point, AllColorsError>)
        ensures
            self.contains_xy(x as int, y as int) ==> r == Ok::<Point, AllColorsError>(
                Point { x: x as usize, y: y as usize },
            ),
            !self.contains_xy(x as int, y as int) ==> r == Err::<Point, AllColorsError>(
                AllColorsError::OutOfBounds(x, y),
            ),
    {
        match checked_coord(x as i128, self.width) {
            Some(vx) => match checked_coord(y as i128, self.height) {
                Some(vy) => Ok(Point { x: vx, y: vy }),
                None => Err(AllColorsError::OutOfBounds(x, y)),
            },
            None => Err(AllColorsError::OutOfBounds(x, y)),
        }
    }

    /// The point itself if it lies inside the grid.
    pub fn validate_point(&self, point: Point) -> (r: Result<Point, AllColorsError>)
        ensures
            self.contains(point) ==> r == Ok::<Point, AllColorsError>(point),
            !self.contains(point) ==> r == Err::<Point, AllColorsError>(
                AllColorsError::InvalidPoint(point),
            ),
    {
        if point.x >= self.width || point.y >= self.height {
            Err(AllColorsError::InvalidPoint(point))
        } else {
            Ok(point)
        }
    }

    /// `(x, y)` reduced onto the grid with Euclidean remainders (torus).
    pub fn wrap_xy(&self, x: isize, y: isize) -> (r: Point)
        requires
            self.width > 0,
            self.height > 0,
        ensures
            r == self.wrapped(x as int, y as int),
    {
        Point { x: wrap_coord(x as i128, self.width), y: wrap_coord(y as i128, self.height) }
    }

    /// A point reduced onto the grid with remainders (torus).
    pub fn wrap_point(&self, point: Point) -> (r: Point)
        requires
            self.width > 0,
            self.height > 0,
        ensures
            r == self.wrapped(point.x as int, point.y as int),
    {
        Point { x: point.x % self.width, y: point.y % self.height }
    }
}

/// A point inside the grid has a linear index inside `[0, area)`.
pub proof fn lemma_index_in_range(size: Size, p: Point)
    requires
        size.contains(p),
    ensures
        0 <= index_of(p, size.width as int) < size.spec_area(),
{
    let w = size.width as int;
    let h = size.height as int;
    assert(p.x + p.y * w < h * w) by (nonlinear_arith)
        requires
            p.x < w,
            p.y < h,
    ;
    assert(p.y * w >= 0) by (nonlinear_arith)
        requires
            p.y >= 0,
            w >= 0,
    ;
}

/// Linear indices and points inside the grid correspond one to one.
pub proof fn lemma_index_point(size: Size, p: Point)
    requires
        size.contains(p),
    ensures
        point_of(index_of(p, size.width as int), size.width as int) == p,
{
    let w = size.width as int;
    vstd::arithmetic::div_mod::lemma_fundamental_div_mod_converse(p.x + p.y * w, w, p.y as int, p.x as int);
}

/// The point of an index inside `[0, area)` lies inside the grid, and has that index.
pub proof fn lemma_point_index(size: Size, i: int)
    requires
        size.valid(),
        0 <= i < size.spec_area(),
    ensures
        size.contains(point_of(i, size.width as int)),
        index_of(point_of(i, size.width as int), size.width as int) == i,
{
    let w = size.width as int;
    let h = size.height as int;
    vstd::arithmetic::div_mod::lemma_fundamental_div_mod(i, w);
    vstd::arithmetic::div_mod::lemma_mod_pos_bound(i, w);
    vstd::arithmetic::div_mod::lemma_div_pos_is_pos(i, w);
    let q = i / w;
    assert(q < h) by (nonlinear_arith)
        requires
            i == w * q + i % w,
            0 <= i % w,
            i < w * h,
            w > 0,
    ;
    assert(q * w == w * q) by (nonlinear_arith);
}

/// Two points inside the grid with the same index are the same point.
pub proof fn lemma_index_injective(size: Size, p: Point, q: Point)
    requires
        size.contains(p),
        size.contains(q),
        index_of(p, size.width as int) == index_of(q, size.width as int),
    ensures
        p == q,
{
    lemma_index_point(size, p);
    lemma_index_point(size, q);
}

/// The linear index of a point inside the grid.
pub fn index_in(size: &Size, p: &Point) -> (r: usize)
    requires
        size.valid(),
        size.contains(*p),
    ensures
        r == index_of(*p, size.width as int),
        r < size.spec_area(),
{
    proof {
        lemma_index_in_range(*size, *p);
    }
    p.x + p.y * size.width
}

/// The point of a linear index inside the grid.
pub fn point_in(size: &Size, i: usize) -> (r: Point)
    requires
        size.valid(),
        i < size.spec_area(),
    ensures
        r == point_of(i as int, size.width as int),
        size.contains(r),
{
    proof {
        lemma_point_index(*size, i as int);
    }
    Point { x: i % size.width, y: i / size.width }
}

/// `v` as an index below `bound`, if it is one.
pub(crate) fn checked_coord(v: i128, bound: usize) -> (r: Option<usize>)
    ensures
        0 <= v < bound ==> r == Some(v as usize),
        !(0 <= v < bound) ==> r is None,
{
    if v < 0 || v >= bound as i128 {
        None
    } else {
        Some(v as usize)
    }
}

/// Euclidean remainder of `v` by a positive `m`.
pub(crate) fn wrap_coord(v: i128, m: usize) -> (r: usize)
    requires
        m > 0,
        -0x1_0000_0000_0000_0000_0000 <= v <= 0x1_0000_0000_0000_0000_0000,
    ensures
        r == euclid_mod(v as int, m as int),
{
    if v >= 0 {
        let r = (v as u128 % m as u128) as usize;
        r
    } else {
        let k: u128 = (-(v + 1)) as u128;
        let rem: u128 = k % (m as u128);
        proof {
            lemma_negative_mod(k as int, m as int);
        }
        (m as u128 - 1 - rem) as usize
    }
}

proof fn lemma_negative_mod(k: int, m: int)
    requires
        k >= 0,
        m > 0,
    ensures
        (-(k + 1)) % m == m - 1 - k % m,
{
    vstd::arithmetic::div_mod::lemma_fundamental_div_mod(k, m);
    let q = k / m;
    let r = k % m;
    assert(-(k + 1) == (-q - 1) * m + (m - 1 - r)) by (nonlinear_arith)
        requires
            k == m * q + r,
    ;
    vstd::arithmetic::div_mod::lemma_mod_pos_bound(k, m);
    vstd::arithmetic::div_mod::lemma_fundamental_div_mod_converse(-(k + 1), m, -q - 1, m - 1 - r);
}

} // verus!
