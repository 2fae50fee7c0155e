use crate::color::Color;
use crate::errors::AllColorsError;
use crate::geometry::{index_in, index_of, point_in, point_of, Point, Size};
use vstd::prelude::*;

verus! {

/// Indices `i < n` whose cell has no color, in increasing order.
pub open spec fn uncolored_prefix(cells: Seq<Option<Color>>, n: int) -> Seq<usize>
    decreases n,
{
    if n <= 0 {
        Seq::empty()
    } else if cells[n - 1] is None {
        uncolored_prefix(cells, n - 1).push((n - 1) as usize)
    } else {
        uncolored_prefix(cells, n - 1)
    }
}

/// Colors of the colored cells among `nbrs`, in the order of `nbrs`.
pub open spec fn colored_neighbors(cells: Seq<Option<Color>>, nbrs: Seq<Point>, width: int) -> Seq<
    Color,
>
    decreases nbrs.len(),
{
    if nbrs.len() == 0 {
        Seq::empty()
    } else {
        let rest = colored_neighbors(cells, nbrs.drop_last(), width);
        match cells[index_of(nbrs.last(), width)] {
            Some(c) => rest.push(c),
            None => rest,
        }
    }
}

/// Every point of every neighbor list lies inside the grid.
pub open spec fn adjacency_in_bounds(size: Size, adj: Seq<Seq<Point>>) -> bool {
    forall|i: int, j: int|
        0 <= i < adj.len() && 0 <= j < adj[i].len() ==> size.contains(#[trigger] adj[i][j])
}

/// A copy of one cell: its position, color and neighbor list.
#[derive(Debug, PartialEq, Eq)]
pub struct Cell {
    pub position: Point,
    pub color: Option<Color>,
    pub neighbors: Vec<Point>,
}

impl Cell {
    /// An uncolored cell without neighbors.
    pub fn new(pos: Point) -> (r: Cell)
        ensures
            r.position == pos,
            r.color is None,
            r.neighbors@.len() == 0,
    {
        Cell { position: pos, color: None, neighbors: Vec::new() }
    }
}

/// One color slot and one neighbor list per cell, row-major.
pub struct Grid {
    size: Size,
    colors: Vec<Option<Color>>,
    neighbors: Vec<Vec<Point>>,
}

impl Grid {
    pub closed spec fn spec_size(&self) -> Size {
        self.size
    }

    /// The color slot of each cell, by linear index.
    pub closed spec fn cells(&self) -> Seq<Option<Color>> {
        self.colors@
    }

    /// The neighbor list of each cell, by linear index.
    pub closed spec fn adj(&self) -> Seq<Seq<Point>> {
        self.neighbors@.map_values(|v: Vec<Point>| v@)
    }

    pub open spec fn spec_width(&self) -> int {
        self.spec_size().width as int
    }

    pub open spec fn wf(&self) -> bool {
        &&& self.spec_size().valid()
        &&& self.cells().len() == self.spec_size().spec_area()
        &&& self.adj().len() == self.spec_size().spec_area()
        &&& adjacency_in_bounds(self.spec_size(), self.adj())
    }

    /// The color of the cell at point `p`.
    pub open spec fn color_of(&self, p: Point) -> Option<Color> {
        self.cells()[index_of(p, self.spec_width())]
    }

    /// The neighbor list of the cell at point `p`.
    pub open spec fn neighbors_of(&self, p: Point) -> Seq<Point> {
        self.adj()[index_of(p, self.spec_width())]
    }

    /// A grid of the given size with no colors and empty neighbor lists.
    pub fn new(size: Size) -> (r: Grid)
        requires
            size.valid(),
        ensures
            r.wf(),
            r.spec_size() == size,
            r.cells() == Seq::new(size.spec_area() as nat, |i: int| None::<Color>),
            r.adj() == Seq::new(size.spec_area() as nat, |i: int| Seq::<Point>::empty()),
    {
        let count = size.area();
        let mut colors: Vec<Option<Color>> = Vec::new();
        let mut neighbors: Vec<Vec<Point>> = Vec::new();
        let mut i: usize = 0;
        while i < count
            invariant
                i <= count,
                colors@ == Seq::new(i as nat, |k: int| None::<Color>),
                neighbors@.len() == i,
                forall|k: int| 0 <= k < i ==> (#[trigger] neighbors@[k])@ == Seq::<Point>::empty(),
            decreases count - i,
        {
            colors.push(None);
            neighbors.push(Vec::new());
            i = i + 1;
        }
        let r = Grid { size, colors, neighbors };
        assert(r.adj() =~= Seq::new(size.spec_area() as nat, |i: int| Seq::<Point>::empty()));
        r
    }

    pub fn size(&self) -> (r: Size)
        ensures
            r == self.spec_size(),
    {
        self.size
    }

    pub fn width(&self) -> (r: usize)
        ensures
            r == self.spec_size().width,
    {
        self.size.width
    }

    pub fn height(&self) -> (r: usize)
        ensures
            r == self.spec_size().height,
    {
        self.size.height
    }

    pub fn area(&self) -> (r: usize)
        requires
            self.wf(),
        ensures
            r == self.spec_size().spec_area(),
    {
        self.size.area()
    }

    /// The color of the cell at `point`, if it has one.
    pub fn get_color(&self, point: &Point) -> (r: Option<Color>)
        requires
            self.wf(),
            self.spec_size().contains(*point),
        ensures
            r == self.color_of(*point),
    {
        let index = index_in(&self.size, point);
        self.colors[index]
    }

    /// The grid point of `(x, y)`: wrapped onto the torus with `wrap`, else
    /// the point itself if it lies inside the grid.
    pub fn validate_xy(&self, x: isize, y: isize, wrap: bool) -> (r: Option<Point>)
        requires
            self.wf(),
        ensures
            r == crate::neighbors::resolve(self.spec_size(), Point { x: 0, y: 0 }, (x, y), wrap),
    {
        crate::neighbors::resolve_offset(&self.size, &Point { x: 0, y: 0 }, (x, y), wrap)
    }

    /// Gives the cell at `point` the color `color`.
    pub fn set_color(&mut self, point: &Point, color: &Color)
        requires
            old(self).wf(),
            old(self).spec_size().contains(*point),
        ensures
            final(self).wf(),
            final(self).spec_size() == old(self).spec_size(),
            final(self).adj() == old(self).adj(),
            final(self).cells() == old(self).cells().update(
                index_of(*point, old(self).spec_width()),
                Some(*color),
            ),
    {
        let index = index_in(&self.size, point);
        self.colors.set(index, Some(*color));
        assert(self.adj() =~= old(self).adj());
    }

    /// The neighbor list of the cell at `point`.
    pub fn get_neighbors(&self, point: &Point) -> (r: &[Point])
        requires
            self.wf(),
            self.spec_size().contains(*point),
        ensures
            r@ == self.neighbors_of(*point),
    {
        let index = index_in(&self.size, point);
        self.neighbors[index].as_slice()
    }

    /// Replaces the neighbor list of the cell at `point`.
    pub fn set_neighbors(&mut self, point: &Point, neighbors: Vec<Point>)
        requires
            old(self).wf(),
            old(self).spec_size().contains(*point),
            forall|j: int|
                0 <= j < neighbors@.len() ==> old(self).spec_size().contains(
                    #[trigger] neighbors@[j],
                ),
        ensures
            final(self).wf(),
            final(self).spec_size() == old(self).spec_size(),
            final(self).cells() == old(self).cells(),
            final(self).adj() == old(self).adj().update(
                index_of(*point, old(self).spec_width()),
                neighbors@,
            ),
    {
        let index = index_in(&self.size, point);
        self.neighbors.set(index, neighbors);
        assert(self.adj() =~= old(self).adj().update(index as int, neighbors@));
    }

    /// Colors of the neighbors of `point` that have one, in neighbor order.
    pub fn get_neighbor_colors(&self, point: &Point) -> (r: Vec<Color>)
        requires
            self.wf(),
            self.spec_size().contains(*point),
        ensures
            r@ == colored_neighbors(self.cells(), self.neighbors_of(*point), self.spec_width()),
    {
        let nbrs = self.get_neighbors(point);
        let mut out: Vec<Color> = Vec::new();
        let mut j: usize = 0;
        let ghost idx = index_of(*point, self.spec_width());
        proof {
            crate::geometry::lemma_index_in_range(self.spec_size(), *point);
        }
        while j < nbrs.len()
            invariant
                self.wf(),
                0 <= idx < self.adj().len(),
                nbrs@ == self.adj()[idx],
                j <= nbrs@.len(),
                out@ == colored_neighbors(self.cells(), nbrs@.take(j as int), self.spec_width()),
            decreases nbrs.len() - j,
        {
            assert(nbrs@.take(j + 1).drop_last() =~= nbrs@.take(j as int));
            assert(self.spec_size().contains(nbrs@[j as int]));
            match self.get_color(&nbrs[j]) {
                Some(c) => out.push(c),
                None => {},
            }
            j = j + 1;
        }
        assert(nbrs@.take(nbrs@.len() as int) =~= nbrs@);
        out
    }

    /// A copy of the cell at `pos`.
    pub fn get_cell(&self, pos: &Point) -> (r: Cell)
        requires
            self.wf(),
            self.spec_size().contains(*pos),
        ensures
            r.position == *pos,
            r.color == self.color_of(*pos),
            r.neighbors@ == self.neighbors_of(*pos),
    {
        let nbrs = self.get_neighbors(pos);
        let mut copy: Vec<Point> = Vec::new();
        let mut j: usize = 0;
        while j < nbrs.len()
            invariant
                j <= nbrs@.len(),
                copy@ == nbrs@.take(j as int),
            decreases nbrs.len() - j,
        {
            copy.push(nbrs[j]);
            j = j + 1;
            assert(copy@ =~= nbrs@.take(j as int));
        }
        assert(nbrs@.take(nbrs@.len() as int) =~= nbrs@);
        let mut cell = Cell::new(*pos);
        cell.color = self.get_color(pos);
        cell.neighbors = copy;
        cell
    }

    /// Points of the cells without a color, in row-major order.
    pub fn get_uncolored_points(&self) -> (r: Vec<Point>)
        requires
            self.wf(),
        ensures
            r@ == uncolored_prefix(self.cells(), self.cells().len() as int).map_values(
                |i: usize| point_of(i as int, self.spec_width()),
            ),
    {
        let n = self.area();
        let mut out: Vec<Point> = Vec::new();
        let mut i: usize = 0;
        while i < n
            invariant
                self.wf(),
                n == self.cells().len(),
                i <= n,
                out@ == uncolored_prefix(self.cells(), i as int).map_values(
                    |k: usize| point_of(k as int, self.spec_width()),
                ),
            decreases n - i,
        {
            if self.colors[i].is_none() {
                let p = point_in(&self.size, i);
                out.push(p);
                assert(out@ =~= uncolored_prefix(self.cells(), i + 1).map_values(
                    |k: usize| point_of(k as int, self.spec_width()),
                ));
            }
            i = i + 1;
        }
        out
    }

    /// All colors in row-major order, or the first cell that has none.
    pub fn to_colors(&self) -> (r: Result<Vec<Color>, AllColorsError>)
        requires
            self.wf(),
        ensures
            (forall|i: int| 0 <= i < self.cells().len() ==> (#[trigger] self.cells()[i]) is Some)
                <==> r is Ok,
            r matches Ok(v) ==> v@.len() == self.cells().len() && forall|i: int|
                0 <= i < v@.len() ==> self.cells()[i] == Some(#[trigger] v@[i]),
            r matches Err(e) ==> exists|i: int|
                0 <= i < self.cells().len() && self.cells()[i] is None && (forall|k: int|
                    0 <= k < i ==> (#[trigger] self.cells()[k]) is Some) && e
                    == AllColorsError::MissingColor(point_of(i, self.spec_width())),
    {
        let n = self.area();
        let mut out: Vec<Color> = Vec::new();
        let mut i: usize = 0;
        while i < n
            invariant
                self.wf(),
                n == self.cells().len(),
                i <= n,
                out@.len() == i,
                forall|k: int| 0 <= k < i ==> self.cells()[k] == Some(#[trigger] out@[k]),
            decreases n - i,
        {
            match self.colors[i] {
                Some(c) => out.push(c),
                None => {
                    let p = point_in(&self.size, i);
                    assert(forall|k: int| 0 <= k < i ==> (#[trigger] self.cells()[k]) is Some) by {
                        assert forall|k: int| 0 <= k < i implies (#[trigger] self.cells()[k]) is Some by {
                            assert(self.cells()[k] == Some(out@[k]));
                        }
                    }
                    return Err(AllColorsError::MissingColor(p));
                },
            }
            i = i + 1;
        }
        assert forall|k: int| 0 <= k < self.cells().len() implies (#[trigger] self.cells()[k]) is Some by {
            assert(self.cells()[k] == Some(out@[k]));
        }
        Ok(out)
    }
}

} // verus!
