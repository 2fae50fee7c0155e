use crate::geometry::{checked_coord, point_of, point_in, wrap_coord, Point, Size};
use crate::grid::{adjacency_in_bounds, Grid};
use crate::rng::{permuted, range_draw, shuffle_order, SeededRng};
use vstd::prelude::*;

verus! {

/// The neighbor that offset `off` gives `pos`: wrapped onto the torus, or
/// dropped when it falls outside the grid without wrapping.
pub open spec fn resolve(size: Size, pos: Point, off: (isize, isize), wrap: bool) -> Option<Point> {
    let nx = pos.x + off.0;
    let ny = pos.y + off.1;
    if wrap {
        Some(size.wrapped(nx, ny))
    } else if size.contains_xy(nx, ny) {
        Some(Point { x: nx as usize, y: ny as usize })
    } else {
        None
    }
}

/// The neighbors of `pos`, in the order of `offsets`.
pub open spec fn neighbor_list(size: Size, pos: Point, offsets: Seq<(isize, isize)>, wrap: bool) -> Seq<
    Point,
>
    decreases offsets.len(),
{
    if offsets.len() == 0 {
        Seq::empty()
    } else {
        let rest = neighbor_list(size, pos, offsets.drop_last(), wrap);
        match resolve(size, pos, offsets.last(), wrap) {
            Some(p) => rest.push(p),
            None => rest,
        }
    }
}

/// The adjacency of a whole grid: one neighbor list per linear index.
pub open spec fn adjacency(size: Size, offsets: Seq<(isize, isize)>, wrap: bool) -> Seq<Seq<Point>> {
    Seq::new(
        size.spec_area() as nat,
        |i: int| neighbor_list(size, crate::geometry::point_of(i, size.width as int), offsets, wrap),
    )
}

/// Every resolved neighbor lies inside the grid.
pub proof fn lemma_neighbor_list_in_bounds(
    size: Size,
    pos: Point,
    offsets: Seq<(isize, isize)>,
    wrap: bool,
)
    requires
        size.width > 0,
        size.height > 0,
    ensures
        forall|j: int|
            0 <= j < neighbor_list(size, pos, offsets, wrap).len() ==> size.contains(
                #[trigger] neighbor_list(size, pos, offsets, wrap)[j],
            ),
    decreases offsets.len(),
{
    if offsets.len() > 0 {
        lemma_neighbor_list_in_bounds(size, pos, offsets.drop_last(), wrap);
        let nx = pos.x + offsets.last().0;
        let ny = pos.y + offsets.last().1;
        vstd::arithmetic::div_mod::lemma_mod_bound(nx, size.width as int);
        vstd::arithmetic::div_mod::lemma_mod_bound(ny, size.height as int);
        let rest = neighbor_list(size, pos, offsets.drop_last(), wrap);
        let all = neighbor_list(size, pos, offsets, wrap);
        assert forall|j: int| 0 <= j < all.len() implies size.contains(#[trigger] all[j]) by {
            if j < rest.len() {
                assert(all[j] == rest[j]);
            }
        }
    }
}

/// With wrapping, the offset `(-1, -1)` takes the corner `(0, 0)` to the
/// opposite corner; without wrapping it gives `(0, 0)` no neighbor at all,
/// so the corner's list is one shorter than the offset list.
pub proof fn lemma_corner_offset(size: Size, offsets: Seq<(isize, isize)>)
    requires
        size.width > 0,
        size.height > 0,
    ensures
        resolve(size, Point { x: 0, y: 0 }, off(-1, -1), true) == Some(
            Point { x: (size.width - 1) as usize, y: (size.height - 1) as usize },
        ),
        resolve(size, Point { x: 0, y: 0 }, off(-1, -1), false) is None,
        neighbor_list(size, Point { x: 0, y: 0 }, offsets.push(off(-1, -1)), true) == neighbor_list(
            size,
            Point { x: 0, y: 0 },
            offsets,
            true,
        ).push(Point { x: (size.width - 1) as usize, y: (size.height - 1) as usize }),
        neighbor_list(size, Point { x: 0, y: 0 }, offsets.push(off(-1, -1)), false) == neighbor_list(
            size,
            Point { x: 0, y: 0 },
            offsets,
            false,
        ),
{
    let w = size.width as int;
    let h = size.height as int;
    vstd::arithmetic::div_mod::lemma_fundamental_div_mod_converse(-1, w, -1, w - 1);
    vstd::arithmetic::div_mod::lemma_fundamental_div_mod_converse(-1, h, -1, h - 1);
    assert(offsets.push(off(-1, -1)).drop_last() == offsets);
}

proof fn lemma_mod_eq(a: int, b: int, m: int)
    requires
        m > 0,
        a % m == b % m,
        -m < a - b < m,
    ensures
        a == b,
{
    vstd::arithmetic::div_mod::lemma_fundamental_div_mod(a, m);
    vstd::arithmetic::div_mod::lemma_fundamental_div_mod(b, m);
    let qa = a / m;
    let qb = b / m;
    assert(qa == qb) by (nonlinear_arith)
        requires
            a - b == m * qa - m * qb,
            -m < a - b < m,
            m > 0,
    ;
}

/// Offsets within `reach` in both axes; with wrapping, both sides of the
/// grid exceed twice the reach.
pub open spec fn offsets_fit(size: Size, offsets: Seq<(isize, isize)>, wrap: bool, reach: int) -> bool {
    &&& forall|j: int|
        0 <= j < offsets.len() ==> -reach <= (#[trigger] offsets[j]).0 <= reach && -reach
            <= offsets[j].1 <= reach
    &&& wrap ==> 2 * reach < size.width && 2 * reach < size.height
}

proof fn lemma_resolve_distinct(
    size: Size,
    pos: Point,
    o1: (isize, isize),
    o2: (isize, isize),
    wrap: bool,
    reach: int,
)
    requires
        size.width > 0,
        size.height > 0,
        size.contains(pos),
        -reach <= o1.0 <= reach && -reach <= o1.1 <= reach,
        -reach <= o2.0 <= reach && -reach <= o2.1 <= reach,
        wrap ==> 2 * reach < size.width && 2 * reach < size.height,
        resolve(size, pos, o1, wrap) is Some,
        resolve(size, pos, o1, wrap) == resolve(size, pos, o2, wrap),
    ensures
        o1 == o2,
{
    if wrap {
        let w = size.width as int;
        let h = size.height as int;
        vstd::arithmetic::div_mod::lemma_mod_bound(pos.x + o1.0, w);
        vstd::arithmetic::div_mod::lemma_mod_bound(pos.x + o2.0, w);
        vstd::arithmetic::div_mod::lemma_mod_bound(pos.y + o1.1, h);
        vstd::arithmetic::div_mod::lemma_mod_bound(pos.y + o2.1, h);
        lemma_mod_eq(pos.x + o1.0, pos.x + o2.0, w);
        lemma_mod_eq(pos.y + o1.1, pos.y + o2.1, h);
    }
}

proof fn lemma_resolve_not_self(size: Size, pos: Point, o: (isize, isize), wrap: bool, reach: int)
    requires
        size.width > 0,
        size.height > 0,
        size.contains(pos),
        -reach <= o.0 <= reach && -reach <= o.1 <= reach,
        wrap ==> 2 * reach < size.width && 2 * reach < size.height,
        resolve(size, pos, o, wrap) == Some(pos),
    ensures
        o == (0isize, 0isize),
{
    if wrap {
        let w = size.width as int;
        let h = size.height as int;
        vstd::arithmetic::div_mod::lemma_mod_bound(pos.x + o.0, w);
        vstd::arithmetic::div_mod::lemma_mod_bound(pos.y + o.1, h);
        vstd::arithmetic::div_mod::lemma_small_mod(pos.x as nat, w as nat);
        vstd::arithmetic::div_mod::lemma_small_mod(pos.y as nat, h as nat);
        lemma_mod_eq(pos.x + o.0, pos.x as int, w);
        lemma_mod_eq(pos.y + o.1, pos.y as int, h);
    }
}

/// Each resolved neighbor comes from one of the offsets.
proof fn lemma_neighbor_list_members(size: Size, pos: Point, offsets: Seq<(isize, isize)>, wrap: bool)
    ensures
        forall|t: int|
            #![trigger neighbor_list(size, pos, offsets, wrap)[t]]
            0 <= t < neighbor_list(size, pos, offsets, wrap).len() ==> exists|j: int|
                0 <= j < offsets.len() && resolve(size, pos, #[trigger] offsets[j], wrap) == Some(
                    neighbor_list(size, pos, offsets, wrap)[t],
                ),
    decreases offsets.len(),
{
    if offsets.len() > 0 {
        let rest_offs = offsets.drop_last();
        lemma_neighbor_list_members(size, pos, rest_offs, wrap);
        let rest = neighbor_list(size, pos, rest_offs, wrap);
        let all = neighbor_list(size, pos, offsets, wrap);
        assert forall|t: int| #![trigger all[t]] 0 <= t < all.len() implies exists|j: int|
            0 <= j < offsets.len() && resolve(size, pos, #[trigger] offsets[j], wrap) == Some(all[t]) by {
            if t < rest.len() {
                let j = choose|j: int| 0 <= j < rest_offs.len() && resolve(size, pos, #[trigger] rest_offs[j], wrap) == Some(rest[t]);
                assert(offsets[j] == rest_offs[j]);
                assert(all[t] == rest[t]);
            } else {
                assert(resolve(size, pos, offsets[offsets.len() - 1], wrap) == Some(all[t]));
            }
        }
    }
}

/// With distinct, non-zero offsets that fit the grid, a neighbor list holds
/// no point twice and never the cell itself.
pub proof fn lemma_neighbor_list_proper(
    size: Size,
    pos: Point,
    offsets: Seq<(isize, isize)>,
    wrap: bool,
    reach: int,
)
    requires
        size.width > 0,
        size.height > 0,
        size.contains(pos),
        offsets.no_duplicates(),
        !offsets.contains((0isize, 0isize)),
        offsets_fit(size, offsets, wrap, reach),
    ensures
        neighbor_list(size, pos, offsets, wrap).no_duplicates(),
        !neighbor_list(size, pos, offsets, wrap).contains(pos),
    decreases offsets.len(),
{
    if offsets.len() > 0 {
        let rest_offs = offsets.drop_last();
        let last = offsets.last();
        assert forall|j: int| 0 <= j < rest_offs.len() implies -reach <= (#[trigger] rest_offs[j]).0 <= reach && -reach
            <= rest_offs[j].1 <= reach by {
            assert(rest_offs[j] == offsets[j]);
        }
        assert(!rest_offs.contains((0isize, 0isize))) by {
            if rest_offs.contains((0isize, 0isize)) {
                let j = choose|j: int| 0 <= j < rest_offs.len() && rest_offs[j] == (0isize, 0isize);
                assert(offsets[j] == rest_offs[j]);
            }
        }
        lemma_neighbor_list_proper(size, pos, rest_offs, wrap, reach);
        lemma_neighbor_list_members(size, pos, rest_offs, wrap);
        let rest = neighbor_list(size, pos, rest_offs, wrap);
        let all = neighbor_list(size, pos, offsets, wrap);
        assert(last == offsets[offsets.len() - 1]);
        match resolve(size, pos, last, wrap) {
            Some(p) => {
                assert(all == rest.push(p));
                if p == pos {
                    lemma_resolve_not_self(size, pos, last, wrap, reach);
                    assert(offsets.contains((0isize, 0isize)));
                }
                assert forall|t: int| 0 <= t < rest.len() implies rest[t] != p by {
                    let j = choose|j: int| 0 <= j < rest_offs.len() && resolve(size, pos, #[trigger] rest_offs[j], wrap) == Some(rest[t]);
                    assert(rest_offs[j] == offsets[j]);
                    if rest[t] == p {
                        lemma_resolve_distinct(size, pos, offsets[j], last, wrap, reach);
                        assert(offsets[j] == offsets[offsets.len() - 1]);
                    }
                }
                assert forall|a: int, b: int| 0 <= a < b < all.len() implies all[a] != all[b] by {
                    if b < rest.len() {
                        assert(all[a] == rest[a] && all[b] == rest[b]);
                    } else {
                        assert(all[a] == rest[a]);
                    }
                }
                assert forall|t: int| 0 <= t < all.len() implies all[t] != pos by {
                    if t < rest.len() {
                        assert(all[t] == rest[t]);
                    }
                }
            },
            None => {
                assert(all == rest);
            },
        }
    }
}

/// The 8-connected neighborhood gives proper neighbor lists (no repeats,
/// never the cell itself) on every grid without wrapping, and with wrapping
/// when both sides exceed 2.
pub proof fn lemma_standard_adjacency_proper(size: Size, wrap: bool)
    requires
        size.valid(),
        wrap ==> size.width > 2 && size.height > 2,
    ensures
        forall|i: int|
            0 <= i < size.spec_area() ==> (#[trigger] adjacency(size, standard_shape(), wrap)[i]).no_duplicates()
                && !adjacency(size, standard_shape(), wrap)[i].contains(point_of(i, size.width as int)),
{
    let o = standard_shape();
    assert(o.no_duplicates()) by {
        assert forall|a: int, b: int| 0 <= a < b < o.len() implies o[a] != o[b] by {
            assert(o[0] == off(-1, -1) && o[1] == off(0, -1) && o[2] == off(1, -1) && o[3] == off(-1, 0));
            assert(o[4] == off(1, 0) && o[5] == off(-1, 1) && o[6] == off(0, 1) && o[7] == off(1, 1));
        }
    }
    assert(!o.contains((0isize, 0isize))) by {
        if o.contains((0isize, 0isize)) {
            let j = choose|j: int| 0 <= j < o.len() && o[j] == (0isize, 0isize);
            assert(o[0] == off(-1, -1) && o[1] == off(0, -1) && o[2] == off(1, -1) && o[3] == off(-1, 0));
            assert(o[4] == off(1, 0) && o[5] == off(-1, 1) && o[6] == off(0, 1) && o[7] == off(1, 1));
        }
    }
    assert(offsets_fit(size, o, wrap, 1)) by {
        assert forall|j: int| 0 <= j < o.len() implies -1 <= (#[trigger] o[j]).0 <= 1 && -1 <= o[j].1 <= 1 by {
            assert(o[0] == off(-1, -1) && o[1] == off(0, -1) && o[2] == off(1, -1) && o[3] == off(-1, 0));
            assert(o[4] == off(1, 0) && o[5] == off(-1, 1) && o[6] == off(0, 1) && o[7] == off(1, 1));
        }
    }
    assert forall|i: int| 0 <= i < size.spec_area() implies (#[trigger] adjacency(size, o, wrap)[i]).no_duplicates()
        && !adjacency(size, o, wrap)[i].contains(point_of(i, size.width as int)) by {
        crate::geometry::lemma_point_index(size, i);
        lemma_neighbor_list_proper(size, point_of(i, size.width as int), o, wrap, 1);
    }
}

/// The resolved neighbor of `pos` for one offset.
pub(crate) fn resolve_offset(size: &Size, pos: &Point, off: (isize, isize), wrap: bool) -> (r: Option<Point>)
    requires
        size.width > 0,
        size.height > 0,
    ensures
        r == resolve(*size, *pos, off, wrap),
{
    let nx: i128 = pos.x as i128 + off.0 as i128;
    let ny: i128 = pos.y as i128 + off.1 as i128;
    if wrap {
        Some(Point { x: wrap_coord(nx, size.width), y: wrap_coord(ny, size.height) })
    } else {
        match checked_coord(nx, size.width) {
            Some(x) => match checked_coord(ny, size.height) {
                Some(y) => Some(Point { x, y }),
                None => None,
            },
            None => None,
        }
    }
}

/// An offset pair.
pub open spec fn off(dx: int, dy: int) -> (isize, isize) {
    (dx as isize, dy as isize)
}

/// A neighborhood shape: integer offsets and an edge policy.
pub struct OffsetNeighborComponent {
    pub offsets: Vec<(isize, isize)>,
    pub wrap: bool,
}

impl OffsetNeighborComponent {
    pub fn new(offsets: &[(isize, isize)], wrap: bool) -> (r: OffsetNeighborComponent)
        ensures
            r.offsets@ == offsets@,
            r.wrap == wrap,
    {
        let mut v: Vec<(isize, isize)> = Vec::new();
        let mut k: usize = 0;
        while k < offsets.len()
            invariant
                k <= offsets@.len(),
                v@ == offsets@.take(k as int),
            decreases offsets.len() - k,
        {
            v.push(offsets[k]);
            k = k + 1;
            assert(v@ =~= offsets@.take(k as int));
        }
        assert(offsets@.take(offsets@.len() as int) =~= offsets@);
        OffsetNeighborComponent { offsets: v, wrap }
    }

    /// The neighbors of `pos`, in offset order: wrapped with `wrap`, else
    /// those that fall inside the grid.
    pub fn get_pos_neighbors(&self, size: Size, pos: Point) -> (r: Vec<Point>)
        requires
            size.width > 0,
            size.height > 0,
        ensures
            r@ == neighbor_list(size, pos, self.offsets@, self.wrap),
    {
        let mut out: Vec<Point> = Vec::new();
        let mut k: usize = 0;
        while k < self.offsets.len()
            invariant
                size.width > 0,
                size.height > 0,
                k <= self.offsets@.len(),
                out@ == neighbor_list(size, pos, self.offsets@.take(k as int), self.wrap),
            decreases self.offsets.len() - k,
        {
            assert(self.offsets@.take(k + 1).drop_last() =~= self.offsets@.take(k as int));
            match resolve_offset(&size, &pos, self.offsets[k], self.wrap) {
                Some(p) => out.push(p),
                None => {},
            }
            k = k + 1;
        }
        assert(self.offsets@.take(self.offsets@.len() as int) =~= self.offsets@);
        out
    }
}

/// Builds neighbor lists for whole grids.
pub struct NeighborManager;

impl NeighborManager {
    /// The 8-connected (Moore) neighborhood.
    pub fn standard_offsets() -> (r: Vec<(isize, isize)>)
        ensures
            r@ == standard_shape(),
    {
        let mut v: Vec<(isize, isize)> = Vec::new();
        v.push((-1, -1));
        v.push((0, -1));
        v.push((1, -1));
        v.push((-1, 0));
        v.push((1, 0));
        v.push((-1, 1));
        v.push((0, 1));
        v.push((1, 1));
        assert(v@ =~= standard_shape());
        v
    }

    /// The 4-connected "plus" neighborhood.
    pub fn plus_offsets() -> (r: Vec<(isize, isize)>)
        ensures
            r@ == seq![off(0, -1), off(-1, 0), off(1, 0), off(0, 1)],
    {
        let mut v: Vec<(isize, isize)> = Vec::new();
        v.push((0, -1));
        v.push((-1, 0));
        v.push((1, 0));
        v.push((0, 1));
        assert(v@ =~= seq![off(0, -1), off(-1, 0), off(1, 0), off(0, 1)]);
        v
    }

    /// The diagonal-only "x" neighborhood.
    pub fn x_offsets() -> (r: Vec<(isize, isize)>)
        ensures
            r@ == seq![off(-1, -1), off(1, -1), off(-1, 1), off(1, 1)],
    {
        let mut v: Vec<(isize, isize)> = Vec::new();
        v.push((-1, -1));
        v.push((1, -1));
        v.push((-1, 1));
        v.push((1, 1));
        assert(v@ =~= seq![off(-1, -1), off(1, -1), off(-1, 1), off(1, 1)]);
        v
    }

    /// Gives every cell of `grid` its neighbor list for `offsets` and `wrap`.
    pub fn set_neighbors(grid: &mut Grid, offsets: Vec<(isize, isize)>, wrap: bool)
        requires
            old(grid).wf(),
        ensures
            final(grid).wf(),
            final(grid).spec_size() == old(grid).spec_size(),
            final(grid).cells() == old(grid).cells(),
            final(grid).adj() == adjacency(old(grid).spec_size(), offsets@, wrap),
    {
        let size = grid.size();
        let component = OffsetNeighborComponent { offsets, wrap };
        let n = grid.area();
        let mut i: usize = 0;
        while i < n
            invariant
                grid.wf(),
                grid.spec_size() == size,
                size == old(grid).spec_size(),
                grid.cells() == old(grid).cells(),
                n == size.spec_area(),
                i <= n,
                component.offsets@ == offsets@,
                component.wrap == wrap,
                forall|k: int|
                    0 <= k < i ==> #[trigger] grid.adj()[k] == adjacency(size, offsets@, wrap)[k],
            decreases n - i,
        {
            let pos = point_in(&size, i);
            let nbrs = component.get_pos_neighbors(size, pos);
            proof {
                lemma_neighbor_list_in_bounds(size, pos, offsets@, wrap);
                crate::geometry::lemma_point_index(size, i as int);
            }
            grid.set_neighbors(&pos, nbrs);
            i = i + 1;
        }
        assert(grid.adj() =~= adjacency(size, offsets@, wrap));
    }
}

/// The 8-connected offsets, in the order of `standard_offsets`.
pub open spec fn standard_shape() -> Seq<(isize, isize)> {
    seq![off(-1, -1), off(0, -1), off(1, -1), off(-1, 0), off(1, 0), off(-1, 1), off(0, 1), off(1, 1)]
}

/// `nbrs` is what a random shape gives the cell `i`: the first `c` offsets,
/// `1 <= c <= 8`, of some ordering of the 8-connected offsets.
pub open spec fn random_shape(size: Size, wrap: bool, i: int, nbrs: Seq<Point>) -> bool {
    exists|o: Seq<(isize, isize)>, c: int|
        #![trigger neighbor_list(size, point_of(i, size.width as int), o.take(c), wrap)]
        o.to_multiset() == standard_shape().to_multiset() && 1 <= c <= 8 && nbrs == neighbor_list(
            size,
            point_of(i, size.width as int),
            o.take(c),
            wrap,
        )
}

/// The generator calls made for the first `i` cells: a count draw from
/// `1..=8`, then a shuffle of the 8 offsets, per cell.
pub open spec fn rand_history(i: nat) -> Seq<(int, int)>
    decreases i,
{
    if i == 0 {
        Seq::empty()
    } else {
        rand_history((i - 1) as nat).push((1, 8)).push((-1, 8))
    }
}

/// The offsets that the cell `i` is given: the first of its count draw of
/// its shuffle of the 8-connected offsets.
pub open spec fn drawn_shape(seed: u64, i: nat) -> Seq<(isize, isize)> {
    let h = rand_history(i);
    permuted(standard_shape(), shuffle_order(seed, h.push((1, 8)), 8)).take(
        range_draw(seed, h, 1, 8) as int,
    )
}

/// Gives every cell a neighborhood of its own, drawn from a seeded
/// generator: a random number (1 to 8) of the 8-connected offsets, in a
/// random order.
pub struct RandNeighborManager {
    pub seed: u64,
    pub wrap: bool,
}

impl RandNeighborManager {
    pub fn new(seed: u64, wrap: bool) -> (r: RandNeighborManager)
        ensures
            r.seed == seed,
            r.wrap == wrap,
    {
        RandNeighborManager { seed, wrap }
    }

    /// Draws the neighbor list of every cell of `grid`, row by row.
    pub fn set_neighbors(&self, grid: &mut Grid)
        requires
            old(grid).wf(),
        ensures
            final(grid).wf(),
            final(grid).spec_size() == old(grid).spec_size(),
            final(grid).cells() == old(grid).cells(),
            forall|i: int|
                0 <= i < final(grid).adj().len() ==> random_shape(
                    final(grid).spec_size(),
                    self.wrap,
                    i,
                    #[trigger] final(grid).adj()[i],
                ),
            forall|i: int|
                0 <= i < final(grid).adj().len() ==> #[trigger] final(grid).adj()[i]
                    == neighbor_list(
                    final(grid).spec_size(),
                    point_of(i, final(grid).spec_width()),
                    drawn_shape(self.seed, i as nat),
                    self.wrap,
                ),
    {
        let size = grid.size();
        let n = grid.area();
        let mut rng = SeededRng::new(self.seed);
        let mut i: usize = 0;
        while i < n
            invariant
                grid.wf(),
                grid.spec_size() == size,
                size == old(grid).spec_size(),
                grid.cells() == old(grid).cells(),
                n == size.spec_area(),
                i <= n,
                forall|k: int| 0 <= k < i ==> random_shape(size, self.wrap, k, #[trigger] grid.adj()[k]),
                forall|k: int|
                    0 <= k < i ==> #[trigger] grid.adj()[k] == neighbor_list(
                        size,
                        point_of(k, size.width as int),
                        drawn_shape(self.seed, k as nat),
                        self.wrap,
                    ),
                rng.spec_seed() == self.seed,
                rng.history() == rand_history(i as nat),
            decreases n - i,
        {
            let pos = point_in(&size, i);
            let count = rng.gen_range_inclusive(1, 8) as usize;
            let mut offsets = NeighborManager::standard_offsets();
            let ghost shape = offsets@;
            rng.shuffle(&mut offsets);
            proof {
                vstd::seq_lib::to_multiset_len(offsets@);
                vstd::seq_lib::to_multiset_len(shape);
            }
            let mut chosen: Vec<(isize, isize)> = Vec::new();
            let mut j: usize = 0;
            while j < count
                invariant
                    j <= count <= 8,
                    offsets@.len() == 8,
                    chosen@ == offsets@.take(j as int),
                decreases count - j,
            {
                chosen.push(offsets[j]);
                j = j + 1;
                assert(chosen@ =~= offsets@.take(j as int));
            }
            let component = OffsetNeighborComponent { offsets: chosen, wrap: self.wrap };
            let nbrs = component.get_pos_neighbors(size, pos);
            proof {
                lemma_neighbor_list_in_bounds(size, pos, chosen@, self.wrap);
                crate::geometry::lemma_point_index(size, i as int);
                assert(offsets@.take(count as int) == drawn_shape(self.seed, i as nat));
                assert(rand_history((i + 1) as nat) == rand_history(i as nat).push((1, 8)).push((-1, 8)));
                assert(random_shape(size, self.wrap, i as int, nbrs@)) by {
                    assert(nbrs@ == neighbor_list(size, point_of(i as int, size.width as int), offsets@.take(count as int), self.wrap));
                }
            }
            grid.set_neighbors(&pos, nbrs);
            i = i + 1;
        }
    }
}

} // verus!
