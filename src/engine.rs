use crate::color::Color;
use crate::config::ColorPlacerConfig;
use crate::fitness::{FitPolicy, PixelFitter};
use crate::frontier::{best_below, Frontier};
use crate::geometry::{index_in, index_of, point_in, Point, Size};
use crate::grid::{adjacency_in_bounds, uncolored_prefix, Grid};
use crate::neighbors::NeighborManager;
use vstd::multiset::Multiset;
use vstd::prelude::*;

verus! {

/// Some entry of the neighbor list of cell `p` is cell `q`.
pub open spec fn feeds(adj: Seq<Seq<Point>>, width: int, p: int, q: int) -> bool {
    exists|j: int| 0 <= j < adj[p].len() && index_of(adj[p][j], width) == q
}

/// Cell `q` has no color, and some colored cell lists it as a neighbor.
pub open spec fn colored_fed(cells: Seq<Option<Color>>, adj: Seq<Seq<Point>>, width: int, q: int) -> bool {
    &&& 0 <= q < cells.len()
    &&& cells[q] is None
    &&& exists|p: int| 0 <= p < cells.len() && cells[p] is Some && #[trigger] feeds(adj, width, p, q)
}

/// The frontier holds exactly the uncolored cells that a colored cell lists
/// as a neighbor.
pub open spec fn frontier_ok(cells: Seq<Option<Color>>, adj: Seq<Seq<Point>>, width: int, fr: Set<usize>) -> bool {
    forall|q: usize| #[trigger] fr.contains(q) <==> colored_fed(cells, adj, width, q as int)
}

/// The cells of `nbrs` that have no color in `cells`.
pub open spec fn fed_by(cells: Seq<Option<Color>>, nbrs: Seq<Point>, width: int) -> Set<usize> {
    Set::new(
        |q: usize|
            exists|j: int|
                0 <= j < nbrs.len() && index_of(nbrs[j], width) == q as int && cells[q as int] is None,
    )
}

/// The frontier after a color went to cell `p`: `p` leaves, and its
/// neighbors that still lack a color join.
pub open spec fn grown_frontier(
    fr: Set<usize>,
    cells_after: Seq<Option<Color>>,
    adj: Seq<Seq<Point>>,
    width: int,
    p: int,
) -> Set<usize> {
    fr.remove(p as usize).union(fed_by(cells_after, adj[p], width))
}

/// Coloring an uncolored cell and growing the frontier as above keeps the
/// frontier exact.
pub proof fn lemma_frontier_step(
    size: Size,
    cells: Seq<Option<Color>>,
    adj: Seq<Seq<Point>>,
    fr: Set<usize>,
    p: int,
    c: Color,
)
    requires
        size.valid(),
        cells.len() == size.spec_area(),
        adj.len() == size.spec_area(),
        adjacency_in_bounds(size, adj),
        0 <= p < cells.len(),
        cells[p] is None,
        frontier_ok(cells, adj, size.width as int, fr),
    ensures
        frontier_ok(
            cells.update(p, Some(c)),
            adj,
            size.width as int,
            grown_frontier(fr, cells.update(p, Some(c)), adj, size.width as int, p),
        ),
{
    let w = size.width as int;
    let cells2 = cells.update(p, Some(c));
    let fr2 = grown_frontier(fr, cells2, adj, w, p);
    assert forall|q: usize| #[trigger] fr2.contains(q) <==> colored_fed(cells2, adj, w, q as int) by {
        if fr2.contains(q) {
            if fr.contains(q) && q as int != p {
                assert(colored_fed(cells, adj, w, q as int));
                let p0 = choose|p0: int| 0 <= p0 < cells.len() && cells[p0] is Some && #[trigger] feeds(adj, w, p0, q as int);
                assert(cells2[p0] is Some);
            } else {
                assert(fed_by(cells2, adj[p], w).contains(q));
                let j = choose|j: int|
                    0 <= j < adj[p].len() && index_of(adj[p][j], w) == q as int && cells2[q as int] is None;
                crate::geometry::lemma_index_in_range(size, adj[p][j]);
                assert(feeds(adj, w, p, q as int));
                assert(cells2[p] is Some);
            }
        }
        if colored_fed(cells2, adj, w, q as int) {
            let p0 = choose|p0: int| 0 <= p0 < cells2.len() && cells2[p0] is Some && #[trigger] feeds(adj, w, p0, q as int);
            if p0 == p {
                let j = choose|j: int| 0 <= j < adj[p].len() && index_of(adj[p][j], w) == q as int;
                assert(fed_by(cells2, adj[p], w).contains(q));
            } else {
                assert(cells[p0] is Some);
                assert(colored_fed(cells, adj, w, q as int));
                assert(fr.contains(q));
            }
        }
    }
}

/// With a symmetric neighbor relation, the frontier holds exactly the
/// uncolored cells that have a colored cell in their own neighbor list.
pub proof fn lemma_frontier_own_neighbors(
    cells: Seq<Option<Color>>,
    adj: Seq<Seq<Point>>,
    width: int,
    fr: Set<usize>,
)
    requires
        frontier_ok(cells, adj, width, fr),
        forall|p: int, q: int|
            0 <= p < cells.len() && 0 <= q < cells.len() ==> (feeds(adj, width, p, q) <==> #[trigger] feeds(
                adj,
                width,
                q,
                p,
            )),
    ensures
        forall|q: usize| #[trigger]
            fr.contains(q) <==> {
                &&& (q as int) < cells.len()
                &&& cells[q as int] is None
                &&& exists|p: int| 0 <= p < cells.len() && cells[p] is Some && #[trigger] feeds(adj, width, q as int, p)
            },
{
    assert forall|q: usize| #[trigger]
        fr.contains(q) <==> {
            &&& (q as int) < cells.len()
            &&& cells[q as int] is None
            &&& exists|p: int| 0 <= p < cells.len() && cells[p] is Some && #[trigger] feeds(adj, width, q as int, p)
        } by {
        if fr.contains(q) {
            assert(colored_fed(cells, adj, width, q as int));
            let p = choose|p: int| 0 <= p < cells.len() && cells[p] is Some && #[trigger] feeds(adj, width, p, q as int);
            assert(feeds(adj, width, q as int, p));
        }
        if (q as int) < cells.len() && cells[q as int] is None && exists|p: int|
            0 <= p < cells.len() && cells[p] is Some && #[trigger] feeds(adj, width, q as int, p) {
            let p = choose|p: int| 0 <= p < cells.len() && cells[p] is Some && #[trigger] feeds(adj, width, q as int, p);
            assert(feeds(adj, width, p, q as int));
            assert(colored_fed(cells, adj, width, q as int));
        }
    }
}

/// A name for what rand 0.8 draws: `StdRng::seed_from_u64(seed)`, then
/// `gen_range(0..n)`.
pub uninterp spec fn seeded_index(seed: u64, n: u64) -> u64;

/// Relies on rand 0.8's `StdRng::seed_from_u64` and `Rng::gen_range`: a
/// value below `n`, fixed by `seed` and `n`.
#[verifier::external_body]
fn seeded_pick(seed: u64, n: u64) -> (r: u64)
    requires
        n > 0,
    ensures
        r == seeded_index(seed, n),
        r < n,
{
    rand::Rng::gen_range(&mut <rand::rngs::StdRng as rand::SeedableRng>::seed_from_u64(seed), 0..n)
}

/// `n` empty cells.
pub open spec fn nones(n: int) -> Seq<Option<Color>> {
    Seq::new(n as nat, |i: int| None::<Color>)
}

/// The colors as filled cells.
pub open spec fn some_of(colors: Seq<Color>) -> Seq<Option<Color>> {
    colors.map_values(|c: Color| Some(c))
}

/// The cell that the `k`-th color goes to: the `k`-th initial point; else
/// the frontier's best cell; else, with an empty frontier, an uncolored cell
/// drawn with the configured seed.
pub open spec fn next_position(cfg: ColorPlacerConfig, adj: Seq<Seq<Point>>, cells: Seq<Option<Color>>, fr: Set<usize>, k: int) -> int {
    let w = cfg.image_size.width as int;
    if k < cfg.initial_points@.len() {
        index_of(cfg.initial_points@[k], w)
    } else if !fr.is_empty() {
        match best_below(cfg.fitter, cells, adj, w, fr, cfg.colors@[k], cells.len() as int) {
            Some(b) => b as int,
            None => 0,
        }
    } else {
        let u = uncolored_prefix(cells, cells.len() as int);
        u[seeded_index(cfg.seed, u.len() as u64) as int % u.len() as int] as int
    }
}

/// The `k`-th placement fell back to a random draw.
pub open spec fn falls_back(cfg: ColorPlacerConfig, fr: Set<usize>, k: int) -> bool {
    k >= cfg.initial_points@.len() && fr.is_empty()
}

/// The state after placing the first `k` colors: cells, frontier, the cell
/// each color went to, and the number of random fallbacks.
pub open spec fn run(cfg: ColorPlacerConfig, adj: Seq<Seq<Point>>, k: nat) -> (Seq<Option<Color>>, Set<usize>, Seq<usize>, nat)
    decreases k,
{
    if k == 0 {
        (nones(cfg.image_size.spec_area()), Set::empty(), Seq::empty(), 0)
    } else {
        let prev = run(cfg, adj, (k - 1) as nat);
        let p = next_position(cfg, adj, prev.0, prev.1, k - 1);
        let cells = prev.0.update(p, Some(cfg.colors@[k - 1]));
        (
            cells,
            grown_frontier(prev.1, cells, adj, cfg.image_size.width as int, p),
            prev.2.push(p as usize),
            if falls_back(cfg, prev.1, k - 1) {
                prev.3 + 1
            } else {
                prev.3
            },
        )
    }
}

/// What holds after every placement of a run.
pub open spec fn run_ok(cfg: ColorPlacerConfig, adj: Seq<Seq<Point>>, k: nat) -> bool {
    let st = run(cfg, adj, k);
    let area = cfg.image_size.spec_area();
    let w = cfg.image_size.width as int;
    &&& st.0.len() == area
    &&& forall|q: usize| #[trigger] st.1.contains(q) ==> q < area
    &&& frontier_ok(st.0, adj, w, st.1)
    &&& st.0.to_multiset() == some_of(cfg.colors@.take(k as int)).to_multiset().add(
        nones(area - k).to_multiset(),
    )
    &&& st.2.len() == k
    &&& st.2.no_duplicates()
    &&& forall|j: int|
        0 <= j < k ==> (#[trigger] st.2[j]) < area && st.0[st.2[j] as int] == Some(cfg.colors@[j])
    &&& forall|j: int|
        0 <= j < cfg.initial_points@.len() ==> (st.0[index_of(
            #[trigger] cfg.initial_points@[j],
            w,
        )] is Some <==> j < k)
    &&& st.3 <= k
}

pub proof fn lemma_uncolored_prefix(cells: Seq<Option<Color>>, n: int)
    requires
        0 <= n <= cells.len(),
        cells.len() <= usize::MAX,
    ensures
        forall|t: int|
            0 <= t < uncolored_prefix(cells, n).len() ==> (#[trigger] uncolored_prefix(cells, n)[t]) < n
                && cells[uncolored_prefix(cells, n)[t] as int] is None,
        (exists|q: int| 0 <= q < n && cells[q] is None) ==> uncolored_prefix(cells, n).len() > 0,
        uncolored_prefix(cells, n).len() <= n,
    decreases n,
{
    if n > 0 {
        lemma_uncolored_prefix(cells, n - 1);
        let u = uncolored_prefix(cells, n);
        let u0 = uncolored_prefix(cells, n - 1);
        assert forall|t: int| 0 <= t < u.len() implies (#[trigger] u[t]) < n && cells[u[t] as int] is None by {
            if t < u0.len() {
                assert(u[t] == u0[t]);
            } else {
                assert(cells[n - 1] is None);
                assert(u == u0.push((n - 1) as usize));
            }
        }
        if exists|q: int| 0 <= q < n && cells[q] is None {
            let q = choose|q: int| 0 <= q < n && cells[q] is None;
            if q < n - 1 {
                assert(u0.len() > 0);
            }
        }
    }
}

proof fn lemma_run_start(cfg: ColorPlacerConfig, adj: Seq<Seq<Point>>)
    requires
        cfg.wf(),
        adj.len() == cfg.image_size.spec_area(),
        adjacency_in_bounds(cfg.image_size, adj),
    ensures
        run_ok(cfg, adj, 0),
{
    let area = cfg.image_size.spec_area();
    let w = cfg.image_size.width as int;
    let st = run(cfg, adj, 0);
    broadcast use vstd::multiset::group_multiset_axioms;
    assert(some_of(cfg.colors@.take(0)) =~= Seq::<Option<Color>>::empty());
    vstd::seq_lib::to_multiset_len(some_of(cfg.colors@.take(0)));
    vstd::multiset::lemma_multiset_empty_len(some_of(cfg.colors@.take(0)).to_multiset());
    assert(st.0.to_multiset() =~= some_of(cfg.colors@.take(0)).to_multiset().add(nones(area).to_multiset()));
    assert forall|q: usize| #[trigger] st.1.contains(q) <==> colored_fed(st.0, adj, w, q as int) by {
        if colored_fed(st.0, adj, w, q as int) {
            let p = choose|p: int| 0 <= p < st.0.len() && st.0[p] is Some && #[trigger] feeds(adj, w, p, q as int);
        }
    }
    assert forall|j: int| 0 <= j < cfg.initial_points@.len() implies (st.0[index_of(
        #[trigger] cfg.initial_points@[j],
        w,
    )] is Some <==> j < 0) by {
        crate::geometry::lemma_index_in_range(cfg.image_size, cfg.initial_points@[j]);
    }
}

proof fn lemma_step_valid(cfg: ColorPlacerConfig, adj: Seq<Seq<Point>>, k: nat)
    requires
        cfg.wf(),
        adj.len() == cfg.image_size.spec_area(),
        adjacency_in_bounds(cfg.image_size, adj),
        k < cfg.colors@.len(),
        run_ok(cfg, adj, k),
    ensures
        0 <= next_position(cfg, adj, run(cfg, adj, k).0, run(cfg, adj, k).1, k as int) < cfg.image_size.spec_area(),
        run(cfg, adj, k).0[next_position(cfg, adj, run(cfg, adj, k).0, run(cfg, adj, k).1, k as int)] is None,
{
    let st = run(cfg, adj, k);
    let area = cfg.image_size.spec_area();
    let w = cfg.image_size.width as int;
    let p = next_position(cfg, adj, st.0, st.1, k as int);
    if k < cfg.initial_points@.len() {
        crate::geometry::lemma_index_in_range(cfg.image_size, cfg.initial_points@[k as int]);
        assert(st.0[index_of(cfg.initial_points@[k as int], w)] is Some <==> k < k);
    } else if !st.1.is_empty() {
        let q = st.1.choose();
        assert(st.1.contains(q));
        crate::frontier::lemma_best_below(cfg.fitter, st.0, adj, w, st.1, cfg.colors@[k as int], area);
        let b = best_below(cfg.fitter, st.0, adj, w, st.1, cfg.colors@[k as int], area);
        assert(b is Some);
        assert(st.1.contains(b.unwrap()));
        assert(colored_fed(st.0, adj, w, b.unwrap() as int));
    } else {
        broadcast use vstd::multiset::group_multiset_axioms;
        let m = area - k;
        let a = some_of(cfg.colors@.take(k as int));
        assert(nones(m)[0] == None::<Color>);
        vstd::seq_lib::to_multiset_contains(nones(m), None::<Color>);
        vstd::seq_lib::to_multiset_contains(st.0, None::<Color>);
        assert(st.0.to_multiset().count(None::<Color>) > 0);
        assert(st.0.contains(None::<Color>));
        let q = choose|q: int| 0 <= q < st.0.len() && st.0[q] == None::<Color>;
        lemma_uncolored_prefix(st.0, area);
        let u = uncolored_prefix(st.0, area);
        let t = seeded_index(cfg.seed, u.len() as u64) as int % u.len() as int;
        vstd::arithmetic::div_mod::lemma_mod_bound(seeded_index(cfg.seed, u.len() as u64) as int, u.len() as int);
        assert(u[t] < area);
    }
}

proof fn lemma_run_step(cfg: ColorPlacerConfig, adj: Seq<Seq<Point>>, k: nat)
    requires
        cfg.wf(),
        adj.len() == cfg.image_size.spec_area(),
        adjacency_in_bounds(cfg.image_size, adj),
        k < cfg.colors@.len(),
        run_ok(cfg, adj, k),
    ensures
        run_ok(cfg, adj, k + 1),
{
    lemma_step_valid(cfg, adj, k);
    let st = run(cfg, adj, k);
    let st2 = run(cfg, adj, k + 1);
    let area = cfg.image_size.spec_area();
    let w = cfg.image_size.width as int;
    let p = next_position(cfg, adj, st.0, st.1, k as int);
    let c = cfg.colors@[k as int];
    assert(st2.0 == st.0.update(p, Some(c)));
    lemma_frontier_step(cfg.image_size, st.0, adj, st.1, p, c);
    assert forall|q: usize| #[trigger] st2.1.contains(q) implies q < area by {
        if !st.1.contains(q) {
            assert(fed_by(st2.0, adj[p], w).contains(q));
            let j = choose|j: int| 0 <= j < adj[p].len() && index_of(adj[p][j], w) == q as int && st2.0[q as int] is None;
            crate::geometry::lemma_index_in_range(cfg.image_size, adj[p][j]);
        }
    }
    // the multiset of colors
    broadcast use vstd::multiset::group_multiset_axioms;
    let m = area - k;
    let a = some_of(cfg.colors@.take(k as int));
    let a1 = some_of(cfg.colors@.take(k + 1 as int));
    assert(a1 =~= a.push(Some(c)));
    assert(nones(m) =~= nones(m - 1).push(None));
    vstd::seq_lib::to_multiset_update(st.0, p, Some(c));
    vstd::seq_lib::to_multiset_build(a, Some(c));
    vstd::seq_lib::to_multiset_build(nones(m - 1), None::<Color>);
    assert(st2.0.to_multiset() =~= a1.to_multiset().add(nones(m - 1).to_multiset()));
    // the cell of each color so far
    assert forall|j: int| 0 <= j < k + 1 implies (#[trigger] st2.2[j]) < area && st2.0[st2.2[j] as int] == Some(cfg.colors@[j]) by {
        if j < k {
            assert(st2.2[j] == st.2[j]);
        }
    }
    assert forall|a: int, b: int| 0 <= a < b < st2.2.len() implies st2.2[a] != st2.2[b] by {
        if b < k {
            assert(st.2[a] != st.2[b]);
        } else {
            assert(st.0[st.2[a] as int] is Some);
        }
    }
    // the initial points
    assert forall|j: int| 0 <= j < cfg.initial_points@.len() implies (st2.0[index_of(
        #[trigger] cfg.initial_points@[j],
        w,
    )] is Some <==> j < k + 1) by {
        let ij = index_of(cfg.initial_points@[j], w);
        crate::geometry::lemma_index_in_range(cfg.image_size, cfg.initial_points@[j]);
        if j > k {
            assert(cfg.initial_points@[j] != cfg.initial_points@[k as int]);
            if ij == p {
                crate::geometry::lemma_index_injective(cfg.image_size, cfg.initial_points@[j], cfg.initial_points@[k as int]);
            }
        }
    }
}

/// After each placement of a valid run (every state up to the last color):
/// the frontier holds exactly the uncolored cells that a colored cell lists
/// as a neighbor; the cells hold the colors placed so far plus empty slots,
/// as a multiset; each color went to its own cell; and the initial points
/// are colored first, in order.
pub proof fn lemma_run_ok(cfg: ColorPlacerConfig, adj: Seq<Seq<Point>>, k: nat)
    requires
        cfg.wf(),
        adj.len() == cfg.image_size.spec_area(),
        adjacency_in_bounds(cfg.image_size, adj),
        k <= cfg.colors@.len(),
    ensures
        run_ok(cfg, adj, k),
    decreases k,
{
    if k == 0 {
        lemma_run_start(cfg, adj);
    } else {
        lemma_run_ok(cfg, adj, (k - 1) as nat);
        lemma_run_step(cfg, adj, (k - 1) as nat);
    }
}

/// After the last color every cell holds one, the frontier is empty, and
/// the grid holds exactly the given colors.
proof fn lemma_run_complete(cfg: ColorPlacerConfig, adj: Seq<Seq<Point>>)
    requires
        cfg.wf(),
        adj.len() == cfg.image_size.spec_area(),
        adjacency_in_bounds(cfg.image_size, adj),
    ensures
        forall|i: int| 0 <= i < cfg.image_size.spec_area() ==> (#[trigger] run(cfg, adj, cfg.colors@.len()).0[i]) is Some,
        run(cfg, adj, cfg.colors@.len()).1.is_empty(),
        run(cfg, adj, cfg.colors@.len()).0.to_multiset() == some_of(cfg.colors@).to_multiset(),
{
    let n = cfg.colors@.len();
    lemma_run_ok(cfg, adj, n);
    let st = run(cfg, adj, n);
    broadcast use vstd::multiset::group_multiset_axioms;
    assert(cfg.colors@.take(n as int) =~= cfg.colors@);
    assert(nones(0) =~= Seq::<Option<Color>>::empty());
    vstd::seq_lib::to_multiset_len(nones(0));
    vstd::multiset::lemma_multiset_empty_len(nones(0).to_multiset());
    assert(st.0.to_multiset() =~= some_of(cfg.colors@).to_multiset());
    vstd::seq_lib::to_multiset_contains(some_of(cfg.colors@), None::<Color>);
    vstd::seq_lib::to_multiset_contains(st.0, None::<Color>);
    assert(!some_of(cfg.colors@).contains(None::<Color>));
    assert forall|i: int| 0 <= i < cfg.image_size.spec_area() implies (#[trigger] st.0[i]) is Some by {
        if st.0[i] is None {
            assert(st.0.contains(None::<Color>));
        }
    }
    if !st.1.is_empty() {
        let q = st.1.choose();
        assert(st.1.contains(q));
        assert(colored_fed(st.0, adj, cfg.image_size.width as int, q as int));
    }
}

/// The result of a run: the filled grid, the (drained) frontier, the cell
/// that each color went to, and how often the frontier was scanned and how
/// often it was empty so that an uncolored cell had to be drawn at random.
pub struct FillOutcome {
    pub grid: Grid,
    pub frontier: Frontier,
    pub order: Vec<usize>,
    pub scans: usize,
    pub fallbacks: usize,
}

/// Two configurations that agree on the colors and their order, the grid
/// size, the initial points, the fitness policy and the seed produce, on the
/// same neighbor lists, the same run step by step: the same cells,
/// frontier, placement order and fallback count.
pub proof fn lemma_run_deterministic(a: ColorPlacerConfig, b: ColorPlacerConfig, adj: Seq<Seq<Point>>, k: nat)
    requires
        a.colors@ == b.colors@,
        a.image_size == b.image_size,
        a.initial_points@ == b.initial_points@,
        a.fitter == b.fitter,
        a.seed == b.seed,
    ensures
        run(a, adj, k) == run(b, adj, k),
    decreases k,
{
    if k > 0 {
        lemma_run_deterministic(a, b, adj, (k - 1) as nat);
    }
}

/// Drives the greedy placement.
pub struct GridFiller;

impl GridFiller {
    /// Colors the uncolored cell `index` and updates the frontier: the cell
    /// leaves it, and its neighbors that still lack a color join it.
    pub fn place(grid: &mut Grid, frontier: &mut Frontier, index: usize, color: &Color)
        requires
            old(grid).wf(),
            index < old(grid).cells().len(),
            old(grid).cells()[index as int] is None,
            forall|q: usize| #[trigger] old(frontier)@.contains(q) ==> q < old(grid).cells().len(),
        ensures
            final(grid).wf(),
            final(grid).spec_size() == old(grid).spec_size(),
            final(grid).adj() == old(grid).adj(),
            final(grid).cells() == old(grid).cells().update(index as int, Some(*color)),
            final(frontier)@ == grown_frontier(
                old(frontier)@,
                final(grid).cells(),
                old(grid).adj(),
                old(grid).spec_width(),
                index as int,
            ),
            forall|q: usize| #[trigger] final(frontier)@.contains(q) ==> q < final(grid).cells().len(),
            frontier_ok(old(grid).cells(), old(grid).adj(), old(grid).spec_width(), old(frontier)@)
                ==> frontier_ok(
                final(grid).cells(),
                final(grid).adj(),
                final(grid).spec_width(),
                final(frontier)@,
            ),
    {
        let size = grid.size();
        let p = point_in(&size, index);
        proof {
            crate::geometry::lemma_point_index(size, index as int);
            if frontier_ok(old(grid).cells(), old(grid).adj(), old(grid).spec_width(), old(frontier)@) {
                lemma_frontier_step(size, old(grid).cells(), old(grid).adj(), old(frontier)@, index as int, *color);
            }
        }
        grid.set_color(&p, color);
        frontier.remove(index);
        let nbrs = grid.get_neighbors(&p);
        let ghost w = size.width as int;
        let ghost base = old(frontier)@.remove(index);
        let mut j: usize = 0;
        while j < nbrs.len()
            invariant
                grid.wf(),
                grid.spec_size() == size,
                w == size.width as int,
                index < grid.cells().len(),
                nbrs@ == grid.adj()[index as int],
                j <= nbrs@.len(),
                base == old(frontier)@.remove(index),
                forall|q: usize| #[trigger] base.contains(q) ==> q < grid.cells().len(),
                frontier@ == base.union(fed_by(grid.cells(), nbrs@.take(j as int), w)),
                forall|q: usize| #[trigger] frontier@.contains(q) ==> q < grid.cells().len(),
            decreases nbrs.len() - j,
        {
            let n = nbrs[j];
            assert(size.contains(n)) by {
                assert(grid.adj()[index as int][j as int] == n);
            }
            let q = index_in(&size, &n);
            let ghost s0 = nbrs@.take(j as int);
            let ghost s1 = nbrs@.take(j + 1);
            let ghost before = fed_by(grid.cells(), s0, w);
            let ghost after = fed_by(grid.cells(), s1, w);
            if grid.get_color(&n).is_none() {
                frontier.insert(q);
                assert(after =~= before.insert(q)) by {
                    assert(nbrs@.take(j + 1)[j as int] == n);
                    assert forall|r: usize| #[trigger] after.contains(r) implies before.contains(r) || r == q by {
                        let t = choose|t: int| 0 <= t < s1.len() && index_of(s1[t], w) == r as int && grid.cells()[r as int] is None;
                        if t < j {
                            assert(s0[t] == s1[t]);
                        }
                    }
                    assert forall|r: usize| #[trigger] before.contains(r) implies after.contains(r) by {
                        let t = choose|t: int| 0 <= t < s0.len() && index_of(s0[t], w) == r as int && grid.cells()[r as int] is None;
                        assert(s0[t] == s1[t]);
                    }
                }
            } else {
                assert(after =~= before) by {
                    assert forall|r: usize| #[trigger] after.contains(r) implies before.contains(r) by {
                        let t = choose|t: int| 0 <= t < s1.len() && index_of(s1[t], w) == r as int && grid.cells()[r as int] is None;
                        if t < j {
                            assert(s0[t] == s1[t]);
                        } else {
                            assert(s1[t] == n);
                        }
                    }
                    assert forall|r: usize| #[trigger] before.contains(r) implies after.contains(r) by {
                        let t = choose|t: int| 0 <= t < s0.len() && index_of(s0[t], w) == r as int && grid.cells()[r as int] is None;
                        assert(s0[t] == s1[t]);
                    }
                }
            }
            j = j + 1;
        }
        assert(nbrs@.take(nbrs@.len() as int) =~= nbrs@);
        assert(frontier@ =~= grown_frontier(old(frontier)@, grid.cells(), old(grid).adj(), w, index as int));
    }

    /// Places every color of `config`, in order, on `grid`, whose neighbor
    /// lists are already set: the first colors at the initial points, each
    /// later one at the frontier cell where it fits best (least score, then
    /// lowest index), or at a cell drawn with the seed when the frontier is
    /// empty. The result is `run` of the configuration on those neighbor
    /// lists, so equal inputs give equal grids whatever the order of the
    /// parallel scan; every cell ends up with exactly one of the colors, and
    /// the frontier ends empty.
    pub fn fill(grid: Grid, config: &ColorPlacerConfig) -> (r: FillOutcome)
        requires
            config.wf(),
            grid.wf(),
            grid.spec_size() == config.image_size,
            grid.cells() == nones(config.image_size.spec_area()),
        ensures
            r.grid.wf(),
            r.grid.spec_size() == config.image_size,
            r.grid.adj() == grid.adj(),
            r.grid.cells() == run(*config, grid.adj(), config.colors@.len()).0,
            r.frontier@ == run(*config, grid.adj(), config.colors@.len()).1,
            r.order@ == run(*config, grid.adj(), config.colors@.len()).2,
            r.fallbacks == run(*config, grid.adj(), config.colors@.len()).3,
            r.scans + r.fallbacks + config.initial_points@.len() == config.colors@.len(),
            forall|i: int| 0 <= i < r.grid.cells().len() ==> (#[trigger] r.grid.cells()[i]) is Some,
            r.frontier@.is_empty(),
            r.order@.len() == config.colors@.len(),
            r.order@.no_duplicates(),
            forall|k: int|
                0 <= k < r.order@.len() ==> (#[trigger] r.order@[k]) < r.grid.cells().len()
                    && r.grid.cells()[r.order@[k] as int] == Some(config.colors@[k]),
            r.grid.cells().to_multiset() == some_of(config.colors@).to_multiset(),
    {
        let mut grid = grid;
        let size = config.image_size;
        let ghost adj = grid.adj();
        let mut frontier = Frontier::new();
        let mut order: Vec<usize> = Vec::new();
        let mut scans: usize = 0;
        let mut fallbacks: usize = 0;
        let n = config.colors.len();
        let n_init = config.initial_points.len();
        proof {
            lemma_run_ok(*config, adj, 0);
            assert(frontier@ =~= run(*config, adj, 0).1);
            assert(order@ =~= run(*config, adj, 0).2);
        }
        let mut k: usize = 0;
        while k < n
            invariant
                config.wf(),
                n == config.colors@.len(),
                n_init == config.initial_points@.len(),
                size == config.image_size,
                k <= n,
                grid.wf(),
                grid.spec_size() == size,
                grid.adj() == adj,
                adj.len() == size.spec_area(),
                adjacency_in_bounds(size, adj),
                grid.cells() == run(*config, adj, k as nat).0,
                frontier@ == run(*config, adj, k as nat).1,
                order@ == run(*config, adj, k as nat).2,
                fallbacks == run(*config, adj, k as nat).3,
                scans + fallbacks + (if k < n_init { k } else { n_init }) == k,
                run_ok(*config, adj, k as nat),
            decreases n - k,
        {
            proof {
                lemma_step_valid(*config, adj, k as nat);
                lemma_run_step(*config, adj, k as nat);
            }
            let color = config.colors[k];
            let p: usize = if k < n_init {
                index_in(&size, &config.initial_points[k])
            } else if !frontier.is_empty() {
                scans = scans + 1;
                match frontier.best_position(&grid, &config.fitter, &color) {
                    Some(b) => b,
                    None => 0,
                }
            } else {
                fallbacks = fallbacks + 1;
                let empty = grid.get_uncolored_points();
                proof {
                    lemma_uncolored_prefix(grid.cells(), grid.cells().len() as int);
                }
                let s = seeded_pick(config.seed, empty.len() as u64);
                proof {
                    let u = uncolored_prefix(grid.cells(), grid.cells().len() as int);
                    vstd::arithmetic::div_mod::lemma_small_mod(s as nat, u.len() as nat);
                    crate::geometry::lemma_point_index(size, u[s as int] as int);
                }
                index_in(&size, &empty[s as usize])
            };
            assert(p == next_position(*config, adj, grid.cells(), frontier@, k as int));
            GridFiller::place(&mut grid, &mut frontier, p, &color);
            order.push(p);
            k = k + 1;
        }
        proof {
            lemma_run_complete(*config, adj);
        }
        FillOutcome { grid, frontier, order, scans, fallbacks }
    }

    /// Builds the grid with the configuration's neighborhood, then fills it
    /// as `fill` does.
    pub fn create_grid(config: &ColorPlacerConfig) -> (r: FillOutcome)
        requires
            config.wf(),
        ensures
            r.grid.wf(),
            r.grid.spec_size() == config.image_size,
            r.grid.adj() == config.spec_adj(),
            r.grid.cells() == run(*config, config.spec_adj(), config.colors@.len()).0,
            r.frontier@ == run(*config, config.spec_adj(), config.colors@.len()).1,
            r.order@ == run(*config, config.spec_adj(), config.colors@.len()).2,
            r.fallbacks == run(*config, config.spec_adj(), config.colors@.len()).3,
            r.scans + r.fallbacks + config.initial_points@.len() == config.colors@.len(),
            forall|i: int| 0 <= i < r.grid.cells().len() ==> (#[trigger] r.grid.cells()[i]) is Some,
            r.frontier@.is_empty(),
            r.order@.len() == config.colors@.len(),
            r.order@.no_duplicates(),
            forall|k: int|
                0 <= k < r.order@.len() ==> (#[trigger] r.order@[k]) < r.grid.cells().len()
                    && r.grid.cells()[r.order@[k] as int] == Some(config.colors@[k]),
            r.grid.cells().to_multiset() == some_of(config.colors@).to_multiset(),
    {
        let mut grid = Grid::new(config.image_size);
        let component = crate::neighbors::OffsetNeighborComponent::new(
            config.neighbors.offsets.as_slice(),
            config.neighbors.wrap,
        );
        NeighborManager::set_neighbors(&mut grid, component.offsets, config.neighbors.wrap);
        assert(grid.cells() =~= nones(config.image_size.spec_area()));
        GridFiller::fill(grid, config)
    }
}

} // verus!
