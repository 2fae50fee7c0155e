use crate::color::Color;
use crate::geometry::Size;
use crate::math::{factor_pairs, get_factors};
use vstd::prelude::*;

verus! {

/// How the values of one channel are spread.
#[derive(Debug, Clone, Copy, PartialEq, Eq, Structural)]
pub enum ColorRange {
    /// Evenly spaced over `0..=255`, starting at 0.
    Spaced,
    /// `0, 1, 2, ...`
    Dark,
    /// `255, 254, 253, ...`
    Light,
    /// Not supported by `get_values`.
    Random,
}

/// How the values of one channel are spread (generator form).
#[derive(Debug, Clone, Copy, PartialEq, Eq, Structural)]
pub enum ColorChannelSpread {
    Spaced,
    Light,
    Dark,
}

impl ColorChannelSpread {
    /// The channel range with the same values.
    pub fn range(&self) -> (r: ColorRange)
        ensures
            *self == ColorChannelSpread::Spaced ==> r == ColorRange::Spaced,
            *self == ColorChannelSpread::Light ==> r == ColorRange::Light,
            *self == ColorChannelSpread::Dark ==> r == ColorRange::Dark,
    {
        match self {
            ColorChannelSpread::Spaced => ColorRange::Spaced,
            ColorChannelSpread::Light => ColorRange::Light,
            ColorChannelSpread::Dark => ColorRange::Dark,
        }
    }
}

/// The `k`-th of `count` channel values for a range.
pub open spec fn channel_value(range: ColorRange, count: int, k: int) -> u8 {
    match range {
        ColorRange::Spaced => (k * 255 / count) as u8,
        ColorRange::Dark => k as u8,
        _ => (255 - k) as u8,
    }
}

/// A number of values for one color channel and their spread.
#[derive(Debug, Clone, Copy, PartialEq, Eq, Structural)]
pub struct ColorSelection {
    count: usize,
    range: ColorRange,
}

impl ColorSelection {
    pub closed spec fn spec_count(&self) -> usize {
        self.count
    }

    pub closed spec fn spec_range(&self) -> ColorRange {
        self.range
    }

    /// A selection of `count` values, `1 <= count <= 256`.
    pub fn new(count: usize, range: ColorRange) -> (r: ColorSelection)
        requires
            1 <= count <= 256,
        ensures
            r.spec_count() == count,
            r.spec_range() == range,
    {
        ColorSelection { count, range }
    }

    pub fn count(&self) -> (r: usize)
        ensures
            r == self.spec_count(),
    {
        self.count
    }

    /// The channel values: `floor(k * 255 / count)` when spaced, `k` when
    /// dark, `255 - k` when light, for `k` in `0..count`.
    pub fn get_values(&self) -> (r: Vec<u8>)
        requires
            1 <= self.spec_count() <= 256,
            self.spec_range() != ColorRange::Random,
        ensures
            r@.len() == self.spec_count(),
            forall|k: int|
                0 <= k < r@.len() ==> #[trigger] r@[k] == channel_value(
                    self.spec_range(),
                    self.spec_count() as int,
                    k,
                ),
    {
        let mut values: Vec<u8> = Vec::new();
        let mut k: usize = 0;
        while k < self.count
            invariant
                1 <= self.count <= 256,
                self.range != ColorRange::Random,
                k <= self.count,
                values@.len() == k,
                forall|j: int|
                    0 <= j < k ==> #[trigger] values@[j] == channel_value(self.range, self.count as int, j),
            decreases self.count - k,
        {
            let v: u8 = match self.range {
                ColorRange::Spaced => {
                    proof {
                        assert(k * 255 / self.count as int <= 255) by (nonlinear_arith)
                            requires
                                k < self.count,
                                self.count >= 1,
                        ;
                        assert(0 <= k * 255 / self.count as int) by (nonlinear_arith)
                            requires
                                k >= 0,
                                self.count >= 1,
                        ;
                    }
                    (k * 255 / self.count) as u8
                },
                ColorRange::Dark => k as u8,
                _ => (255 - k) as u8,
            };
            values.push(v);
            k = k + 1;
        }
        values
    }
}

/// A factor pair turned so that its longer side follows the grid's longer side.
pub open spec fn oriented(f: (usize, usize), size: Size) -> (usize, usize) {
    if size.height < size.width {
        (f.1, f.0)
    } else {
        f
    }
}

pub open spec fn fits_in(f: (usize, usize), size: Size) -> bool {
    f.0 <= size.width && f.1 <= size.height
}

/// Cells of the grid that a `f.0 x f.1` area leaves unused along its sides.
pub open spec fn slack(f: (usize, usize), size: Size) -> int {
    (size.width - f.0) + (size.height - f.1)
}

/// Among the oriented pairs of `fs` that fit, the first with the least slack.
pub open spec fn best_fit(fs: Seq<(usize, usize)>, size: Size) -> Option<(usize, usize)>
    decreases fs.len(),
{
    if fs.len() == 0 {
        None
    } else {
        let b = best_fit(fs.drop_last(), size);
        let f = oriented(fs.last(), size);
        if !fits_in(f, size) {
            b
        } else {
            match b {
                None => Some(f),
                Some(x) => if slack(f, size) < slack(x, size) {
                    Some(f)
                } else {
                    Some(x)
                },
            }
        }
    }
}

/// From depth `d` down: the first depth whose cube has a factor pair that
/// fits the grid, with its best pair.
pub open spec fn closest_equal_from(size: Size, d: int) -> Option<(Size, u8)>
    decreases d,
{
    if d < 0 {
        None
    } else {
        match best_fit(factor_pairs(d * d * d), size) {
            Some(f) => Some((Size { width: f.0, height: f.1 }, d as u8)),
            None => if d == 0 {
                None
            } else {
                closest_equal_from(size, d - 1)
            },
        }
    }
}

/// `d` is the integer cube root of `n`.
pub open spec fn is_icbrt(n: int, d: int) -> bool {
    0 <= d && d * d * d <= n < (d + 1) * (d + 1) * (d + 1)
}

fn best_fit_of(fs: &Vec<(usize, usize)>, size: Size) -> (r: Option<(usize, usize)>)
    ensures
        r == best_fit(fs@, size),
{
    let mut best: Option<(usize, usize)> = None;
    let mut k: usize = 0;
    while k < fs.len()
        invariant
            k <= fs@.len(),
            best == best_fit(fs@.take(k as int), size),
            best matches Some(x) ==> fits_in(x, size),
        decreases fs.len() - k,
    {
        assert(fs@.take(k + 1).drop_last() =~= fs@.take(k as int));
        let pair = fs[k];
        let f = if size.height < size.width {
            (pair.1, pair.0)
        } else {
            pair
        };
        if f.0 <= size.width && f.1 <= size.height {
            best = match best {
                None => Some(f),
                Some(x) => if ((size.width - f.0) as u128) + ((size.height - f.1) as u128) < ((
                size.width - x.0) as u128) + ((size.height - x.1) as u128) {
                    Some(f)
                } else {
                    Some(x)
                },
            };
        }
        k = k + 1;
    }
    assert(fs@.take(fs@.len() as int) =~= fs@);
    best
}

/// Groups the functions that size a palette of equal channel depths.
pub struct ColorChannels;

impl ColorChannels {
    /// The largest depth `d` (at most the cube root of the area) such that
    /// `d * d * d` colors can be laid out as `w x h` inside `size`, with the
    /// layout that leaves the least unused; `None` for an empty grid.
    pub fn find_closest_equal_counts(size: Size) -> (r: Option<(Size, u8)>)
        requires
            size.width * size.height < 16777216,
        ensures
            exists|d: int|
                is_icbrt(size.width * size.height, d) && r == closest_equal_from(size, d),
    {
        let area = size.area();
        let mut d: usize = 0;
        loop
            invariant
                area == size.width * size.height,
                area < 16777216,
                d <= 255,
                d * d * d <= area,
            ensures
                area == size.width * size.height,
                d <= 255,
                d * d * d <= area,
                area < (d + 1) * (d + 1) * (d + 1),
            decreases area - d,
        {
            proof {
                assert((d + 1) * (d + 1) <= 65536 && (d + 1) * (d + 1) * (d + 1) <= 16777216)
                    by (nonlinear_arith)
                    requires
                        d <= 255,
                        d >= 0,
                ;
            }
            let next = d + 1;
            if next * next * next > area {
                break;
            }
            proof {
                assert(d + 1 <= 255) by (nonlinear_arith)
                    requires
                        (d + 1) * (d + 1) * (d + 1) <= area,
                        area < 16777216,
                        d >= 0,
                ;
                assert(d < area) by (nonlinear_arith)
                    requires
                        (d + 1) * (d + 1) * (d + 1) <= area,
                        d >= 0,
                ;
            }
            d = next;
        }
        let ghost root = d as int;
        assert(is_icbrt(area as int, root));
        loop
            invariant
                area == size.width * size.height,
                d <= root,
                root <= 255,
                is_icbrt(area as int, root),
                closest_equal_from(size, root) == closest_equal_from(size, d as int),
            decreases d,
        {
            proof {
                assert(d * d <= 65025 && d * d * d <= 16581375) by (nonlinear_arith)
                    requires
                        d <= 255,
                        d >= 0,
                ;
            }
            let factors = get_factors(d * d * d);
            match best_fit_of(&factors, size) {
                Some(f) => {
                    let r = Some((Size::new(f.0, f.1), d as u8));
                    assert(r == closest_equal_from(size, d as int));
                    assert(is_icbrt(size.width * size.height, root));
                    return r;
                },
                None => {
                    if d == 0 {
                        assert(closest_equal_from(size, 0) is None);
                        assert(is_icbrt(size.width * size.height, root));
                        return None;
                    }
                    d = d - 1;
                },
            }
        }
    }
}

/// The `k`-th color of the test palette: channels take turns (red, green,
/// blue), and the value goes up by one per round, wrapping after 255.
pub open spec fn test_color(k: int) -> Color {
    let v = ((k / 3) % 256) as u8;
    if k % 3 == 0 {
        Color { red: v, green: 0, blue: 0 }
    } else if k % 3 == 1 {
        Color { red: 0, green: v, blue: 0 }
    } else {
        Color { red: 0, green: 0, blue: v }
    }
}

/// A palette of pure red, green and blue ramps, for trying the engine.
pub struct TestColorSpace {
    pub pixel_count: usize,
}

impl TestColorSpace {
    pub fn get_colors(&self) -> (r: Vec<Color>)
        ensures
            r@.len() == self.pixel_count,
            forall|k: int| 0 <= k < r@.len() ==> #[trigger] r@[k] == test_color(k),
    {
        let mut colors: Vec<Color> = Vec::new();
        let mut k: usize = 0;
        while k < self.pixel_count
            invariant
                k <= self.pixel_count,
                colors@.len() == k,
                forall|j: int| 0 <= j < k ==> #[trigger] colors@[j] == test_color(j),
            decreases self.pixel_count - k,
        {
            let v = ((k / 3) % 256) as u8;
            let c = if k % 3 == 0 {
                Color::new(v, 0, 0)
            } else if k % 3 == 1 {
                Color::new(0, v, 0)
            } else {
                Color::new(0, 0, v)
            };
            colors.push(c);
            k = k + 1;
        }
        colors
    }
}

proof fn lemma_div_below(t: int, d: int, m: int)
    requires
        0 <= t < m * d,
        d > 0,
    ensures
        0 <= t / d < m,
{
    vstd::arithmetic::div_mod::lemma_fundamental_div_mod(t, d);
    vstd::arithmetic::div_mod::lemma_mod_pos_bound(t, d);
    let q = t / d;
    assert(0 <= q < m) by (nonlinear_arith)
        requires
            t == d * q + t % d,
            0 <= t % d < d,
            0 <= t < m * d,
            d > 0,
    ;
}

/// The `t`-th color of the product of three channel value lists, red
/// slowest and blue fastest.
pub open spec fn product_color(red: Seq<u8>, green: Seq<u8>, blue: Seq<u8>, t: int) -> Color {
    Color {
        red: red[t / (green.len() * blue.len()) as int],
        green: green[(t / blue.len() as int) % green.len() as int],
        blue: blue[t % blue.len() as int],
    }
}

/// A palette: every combination of one value from each channel.
pub struct ColorSpace {
    pub red: ColorSelection,
    pub green: ColorSelection,
    pub blue: ColorSelection,
}

impl ColorSpace {
    pub open spec fn wf(&self) -> bool {
        &&& 1 <= self.red.spec_count() <= 256
        &&& 1 <= self.green.spec_count() <= 256
        &&& 1 <= self.blue.spec_count() <= 256
        &&& self.red.spec_range() != ColorRange::Random
        &&& self.green.spec_range() != ColorRange::Random
        &&& self.blue.spec_range() != ColorRange::Random
    }

    pub fn new(red: ColorSelection, green: ColorSelection, blue: ColorSelection) -> (r: ColorSpace)
        ensures
            r.red == red,
            r.green == green,
            r.blue == blue,
    {
        ColorSpace { red, green, blue }
    }

    /// The number of colors: the product of the channel counts.
    pub fn color_count(&self) -> (r: usize)
        requires
            self.wf(),
        ensures
            r == self.red.spec_count() * self.green.spec_count() * self.blue.spec_count(),
    {
        let r = self.red.count();
        let g = self.green.count();
        let b = self.blue.count();
        assert(r * g <= 65536 && r * g * b <= 16777216) by (nonlinear_arith)
            requires
                1 <= r <= 256,
                1 <= g <= 256,
                1 <= b <= 256,
        ;
        r * g * b
    }

    /// Every combination of the channel values, red slowest, blue fastest.
    pub fn get_colors(&self) -> (r: Vec<Color>)
        requires
            self.wf(),
        ensures
            r@.len() == self.red.spec_count() * self.green.spec_count() * self.blue.spec_count(),
            forall|t: int|
                0 <= t < r@.len() ==> #[trigger] r@[t] == product_color(
                    Seq::new(self.red.spec_count() as nat, |k: int| channel_value(self.red.spec_range(), self.red.spec_count() as int, k)),
                    Seq::new(self.green.spec_count() as nat, |k: int| channel_value(self.green.spec_range(), self.green.spec_count() as int, k)),
                    Seq::new(self.blue.spec_count() as nat, |k: int| channel_value(self.blue.spec_range(), self.blue.spec_count() as int, k)),
                    t,
                ),
    {
        let reds = self.red.get_values();
        let greens = self.green.get_values();
        let blues = self.blue.get_values();
        let total = self.color_count();
        assert(greens@.len() * blues@.len() <= 65536) by (nonlinear_arith)
            requires
                greens@.len() <= 256,
                blues@.len() <= 256,
        ;
        let gb = greens.len() * blues.len();
        let ghost rs = Seq::new(self.red.spec_count() as nat, |k: int| channel_value(self.red.spec_range(), self.red.spec_count() as int, k));
        let ghost gs = Seq::new(self.green.spec_count() as nat, |k: int| channel_value(self.green.spec_range(), self.green.spec_count() as int, k));
        let ghost bs = Seq::new(self.blue.spec_count() as nat, |k: int| channel_value(self.blue.spec_range(), self.blue.spec_count() as int, k));
        assert(reds@ =~= rs);
        assert(greens@ =~= gs);
        assert(blues@ =~= bs);
        let mut colors: Vec<Color> = Vec::new();
        let mut t: usize = 0;
        while t < total
            invariant
                reds@ == rs,
                greens@ == gs,
                blues@ == bs,
                total == rs.len() * gs.len() * bs.len(),
                gb == gs.len() * bs.len(),
                1 <= rs.len() <= 256,
                1 <= gs.len() <= 256,
                1 <= bs.len() <= 256,
                t <= total,
                colors@.len() == t,
                forall|u: int| 0 <= u < t ==> #[trigger] colors@[u] == product_color(rs, gs, bs, u),
            decreases total - t,
        {
            proof {
                assert(rs.len() * gs.len() * bs.len() == rs.len() * (gs.len() * bs.len())) by (nonlinear_arith);
                assert(gs.len() * bs.len() > 0) by (nonlinear_arith)
                    requires
                        gs.len() >= 1,
                        bs.len() >= 1,
                ;
                lemma_div_below(t as int, gb as int, rs.len() as int);
                vstd::arithmetic::div_mod::lemma_mod_pos_bound(t as int / bs.len() as int, gs.len() as int);
                vstd::arithmetic::div_mod::lemma_mod_pos_bound(t as int, bs.len() as int);
                vstd::arithmetic::div_mod::lemma_div_pos_is_pos(t as int, bs.len() as int);
            }
            let c = Color::new(reds[t / gb], greens[(t / blues.len()) % greens.len()], blues[t % blues.len()]);
            colors.push(c);
            t = t + 1;
        }
        colors
    }
}

} // verus!
