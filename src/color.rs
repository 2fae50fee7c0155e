use vstd::prelude::*;

verus! {

/// A color of three 8-bit channels.
#[derive(Debug, Clone, Copy, PartialEq, Eq, Structural, Hash)]
pub struct Color {
    pub red: u8,
    pub green: u8,
    pub blue: u8,
}

pub open spec fn diff(a: u8, b: u8) -> int {
    if a >= b {
        a - b
    } else {
        b - a
    }
}

/// Squared channel distance of two colors.
pub open spec fn color_dist(a: Color, b: Color) -> int {
    diff(a.red, b.red) * diff(a.red, b.red) + diff(a.green, b.green) * diff(a.green, b.green)
        + diff(a.blue, b.blue) * diff(a.blue, b.blue)
}

pub open spec fn max3(a: int, b: int, c: int) -> int {
    if a >= b && a >= c {
        a
    } else if b >= c {
        b
    } else {
        c
    }
}

pub open spec fn min3(a: int, b: int, c: int) -> int {
    if a <= b && a <= c {
        a
    } else if b <= c {
        b
    } else {
        c
    }
}

/// Hue in degrees, in `0..=360`, rounded to the nearest integer with halves
/// rounded up, computed exactly on integers; 0 for grays. The sector is
/// picked by the largest channel, red before green before blue.
pub open spec fn hue_of(c: Color) -> int {
    let r = c.red as int;
    let g = c.green as int;
    let b = c.blue as int;
    let mx = max3(r, g, b);
    let mn = min3(r, g, b);
    let range = mx - mn;
    if range == 0 {
        0
    } else {
        let num = if mx == r {
            60 * (g - b)
        } else if mx == g {
            60 * (b - r) + 120 * range
        } else {
            60 * (r - g) + 240 * range
        };
        let n = if num < 0 {
            num + 360 * range
        } else {
            num
        };
        (2 * n + range) / (2 * range)
    }
}

fn channel_diff(a: u8, b: u8) -> (r: usize)
    ensures
        r == diff(a, b),
        r <= 255,
{
    if a >= b {
        (a - b) as usize
    } else {
        (b - a) as usize
    }
}

impl Color {
    pub fn new(red: u8, green: u8, blue: u8) -> (r: Color)
        ensures
            r.red == red,
            r.green == green,
            r.blue == blue,
    {
        Color { red, green, blue }
    }

    /// Squared channel distance to `other` (no square root is taken).
    pub fn dist(&self, other: &Color) -> (r: usize)
        ensures
            r == color_dist(*self, *other),
            r <= 195075,
    {
        let dr = channel_diff(self.red, other.red);
        let dg = channel_diff(self.green, other.green);
        let db = channel_diff(self.blue, other.blue);
        assert(dr * dr <= 65025 && dg * dg <= 65025 && db * db <= 65025) by (nonlinear_arith)
            requires
                dr <= 255,
                dg <= 255,
                db <= 255,
        ;
        dr * dr + dg * dg + db * db
    }

    /// Hue in degrees (see `hue_of`).
    pub fn hue(&self) -> (r: usize)
        ensures
            r == hue_of(*self),
            r <= 360,
    {
        let r = self.red as i64;
        let g = self.green as i64;
        let b = self.blue as i64;
        let mx = if r >= g && r >= b {
            r
        } else if g >= b {
            g
        } else {
            b
        };
        let mn = if r <= g && r <= b {
            r
        } else if g <= b {
            g
        } else {
            b
        };
        if mx == mn {
            return 0;
        }
        let range = mx - mn;
        let num: i64 = if mx == r {
            60 * (g - b)
        } else if mx == g {
            60 * (b - r) + 120 * range
        } else {
            60 * (r - g) + 240 * range
        };
        let n: i64 = if num < 0 {
            num + 360 * range
        } else {
            num
        };
        assert(0 <= n < 360 * range);
        let top = (2 * n + range) as u64;
        let bottom = (2 * range) as u64;
        assert(top / bottom <= 360) by (nonlinear_arith)
            requires
                top < 721 * range,
                bottom == 2 * range,
                range > 0,
        ;
        (top / bottom) as usize
    }
}

} // verus!
