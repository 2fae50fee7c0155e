use crate::geometry::Size;
use vstd::prelude::*;

verus! {

/// The pairs `(i, n / i)` for the divisors `i` of `n` with `1 <= i < m`, by
/// increasing `i`.
pub open spec fn factors_below(n: int, m: int) -> Seq<(usize, usize)>
    decreases m,
{
    if m <= 1 {
        Seq::empty()
    } else {
        let rest = factors_below(n, m - 1);
        if n % (m - 1) == 0 {
            rest.push(((m - 1) as usize, (n / (m - 1)) as usize))
        } else {
            rest
        }
    }
}

/// `s` is the integer square root of `n`.
pub open spec fn is_isqrt(n: int, s: int) -> bool {
    0 <= s && s * s <= n < (s + 1) * (s + 1)
}

/// The factor pairs `(i, n / i)` of `n` with `i * i <= n`, by increasing `i`.
pub open spec fn factor_pairs(n: int) -> Seq<(usize, usize)> {
    factors_below(n, (choose|s: int| is_isqrt(n, s)) + 1)
}

/// `factor_pairs` for a known integer square root.
pub proof fn lemma_factor_pairs(n: int, s: int)
    requires
        is_isqrt(n, s),
    ensures
        factor_pairs(n) == factors_below(n, s + 1),
{
    lemma_isqrt_unique(n, s, choose|t: int| is_isqrt(n, t));
}

proof fn lemma_isqrt_unique(n: int, s: int, t: int)
    requires
        is_isqrt(n, s),
        is_isqrt(n, t),
    ensures
        s == t,
{
    if s < t {
        assert((s + 1) * (s + 1) <= t * t) by (nonlinear_arith)
            requires
                0 <= s < t,
        ;
    } else if t < s {
        assert((t + 1) * (t + 1) <= s * s) by (nonlinear_arith)
            requires
                0 <= t < s,
        ;
    }
}

/// All factor pairs `(i, n / i)` of `n` with `i <= sqrt(n)`, by increasing `i`.
pub fn get_factors(n: usize) -> (r: Vec<(usize, usize)>)
    ensures
        r@ == factor_pairs(n as int),
{
    let mut factors: Vec<(usize, usize)> = Vec::new();
    let mut i: usize = 1;
    while i <= n / i
        invariant
            1 <= i,
            (i - 1) * (i - 1) <= n,
            factors@ == factors_below(n as int, i as int),
        decreases n + 1 - i,
    {
        proof {
            vstd::arithmetic::div_mod::lemma_fundamental_div_mod(n as int, i as int);
            vstd::arithmetic::div_mod::lemma_mod_pos_bound(n as int, i as int);
            let q = n as int / i as int;
            assert(i * i <= n) by (nonlinear_arith)
                requires
                    i <= q,
                    n == i * q + n as int % i as int,
                    0 <= n as int % i as int,
                    i >= 1,
            ;
            assert(i <= n) by (nonlinear_arith)
                requires
                    i * i <= n,
                    i >= 1,
            ;
            assert(i < usize::MAX) by (nonlinear_arith)
                requires
                    i * i <= n,
                    n <= usize::MAX,
                    i >= 1,
            ;
        }
        if n % i == 0 {
            factors.push((i, n / i));
        }
        i = i + 1;
    }
    proof {
        let s = (i - 1) as int;
        vstd::arithmetic::div_mod::lemma_fundamental_div_mod(n as int, i as int);
        vstd::arithmetic::div_mod::lemma_mod_pos_bound(n as int, i as int);
        let q = n as int / i as int;
        assert(n < i * i) by (nonlinear_arith)
            requires
                q < i,
                n == i * q + n as int % i as int,
                (n as int % i as int) < i,
                i >= 1,
        ;
        assert(is_isqrt(n as int, s));
        lemma_isqrt_unique(n as int, s, choose|t: int| is_isqrt(n as int, t));
    }
    factors
}

/// The factor pairs of `n`, the one closest to a square first: with
/// `p = isqrt(n)`, every pair `(a, b)` has `a <= p <= b`, so the key
/// `|p - a| + |p - b|` is `b - a`, which shrinks as `a` grows.
pub fn get_squared_up_factors(n: usize) -> (r: Vec<(usize, usize)>)
    ensures
        r@ == factor_pairs(n as int).reverse(),
{
    let factors = get_factors(n);
    let mut out: Vec<(usize, usize)> = Vec::new();
    let mut k: usize = factors.len();
    while k > 0
        invariant
            k <= factors@.len(),
            out@ == factors@.subrange(k as int, factors@.len() as int).reverse(),
        decreases k,
    {
        k = k - 1;
        out.push(factors[k]);
        assert(out@ =~= factors@.subrange(k as int, factors@.len() as int).reverse());
    }
    assert(factors@.subrange(0, factors@.len() as int) =~= factors@);
    out
}

/// The most nearly square `width x height` of area `area`; `None` for 0.
pub fn closest_square(area: usize) -> (r: Option<Size>)
    ensures
        factor_pairs(area as int).len() == 0 ==> r is None,
        factor_pairs(area as int).len() > 0 ==> r == Some(
            Size {
                width: factor_pairs(area as int).last().0,
                height: factor_pairs(area as int).last().1,
            },
        ),
{
    let factors = get_squared_up_factors(area);
    if factors.len() == 0 {
        None
    } else {
        let (width, height) = factors[0];
        Some(Size::new(width, height))
    }
}

} // verus!
