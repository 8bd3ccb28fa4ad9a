//! Geometry of the fast Walsh-Hadamard transform.
//!
//! A row is padded to a power of two. The transform runs one pass per bit of
//! that width, and a pass combines pairs of places that lie `half` apart.
use vstd::arithmetic::power2::*;
use vstd::prelude::*;

verus! {

/// `n` is the `k`-th power of two, and the least one that reaches `d`.
pub open spec fn reaches(n: int, k: nat, d: int) -> bool {
    &&& n == pow2(k)
    &&& d <= n
    &&& k > 0 ==> pow2((k - 1) as nat) < d
}

/// The least power of two that reaches `d`, with its exponent; nothing when it
/// does not fit in a machine word.
pub fn power_reaching(d: usize) -> (power: Option<(usize, u32)>)
    ensures
        match power {
            Some((n, k)) => reaches(n as int, k as nat, d as int),
            None => forall|k: nat| #[trigger] pow2(k) >= d ==> pow2(k) > usize::MAX,
        },
{
    let mut n: usize = 1;
    let mut k: u32 = 0;
    proof {
        lemma2_to64();
    }
    while n < d
        invariant
            1 <= n == pow2(k as nat),
            k > 0 ==> pow2((k - 1) as nat) < d,
            k < 64,
        decreases 64 - k,
    {
        if n > usize::MAX / 2 {
            proof {
                assert forall|j: nat| #[trigger] pow2(j) >= d implies pow2(j) > usize::MAX by {
                    if j <= k {
                        lemma_pow2_monotone(j, k as nat);
                    } else {
                        lemma_pow2_monotone((k + 1) as nat, j);
                        lemma_pow2_unfold((k + 1) as nat);
                    }
                }
            }
            return None;
        }
        proof {
            lemma_pow2_unfold((k + 1) as nat);
            if k == 63 {
                lemma2_to64();
                lemma2_to64_rest();
            }
        }
        n = n * 2;
        k = k + 1;
    }
    Some((n, k))
}

/// Larger exponents give larger powers.
pub proof fn lemma_pow2_monotone(a: nat, b: nat)
    requires
        a <= b,
    ensures
        pow2(a) <= pow2(b),
{
    if a < b {
        lemma_pow2_strictly_increases(a, b);
    }
}

/// The power of two that reaches `d` is unique.
pub proof fn law_only_one_power_is_least(n: int, k: nat, m: int, j: nat, d: int)
    requires
        reaches(n, k, d),
        reaches(m, j, d),
    ensures
        n == m,
        k == j,
{
    if k < j {
        lemma_pow2_monotone(k, (j - 1) as nat);
    } else if j < k {
        lemma_pow2_monotone(j, (k - 1) as nat);
    }
}

/// Some power of two reaches `d` and fits in a machine word.
pub open spec fn has_width(d: int) -> bool {
    exists|k: nat| #[trigger] pow2(k) >= d && pow2(k) <= usize::MAX
}

/// The width that a row of `d` numbers is padded to: the least power of two
/// that reaches `d`, and at least one.
pub fn pad_width(d: usize) -> (width: usize)
    requires
        has_width(d as int),
    ensures
        exists|k: nat| reaches(width as int, k, d as int),
        width >= 1,
{
    match power_reaching(d) {
        Some((n, k)) => {
            proof {
                lemma_pow2_pos(k as nat);
                assert(reaches(n as int, k as nat, d as int));
            }
            n
        },
        None => 1,
    }
}

/// One pass of the transform pairs place `low` with place `low + half`.
pub open spec fn pair_of(half: int, t: int) -> (int, int) {
    let low = t / half * (2 * half) + t % half;
    (low, low + half)
}

/// The `t`-th pair of places that the pass of width `half` combines, in a row
/// of `n` numbers.
pub fn butterfly(n: usize, half: usize, t: usize) -> (pair: (usize, usize))
    requires
        half > 0,
        n as int % (2 * half) == 0,
        t < n / 2,
    ensures
        (pair.0 as int, pair.1 as int) == pair_of(half as int, t as int),
        pair.0 < pair.1 < n,
{
    proof {
        lemma_pair_in_row(n as int, half as int, t as int);
    }
    let group: usize = t / half;
    let rest: usize = t % half;
    proof {
        let h = half as int;
        let g = group as int;
        assert(0 <= g * h <= g * (2 * h)) by (nonlinear_arith)
            requires
                g >= 0,
                h > 0,
        ;
        assert(g * (2 * h) == g * h + g * h) by (nonlinear_arith);
    }
    let low: usize = group * half + group * half + rest;
    (low, low + half)
}

proof fn lemma_pair_in_row(n: int, half: int, t: int)
    requires
        half > 0,
        n % (2 * half) == 0,
        0 <= t < n / 2,
    ensures
        0 <= pair_of(half, t).0,
        pair_of(half, t).1 < n,
        0 <= t % half < half,
        0 <= t / half,
{
    let g = t / half;
    let r = t % half;
    let m = n / (2 * half);
    assert(t == g * half + r && 0 <= r < half && 0 <= g) by (nonlinear_arith)
        requires
            half > 0,
            t >= 0,
            g == t / half,
            r == t % half,
    ;
    assert(n == m * (2 * half)) by (nonlinear_arith)
        requires
            half > 0,
            n % (2 * half) == 0,
            m == n / (2 * half),
    ;
    assert(g < m) by (nonlinear_arith)
        requires
            t == g * half + r,
            0 <= r,
            half > 0,
            2 * t < n,
            n == m * (2 * half),
    ;
    assert(g * (2 * half) + r + half < n) by (nonlinear_arith)
        requires
            g + 1 <= m,
            r < half,
            n == m * (2 * half),
            half > 0,
    ;
    assert(0 <= g * (2 * half)) by (nonlinear_arith)
        requires
            g >= 0,
            half > 0,
    ;
}

/// The pair that holds a place.
pub open spec fn pair_holding(half: int, place: int) -> int {
    place / (2 * half) * half + place % (2 * half) % half
}

/// Every pass touches each place of the row exactly once: the place stands in
/// the pair that `pair_holding` names, and in no other.
pub proof fn law_a_pass_touches_each_place_once(n: int, half: int, place: int, t: int)
    requires
        half > 0,
        n % (2 * half) == 0,
        0 <= place < n,
        0 <= t < n / 2,
    ensures
        0 <= pair_holding(half, place) < n / 2,
        (pair_of(half, t).0 == place || pair_of(half, t).1 == place) <==> t == pair_holding(
            half,
            place,
        ),
{
    let w = 2 * half;
    let g = place / w;
    let q = place % w;
    let r = q % half;
    let m = n / w;
    let own = pair_holding(half, place);
    assert(place == g * w + q && 0 <= q < w && 0 <= g) by (nonlinear_arith)
        requires
            w > 0,
            place >= 0,
            g == place / w,
            q == place % w,
    ;
    assert(q == r || q == r + half) by {
        if q < half {
            vstd::arithmetic::div_mod::lemma_small_mod(q as nat, half as nat);
        } else {
            vstd::arithmetic::div_mod::lemma_fundamental_div_mod_converse(q, half, 1, q - half);
        }
    }
    assert(0 <= r < half) by (nonlinear_arith)
        requires
            half > 0,
            r == q % half,
    ;
    assert(n == m * w) by (nonlinear_arith)
        requires
            w > 0,
            n % w == 0,
            m == n / w,
    ;
    assert(g < m) by (nonlinear_arith)
        requires
            place == g * w + q,
            0 <= q,
            w > 0,
            place < n,
            n == m * w,
    ;
    assert(n == 2 * (m * half)) by (nonlinear_arith)
        requires
            n == m * w,
            w == 2 * half,
    ;
    assert(0 <= g * half && g * half + r < m * half) by (nonlinear_arith)
        requires
            0 <= g,
            g + 1 <= m,
            0 <= r < half,
            half > 0,
    ;
    // The pair `t`, taken apart.
    let tg = t / half;
    let tr = t % half;
    assert(t == tg * half + tr && 0 <= tr < half && 0 <= tg) by (nonlinear_arith)
        requires
            half > 0,
            t >= 0,
            tg == t / half,
            tr == t % half,
    ;
    let low = pair_of(half, t).0;
    assert(low == tg * w + tr);
    if low == place || low + half == place {
        let off = place - tg * w;
        assert(off == tr || off == tr + half);
        vstd::arithmetic::div_mod::lemma_fundamental_div_mod_converse(place, w, tg, off);
        assert(g == tg && q == off);
        assert(r == tr) by {
            if off == tr {
                vstd::arithmetic::div_mod::lemma_small_mod(q as nat, half as nat);
            } else {
                vstd::arithmetic::div_mod::lemma_fundamental_div_mod_converse(q, half, 1, tr);
            }
        }
        assert(t == own);
    }
    if t == own {
        vstd::arithmetic::div_mod::lemma_fundamental_div_mod_converse(t, half, g, r);
        assert(tg == g && tr == r);
    }
}

/// The place is the upper one of its pair in the pass of width `half`.
pub open spec fn is_upper(half: int, place: int) -> bool {
    place % (2 * half) >= half
}

/// A row after the pass of width `half`: of each pair, the lower place takes
/// the sum and the upper one the difference.
pub open spec fn combined(row: Seq<int>, half: int) -> Seq<int> {
    Seq::new(
        row.len(),
        |p: int|
            if is_upper(half, p) {
                row[p - half] - row[p]
            } else {
                row[p] + row[p + half]
            },
    )
}

/// A row after the passes of the first `k` widths.
pub open spec fn transformed(row: Seq<int>, k: nat) -> Seq<int>
    decreases k,
{
    if k == 0 {
        row
    } else {
        combined(transformed(row, (k - 1) as nat), pow2((k - 1) as nat) as int)
    }
}

/// A row with every number multiplied by `c`.
pub open spec fn scaled(row: Seq<int>, c: int) -> Seq<int> {
    Seq::new(row.len(), |p: int| c * row[p])
}

/// A place and its partner lie in the row, one of them below and one above.
proof fn lemma_partner(n: int, half: int, place: int)
    requires
        half > 0,
        n % (2 * half) == 0,
        0 <= place < n,
    ensures
        !is_upper(half, place) ==> place + half < n && is_upper(half, place + half),
        is_upper(half, place) ==> place - half >= 0 && !is_upper(half, place - half),
{
    let w = 2 * half;
    let g = place / w;
    let q = place % w;
    let m = n / w;
    assert(place == g * w + q && 0 <= q < w && 0 <= g) by (nonlinear_arith)
        requires
            w > 0,
            place >= 0,
            g == place / w,
            q == place % w,
    ;
    assert(n == m * w) by (nonlinear_arith)
        requires
            w > 0,
            n % w == 0,
            m == n / w,
    ;
    assert(g < m) by (nonlinear_arith)
        requires
            place == g * w + q,
            0 <= q,
            w > 0,
            place < n,
            n == m * w,
    ;
    assert(g * w + w <= m * w) by (nonlinear_arith)
        requires
            g + 1 <= m,
            w > 0,
    ;
    assert(0 <= g * w) by (nonlinear_arith)
        requires
            0 <= g,
            w > 0,
    ;
    if q < half {
        vstd::arithmetic::div_mod::lemma_fundamental_div_mod_converse(
            place + half,
            w,
            g,
            q + half,
        );
    } else {
        vstd::arithmetic::div_mod::lemma_fundamental_div_mod_converse(
            place - half,
            w,
            g,
            q - half,
        );
    }
}

/// Going to the partner in one pass does not change which side of its pair a
/// place is on in another.
proof fn lemma_passes_are_independent(a: int, c: int, place: int)
    requires
        a > 0,
        c > 0,
        place >= 0,
    ensures
        ({
            let b = 2 * a * c;
            &&& is_upper(a, place + b) == is_upper(a, place)
            &&& place >= b ==> is_upper(a, place - b) == is_upper(a, place)
            &&& !is_upper(a, place) ==> is_upper(b, place + a) == is_upper(b, place)
            &&& is_upper(a, place) ==> is_upper(b, place - a) == is_upper(b, place)
        }),
{
    let w = 2 * a;
    let b = 2 * a * c;
    let wide = 2 * b;
    assert(b == c * w && b > 0) by (nonlinear_arith)
        requires
            w == 2 * a,
            b == 2 * a * c,
            a > 0,
            c > 0,
    ;
    vstd::arithmetic::div_mod::lemma_mod_multiples_vanish(c, place, w);
    if place >= b {
        vstd::arithmetic::div_mod::lemma_mod_multiples_vanish(c, place - b, w);
    }
    assert(w * c == c * w) by (nonlinear_arith);
    let far = place / wide;
    let r = place % wide;
    let u = r / w;
    let s = r % w;
    assert(place == far * wide + r && 0 <= r < wide) by (nonlinear_arith)
        requires
            wide > 0,
            far == place / wide,
            r == place % wide,
    ;
    assert(r == u * w + s && 0 <= s < w && 0 <= u) by (nonlinear_arith)
        requires
            w > 0,
            r >= 0,
            u == r / w,
            s == r % w,
    ;
    assert(far * wide == (far * (2 * c)) * w) by (nonlinear_arith)
        requires
            wide == 2 * b,
            b == c * w,
    ;
    assert(place == (far * (2 * c) + u) * w + s) by (nonlinear_arith)
        requires
            place == far * wide + r,
            r == u * w + s,
            far * wide == (far * (2 * c)) * w,
    ;
    vstd::arithmetic::div_mod::lemma_fundamental_div_mod_converse(
        place,
        w,
        far * (2 * c) + u,
        s,
    );
    assert(s == place % w);
    assert(wide == (2 * c) * w) by (nonlinear_arith)
        requires
            wide == 2 * b,
            b == c * w,
    ;
    assert(u < 2 * c) by (nonlinear_arith)
        requires
            u * w + s < (2 * c) * w,
            0 <= s,
            w > 0,
    ;
    assert(0 <= u * w && u * w + w <= (2 * c) * w) by (nonlinear_arith)
        requires
            0 <= u,
            u + 1 <= 2 * c,
            w > 0,
    ;
    if u < c {
        assert(u * w + w <= c * w) by (nonlinear_arith)
            requires
                u + 1 <= c,
                w > 0,
        ;
    } else {
        assert(c * w <= u * w) by (nonlinear_arith)
            requires
                c <= u,
                w > 0,
        ;
    }
    if s < a {
        vstd::arithmetic::div_mod::lemma_fundamental_div_mod_converse(
            place + a,
            wide,
            far,
            r + a,
        );
    } else {
        vstd::arithmetic::div_mod::lemma_fundamental_div_mod_converse(
            place - a,
            wide,
            far,
            r - a,
        );
    }
}

/// A pass run twice doubles the row.
proof fn lemma_a_pass_twice_doubles(row: Seq<int>, half: int)
    requires
        half > 0,
        row.len() as int % (2 * half) == 0,
    ensures
        combined(combined(row, half), half) == scaled(row, 2),
{
    assert forall|p: int| 0 <= p < row.len() implies #[trigger] combined(
        combined(row, half),
        half,
    )[p] == 2 * row[p] by {
        lemma_partner(row.len() as int, half, p);
    }
    assert(combined(combined(row, half), half) =~= scaled(row, 2));
}

/// Two passes may change places.
proof fn lemma_passes_commute(row: Seq<int>, a: int, c: int)
    requires
        a > 0,
        c > 0,
        row.len() as int % (2 * (2 * a * c)) == 0,
    ensures
        combined(combined(row, a), 2 * a * c) == combined(combined(row, 2 * a * c), a),
{
    let b = 2 * a * c;
    let n = row.len() as int;
    assert(b > 0) by (nonlinear_arith)
        requires
            b == 2 * a * c,
            a > 0,
            c > 0,
    ;
    let m = n / (2 * b);
    assert(n == m * (2 * b)) by (nonlinear_arith)
        requires
            b > 0,
            n % (2 * b) == 0,
            m == n / (2 * b),
    ;
    assert(n == (m * (2 * c)) * (2 * a)) by (nonlinear_arith)
        requires
            n == m * (2 * b),
            b == 2 * a * c,
    ;
    vstd::arithmetic::div_mod::lemma_mod_multiples_basic(m * (2 * c), 2 * a);
    let first = combined(row, a);
    let second = combined(row, b);
    assert forall|p: int| 0 <= p < n implies #[trigger] combined(first, b)[p] == combined(
        second,
        a,
    )[p] by {
        lemma_partner(n, a, p);
        lemma_partner(n, b, p);
        lemma_passes_are_independent(a, c, p);
        if is_upper(a, p) {
            lemma_partner(n, b, p - a);
        } else {
            lemma_partner(n, b, p + a);
        }
        if is_upper(b, p) {
            lemma_partner(n, a, p - b);
        } else {
            lemma_partner(n, a, p + b);
        }
    }
    assert(combined(first, b) =~= combined(second, a));
}

proof fn lemma_widths_divide(n: int, j: nat, k: nat)
    requires
        j <= k,
        n % pow2(k) as int == 0,
    ensures
        n % pow2(j) as int == 0,
        pow2(k) == pow2((k - j) as nat) * pow2(j),
        pow2(j) > 0,
{
    lemma_pow2_pos(j);
    lemma_pow2_pos(k);
    lemma_pow2_adds((k - j) as nat, j);
    let big = pow2(k) as int;
    let small = pow2(j) as int;
    let c = pow2((k - j) as nat) as int;
    let m = n / big;
    assert(n == (m * c) * small) by (nonlinear_arith)
        requires
            big > 0,
            n % big == 0,
            m == n / big,
            big == c * small,
    ;
    vstd::arithmetic::div_mod::lemma_mod_multiples_basic(m * c, small);
}

/// The first passes and a later one may change places.
proof fn lemma_later_pass_first(row: Seq<int>, j: nat, m: nat)
    requires
        j <= m,
        row.len() as int % pow2(m + 1) as int == 0,
    ensures
        transformed(combined(row, pow2(m) as int), j) == combined(
            transformed(row, j),
            pow2(m) as int,
        ),
        transformed(row, j).len() == row.len(),
    decreases j,
{
    if j > 0 {
        let i = (j - 1) as nat;
        lemma_later_pass_first(row, i, m);
        let inner = transformed(row, i);
        let c = pow2((m - j) as nat) as int;
        let a = pow2(i) as int;
        lemma_pow2_adds((m - j) as nat, j);
        lemma_pow2_unfold(j);
        lemma_pow2_unfold(m + 1);
        lemma_pow2_pos(i);
        lemma_pow2_pos((m - j) as nat);
        assert(pow2(m) == 2 * a * c) by (nonlinear_arith)
            requires
                pow2(m) == c * pow2(j),
                pow2(j) == 2 * a,
        ;
        lemma_passes_commute(inner, a, c);
    }
}

/// Every pass of the transform takes each of its pairs to the sum and the
/// difference of the two numbers.
pub proof fn law_a_pass_takes_sums_and_differences(row: Seq<int>, half: int, t: int)
    requires
        half > 0,
        row.len() as int % (2 * half) == 0,
        0 <= t < row.len() as int / 2,
    ensures
        ({
            let (low, high) = pair_of(half, t);
            &&& combined(row, half)[low] == row[low] + row[high]
            &&& combined(row, half)[high] == row[low] - row[high]
        }),
{
    let n = row.len() as int;
    lemma_pair_in_row(n, half, t);
    let (low, high) = pair_of(half, t);
    let g = t / half;
    let r = t % half;
    vstd::arithmetic::div_mod::lemma_fundamental_div_mod_converse(low, 2 * half, g, r);
    vstd::arithmetic::div_mod::lemma_fundamental_div_mod_converse(high, 2 * half, g, r + half);
}

/// The transform undoes itself up to a factor: run twice over a row whose width
/// is the `k`-th power of two, it multiplies every number by that width. The
/// numbers are whole, so that nothing is rounded.
pub proof fn law_the_transform_undoes_itself(row: Seq<int>, k: nat)
    requires
        row.len() == pow2(k),
    ensures
        transformed(transformed(row, k), k) == scaled(row, pow2(k) as int),
{
    lemma_pow2_pos(k);
    vstd::arithmetic::div_mod::lemma_mod_self_0(pow2(k) as int);
    lemma_passes_twice_scale(row, k);
}

proof fn lemma_passes_twice_scale(row: Seq<int>, k: nat)
    requires
        row.len() as int % pow2(k) as int == 0,
    ensures
        transformed(transformed(row, k), k) == scaled(row, pow2(k) as int),
    decreases k,
{
    if k == 0 {
        lemma2_to64();
        assert(scaled(row, 1) =~= row);
    } else {
        let j = (k - 1) as nat;
        let half = pow2(j) as int;
        lemma_widths_divide(row.len() as int, j, k);
        lemma_pow2_unfold(k);
        let once = transformed(row, j);
        lemma_passes_twice_scale(row, j);
        lemma_later_pass_first(row, j, j);
        lemma_later_pass_first(once, j, j);
        lemma_a_pass_twice_doubles(transformed(once, j), half);
        assert(scaled(scaled(row, half), 2) =~= scaled(row, pow2(k) as int)) by {
            assert forall|p: int| 0 <= p < row.len() implies 2 * (half * #[trigger] row[p])
                == pow2(k) * row[p] by {
                assert(2 * (half * row[p]) == (2 * half) * row[p]) by (nonlinear_arith);
            }
        }
    }
}

/// The sum of `f` over the places from `from` to `to`.
pub open spec fn total(f: spec_fn(int) -> int, from: int, to: int) -> int
    decreases to - from,
{
    if to <= from {
        0
    } else {
        total(f, from, to - 1) + f(to - 1)
    }
}

/// The inner product of two rows.
pub open spec fn inner_product(x: Seq<int>, y: Seq<int>) -> int {
    total(|p: int| x[p] * y[p], 0, x.len() as int)
}

/// A sum can be taken in two parts.
pub proof fn lemma_total_splits(f: spec_fn(int) -> int, from: int, mid: int, to: int)
    requires
        from <= mid <= to,
    ensures
        total(f, from, to) == total(f, from, mid) + total(f, mid, to),
    decreases to - mid,
{
    if mid < to {
        lemma_total_splits(f, from, mid, to - 1);
    }
}

proof fn lemma_total_of_differences(
    f: spec_fn(int) -> int,
    g: spec_fn(int) -> int,
    d: spec_fn(int) -> int,
    from: int,
    to: int,
)
    requires
        forall|p: int| from <= p < to ==> #[trigger] d(p) == f(p) - g(p),
    ensures
        total(d, from, to) == total(f, from, to) - total(g, from, to),
    decreases to - from,
{
    if from < to {
        lemma_total_of_differences(f, g, d, from, to - 1);
        assert(d(to - 1) == f(to - 1) - g(to - 1));
    }
}

proof fn lemma_halves_cancel(f: spec_fn(int) -> int, start: int, half: int, q: int)
    requires
        0 <= q <= half,
        forall|p: int| start <= p < start + half ==> #[trigger] f(p + half) == -f(p),
    ensures
        total(f, start + half, start + half + q) == -total(f, start, start + q),
    decreases q,
{
    if q > 0 {
        lemma_halves_cancel(f, start, half, q - 1);
        assert(f(start + q - 1 + half) == -f(start + q - 1));
    }
}

proof fn lemma_blocks_cancel(f: spec_fn(int) -> int, half: int, blocks: int)
    requires
        half > 0,
        blocks >= 0,
        forall|g: int, p: int|
            0 <= g < blocks && #[trigger] in_lower_half(g, half, p) ==> f(p + half) == -f(p),
    ensures
        total(f, 0, blocks * (2 * half)) == 0,
    decreases blocks,
{
    if blocks > 0 {
        let g = blocks - 1;
        let start = g * (2 * half);
        assert(blocks * (2 * half) == start + 2 * half) by (nonlinear_arith)
            requires
                start == (blocks - 1) * (2 * half),
        ;
        assert(start >= 0) by (nonlinear_arith)
            requires
                g >= 0,
                half > 0,
                start == g * (2 * half),
        ;
        lemma_blocks_cancel(f, half, g);
        assert forall|p: int| start <= p < start + half implies #[trigger] f(p + half) == -f(
            p,
        ) by {
            assert(in_lower_half(g, half, p));
        }
        lemma_halves_cancel(f, start, half, half);
        lemma_total_splits(f, start, start + half, start + 2 * half);
        lemma_total_splits(f, 0, start, start + 2 * half);
    } else {
        assert(blocks * (2 * half) == 0) by (nonlinear_arith)
            requires
                blocks == 0,
        ;
    }
}

/// The place lies in the lower half of a block of `2 * half` places.
spec fn in_lower_half(block: int, half: int, place: int) -> bool {
    block * (2 * half) <= place < block * (2 * half) + half
}

/// A pass can be moved from one side of an inner product to the other.
proof fn lemma_a_pass_moves_over(x: Seq<int>, y: Seq<int>, half: int)
    requires
        half > 0,
        x.len() == y.len(),
        x.len() as int % (2 * half) == 0,
    ensures
        inner_product(combined(x, half), y) == inner_product(x, combined(y, half)),
{
    let n = x.len() as int;
    let px = combined(x, half);
    let py = combined(y, half);
    let f = |p: int| px[p] * y[p];
    let g = |p: int| x[p] * py[p];
    let d = |p: int| px[p] * y[p] - x[p] * py[p];
    let blocks = n / (2 * half);
    assert(n == blocks * (2 * half)) by (nonlinear_arith)
        requires
            half > 0,
            n % (2 * half) == 0,
            blocks == n / (2 * half),
    ;
    assert(blocks >= 0) by (nonlinear_arith)
        requires
            n >= 0,
            half > 0,
            blocks == n / (2 * half),
    ;
    assert forall|b: int, p: int| 0 <= b < blocks && #[trigger] in_lower_half(b, half, p) implies d(
        p + half,
    ) == -d(p) by {
        assert(0 <= b * (2 * half) && b * (2 * half) + 2 * half <= n) by (nonlinear_arith)
            requires
                0 <= b,
                b + 1 <= blocks,
                half > 0,
                n == blocks * (2 * half),
        ;
        vstd::arithmetic::div_mod::lemma_fundamental_div_mod_converse(
            p,
            2 * half,
            b,
            p - b * (2 * half),
        );
        vstd::arithmetic::div_mod::lemma_fundamental_div_mod_converse(
            p + half,
            2 * half,
            b,
            p + half - b * (2 * half),
        );
        let (xl, xh, yl, yh) = (x[p], x[p + half], y[p], y[p + half]);
        assert((xl - xh) * yh - xh * (yl - yh) == -((xl + xh) * yl - xl * (yl + yh)))
            by (nonlinear_arith);
    }
    lemma_blocks_cancel(d, half, blocks);
    lemma_total_of_differences(f, g, d, 0, n);
}

/// The transform is its own transpose: it can be moved from one side of an
/// inner product to the other. So gradients go back through the same passes.
pub proof fn law_the_transform_is_its_own_transpose(x: Seq<int>, y: Seq<int>, k: nat)
    requires
        x.len() == y.len(),
        x.len() as int % pow2(k) as int == 0,
    ensures
        inner_product(transformed(x, k), y) == inner_product(x, transformed(y, k)),
    decreases k,
{
    if k > 0 {
        let j = (k - 1) as nat;
        let half = pow2(j) as int;
        lemma_widths_divide(x.len() as int, j, k);
        lemma_pow2_unfold(k);
        lemma_later_pass_first(x, j, j);
        lemma_later_pass_first(y, j, j);
        lemma_a_pass_moves_over(transformed(x, j), y, half);
        law_the_transform_is_its_own_transpose(x, combined(y, half), j);
    }
}

/// Why rows cannot be transformed.
#[derive(Clone, Copy, Debug, PartialEq, Eq, Structural)]
pub enum RowsError {
    ZeroWidth,
    Input,
    OutputShort,
}

/// The transform of `n` rows of `d` numbers is turned away for this reason.
pub open spec fn rows_error(x: int, n: int, d: int, y: int) -> Option<RowsError> {
    if d == 0 {
        Some(RowsError::ZeroWidth)
    } else if x != n * d {
        Some(RowsError::Input)
    } else if y < n * d {
        Some(RowsError::OutputShort)
    } else {
        None
    }
}

/// Checks the lengths of the input and the output of a transform of `n` rows
/// of `d` numbers.
pub fn check_rows(x: usize, n: usize, d: usize, y: usize) -> (checked: Result<(), RowsError>)
    ensures
        match checked {
            Ok(_) => rows_error(x as int, n as int, d as int, y as int) is None,
            Err(e) => rows_error(x as int, n as int, d as int, y as int) == Some(e),
        },
{
    if d == 0 {
        return Err(RowsError::ZeroWidth);
    }
    match n.checked_mul(d) {
        Some(all) => {
            if x != all {
                Err(RowsError::Input)
            } else if y < all {
                Err(RowsError::OutputShort)
            } else {
                Ok(())
            }
        },
        None => Err(RowsError::Input),
    }
}

/// Rows are transformed when they have a width, the input is exactly these rows,
/// and the output has room for them.
pub proof fn law_transformable_rows(x: int, n: int, d: int, y: int)
    ensures
        rows_error(x, n, d, y) is None <==> d != 0 && x == n * d && y >= n * d,
{
}

} // verus!
