//! The order of places in a radix-two Fourier transform: before the passes
//! each place trades its value with the place of mirrored bits.
use vstd::arithmetic::power2::*;
use vstd::prelude::*;

verus! {

/// The number whose lowest `bits` bits are those of `i` in mirrored order.
pub open spec fn mirrored(bits: nat, i: int) -> int
    decreases bits,
{
    if bits == 0 {
        0
    } else {
        (i % 2) * pow2((bits - 1) as nat) + mirrored((bits - 1) as nat, i / 2)
    }
}

proof fn lemma_twice(bits: nat)
    requires
        bits > 0,
    ensures
        pow2(bits) == 2 * pow2((bits - 1) as nat),
        pow2((bits - 1) as nat) > 0,
{
    lemma_pow2_unfold(bits);
    lemma_pow2_pos((bits - 1) as nat);
}

proof fn lemma_mirrored_bound(bits: nat, i: int)
    requires
        i >= 0,
    ensures
        0 <= mirrored(bits, i) < pow2(bits),
    decreases bits,
{
    lemma_pow2_pos(bits);
    if bits > 0 {
        lemma_twice(bits);
        lemma_mirrored_bound((bits - 1) as nat, i / 2);
        let half = pow2((bits - 1) as nat) as int;
        let low = i % 2;
        assert(low * half == 0 || low * half == half) by (nonlinear_arith)
            requires
                low == 0 || low == 1,
        ;
    }
}

proof fn lemma_mirrored_from_the_top(bits: nat, high: int, x: int)
    requires
        bits > 0,
        high == 0 || high == 1,
        0 <= x < pow2((bits - 1) as nat),
    ensures
        mirrored(bits, high * pow2((bits - 1) as nat) + x) == 2 * mirrored((bits - 1) as nat, x)
            + high,
    decreases bits,
{
    let half = pow2((bits - 1) as nat) as int;
    let v = high * half + x;
    if bits == 1 {
        lemma2_to64();
        assert(half == 1);
        assert(v == high);
        assert(mirrored(0, v / 2) == 0 && mirrored(0, x) == 0);
        assert(mirrored(1, v) == (v % 2) * pow2(0) + mirrored(0, v / 2));
        assert((v % 2) * 1 == v % 2) by (nonlinear_arith);
    } else {
        let quarter = pow2((bits - 2) as nat) as int;
        lemma_twice((bits - 1) as nat);
        assert(half == 2 * quarter);
        assert(high * half == 2 * (high * quarter)) by (nonlinear_arith)
            requires
                half == 2 * quarter,
        ;
        assert(v % 2 == x % 2 && v / 2 == high * quarter + x / 2);
        lemma_mirrored_from_the_top((bits - 1) as nat, high, x / 2);
        let low = x % 2;
        assert(low * half == 2 * (low * quarter)) by (nonlinear_arith)
            requires
                half == 2 * quarter,
        ;
    }
}

/// Mirroring the bits twice changes nothing: the places trade in pairs.
pub proof fn law_mirroring_twice_restores(bits: nat, i: int)
    requires
        0 <= i < pow2(bits),
    ensures
        mirrored(bits, mirrored(bits, i)) == i,
        0 <= mirrored(bits, i) < pow2(bits),
    decreases bits,
{
    lemma_mirrored_bound(bits, i);
    if bits == 0 {
        lemma2_to64();
    } else {
        lemma_twice(bits);
        let rest = (bits - 1) as nat;
        law_mirroring_twice_restores(rest, i / 2);
        lemma_mirrored_from_the_top(bits, i % 2, mirrored(rest, i / 2));
    }
}

/// Bit `j` of the mirrored number is the bit of the number that is as far from
/// its other end.
pub proof fn law_bits_change_places(bits: nat, i: int, j: nat)
    requires
        0 <= i,
        j < bits,
    ensures
        (mirrored(bits, i) / (pow2(j) as int)) % 2 == (i / (pow2((bits - 1 - j) as nat) as int))
            % 2,
    decreases bits,
{
    let rest = (bits - 1) as nat;
    let top = pow2(rest) as int;
    let low = mirrored(rest, i / 2);
    lemma_pow2_pos(rest);
    lemma_mirrored_is_small(rest, i / 2);
    let bit = i % 2;
    if j == rest {
        lemma2_to64();
        assert(bit * top + low == top * bit + low) by (nonlinear_arith);
        vstd::arithmetic::div_mod::lemma_fundamental_div_mod_converse(
            bit * top + low,
            top,
            bit,
            low,
        );
        assert(i / 1 == i);
    } else {
        law_bits_change_places(rest, i / 2, j);
        let unit = pow2(j) as int;
        let gap = (rest - j) as nat;
        lemma_pow2_pos(j);
        vstd::arithmetic::power2::lemma_pow2_adds(j, gap);
        lemma_twice(gap);
        let half = pow2((gap - 1) as nat) as int;
        assert(bit * top + low == unit * (bit * (2 * half)) + low) by (nonlinear_arith)
            requires
                top == unit * (2 * half),
        ;
        vstd::arithmetic::div_mod::lemma_hoist_over_denominator(
            low,
            bit * (2 * half),
            unit as nat,
        );
        assert(unit * (bit * (2 * half)) + low == low + (bit * (2 * half)) * unit)
            by (nonlinear_arith);
        assert((bit * top + low) / unit == low / unit + bit * (2 * half));
        assert(bit * (2 * half) == 2 * (bit * half)) by (nonlinear_arith);
        vstd::arithmetic::div_mod::lemma_mod_multiples_vanish(bit * half, low / unit, 2);
        let wide = pow2((rest - 1 - j) as nat) as int;
        lemma_pow2_pos((rest - 1 - j) as nat);
        lemma_twice((rest - j) as nat);
        vstd::arithmetic::div_mod::lemma_div_denominator(i, 2, wide);
    }
}

proof fn lemma_mirrored_is_small(bits: nat, i: int)
    ensures
        0 <= mirrored(bits, i) < pow2(bits),
    decreases bits,
{
    lemma_pow2_pos(bits);
    if bits > 0 {
        lemma_twice(bits);
        lemma_mirrored_is_small((bits - 1) as nat, i / 2);
        let half = pow2((bits - 1) as nat) as int;
        let low = i % 2;
        assert(low * half == 0 || low * half == half) by (nonlinear_arith)
            requires
                low == 0 || low == 1,
        ;
    }
}

/// The place of mirrored bits.
pub fn mirror(i: usize, bits: u32) -> (place: usize)
    requires
        i < pow2(bits as nat) <= usize::MAX,
    ensures
        place == mirrored(bits as nat, i as int),
        place < pow2(bits as nat),
{
    let mut left: usize = i;
    let mut place: usize = 0;
    proof {
        lemma_mirrored_bound(bits as nat, i as int);
    }
    for k in 0..bits
        invariant
            pow2(bits as nat) <= usize::MAX,
            0 <= mirrored(bits as nat, i as int) < pow2(bits as nat),
            mirrored(bits as nat, i as int) == place * pow2((bits - k) as nat) + mirrored(
                (bits - k) as nat,
                left as int,
            ),
    {
        let ghost now = (bits - k) as nat;
        let ghost next = (bits - k - 1) as nat;
        let low: usize = left % 2;
        proof {
            lemma_twice(now);
            lemma_mirrored_bound(next, left as int / 2);
            let p = place as int;
            let half = pow2(next) as int;
            let bit = low as int;
            assert(p * (2 * half) + bit * half == (2 * p + bit) * half) by (nonlinear_arith);
            assert(2 * p + bit <= (2 * p + bit) * half) by (nonlinear_arith)
                requires
                    half >= 1,
                    p >= 0,
                    bit >= 0,
            ;
        }
        place = 2 * place + low;
        left = left / 2;
    }
    proof {
        lemma2_to64();
        assert(place * 1 == place) by (nonlinear_arith);
    }
    place
}

/// The trades among the first `n` places, each written once.
pub open spec fn trades(bits: nat, n: int) -> Seq<(usize, usize)>
    decreases n,
{
    if n <= 0 {
        Seq::empty()
    } else {
        let i = n - 1;
        let j = mirrored(bits, i);
        if i < j {
            trades(bits, i).push((i as usize, j as usize))
        } else {
            trades(bits, i)
        }
    }
}

/// The trades that put `2^bits` places into mirrored order.
pub fn mirror_swaps(bits: u32) -> (swaps: Vec<(usize, usize)>)
    requires
        pow2(bits as nat) <= usize::MAX,
    ensures
        swaps@ == trades(bits as nat, pow2(bits as nat) as int),
{
    let mut n: usize = 1;
    proof {
        lemma2_to64();
    }
    for k in 0..bits
        invariant
            n == pow2(k as nat),
            pow2(bits as nat) <= usize::MAX,
    {
        proof {
            lemma_twice((k + 1) as nat);
            crate::hadamard::lemma_pow2_monotone((k + 1) as nat, bits as nat);
        }
        n = n * 2;
    }
    let mut swaps: Vec<(usize, usize)> = Vec::new();
    for i in 0..n
        invariant
            n == pow2(bits as nat) <= usize::MAX,
            swaps@ == trades(bits as nat, i as int),
    {
        let j: usize = mirror(i, bits);
        if i < j {
            swaps.push((i, j));
        }
    }
    swaps
}

proof fn lemma_trades(bits: nat, n: int, k: int)
    requires
        0 <= n <= pow2(bits) <= usize::MAX,
        0 <= k < trades(bits, n).len(),
    ensures
        ({
            let (i, j) = trades(bits, n)[k];
            i < n && i < j && j < pow2(bits) && j == mirrored(bits, i as int) && i == mirrored(
                bits,
                j as int,
            )
        }),
    decreases n,
{
    if n > 0 {
        let i = n - 1;
        law_mirroring_twice_restores(bits, i);
        if k < trades(bits, i).len() {
            lemma_trades(bits, i, k);
        }
    }
}

proof fn lemma_trades_rise(bits: nat, n: int, k: int, m: int)
    requires
        0 <= n <= pow2(bits) <= usize::MAX,
        0 <= k < m < trades(bits, n).len(),
    ensures
        trades(bits, n)[k].0 < trades(bits, n)[m].0,
    decreases n,
{
    if n > 0 {
        let i = n - 1;
        if m < trades(bits, i).len() {
            lemma_trades_rise(bits, i, k, m);
        } else {
            lemma_trades(bits, i, k);
        }
    }
}

/// No place takes part in two trades, so their order does not matter.
pub proof fn law_trades_are_apart(bits: nat, k: int, m: int)
    requires
        pow2(bits) <= usize::MAX,
        0 <= k < m < trades(bits, pow2(bits) as int).len(),
    ensures
        ({
            let a = trades(bits, pow2(bits) as int)[k];
            let b = trades(bits, pow2(bits) as int)[m];
            a.0 != b.0 && a.0 != b.1 && a.1 != b.0 && a.1 != b.1
        }),
{
    let n = pow2(bits) as int;
    lemma_trades(bits, n, k);
    lemma_trades(bits, n, m);
    lemma_trades_rise(bits, n, k, m);
}

/// Every place that does not stay where it is takes part in a trade.
pub proof fn law_every_moved_place_trades(bits: nat, i: int)
    requires
        pow2(bits) <= usize::MAX,
        0 <= i < pow2(bits),
        mirrored(bits, i) != i,
    ensures
        trades(bits, pow2(bits) as int).contains((i as usize, mirrored(bits, i) as usize))
            || trades(bits, pow2(bits) as int).contains(
            (mirrored(bits, i) as usize, i as usize),
        ),
{
    law_mirroring_twice_restores(bits, i);
    let j = mirrored(bits, i);
    if i < j {
        lemma_trade_stays(bits, pow2(bits) as int, i);
    } else {
        lemma_trade_stays(bits, pow2(bits) as int, j);
    }
}

proof fn lemma_trade_stays(bits: nat, n: int, i: int)
    requires
        0 <= i < n,
        i < mirrored(bits, i),
    ensures
        trades(bits, n).contains((i as usize, mirrored(bits, i) as usize)),
    decreases n,
{
    let trade = (i as usize, mirrored(bits, i) as usize);
    if i == n - 1 {
        let all = trades(bits, n);
        assert(all == trades(bits, i).push(trade));
        assert(all[all.len() - 1] == trade);
    } else {
        lemma_trade_stays(bits, n - 1, i);
        let before = trades(bits, n - 1);
        let k = choose|k: int| 0 <= k < before.len() && before[k] == trade;
        assert(trades(bits, n)[k] == trade);
    }
}

} // verus!
