use vstd::prelude::*;
use vstd::arithmetic::power2::{pow2, lemma_pow2_adds, lemma_pow2_pos, lemma_pow2_unfold};
use vstd::arithmetic::div_mod::lemma_fundamental_div_mod_converse;

verus! {

/// Smallest significand of a normal binary64 number, `2^52`; significands
/// run up to `2^53`.
pub const SIGNIFICAND_MIN: u128 = 0x10_0000_0000_0000;

/// `a / b` rounded to the nearest whole number, ties to the even one.
pub open spec fn round_half_even(a: nat, b: nat) -> nat {
    let q = a / b;
    let r = a % b;
    if 2 * r > b || (2 * r == b && q % 2 == 1) {
        q + 1
    } else {
        q
    }
}

/// Scaling `num / den` by `2^k` brings it into the significand range
/// `[2^52, 2^53)`.
pub open spec fn scales_to_significand(num: nat, den: nat, k: nat) -> bool {
    &&& SIGNIFICAND_MIN * den <= num * pow2(k)
    &&& num * pow2(k) < 2 * (SIGNIFICAND_MIN * den)
}

/// The exponent `k` at which `num / den` has its binary64 significand.
pub open spec fn binary64_scale(num: nat, den: nat) -> nat {
    choose|k: nat| scales_to_significand(num, den, k)
}

/// The binary64 number nearest to `num / den` (ties to an even
/// significand) is `binary64_significand(num, den) / 2^binary64_scale(num, den)`,
/// for the quotients below `2^53` that are normal numbers.
pub open spec fn binary64_significand(num: nat, den: nat) -> nat {
    round_half_even(num * pow2(binary64_scale(num, den)), den)
}

/// Scaling by a larger power of two overshoots the significand range.
proof fn lemma_scale_below(num: nat, den: nat, k1: nat, k2: nat)
    requires
        scales_to_significand(num, den, k1),
        k1 < k2,
    ensures
        !scales_to_significand(num, den, k2),
{
    let e = (k2 - k1) as nat;
    lemma_pow2_adds(e, k1);
    lemma_pow2_unfold(e);
    lemma_pow2_pos((e - 1) as nat);
    let d = pow2(e);
    assert(e + k1 == k2);
    assert(pow2(k2) == d * pow2(k1));
    assert(d >= 2);
    assert(num * pow2(k2) >= (num * pow2(k1)) * 2) by (nonlinear_arith)
        requires
            pow2(k2) == d * pow2(k1),
            d >= 2,
    ;

}

/// At most one exponent scales a quotient into the significand range.
pub proof fn lemma_scale_unique(num: nat, den: nat, k1: nat, k2: nat)
    requires
        scales_to_significand(num, den, k1),
        scales_to_significand(num, den, k2),
    ensures
        k1 == k2,
{
    if k1 < k2 {
        lemma_scale_below(num, den, k1, k2);
    } else if k2 < k1 {
        lemma_scale_below(num, den, k2, k1);
    }
}

/// Rounding a quotient does not change when both sides are scaled alike.
pub proof fn lemma_round_scaled(a: nat, b: nat, c: nat)
    requires
        b > 0,
        c > 0,
    ensures
        round_half_even(a * c, b * c) == round_half_even(a, b),
{
    let q = a / b;
    let r = a % b;
    vstd::arithmetic::div_mod::lemma_fundamental_div_mod(a as int, b as int);
    vstd::arithmetic::div_mod::lemma_mod_pos_bound(a as int, b as int);
    assert(a == q * b + r && 0 <= r < b) by (nonlinear_arith)
        requires
            a == b * q + r,
            0 <= r < b,
    ;
    assert(a * c == q * (b * c) + r * c) by (nonlinear_arith)
        requires
            a == q * b + r,
    ;
    assert(0 <= r * c < b * c) by (nonlinear_arith)
        requires
            0 <= r < b,
            c > 0,
    ;
    lemma_fundamental_div_mod_converse((a * c) as int, (b * c) as int, q as int, (r * c) as int);
    assert((2 * (r * c) > b * c) == (2 * r > b)) by (nonlinear_arith)
        requires
            c > 0,
    ;
    assert((2 * (r * c) == b * c) == (2 * r == b)) by (nonlinear_arith)
        requires
            c > 0,
    ;
}

/// A rounded quotient in the significand range stays in it.
proof fn lemma_round_in_range(a: nat, b: nat)
    requires
        b > 0,
        SIGNIFICAND_MIN * b <= a < 2 * (SIGNIFICAND_MIN * b),
    ensures
        SIGNIFICAND_MIN <= round_half_even(a, b) <= 2 * SIGNIFICAND_MIN,
{
    let q = a / b;
    assert(SIGNIFICAND_MIN <= q < 2 * SIGNIFICAND_MIN) by (nonlinear_arith)
        requires
            SIGNIFICAND_MIN * b <= a < 2 * (SIGNIFICAND_MIN * b),
            q == a / b,
            b >= 1,
    ;
}

/// Rounding to the nearest whole number keeps the order of quotients:
/// `a1 / b1 <= a2 / b2` gives rounded values in the same order.
pub proof fn lemma_round_monotone(a1: nat, b1: nat, a2: nat, b2: nat)
    requires
        b1 > 0,
        b2 > 0,
        a1 * b2 <= a2 * b1,
    ensures
        round_half_even(a1, b1) <= round_half_even(a2, b2),
{
    let q1 = a1 / b1;
    let r1 = a1 % b1;
    let q2 = a2 / b2;
    let r2 = a2 % b2;
    vstd::arithmetic::div_mod::lemma_fundamental_div_mod(a1 as int, b1 as int);
    vstd::arithmetic::div_mod::lemma_fundamental_div_mod(a2 as int, b2 as int);
    vstd::arithmetic::div_mod::lemma_mod_pos_bound(a1 as int, b1 as int);
    vstd::arithmetic::div_mod::lemma_mod_pos_bound(a2 as int, b2 as int);
    assert(q1 <= q2) by (nonlinear_arith)
        requires
            a1 == b1 * q1 + r1,
            a2 == b2 * q2 + r2,
            0 <= r1 < b1,
            0 <= r2 < b2,
            a1 * b2 <= a2 * b1,
            b1 > 0,
            b2 > 0,
    ;
    if q1 == q2 {
        assert(r1 * b2 <= r2 * b1) by (nonlinear_arith)
            requires
                a1 == b1 * q1 + r1,
                a2 == b2 * q1 + r2,
                a1 * b2 <= a2 * b1,
        ;
        assert(2 * r1 > b1 ==> 2 * r2 > b2) by (nonlinear_arith)
            requires
                r1 * b2 <= r2 * b1,
                b1 > 0,
                b2 > 0,
        ;
        assert(2 * r1 == b1 ==> 2 * r2 >= b2) by (nonlinear_arith)
            requires
                r1 * b2 <= r2 * b1,
                b1 > 0,
                b2 > 0,
        ;
    }
}

/// Rounding to binary64 keeps the order of quotients: when
/// `n1 / d1 <= n2 / d2` and `k1`, `k2` scale them into the significand range,
/// the rounded values `m1 / 2^k1` and `m2 / 2^k2` are in the same order.
pub proof fn lemma_binary64_monotone(n1: nat, d1: nat, k1: nat, n2: nat, d2: nat, k2: nat)
    requires
        d1 > 0,
        d2 > 0,
        scales_to_significand(n1, d1, k1),
        scales_to_significand(n2, d2, k2),
        n1 * d2 <= n2 * d1,
    ensures
        round_half_even(n1 * pow2(k1), d1) * pow2(k2) <= round_half_even(n2 * pow2(k2), d2)
            * pow2(k1),
{
    lemma_pow2_pos(k1);
    lemma_pow2_pos(k2);
    let p1 = pow2(k1);
    let p2 = pow2(k2);
    let m1 = round_half_even(n1 * p1, d1);
    let m2 = round_half_even(n2 * p2, d2);
    lemma_round_in_range(n1 * p1, d1);
    lemma_round_in_range(n2 * p2, d2);
    if k1 == k2 {
        assert((n1 * p1) * d2 <= (n2 * p1) * d1) by (nonlinear_arith)
            requires
                n1 * d2 <= n2 * d1,
                p1 > 0,
        ;
        lemma_round_monotone(n1 * p1, d1, n2 * p1, d2);
        assert(m1 * p2 <= m2 * p1) by (nonlinear_arith)
            requires
                m1 <= m2,
                p1 == p2,
                p1 > 0,
        ;
    } else if k1 < k2 {
        let e = (k2 - k1) as nat;
        lemma_pow2_adds(e, k1);
        lemma_pow2_unfold(e);
        lemma_pow2_pos((e - 1) as nat);
        assert(p2 >= 2 * p1) by (nonlinear_arith)
            requires
                p2 == pow2(e) * p1,
                pow2(e) >= 2,
                p1 > 0,
        ;
        assert(false) by (nonlinear_arith)
            requires
                n1 * p1 >= SIGNIFICAND_MIN * d1,
                n2 * p2 < 2 * (SIGNIFICAND_MIN * d2),
                n1 * d2 <= n2 * d1,
                p2 >= 2 * p1,
                d1 > 0,
                d2 > 0,
                p1 > 0,
        {
            assert((n2 * p2) * d1 >= (n1 * d2) * p2);
            assert((n1 * d2) * p2 >= (n1 * d2) * (2 * p1));
            assert((n1 * p1) * d2 * 2 >= SIGNIFICAND_MIN * d1 * d2 * 2);
        }
    } else {
        let e = (k1 - k2) as nat;
        lemma_pow2_adds(e, k2);
        lemma_pow2_unfold(e);
        lemma_pow2_pos((e - 1) as nat);
        assert(p1 >= 2 * p2) by (nonlinear_arith)
            requires
                p1 == pow2(e) * p2,
                pow2(e) >= 2,
                p2 > 0,
        ;
        assert(m1 * p2 <= m2 * p1) by (nonlinear_arith)
            requires
                m1 <= 2 * SIGNIFICAND_MIN,
                m2 >= SIGNIFICAND_MIN,
                p1 >= 2 * p2,
                p2 > 0,
        ;
    }
}

/// Every quotient `num / den` with `0 < num / den < 2^53` has a scale into
/// the significand range, at or above `k` when scaling by `2^k` stays below
/// `2^53`.
pub proof fn lemma_scale_exists(num: nat, den: nat, k: nat)
    requires
        num > 0,
        den > 0,
        num * pow2(k) < 2 * (SIGNIFICAND_MIN * den),
    ensures
        scales_to_significand(num, den, binary64_scale(num, den)),
    decreases 2 * (SIGNIFICAND_MIN * den) - num * pow2(k),
{
    lemma_pow2_pos(k);
    if num * pow2(k) >= SIGNIFICAND_MIN * den {
        assert(scales_to_significand(num, den, k));
    } else {
        lemma_pow2_unfold(k + 1);
        assert(num * pow2(k + 1) == 2 * (num * pow2(k))) by (nonlinear_arith)
            requires
                pow2(k + 1) == 2 * pow2(k),
        ;
        assert(num * pow2(k) >= 1) by (nonlinear_arith)
            requires
                num > 0,
                pow2(k) > 0,
        ;
        lemma_scale_exists(num, den, k + 1);
    }
}

/// The samples in one beat as the binary64 arithmetic `(60.0 / bpm) * rate`
/// gives them, truncated to a whole number: `60 / bpm` rounded to the
/// nearest binary64 number, that times `rate` rounded again, then the
/// fraction dropped.
pub open spec fn spec_binary64_beat(rate: nat, bpm: nat) -> nat {
    let k1 = binary64_scale(60, bpm);
    let m1 = binary64_significand(60, bpm);
    let num = m1 * rate;
    let den = pow2(k1);
    binary64_significand(num, den) / pow2(binary64_scale(num, den))
}

/// Truncating keeps the order of quotients.
proof fn lemma_floor_monotone(a1: nat, b1: nat, a2: nat, b2: nat)
    requires
        b1 > 0,
        b2 > 0,
        a1 * b2 <= a2 * b1,
    ensures
        a1 / b1 <= a2 / b2,
{
    let q = a1 / b1;
    vstd::arithmetic::div_mod::lemma_fundamental_div_mod(a1 as int, b1 as int);
    vstd::arithmetic::div_mod::lemma_mod_pos_bound(a1 as int, b1 as int);
    assert(q * b2 <= a2) by (nonlinear_arith)
        requires
            a1 == b1 * q + a1 % b1,
            a1 % b1 >= 0,
            a1 * b2 <= a2 * b1,
            b1 > 0,
            b2 > 0,
    ;
    assert(q <= a2 / b2) by (nonlinear_arith)
        requires
            q * b2 <= a2,
            b2 > 0,
    {
        vstd::arithmetic::div_mod::lemma_fundamental_div_mod(a2 as int, b2 as int);
        vstd::arithmetic::div_mod::lemma_mod_pos_bound(a2 as int, b2 as int);
    }
}

/// `60 / bpm` has its binary64 scale, at least 46, and a significand in
/// range.
proof fn lemma_beat_scale(bpm: nat)
    requires
        0 < bpm < 0x1_0000_0000,
    ensures
        scales_to_significand(60, bpm, binary64_scale(60, bpm)),
        pow2(binary64_scale(60, bpm)) >= 0x4000_0000_0000,
        SIGNIFICAND_MIN <= binary64_significand(60, bpm) <= 2 * SIGNIFICAND_MIN,
{
    vstd::arithmetic::power2::lemma2_to64();
    lemma_scale_exists(60, bpm, 0);
    let k = binary64_scale(60, bpm);
    lemma_pow2_pos(k);
    assert(pow2(k) >= 0x4000_0000_0000) by (nonlinear_arith)
        requires
            SIGNIFICAND_MIN * bpm <= 60 * pow2(k),
            bpm >= 1,
    ;
    lemma_round_in_range(60 * pow2(k), bpm);
}

/// A slower tempo never gives a shorter beat: for tempos `0 < slow <= fast`
/// and a sample rate that fits in 32 bits, the binary64 beat at `slow` is at
/// least the one at `fast`.
pub proof fn lemma_binary64_beat_antitone(rate: nat, slow: nat, fast: nat)
    requires
        0 < rate < 0x1_0000_0000,
        0 < slow <= fast < 0x1_0000_0000,
    ensures
        spec_binary64_beat(rate, slow) >= spec_binary64_beat(rate, fast),
{
    lemma_beat_scale(slow);
    lemma_beat_scale(fast);
    let ks = binary64_scale(60, slow);
    let kf = binary64_scale(60, fast);
    let ms = binary64_significand(60, slow);
    let mf = binary64_significand(60, fast);
    assert(60 * slow <= 60 * fast);
    lemma_binary64_monotone(60, fast, kf, 60, slow, ks);
    // the products with the rate, in the same order
    let ns = ms * rate;
    let nf = mf * rate;
    let ds = pow2(ks);
    let df = pow2(kf);
    assert(nf * ds <= ns * df) by (nonlinear_arith)
        requires
            mf * ds <= ms * df,
            nf == mf * rate,
            ns == ms * rate,
    ;
    assert(ns > 0 && nf > 0) by (nonlinear_arith)
        requires
            ns == ms * rate,
            nf == mf * rate,
            ms >= SIGNIFICAND_MIN,
            mf >= SIGNIFICAND_MIN,
            rate > 0,
    ;
    vstd::arithmetic::power2::lemma2_to64();
    assert(ns * pow2(0) < 2 * (SIGNIFICAND_MIN * ds)) by (nonlinear_arith)
        requires
            ns == ms * rate,
            ms <= 2 * SIGNIFICAND_MIN,
            rate < 0x1_0000_0000,
            ds >= 0x4000_0000_0000,
            pow2(0) == 1,
    ;
    assert(nf * pow2(0) < 2 * (SIGNIFICAND_MIN * df)) by (nonlinear_arith)
        requires
            nf == mf * rate,
            mf <= 2 * SIGNIFICAND_MIN,
            rate < 0x1_0000_0000,
            df >= 0x4000_0000_0000,
            pow2(0) == 1,
    ;
    lemma_scale_exists(ns, ds, 0);
    lemma_scale_exists(nf, df, 0);
    let kks = binary64_scale(ns, ds);
    let kkf = binary64_scale(nf, df);
    lemma_binary64_monotone(nf, df, kkf, ns, ds, kks);
    lemma_pow2_pos(kks);
    lemma_pow2_pos(kkf);
    lemma_floor_monotone(
        binary64_significand(nf, df),
        pow2(kkf),
        binary64_significand(ns, ds),
        pow2(kks),
    );
}

/// The binary64 significand and exponent that `k` gives, when it scales
/// `num / den` into the significand range.
proof fn lemma_binary64_at(num: nat, den: nat, k: nat)
    requires
        scales_to_significand(num, den, k),
    ensures
        binary64_scale(num, den) == k,
        binary64_significand(num, den) == round_half_even(num * pow2(k), den),
{
    lemma_scale_unique(num, den, k, binary64_scale(num, den));
}

/// `(60.0 / bpm) * rate`, truncated to a whole number, computed exactly as
/// binary64 arithmetic rounds it.
pub fn binary64_beat(rate: u32, bpm: u32) -> (beat: u128)
    requires
        rate > 0,
        bpm > 0,
    ensures
        beat == spec_binary64_beat(rate as nat, bpm as nat),
        beat <= 2 * SIGNIFICAND_MIN,
{
    // 60 / bpm: find the exponent, then round the significand
    let b: u128 = bpm as u128;
    let lo: u128 = SIGNIFICAND_MIN * b;
    let mut v: u128 = 60;
    let mut p1: u128 = 1;
    let ghost mut k1: nat = 0;
    proof {
        vstd::arithmetic::power2::lemma2_to64();
    }
    while v < lo
        invariant
            b == bpm as u128,
            b >= 1,
            lo == SIGNIFICAND_MIN * b,
            v == 60 * pow2(k1),
            p1 == pow2(k1),
            p1 >= 1,
            v < 2 * lo,
        decreases 2 * lo - v,
    {
        proof {
            lemma_pow2_unfold(k1 + 1);
        }
        assert(v >= 60);
        v = v * 2;
        p1 = p1 * 2;
        proof {
            k1 = k1 + 1;
        }
    }
    proof {
        lemma_binary64_at(60, b as nat, k1);
    }
    let q = v / b;
    let r = v % b;
    let m1: u128 = if 2 * r > b || (2 * r == b && q % 2 == 1) {
        q + 1
    } else {
        q
    };
    assert(m1 == binary64_significand(60, bpm as nat));
    assert(SIGNIFICAND_MIN <= q < 2 * SIGNIFICAND_MIN) by (nonlinear_arith)
        requires
            SIGNIFICAND_MIN * b <= v < 2 * (SIGNIFICAND_MIN * b),
            q == v / b,
            b >= 1,
    ;
    assert(p1 >= 0x4000_0000_0000) by (nonlinear_arith)
        requires
            SIGNIFICAND_MIN * b <= 60 * p1,
            b >= 1,
    ;
    // that times the rate, exactly, then rounded again
    assert(SIGNIFICAND_MIN <= m1 <= 2 * SIGNIFICAND_MIN);
    assert(m1 * (rate as u128) < 0x20_0000_0000_0000 * 0x1_0000_0000) by (nonlinear_arith)
        requires
            m1 <= 2 * SIGNIFICAND_MIN,
            rate < 0x1_0000_0000,
    ;
    let num: u128 = m1 * (rate as u128);
    assert(SIGNIFICAND_MIN <= num < 0x20_0000_0000_0000 * 0x1_0000_0000) by (nonlinear_arith)
        requires
            SIGNIFICAND_MIN <= m1 <= 2 * SIGNIFICAND_MIN,
            1 <= rate < 0x1_0000_0000,
            num == m1 * rate,
    ;
    if num < 2 * SIGNIFICAND_MIN {
        assert(scales_to_significand(num as nat, p1 as nat, k1)) by (nonlinear_arith)
            requires
                SIGNIFICAND_MIN <= num < 2 * SIGNIFICAND_MIN,
                p1 == pow2(k1),
                p1 > 0,
        ;
        proof {
            lemma_binary64_at(num as nat, p1 as nat, k1);
            lemma_round_scaled(num as nat, 1, p1 as nat);
            assert(num * p1 == (num * p1) as nat);
        }
        num / p1
    } else {
        let mut lim: u128 = 2 * SIGNIFICAND_MIN;
        let mut p2: u128 = 1;
        let ghost mut s: nat = 0;
        while num >= lim
            invariant
                lim == 2 * (SIGNIFICAND_MIN * p2),
                p2 == pow2(s),
                p2 >= 1,
                num >= SIGNIFICAND_MIN * p2,
                lim <= 2 * num,
                num < 0x20_0000_0000_0000 * 0x1_0000_0000,
            decreases 2 * num - lim,
        {
            proof {
                lemma_pow2_unfold(s + 1);
            }
            lim = lim * 2;
            p2 = p2 * 2;
            proof {
                s = s + 1;
            }
        }
        // the scale drops by s: 2^k1 = 2^s * 2^(k1 - s)
        assert(p2 < 0x2_0000_0000) by (nonlinear_arith)
            requires
                num >= SIGNIFICAND_MIN * p2,
                num < 0x20_0000_0000_0000 * 0x1_0000_0000,
        ;
        proof {
            if s >= k1 {
                if s > k1 {
                    vstd::arithmetic::power2::lemma_pow2_strictly_increases(k1, s);
                }
            }
        }
        let ghost k2: nat = (k1 - s) as nat;
        proof {
            lemma_pow2_adds(s, k2);
            lemma_pow2_pos(k2);
        }
        let p3: u128 = p1 / p2;
        assert(p3 == pow2(k2)) by (nonlinear_arith)
            requires
                p1 == p2 * pow2(k2),
                p2 > 0,
                p3 == p1 / p2,
        ;
        assert(scales_to_significand(num as nat, p1 as nat, k2)) by (nonlinear_arith)
            requires
                SIGNIFICAND_MIN * p2 <= num < 2 * (SIGNIFICAND_MIN * p2),
                p1 == p2 * p3,
                p3 == pow2(k2),
                p3 > 0,
        ;
        proof {
            lemma_binary64_at(num as nat, p1 as nat, k2);
            lemma_round_scaled(num as nat, p2 as nat, p3 as nat);
            assert(p2 * p3 == p1);
        }
        let q2 = num / p2;
        let r2 = num % p2;
        let m2: u128 = if 2 * r2 > p2 || (2 * r2 == p2 && q2 % 2 == 1) {
            q2 + 1
        } else {
            q2
        };
        assert(q2 < 2 * SIGNIFICAND_MIN) by (nonlinear_arith)
            requires
                num < 2 * (SIGNIFICAND_MIN * p2),
                q2 == num / p2,
                p2 >= 1,
        ;
        assert(m2 / p3 <= m2) by (nonlinear_arith)
            requires
                p3 >= 1,
        ;
        m2 / p3
    }
}

} // verus!
