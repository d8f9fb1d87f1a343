//! Fixed-point arithmetic on complex samples: floor shifts, the rescaled complex
//! product and the butterfly, with the bounds that rule out overflow.
use vstd::prelude::*;
use vstd::arithmetic::power2::{pow2, lemma_pow2_pos, lemma_pow2_adds, lemma_pow2_strictly_increases, lemma2_to64};
use vstd::arithmetic::div_mod::{lemma_fundamental_div_mod, lemma_fundamental_div_mod_converse};
use crate::lanes::in_range;

verus! {

/// `v` divided by `2^k`, rounded towards negative infinity (an arithmetic right shift).
pub open spec fn fdiv(v: int, k: nat) -> int {
    v / (pow2(k) as int)
}

pub open spec fn abs(v: int) -> int {
    if v < 0 {
        -v
    } else {
        v
    }
}

/// A table value (`1.0` is `u32::MAX`) brought to `q` fraction bits, its magnitude
/// rounded to nearest (so that `1.0` becomes exactly `2^q`).
pub open spec fn scale_table(v: int, q: nat) -> int {
    let d = pow2((32 - q) as nat) as int;
    let h = pow2((31 - q) as nat) as int;
    if v >= 0 {
        (v + h) / d
    } else {
        -((-v + h) / d)
    }
}

/// Fixed-point complex product `w * y`, rescaled by `2^q` with rounding down.
pub open spec fn cmul(w: (int, int), y: (int, int), q: nat) -> (int, int) {
    (fdiv(w.0 * y.0 - w.1 * y.1, q), fdiv(w.0 * y.1 + w.1 * y.0, q))
}

/// Both parts of a sample shifted right by `sh` bits.
pub open spec fn shifted(v: (int, int), sh: nat) -> (int, int) {
    (fdiv(v.0, sh), fdiv(v.1, sh))
}

/// `v >> k` on a signed integer, as floor division.
pub(crate) fn shr_floor(v: i64, k: u32) -> (r: i64)
    requires
        k < 63,
    ensures
        r as int == fdiv(v as int, k as nat),
{
    if v >= 0 {
        let u = v as u64;
        let s = u >> k;
        proof {
            vstd::bits::lemma_u64_shr_is_div(u, k as u64);
        }
        s as i64
    } else {
        let m = (-(v + 1)) as u64;
        let s = m >> k;
        proof {
            vstd::bits::lemma_u64_shr_is_div(m, k as u64);
            let d = pow2(k as nat) as int;
            lemma_pow2_pos(k as nat);
            let qq = m as int / d;
            let rr = m as int % d;
            lemma_fundamental_div_mod(m as int, d);
            assert(v as int == (-qq - 1) * d + (d - 1 - rr)) by (nonlinear_arith)
                requires
                    v as int == -(d * qq + rr) - 1,
            ;
            lemma_fundamental_div_mod_converse(v as int, d, -qq - 1, d - 1 - rr);
        }
        -(s as i64) - 1
    }
}

/// A table value of at most 32 bits scales to less than `2^q` in magnitude.
pub proof fn lemma_scale_table_bound(v: int, q: nat)
    requires
        -0xffff_ffff <= v <= 0xffff_ffff,
        2 <= q <= 31,
    ensures
        abs(scale_table(v, q)) <= pow2(q),
{
    let k = (32 - q) as nat;
    let m = abs(v);
    lemma_pow2_pos(k);
    lemma_pow2_pos((k - 1) as nat);
    vstd::arithmetic::power2::lemma_pow2_unfold(k);
    lemma_pow2_adds(q, k);
    lemma2_to64();
    let d = pow2(k) as int;
    let h = pow2((k - 1) as nat) as int;
    let e = pow2(q) as int;
    assert((31 - q) as nat == (k - 1) as nat);
    vstd::arithmetic::div_mod::lemma_div_pos_is_pos(m + h, d);
    assert(m + h < (e + 1) * d) by (nonlinear_arith)
        requires
            m <= 0xffff_ffff,
            e * d == 0x1_0000_0000,
            d == 2 * h,
            h > 0,
    ;
    assert((m + h) / d < e + 1) by {
        vstd::arithmetic::div_mod::lemma_div_by_multiple_is_strongly_ordered(m + h, (e + 1) * d, e + 1, d);
        vstd::arithmetic::div_mod::lemma_div_by_multiple(e + 1, d);
    }
}

/// A signed table value brought to `q` fraction bits.
pub(crate) fn scale_table_exec(v: i64, q: u32) -> (r: i64)
    requires
        -0xffff_ffff <= v <= 0xffff_ffff,
        2 <= q <= 31,
    ensures
        r as int == scale_table(v as int, q as nat),
        abs(r as int) <= pow2(q as nat),
{
    let k: u32 = 32 - q;
    let m: u64 = if v >= 0 {
        v as u64
    } else {
        (-v) as u64
    };
    proof {
        lemma2_to64();
        vstd::bits::lemma_u64_shl_is_mul(1, (k - 1) as u64);
        lemma_pow2_strictly_increases((k - 1) as nat, 32);
    }
    let half: u64 = 1u64 << (k - 1);
    let s = (m + half) >> k;
    proof {
        vstd::bits::lemma_u64_shr_is_div((m + half) as u64, k as u64);
        lemma_scale_table_bound(v as int, q as nat);
        assert((31 - q) as nat == (k - 1) as nat);
    }
    if v >= 0 {
        s as i64
    } else {
        -(s as i64)
    }
}

/// `(t1 - t2) >> q` as floor division, computed from the quotients and remainders of
/// `t1` and `t2`, so that the difference itself is never formed.
fn shr_floor_diff(t1: i64, t2: i64, q: u32) -> (r: i64)
    requires
        -0x4000_0000_0000_0000 <= t1 <= 0x4000_0000_0000_0000,
        -0x4000_0000_0000_0000 <= t2 <= 0x4000_0000_0000_0000,
        1 <= q <= 31,
    ensures
        r as int == fdiv(t1 - t2, q as nat),
{
    let a1 = shr_floor(t1, q);
    let a2 = shr_floor(t2, q);
    let ghost d = pow2(q as nat) as int;
    proof {
        lemma2_to64();
        vstd::bits::lemma_u64_shl_is_mul(1, q as u64);
        lemma_pow2_strictly_increases(q as nat, 32);
        lemma_pow2_pos(q as nat);
        lemma_fundamental_div_mod(t1 as int, d);
        lemma_fundamental_div_mod(t2 as int, d);
        vstd::arithmetic::div_mod::lemma_mod_bound(t1 as int, d);
        vstd::arithmetic::div_mod::lemma_mod_bound(t2 as int, d);
    }
    let dd: i64 = (1u64 << q) as i64;
    proof {
        let m1 = t1 as int % d;
        let m2 = t2 as int % d;
        assert(a1 as int * dd as int == t1 as int - m1) by (nonlinear_arith)
            requires
                t1 as int == d * a1 as int + m1,
                dd as int == d,
        ;
        assert(a2 as int * dd as int == t2 as int - m2) by (nonlinear_arith)
            requires
                t2 as int == d * a2 as int + m2,
                dd as int == d,
        ;
    }
    proof {
        let k = 0x4000_0000_0000_0000int;
        assert(d * k >= k) by (nonlinear_arith)
            requires
                d >= 1,
                k == 0x4000_0000_0000_0000int,
        ;
        lemma_div_within(t1 as int, k, d);
        lemma_div_within(t2 as int, k, d);
    }
    let r1 = t1 - a1 * dd;
    let r2 = t2 - a2 * dd;
    proof {
        let x = t1 - t2;
        assert(x == (a1 - a2) * d + (r1 - r2)) by (nonlinear_arith)
            requires
                t1 as int == d * a1 as int + r1 as int,
                t2 as int == d * a2 as int + r2 as int,
                x == t1 - t2,
        ;
        if r1 >= r2 {
            lemma_fundamental_div_mod_converse(x, d, a1 - a2, r1 - r2);
        } else {
            assert(x == (a1 - a2 - 1) * d + (d + r1 - r2)) by (nonlinear_arith)
                requires
                    x == (a1 - a2) * d + (r1 - r2),
            ;
            lemma_fundamental_div_mod_converse(x, d, a1 - a2 - 1, d + r1 - r2);
        }
    }
    if r1 >= r2 {
        a1 - a2
    } else {
        a1 - a2 - 1
    }
}

/// `c * u` lies within `d * |u|` for `|c| <= d`.
proof fn lemma_mul_within(c: int, u: int, d: int)
    requires
        -d <= c <= d,
    ensures
        -(d * abs(u)) <= c * u <= d * abs(u),
{
    if u >= 0 {
        assert(-(d * u) <= c * u <= d * u) by (nonlinear_arith)
            requires
                -d <= c <= d,
                u >= 0,
        ;
    } else {
        assert(-(d * (-u)) <= c * u <= d * (-u)) by (nonlinear_arith)
            requires
                -d <= c <= d,
                u < 0,
        ;
    }
}

/// `x / d` lies within `k` when `x` lies within `d * k`.
proof fn lemma_div_within(x: int, k: int, d: int)
    requires
        d > 0,
        -(d * k) <= x <= d * k,
    ensures
        -k <= x / d <= k,
{
    assert(-(d * k) == d * (-k)) by (nonlinear_arith);
    vstd::arithmetic::div_mod::lemma_div_is_ordered(x, d * k, d);
    vstd::arithmetic::div_mod::lemma_div_is_ordered(d * (-k), x, d);
    vstd::arithmetic::div_mod::lemma_div_multiples_vanish(k, d);
    vstd::arithmetic::div_mod::lemma_div_multiples_vanish(-k, d);
}

/// A twiddle factor with parts up to `2^q` moves no part of a product above the
/// sum of the magnitudes of `y`'s parts.
pub proof fn lemma_cmul_bound(w: (int, int), y: (int, int), q: nat)
    requires
        abs(w.0) <= pow2(q),
        abs(w.1) <= pow2(q),
    ensures
        abs(cmul(w, y, q).0) <= abs(y.0) + abs(y.1),
        abs(cmul(w, y, q).1) <= abs(y.0) + abs(y.1),
{
    let d = pow2(q) as int;
    let a0 = abs(y.0);
    let a1 = abs(y.1);
    lemma_pow2_pos(q);
    lemma_mul_within(w.0, y.0, d);
    lemma_mul_within(w.1, y.1, d);
    lemma_mul_within(w.0, y.1, d);
    lemma_mul_within(w.1, y.0, d);
    assert(d * a0 + d * a1 == d * (a0 + a1)) by (nonlinear_arith);
    lemma_div_within(w.0 * y.0 - w.1 * y.1, a0 + a1, d);
    lemma_div_within(w.0 * y.1 + w.1 * y.0, a0 + a1, d);
}

/// A right shift by at most two bits keeps a value's magnitude within bounds.
pub proof fn lemma_fdiv_bound(v: int, sh: nat, q: nat)
    requires
        -pow2(q) <= v < pow2(q),
        sh <= 2,
        2 <= q,
    ensures
        -pow2(q) <= fdiv(v, sh) < pow2(q),
        abs(fdiv(v, sh)) <= abs(v),
        sh == 2 ==> 4 * abs(fdiv(v, 2)) <= pow2(q),
{
    let p = pow2(q) as int;
    let p4 = pow2((q - 2) as nat) as int;
    lemma_pow2_adds((q - 2) as nat, 2);
    lemma_pow2_pos((q - 2) as nat);
    assert(pow2(0) == 1 && pow2(1) == 2 && pow2(2) == 4) by {
        lemma2_to64();
    }
    assert(p == p4 * 4);
    let f = fdiv(v, sh);
    if sh == 0 {
        assert(f == v / 1);
    } else if sh == 1 {
        assert(f == v / 2);
    } else {
        assert(f == v / 4);
    }
}

/// One butterfly: inputs `a` (upper) and `b` (lower) shifted right by `sh` bits, then
/// `(a + w * b, a - w * b)`, computed without overflow for inputs of up to 32 bits.
pub(crate) fn butterfly(a: (i64, i64), b: (i64, i64), w: (i64, i64), sh: u32, q: u32) -> (r: ((i64, i64), (i64, i64)))
    requires
        2 <= q <= 31,
        sh <= 2,
        in_range((a.0 as int, a.1 as int), q as nat),
        in_range((b.0 as int, b.1 as int), q as nat),
        abs(w.0 as int) <= pow2(q as nat),
        abs(w.1 as int) <= pow2(q as nat),
    ensures
        ({
            let sa = shifted((a.0 as int, a.1 as int), sh as nat);
            let p = cmul((w.0 as int, w.1 as int), shifted((b.0 as int, b.1 as int), sh as nat), q as nat);
            (r.0.0 as int, r.0.1 as int) == (sa.0 + p.0, sa.1 + p.1)
            && (r.1.0 as int, r.1.1 as int) == (sa.0 - p.0, sa.1 - p.1)
        }),
{
    proof {
        lemma2_to64();
        if q < 31 {
            lemma_pow2_strictly_increases(q as nat, 31);
        }
        lemma_fdiv_bound(a.0 as int, sh as nat, q as nat);
        lemma_fdiv_bound(a.1 as int, sh as nat, q as nat);
        lemma_fdiv_bound(b.0 as int, sh as nat, q as nat);
        lemma_fdiv_bound(b.1 as int, sh as nat, q as nat);
    }
    let ar = shr_floor(a.0, sh);
    let ai = shr_floor(a.1, sh);
    let br = shr_floor(b.0, sh);
    let bi = shr_floor(b.1, sh);
    let ghost d = pow2(q as nat) as int;
    proof {
        assert(abs(w.0 * br) <= 0x4000_0000_0000_0000 && abs(w.1 * bi) <= 0x4000_0000_0000_0000
            && abs(w.0 * bi) <= 0x4000_0000_0000_0000 && abs(w.1 * br) <= 0x4000_0000_0000_0000) by (nonlinear_arith)
            requires
                abs(w.0 as int) <= d,
                abs(w.1 as int) <= d,
                abs(br as int) <= d,
                abs(bi as int) <= d,
                d <= 0x8000_0000,
        ;
        lemma_cmul_bound((w.0 as int, w.1 as int), (br as int, bi as int), q as nat);
    }
    let pr = shr_floor_diff(w.0 * br, w.1 * bi, q);
    let pi = shr_floor_diff(w.0 * bi, -(w.1 * br), q);
    ((ar + pr, ai + pi), (ar - pr, ai - pi))
}

} // verus!
