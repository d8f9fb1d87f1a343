//! Bit-reversal permutation of a power-of-two-length buffer.
use vstd::prelude::*;
use vstd::arithmetic::power2::{pow2, lemma_pow2_pos, lemma_pow2_strictly_increases};
use vstd::arithmetic::div_mod::{lemma_fundamental_div_mod, lemma_mod_bound};

verus! {

/// Base-2 logarithm, rounded down (and 0 for 0 and 1).
pub open spec fn log2(n: nat) -> nat
    decreases n,
{
    if n <= 1 {
        0
    } else {
        1 + log2(n / 2)
    }
}

/// `n` is a power of two.
pub open spec fn is_pow2(n: nat) -> bool {
    n == pow2(log2(n))
}

/// The low `k` bits of `i` in reverse order.
pub open spec fn reverse_bits(i: nat, k: nat) -> nat
    decreases k,
{
    if k == 0 {
        0
    } else {
        (i % 2) * pow2((k - 1) as nat) + reverse_bits(i / 2, (k - 1) as nat)
    }
}

/// The buffer read in bit-reversed index order.
pub open spec fn bit_reversed<T>(x: Seq<T>) -> Seq<T> {
    Seq::new(x.len(), |i: int| x[reverse_bits(i as nat, log2(x.len())) as int])
}

proof fn lemma_log2_pow2(k: nat)
    ensures
        log2(pow2(k)) == k,
    decreases k,
{
    if k > 0 {
        vstd::arithmetic::power2::lemma_pow2_unfold(k);
        lemma_pow2_pos((k - 1) as nat);
        lemma_log2_pow2((k - 1) as nat);
        assert(pow2(k) / 2 == pow2((k - 1) as nat));
    } else {
        vstd::arithmetic::power2::lemma2_to64();
    }
}

/// A reversed `k`-bit index is a `k`-bit index.
pub proof fn lemma_reverse_bits_bound(i: nat, k: nat)
    ensures
        reverse_bits(i, k) < pow2(k),
    decreases k,
{
    if k == 0 {
        vstd::arithmetic::power2::lemma2_to64();
    } else {
        let h = pow2((k - 1) as nat);
        vstd::arithmetic::power2::lemma_pow2_unfold(k);
        lemma_reverse_bits_bound(i / 2, (k - 1) as nat);
        lemma_pow2_pos((k - 1) as nat);
        assert((i % 2) * h <= h) by (nonlinear_arith)
            requires i % 2 <= 1, h > 0;
    }
}

/// Reversing `k` bits moves the top bit of `i` to the bottom.
proof fn lemma_reverse_bits_top(i: nat, k: nat)
    requires
        k >= 1,
        i < pow2(k),
    ensures
        reverse_bits(i, k) == 2 * reverse_bits(i % pow2((k - 1) as nat), (k - 1) as nat) + i / pow2((k - 1) as nat),
    decreases k,
{
    let h = pow2((k - 1) as nat);
    vstd::arithmetic::power2::lemma_pow2_unfold(k);
    lemma_pow2_pos((k - 1) as nat);
    if k == 1 {
        vstd::arithmetic::power2::lemma2_to64();
        assert(i < 2);
        assert(h == 1);
        assert(reverse_bits(i / 2, 0) == 0);
        assert(reverse_bits(i % 1, 0) == 0);
        assert(i % 1 == 0);
        assert(i / 1 == i);
        assert(reverse_bits(i, 1) == (i % 2) * 1 + reverse_bits(i / 2, 0));
    } else {
        let k1 = (k - 1) as nat;
        let k2 = (k - 2) as nat;
        let h2 = pow2(k2);
        vstd::arithmetic::power2::lemma_pow2_unfold(k1);
        lemma_pow2_pos(k2);
        assert(h == 2 * h2);
        assert(i / 2 < h) by {
            vstd::arithmetic::div_mod::lemma_div_by_multiple_is_strongly_ordered(i as int, (2 * h) as int, h as int, 2);
        }
        lemma_reverse_bits_top(i / 2, k1);
        // (i % h) % 2 == i % 2, (i % h) / 2 == (i / 2) % h2, (i / 2) / h2 == i / h
        vstd::arithmetic::div_mod::lemma_mod_mod(i as int, 2, h2 as int);
        assert((i % h) % 2 == i % 2) by {
            vstd::arithmetic::div_mod::lemma_mod_mod(i as int, 2, h2 as int);
        }
        assert((i % h) / 2 == (i / 2) % h2) by {
            vstd::arithmetic::div_mod::lemma_mod_breakdown(i as int, 2, h2 as int);
            lemma_fundamental_div_mod(i as int, 2);
            lemma_fundamental_div_mod(i as int % h as int, 2);
            lemma_fundamental_div_mod(i as int / 2, h2 as int);
            lemma_fundamental_div_mod(i as int, h as int);
            vstd::arithmetic::div_mod::lemma_div_denominator(i as int, 2, h2 as int);
            vstd::arithmetic::div_mod::lemma_mod_mod(i as int, 2, h2 as int);
            assert((i % h) as int == 2 * ((i / 2) % h2) as int + (i % 2) as int);
            vstd::arithmetic::div_mod::lemma_fundamental_div_mod_converse(
                (i % h) as int, 2, ((i / 2) % h2) as int, (i % 2) as int);
        }
        assert((i / 2) / h2 == i / h) by {
            vstd::arithmetic::div_mod::lemma_div_denominator(i as int, 2, h2 as int);
        }
        assert(reverse_bits(i % h, k1) == ((i % h) % 2) * h2 + reverse_bits((i % h) / 2, k2));
        assert(reverse_bits(i, k) == (i % 2) * h + reverse_bits(i / 2, k1));
        assert((i % 2) * h == 2 * ((i % 2) * h2)) by (nonlinear_arith)
            requires h == 2 * h2;
    }
}

/// Reversing `k` bits twice gives back any `k`-bit index.
pub proof fn lemma_reverse_bits_involution(i: nat, k: nat)
    requires
        i < pow2(k),
    ensures
        reverse_bits(reverse_bits(i, k), k) == i,
    decreases k,
{
    if k == 0 {
        vstd::arithmetic::power2::lemma2_to64();
    } else {
        let k1 = (k - 1) as nat;
        let h = pow2(k1);
        let r = reverse_bits(i, k);
        lemma_pow2_pos(k1);
        vstd::arithmetic::power2::lemma_pow2_unfold(k);
        lemma_reverse_bits_bound(i, k);
        lemma_reverse_bits_top(i, k);
        let lo = i % h;
        let top = i / h;
        lemma_mod_bound(i as int, h as int);
        lemma_fundamental_div_mod(i as int, h as int);
        assert(top < 2) by {
            vstd::arithmetic::div_mod::lemma_div_by_multiple_is_strongly_ordered(i as int, (2 * h) as int, 2, h as int);
            vstd::arithmetic::div_mod::lemma_div_by_multiple(2, h as int);
        }
        let rl = reverse_bits(lo, k1);
        lemma_reverse_bits_bound(lo, k1);
        assert(r == 2 * rl + top);
        assert(r % 2 == top && r / 2 == rl) by {
            vstd::arithmetic::div_mod::lemma_fundamental_div_mod_converse(r as int, 2, rl as int, top as int);
        }
        lemma_reverse_bits_involution(lo, k1);
        assert(reverse_bits(r, k) == (r % 2) * h + reverse_bits(r / 2, k1));
        assert(top * h + lo == i) by (nonlinear_arith)
            requires i == h * top + lo;
    }
}

/// All indices of a `k`-bit buffer are mapped into it, and reversal undoes itself.
pub proof fn lemma_reverse_bits_permutes(k: nat)
    ensures
        forall|j: nat| j < pow2(k) ==> #[trigger] reverse_bits(j, k) < pow2(k)
            && reverse_bits(reverse_bits(j, k), k) == j,
{
    assert forall|j: nat| j < pow2(k) implies #[trigger] reverse_bits(j, k) < pow2(k)
        && reverse_bits(reverse_bits(j, k), k) == j by {
        lemma_reverse_bits_bound(j, k);
        lemma_reverse_bits_involution(j, k);
    }
}

/// Reordering into bit-reversed order twice gives back the buffer.
pub proof fn lemma_bit_reverse_twice<T>(x: Seq<T>)
    requires
        is_pow2(x.len()),
    ensures
        bit_reversed(bit_reversed(x)) == x,
{
    let k = log2(x.len());
    lemma_reverse_bits_permutes(k);
    assert(bit_reversed(bit_reversed(x)) =~= x);
}

/// Base-2 logarithm of a power of two.
pub fn log2_exact(n: usize) -> (k: u32)
    requires
        is_pow2(n as nat),
    ensures
        k as nat == log2(n as nat),
        pow2(k as nat) == n,
        k < 64,
{
    let mut m: usize = 1;
    let mut k: u32 = 0;
    proof {
        vstd::arithmetic::power2::lemma2_to64();
    }
    while m < n
        invariant
            m as nat == pow2(k as nat),
            k as nat <= log2(n as nat),
            is_pow2(n as nat),
        decreases n - m,
    {
        proof {
            if k as nat == log2(n as nat) {
                assert(false);
            }
            lemma_pow2_strictly_increases(k as nat, log2(n as nat));
            lemma_pow2_pos(k as nat);
            if log2(n as nat) >= 64 {
                vstd::arithmetic::power2::lemma2_to64();
                if log2(n as nat) > 64 {
                    lemma_pow2_strictly_increases(64, log2(n as nat));
                }
            }
            vstd::arithmetic::power2::lemma_pow2_unfold((k + 1) as nat);
            if ((k + 1) as nat) < log2(n as nat) {
                lemma_pow2_strictly_increases((k + 1) as nat, log2(n as nat));
            }
        }
        m = m * 2;
        k = k + 1;
    }
    proof {
        if (k as nat) < log2(n as nat) {
            lemma_pow2_strictly_increases(k as nat, log2(n as nat));
        }
        if k >= 64 {
            vstd::arithmetic::power2::lemma2_to64();
            if k > 64 {
                lemma_pow2_strictly_increases(64, k as nat);
            }
        }
    }
    k
}

/// The low `k` bits of `i` in reverse order.
pub fn reverse_index(i: usize, k: u32) -> (r: usize)
    requires
        k <= 32,
        i < pow2(k as nat),
    ensures
        r as nat == reverse_bits(i as nat, k as nat),
{
    let mut r: usize = 0;
    let mut v: usize = i;
    let mut t: u32 = 0;
    proof {
        vstd::arithmetic::power2::lemma2_to64();
    }
    while t < k
        invariant
            t <= k <= 32,
            r * pow2((k - t) as nat) + reverse_bits(v as nat, (k - t) as nat) == reverse_bits(i as nat, k as nat),
            r < pow2(t as nat),
        decreases k - t,
    {
        let ghost m = (k - t) as nat;
        proof {
            vstd::arithmetic::power2::lemma_pow2_unfold(m);
            vstd::arithmetic::power2::lemma_pow2_unfold((t + 1) as nat);
            if t + 1 < 32 {
                lemma_pow2_strictly_increases((t + 1) as nat, 32);
            }
            assert(r < 0x8000_0000) by {
                vstd::arithmetic::power2::lemma2_to64();
            }
            let h = pow2((m - 1) as nat);
            assert(r * pow2(m) == (2 * r) * h) by (nonlinear_arith)
                requires pow2(m) == 2 * h;
            assert((2 * r + v % 2) * h == (2 * r) * h + (v % 2) * h) by (nonlinear_arith);
        }
        r = 2 * r + v % 2;
        v = v / 2;
        t = t + 1;
    }
    proof {
        vstd::arithmetic::power2::lemma2_to64();
        assert(t == k);
        assert(((k - t) as nat) == 0nat);
        assert(reverse_bits(v as nat, 0) == 0);
        assert(r * pow2(0) == r);
    }
    r
}

/// Reorders a buffer into bit-reversed index order: afterwards element `i` is the
/// element that stood at index `reverse_bits(i, log2(len))`. Each pair is swapped once.
pub fn bit_reverse_reorder_dyn<T: Copy>(data: &mut [T])
    requires
        is_pow2(old(data)@.len()),
        old(data)@.len() <= 0x1_0000_0000,
    ensures
        final(data)@ == bit_reversed(old(data)@),
{
    let n = data.len();
    let k = log2_exact(n);
    proof {
        vstd::arithmetic::power2::lemma2_to64();
        if k > 32 {
            lemma_pow2_strictly_increases(32, k as nat);
        }
        lemma_reverse_bits_permutes(k as nat);
    }
    let ghost k_nat = k as nat;
    let mut i: usize = 0;
    while i < n
        invariant
            n == data@.len(),
            n == old(data)@.len(),
            n == pow2(k_nat),
            k_nat == k,
            k <= 32,
            k_nat == log2(n as nat),
            i <= n,
            forall|j: nat| j < pow2(k_nat) ==> #[trigger] reverse_bits(j, k_nat) < pow2(k_nat)
                && reverse_bits(reverse_bits(j, k_nat), k_nat) == j,
            forall|j: int| 0 <= j < n ==> #[trigger] data@[j] == if j < i || reverse_bits(j as nat, k_nat) < i {
                old(data)@[reverse_bits(j as nat, k_nat) as int]
            } else {
                old(data)@[j]
            },
        decreases n - i,
    {
        let j = reverse_index(i, k);
        assert(reverse_bits(j as nat, k_nat) == i);
        if j > i {
            let a = data[i];
            let b = data[j];
            data[i] = b;
            data[j] = a;
        }
        i = i + 1;
    }
    assert(final(data)@ =~= bit_reversed(old(data)@)) by {
        assert(data@ =~= bit_reversed(old(data)@));
    }
}

/// Reorders a fixed-length buffer into bit-reversed index order.
pub fn bit_reverse_reorder<T: Copy, const N: usize>(data: &mut [T; N])
    requires
        is_pow2(N as nat),
        N <= 0x1_0000_0000,
    ensures
        final(data)@ == bit_reversed(old(data)@),
{
    bit_reverse_reorder_dyn(data);
}

} // verus!
