//! Text of the benchmark's serial report: one line per timing, and the request to
//! restart into the bootloader.
use vstd::prelude::*;
use vstd::arithmetic::power::pow;
use crate::reorder::{is_pow2, log2, log2_exact};

verus! {

/// Buffer positions of the decimal digits of a timing line, least significant first:
/// groups of three digits are separated by a space.
pub const DIGIT_POSITIONS: [usize; 10] = [13, 12, 11, 9, 8, 7, 5, 4, 3, 1];

/// The decimal digit of `v` with weight `10^d`.
pub open spec fn decimal_digit(v: nat, d: nat) -> nat {
    (v / pow(10, d) as nat) % 10
}

/// Which digit position `k` of a timing line shows, if any.
pub open spec fn digit_at(k: int) -> Option<nat> {
    if k == 13 {
        Some(0)
    } else if k == 12 {
        Some(1)
    } else if k == 11 {
        Some(2)
    } else if k == 9 {
        Some(3)
    } else if k == 8 {
        Some(4)
    } else if k == 7 {
        Some(5)
    } else if k == 5 {
        Some(6)
    } else if k == 4 {
        Some(7)
    } else if k == 3 {
        Some(8)
    } else if k == 1 {
        Some(9)
    } else {
        None
    }
}

/// Byte `k` of the timing line for `v`: a leading `.`, the decimal digits of `v` without
/// leading zeros, right-aligned and grouped by three, and a closing `\r\n`.
pub open spec fn timing_line_byte(v: nat, k: int) -> u8 {
    if k == 0 {
        46u8
    } else if k == 14 {
        13u8
    } else if k == 15 {
        10u8
    } else {
        match digit_at(k) {
            Some(d) => if d == 0 || v >= pow(10, d) {
                (48 + decimal_digit(v, d)) as u8
            } else {
                32u8
            },
            None => 32u8,
        }
    }
}

proof fn lemma_pow10_step(d: nat)
    ensures
        pow(10, d + 1) == pow(10, d) * 10,
        pow(10, d) > 0,
{
    vstd::arithmetic::power::lemma_pow_positive(10, d);
    reveal(pow);
    assert(pow(10, d + 1) == 10 * pow(10, d));
}

/// Formats a timing value as a 16-byte line of the serial report.
pub fn timing_line(value: u32) -> (line: [u8; 16])
    ensures
        forall|k: int| 0 <= k < 16 ==> #[trigger] line@[k] == timing_line_byte(value as nat, k),
{
    let mut buf = [32u8; 16];
    buf[0] = 46;
    buf[14] = 13;
    buf[15] = 10;
    let mut rest: u32 = value;
    let mut d: usize = 0;
    proof {
        vstd::arithmetic::power::lemma_pow0(10);
    }
    loop
        invariant
            d < 10,
            rest as nat == value as nat / pow(10, d as nat) as nat,
            d == 0 || rest > 0,
            buf@.len() == 16,
            forall|k: int|
                0 <= k < 16 ==> #[trigger] buf@[k] == match digit_at(k) {
                    Some(e) => if e < d {
                        timing_line_byte(value as nat, k)
                    } else {
                        32u8
                    },
                    None => timing_line_byte(value as nat, k),
                },
        decreases 10 - d,
    {
        let ghost dn = d as nat;
        proof {
            lemma_pow10_step(dn);
            vstd::arithmetic::div_mod::lemma_div_denominator(value as int, pow(10, dn), 10);
            if dn > 0 {
                vstd::arithmetic::div_mod::lemma_div_pos_is_pos(value as int, pow(10, dn));
                assert(value as nat >= pow(10, dn)) by {
                    if (value as nat) < pow(10, dn) {
                        vstd::arithmetic::div_mod::lemma_basic_div(value as int, pow(10, dn));
                    }
                }
            }
        }
        buf[DIGIT_POSITIONS[d]] = 48 + (rest % 10) as u8;
        rest = rest / 10;
        d = d + 1;
        if rest == 0 || d == 10 {
            proof {
                let dd = d as nat;
                lemma_pow10_step(dn);
                if rest == 0 {
                    assert(value as nat / pow(10, dd) as nat == 0);
                    vstd::arithmetic::div_mod::lemma_fundamental_div_mod(value as int, pow(10, dd));
                    assert forall|e: nat| e >= dd implies (value as nat) < pow(10, e) by {
                        vstd::arithmetic::power::lemma_pow_increases(10, dd, e);
                        vstd::arithmetic::div_mod::lemma_mod_bound(value as int, pow(10, dd));
                    }
                }
            }
            assert forall|k: int| 0 <= k < 16 implies #[trigger] buf@[k] == timing_line_byte(value as nat, k) by {
                match digit_at(k) {
                    Some(e) => {
                        if e >= d {
                            assert(rest == 0);
                            assert((value as nat) < pow(10, e));
                        }
                    },
                    None => {},
                }
            }
            return buf;
        }
    }
}

/// How many transforms of `size` points to time so that each size runs about as many
/// butterflies as one transform of `max_size` points.
pub fn repeat_count(size: usize, max_size: usize) -> (r: u64)
    requires
        is_pow2(size as nat),
        is_pow2(max_size as nat),
        2 <= size <= 0x1_0000_0000,
        1 <= max_size <= 0x1_0000_0000,
    ensures
        r as int == (max_size as int * log2(max_size as nat)) / (size as int * log2(size as nat)),
{
    let a = log2_exact(max_size) as u64;
    let b = log2_exact(size) as u64;
    proof {
        lemma_log2_bounds(size as nat);
        lemma_log2_bounds(max_size as nat);
        assert(max_size * a <= 0x1_0000_0000 * 32) by (nonlinear_arith)
            requires
                max_size <= 0x1_0000_0000,
                a <= 32,
        ;
        assert(size * b >= 2) by (nonlinear_arith)
            requires
                size >= 2,
                b >= 1,
        ;
        assert(size * b <= 0x1_0000_0000 * 32) by (nonlinear_arith)
            requires
                size <= 0x1_0000_0000,
                b <= 32,
        ;
    }
    (max_size as u64 * a) / (size as u64 * b)
}

/// Millionths of a 125 MHz clock cycle per butterfly, from the microseconds that
/// `repeats` transforms of `size` points took.
pub fn time_per_butterfly(elapsed_us: u64, repeats: u64, size: usize) -> (r: u64)
    requires
        elapsed_us <= 147_573_952_589,
        repeats > 0,
        is_pow2(size as nat),
        2 <= size <= 0x1_0000_0000,
    ensures
        r as int == elapsed_us as int * 125_000_000 / repeats as int / (size as int * log2(size as nat)),
{
    let b = log2_exact(size) as u64;
    proof {
        lemma_log2_bounds(size as nat);
        assert(size * b >= 2) by (nonlinear_arith)
            requires
                size >= 2,
                b >= 1,
        ;
        assert(size * b <= 0x1_0000_0000 * 32) by (nonlinear_arith)
            requires
                size <= 0x1_0000_0000,
                b <= 32,
        ;
    }
    elapsed_us * 125_000_000 / repeats / (size as u64 * b)
}

/// The logarithm of a power of two up to `2^32` is at most 32, and at least 1 from 2 on.
proof fn lemma_log2_bounds(n: nat)
    requires
        is_pow2(n),
        1 <= n <= 0x1_0000_0000,
    ensures
        log2(n) <= 32,
        n >= 2 ==> log2(n) >= 1,
{
    vstd::arithmetic::power2::lemma2_to64();
    if log2(n) > 32 {
        vstd::arithmetic::power2::lemma_pow2_strictly_increases(32, log2(n));
    }
}

/// A received byte `r` asks for a restart into the bootloader.
pub fn wants_bootloader(bytes: &[u8]) -> (r: bool)
    ensures
        r == exists|i: int| 0 <= i < bytes@.len() && bytes@[i] == 114u8,
{
    let mut i: usize = 0;
    while i < bytes.len()
        invariant
            i <= bytes@.len(),
            forall|j: int| 0 <= j < i ==> bytes@[j] != 114u8,
        decreases bytes@.len() - i,
    {
        if bytes[i] == 114u8 {
            return true;
        }
        i = i + 1;
    }
    false
}

} // verus!
