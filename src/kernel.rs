//! Radix-2 decimation-in-time butterfly engine for fixed-point samples, with
//! per-stage rescaling and exponent accounting.
use vstd::prelude::*;
use vstd::arithmetic::power2::{pow2, lemma_pow2_pos, lemma_pow2_adds, lemma_pow2_strictly_increases, lemma2_to64};
use vstd::arithmetic::div_mod::lemma_fundamental_div_mod;
use crate::fixed::{
    abs, butterfly, cmul, lemma_cmul_bound, lemma_fdiv_bound, lemma_scale_table_bound, scale_table,
    scale_table_exec, shifted,
};
use crate::reorder::{bit_reversed, is_pow2, log2};
use crate::lanes::{Lanes, in_range};
use crate::trig::{lemma_sin_cos_bound, sin_cos, sin_cos_spec};

verus! {

/// The forward twiddle factor `exp(-i * theta)` for the angle `theta = pi * angle / 2^32`,
/// with `q` fraction bits.
#[verifier::opaque]
pub open spec fn twiddle(angle: int, q: nat) -> (int, int) {
    let sc = sin_cos_spec(angle);
    (scale_table(sc.1, q), scale_table(sc.0, q))
}

/// The angle of group `g` in the stage that merges transforms of length `2^l`:
/// `pi * g / 2^l`.
pub open spec fn stage_angle(g: int, l: nat) -> int {
    g * pow2((32 - l) as nat)
}

/// Position of index `i` within its block of `2 * step` elements.
#[verifier::opaque]
pub open spec fn block_offset(i: int, step: int) -> int {
    i % (2 * step)
}

/// `n` elements make whole blocks of `2 * step`.
#[verifier::opaque]
pub open spec fn whole_blocks(n: int, step: int) -> bool {
    n % (2 * step) == 0
}

/// Index of the upper element of the butterfly that index `i` belongs to, when
/// butterflies pair elements `step` apart.
pub open spec fn butterfly_top(i: int, step: int) -> int {
    if block_offset(i, step) < step {
        i
    } else {
        i - step
    }
}

/// One butterfly stage, merging adjacent transforms of length `2^l`: both inputs of
/// each butterfly are first shifted right by `sh` bits, then the upper output is
/// `a + w * b` and the lower `a - w * b`, with `w` the twiddle of the butterfly's group.
#[verifier::opaque]
pub open spec fn stage(x: Seq<(int, int)>, l: nat, sh: nat, q: nat) -> Seq<(int, int)> {
    let step = pow2(l) as int;
    Seq::new(
        x.len(),
        |i: int|
            {
                let t = butterfly_top(i, step);
                let a = shifted(x[t], sh);
                let p = cmul(twiddle(stage_angle(block_offset(t, step), l), q), shifted(x[t + step], sh), q);
                if i == t {
                    (a.0 + p.0, a.1 + p.1)
                } else {
                    (a.0 - p.0, a.1 - p.1)
                }
            },
    )
}

/// The two outputs of the butterfly with upper index `p` in the stage that merges
/// transforms of length `2^l`, with inputs shifted right by `sh` bits.
pub open spec fn butterfly_out(x: Seq<(int, int)>, l: nat, sh: nat, q: nat, p: int) -> ((int, int), (int, int)) {
    let step = pow2(l) as int;
    let a = shifted(x[p], sh);
    let pr = cmul(twiddle(stage_angle(block_offset(p, step), l), q), shifted(x[p + step], sh), q);
    ((a.0 + pr.0, a.1 + pr.1), (a.0 - pr.0, a.1 - pr.1))
}

/// After a right shift by `sh` bits, every butterfly output of the stage fits a
/// signed integer of `q + 1` bits.
#[verifier::opaque]
pub open spec fn stage_fits(x: Seq<(int, int)>, l: nat, sh: nat, q: nat) -> bool {
    let step = pow2(l) as int;
    forall|p: int|
        #![trigger butterfly_out(x, l, sh, q, p)]
        0 <= p < x.len() && block_offset(p, step) < step ==> in_range(butterfly_out(x, l, sh, q, p).0, q) && in_range(
            butterfly_out(x, l, sh, q, p).1,
            q,
        )
}

/// The right shift applied in a stage: the smallest of 0, 1 and 2 bits that keeps
/// every butterfly output in range (two bits always do).
#[verifier::opaque]
pub open spec fn stage_shift(x: Seq<(int, int)>, l: nat, q: nat) -> nat {
    if stage_fits(x, l, 0, q) {
        0
    } else if stage_fits(x, l, 1, q) {
        1
    } else {
        2
    }
}

/// Stages `l` up to `n_stages - 1` applied to `x`: the result, and the total number of
/// bits shifted out along the way.
#[verifier::opaque]
pub open spec fn run_stages(x: Seq<(int, int)>, l: nat, n_stages: nat, q: nat) -> (Seq<(int, int)>, int)
    decreases n_stages - l,
{
    if l >= n_stages {
        (x, 0)
    } else {
        let sh = stage_shift(x, l, q);
        let r = run_stages(stage(x, l, sh, q), l + 1, n_stages, q);
        (r.0, r.1 + sh)
    }
}

/// The twiddle factor of an angle, with `q` fraction bits.
fn twiddle_exec(angle: u32, q: u32) -> (r: (i64, i64))
    requires
        2 <= q <= 31,
    ensures
        (r.0 as int, r.1 as int) == twiddle(angle as int, q as nat),
        abs(r.0 as int) <= pow2(q as nat),
        abs(r.1 as int) <= pow2(q as nat),
{
    reveal(twiddle);
    let (s, c) = sin_cos(angle);
    let re = scale_table_exec(c, q);
    let im = scale_table_exec(s, q);
    (re, im)
}

/// Where a butterfly's upper element sits, its partner lies `step` further on,
/// inside the buffer, and the next butterfly of the same group `2 * step` on.
proof fn lemma_butterfly_indices(p: int, step: int, n: int)
    requires
        step > 0,
        0 <= p < n,
        block_offset(p, step) < step,
        whole_blocks(n, step),
    ensures
        p + step < n,
        block_offset(p + 2 * step, step) == block_offset(p, step),
        butterfly_top(p, step) == p,
        butterfly_top(p + step, step) == p,
{
    reveal(block_offset);
    reveal(whole_blocks);
    let j = 2 * step;
    let g = p % j;
    let b = p / j;
    lemma_fundamental_div_mod(p, j);
    lemma_fundamental_div_mod(n, j);
    vstd::arithmetic::div_mod::lemma_mod_bound(p, j);
    let m = n / j;
    assert(b < m) by (nonlinear_arith)
        requires
            p == j * b + g,
            n == j * m,
            0 <= g,
            p < n,
            j > 0,
    ;
    assert(j * (b + 1) <= j * m) by (nonlinear_arith)
        requires
            b + 1 <= m,
            j > 0,
    ;
    assert(j * (b + 1) == j * b + j) by (nonlinear_arith);
    assert(p + step == b * j + (g + step) && p + 2 * step == (b + 1) * j + g) by (nonlinear_arith)
        requires
            p == j * b + g,
            j == 2 * step,
    ;
    vstd::arithmetic::div_mod::lemma_fundamental_div_mod_converse_mod(p + step, j, b, g + step);
    vstd::arithmetic::div_mod::lemma_fundamental_div_mod_converse_mod(p + 2 * step, j, b + 1, g);
}

/// The partner of an upper index lies `step` further on, in the second half of the block.
#[verifier::rlimit(50)]
proof fn lemma_pair_top(p: int, step: int)
    requires
        step > 0,
        0 <= p,
        block_offset(p, step) < step,
    ensures
        butterfly_top(p, step) == p,
        butterfly_top(p + step, step) == p,
{
    reveal(block_offset);
    let j = 2 * step;
    let g = p % j;
    let b = p / j;
    lemma_fundamental_div_mod(p, j);
    vstd::arithmetic::div_mod::lemma_mod_bound(p, j);
    assert(p + step == b * j + (g + step)) by (nonlinear_arith)
        requires
            p == j * b + g,
    ;
    vstd::arithmetic::div_mod::lemma_fundamental_div_mod_converse_mod(p + step, j, b, g + step);
}

/// Every index belongs to one butterfly whose upper element lies in the first half
/// of its block.
proof fn lemma_top_bounds(i: int, step: int, n: int)
    requires
        step > 0,
        0 <= i < n,
        whole_blocks(n, step),
    ensures
        0 <= butterfly_top(i, step) < n,
        0 <= block_offset(butterfly_top(i, step), step) < step,
        i == butterfly_top(i, step) || i == butterfly_top(i, step) + step,
{
    reveal(block_offset);
    let j = 2 * step;
    lemma_fundamental_div_mod(i, j);
    vstd::arithmetic::div_mod::lemma_mod_bound(i, j);
    if i % j >= step {
        let b = i / j;
        assert(i - step == b * j + (i % j - step)) by (nonlinear_arith)
            requires
                i == j * b + i % j,
        ;
        vstd::arithmetic::div_mod::lemma_fundamental_div_mod_converse_mod(i - step, j, b, i % j - step);
    }
}

/// Two indices in the same block position that are less than a block apart are equal.
proof fn lemma_same_residue(t: int, p: int, step: int)
    requires
        step > 0,
        0 <= p <= t < p + 2 * step,
        block_offset(t, step) == block_offset(p, step),
    ensures
        t == p,
{
    reveal(block_offset);
    let m = 2 * step;
    lemma_fundamental_div_mod(t, m);
    lemma_fundamental_div_mod(p, m);
    let a = t / m;
    let b = p / m;
    assert(a == b) by (nonlinear_arith)
        requires
            t == m * a + t % m,
            p == m * b + p % m,
            t % m == p % m,
            p <= t < p + m,
            m > 0,
    ;
}

/// Block positions below `step` are their own offsets.
proof fn lemma_small_offset(g: int, step: int)
    requires
        0 <= g < step,
    ensures
        block_offset(g, step) == g,
{
    reveal(block_offset);
    vstd::arithmetic::div_mod::lemma_small_mod(g as nat, (2 * step) as nat);
}

/// Progress of a stage: each element holds its stage output once the butterfly it
/// belongs to has run (groups below `g`, and butterflies of group `g` above upper index
/// `p`), and its input otherwise.
pub open spec fn stage_progress(
    cur: Seq<(int, int)>,
    x0: Seq<(int, int)>,
    stg: Seq<(int, int)>,
    step: int,
    g: int,
    p: int,
) -> bool {
    &&& cur.len() == x0.len()
    &&& forall|i: int|
        0 <= i < x0.len() ==> #[trigger] cur[i] == if block_offset(butterfly_top(i, step), step) < g || (block_offset(
            butterfly_top(i, step),
            step,
        ) == g && butterfly_top(i, step) < p) {
            stg[i]
        } else {
            x0[i]
        }
}

/// Before a stage runs, every element holds its input.
proof fn lemma_progress_start(x0: Seq<(int, int)>, stg: Seq<(int, int)>, step: int)
    requires
        step > 0,
        whole_blocks(x0.len() as int, step),
    ensures
        stage_progress(x0, x0, stg, step, 0, 0),
{
    assert forall|i: int| 0 <= i < x0.len() implies #[trigger] x0[i] == if block_offset(butterfly_top(i, step), step) < 0
        || (block_offset(butterfly_top(i, step), step) == 0 && butterfly_top(i, step) < 0) {
        stg[i]
    } else {
        x0[i]
    } by {
        lemma_top_bounds(i, step, x0.len() as int);
    }
}

/// Running the butterfly at upper index `p` advances the progress of its group.
proof fn lemma_progress_step(
    cur: Seq<(int, int)>,
    x0: Seq<(int, int)>,
    stg: Seq<(int, int)>,
    step: int,
    g: int,
    p: int,
)
    requires
        step > 0,
        0 <= g < step,
        0 <= p < x0.len(),
        block_offset(p, step) == g,
        whole_blocks(x0.len() as int, step),
        stg.len() == x0.len(),
        stage_progress(cur, x0, stg, step, g, p),
    ensures
        p + step < x0.len(),
        block_offset(p + 2 * step, step) == g,
        cur[p] == x0[p],
        cur[p + step] == x0[p + step],
        stage_progress(cur.update(p, stg[p]).update(p + step, stg[p + step]), x0, stg, step, g, p + 2 * step),
{
    let n = x0.len() as int;
    lemma_butterfly_indices(p, step, n);
    let nxt = cur.update(p, stg[p]).update(p + step, stg[p + step]);
    assert forall|i: int| 0 <= i < n implies #[trigger] nxt[i] == if block_offset(butterfly_top(i, step), step) < g || (
    block_offset(butterfly_top(i, step), step) == g && butterfly_top(i, step) < p + 2 * step) {
        stg[i]
    } else {
        x0[i]
    } by {
        lemma_top_bounds(i, step, n);
        let t = butterfly_top(i, step);
        if block_offset(t, step) == g && p <= t < p + 2 * step {
            lemma_same_residue(t, p, step);
        }
    }
}

/// A group starts with none of its butterflies run and ends with all of them run.
proof fn lemma_progress_group(
    cur: Seq<(int, int)>,
    x0: Seq<(int, int)>,
    stg: Seq<(int, int)>,
    step: int,
    g: int,
    p: int,
)
    requires
        step > 0,
        0 <= g <= step,
        whole_blocks(x0.len() as int, step),
    ensures
        stage_progress(cur, x0, stg, step, g, 0) ==> stage_progress(cur, x0, stg, step, g, g),
        stage_progress(cur, x0, stg, step, g, p) && p >= x0.len() ==> stage_progress(cur, x0, stg, step, g + 1, 0),
        stage_progress(cur, x0, stg, step, step, 0) && stg.len() == x0.len() ==> cur == stg,
{
    let n = x0.len() as int;
    if stage_progress(cur, x0, stg, step, g, 0) {
        assert forall|i: int| 0 <= i < n implies #[trigger] cur[i] == if block_offset(butterfly_top(i, step), step) < g || (
        block_offset(butterfly_top(i, step), step) == g && butterfly_top(i, step) < g) {
            stg[i]
        } else {
            x0[i]
        } by {
            lemma_top_bounds(i, step, n);
            let t = butterfly_top(i, step);
            if t < g && g < step {
                lemma_small_offset(t, step);
            }
            if t < g && g == step {
                lemma_small_offset(t, step);
            }
        }
    }
    if stage_progress(cur, x0, stg, step, g, p) && p >= n {
        assert forall|i: int| 0 <= i < n implies #[trigger] cur[i] == if block_offset(butterfly_top(i, step), step) < g + 1
            || (block_offset(butterfly_top(i, step), step) == g + 1 && butterfly_top(i, step) < 0) {
            stg[i]
        } else {
            x0[i]
        } by {
            lemma_top_bounds(i, step, n);
        }
    }
    if stage_progress(cur, x0, stg, step, step, 0) && stg.len() == x0.len() {
        assert forall|i: int| 0 <= i < n implies #[trigger] cur[i] == stg[i] by {
            lemma_top_bounds(i, step, n);
        }
        assert(cur =~= stg);
    }
}

/// The outputs of the stage at the butterfly with upper index `p`.
#[verifier::rlimit(50)]
proof fn lemma_stage_pair(x: Seq<(int, int)>, l: nat, sh: nat, q: nat, p: int)
    requires
        0 <= p,
        p + pow2(l) < x.len(),
        block_offset(p, pow2(l) as int) < pow2(l),
    ensures
        stage(x, l, sh, q).len() == x.len(),
        stage(x, l, sh, q)[p] == butterfly_out(x, l, sh, q, p).0,
        stage(x, l, sh, q)[p + pow2(l)] == butterfly_out(x, l, sh, q, p).1,
{
    reveal(stage);
    lemma_pow2_pos(l);
    lemma_pair_top(p, pow2(l) as int);
}

/// A stage keeps the length of the buffer.
proof fn lemma_stage_len(x: Seq<(int, int)>, l: nat, sh: nat, q: nat)
    ensures
        stage(x, l, sh, q).len() == x.len(),
{
    reveal(stage);
}

/// The range that `stage_fits` promises for the butterfly at upper index `p`.
proof fn lemma_fits_at(x: Seq<(int, int)>, l: nat, sh: nat, q: nat, p: int)
    requires
        stage_fits(x, l, sh, q),
        0 <= p < x.len(),
        block_offset(p, pow2(l) as int) < pow2(l),
    ensures
        in_range(butterfly_out(x, l, sh, q, p).0, q),
        in_range(butterfly_out(x, l, sh, q, p).1, q),
{
    reveal(stage_fits);
}

/// Runs one butterfly stage in place: groups of butterflies share a twiddle factor,
/// and the butterflies of a group lie `2 * step` apart.
#[verifier::rlimit(40)]
fn run_stage<C: ?Sized, B: Lanes<C> + ?Sized>(
    buf: &mut B,
    comp: &mut C,
    n: u64,
    l: u32,
    step: u64,
    stride: u64,
    sh: u32,
)
    requires
        old(buf).wf(old(comp)),
        n == old(buf).samples(old(comp)).len(),
        n <= 0x1_0000_0000,
        l < 32,
        step == pow2(l as nat),
        stride == pow2((32 - l) as nat),
        whole_blocks(n as int, step as int),
        sh <= 2,
        stage_fits(old(buf).samples(old(comp)), l as nat, sh as nat, B::frac_bits()),
    ensures
        final(buf).wf(final(comp)),
        final(buf).samples(final(comp)) == stage(old(buf).samples(old(comp)), l as nat, sh as nat, B::frac_bits()),
{
    let q = B::frac_bits_exec();
    let ghost x0 = buf.samples(comp);
    let ghost stg = stage(x0, l as nat, sh as nat, q as nat);
    proof {
        lemma_pow2_strictly_increases(l as nat, 32);
        lemma2_to64();
    }
    let jump = 2 * step;
    let mut g: u64 = 0;
    proof {
        lemma_pow2_pos(l as nat);
        lemma_pow2_adds(l as nat, (32 - l) as nat);
        lemma2_to64();
        buf.lemma_samples_in_range(comp);
        lemma_progress_start(x0, stg, step as int);
        lemma_stage_len(x0, l as nat, sh as nat, q as nat);
        lemma_pow2_strictly_increases(l as nat, 32);
    }
    while g < step
        invariant
            buf.wf(comp),
            q == B::frac_bits(),
            2 <= q <= 31,
            n == x0.len(),
            n == stg.len(),
            step == pow2(l as nat),
            l < 32,
            stride == pow2((32 - l) as nat),
            step * stride == 0x1_0000_0000,
            jump == 2 * step,
            whole_blocks(n as int, step as int),
            n <= 0x1_0000_0000,
            sh <= 2,
            g <= step,
            stg == stage(x0, l as nat, sh as nat, q as nat),
            stage_fits(x0, l as nat, sh as nat, q as nat),
            forall|i: int| 0 <= i < n ==> #[trigger] in_range(x0[i], q as nat),
            stage_progress(buf.samples(comp), x0, stg, step as int, g as int, 0),
            stg.len() == x0.len(),
        decreases step - g,
    {
        assert(g * stride < 0x1_0000_0000) by (nonlinear_arith)
            requires
                g < step,
                step * stride == 0x1_0000_0000,
        ;
        let angle = (g * stride) as u32;
        let w = twiddle_exec(angle, q);
        let mut p: u64 = g;
        proof {
            lemma_small_offset(g as int, step as int);
            lemma_progress_group(buf.samples(comp), x0, stg, step as int, g as int, 0);
        }
        while p < n
            invariant
                buf.wf(comp),
                q == B::frac_bits(),
                2 <= q <= 31,
                n == x0.len(),
                n == stg.len(),
                step == pow2(l as nat),
                jump == 2 * step,
                whole_blocks(n as int, step as int),
                n <= 0x1_0000_0000,
                sh <= 2,
                g < step,
                block_offset(p as int, step as int) == g,
                p < n + jump,
                angle == g * stride,
                (w.0 as int, w.1 as int) == twiddle(stage_angle(g as int, l as nat), q as nat),
                abs(w.0 as int) <= pow2(q as nat),
                abs(w.1 as int) <= pow2(q as nat),
                stg == stage(x0, l as nat, sh as nat, q as nat),
                stage_fits(x0, l as nat, sh as nat, q as nat),
                forall|i: int| 0 <= i < n ==> #[trigger] in_range(x0[i], q as nat),
                stage_progress(buf.samples(comp), x0, stg, step as int, g as int, p as int),
            decreases n + jump - p,
        {
            let ghost cur = buf.samples(comp);
            proof {
                lemma_progress_step(cur, x0, stg, step as int, g as int, p as int);
                lemma_fits_at(x0, l as nat, sh as nat, q as nat, p as int);
                lemma_stage_pair(x0, l as nat, sh as nat, q as nat, p as int);
                lemma_offset_value(p as int, step as int);
                assert(in_range(x0[p as int], q as nat));
                assert(in_range(x0[p + step], q as nat));
            }
            let lower = p + step;
            let a = buf.read(comp, p as usize);
            let b = buf.read(comp, lower as usize);
            let (top, bottom) = butterfly(a, b, w, sh, q);
            buf.write(comp, p as usize, top);
            buf.write(comp, lower as usize, bottom);
            proof {
                assert(buf.samples(comp) == cur.update(p as int, stg[p as int]).update(lower as int, stg[lower as int]));
            }
            p = p + jump;
        }
        proof {
            lemma_progress_group(buf.samples(comp), x0, stg, step as int, g as int, p as int);
        }
        g = g + 1;
    }
    proof {
        lemma_progress_group(buf.samples(comp), x0, stg, step as int, step as int, 0);
    }
}

/// Every twiddle factor has parts of at most `2^q` in magnitude.
proof fn lemma_twiddle_bound(angle: int, q: nat)
    requires
        0 <= angle < 0x1_0000_0000,
        2 <= q <= 31,
    ensures
        abs(twiddle(angle, q).0) <= pow2(q),
        abs(twiddle(angle, q).1) <= pow2(q),
{
    reveal(twiddle);
    lemma_sin_cos_bound(angle);
    lemma_scale_table_bound(sin_cos_spec(angle).0, q);
    lemma_scale_table_bound(sin_cos_spec(angle).1, q);
}

/// Stage angles stay below a half turn.
proof fn lemma_stage_angle_bound(g: int, l: nat)
    requires
        0 <= g < pow2(l),
        l <= 32,
    ensures
        0 <= stage_angle(g, l) < 0x1_0000_0000,
{
    let s = pow2((32 - l) as nat) as int;
    lemma_pow2_adds(l, (32 - l) as nat);
    lemma_pow2_pos((32 - l) as nat);
    lemma2_to64();
    assert(g * s < pow2(l) as int * s && 0 <= g * s) by (nonlinear_arith)
        requires
            0 <= g < pow2(l),
            s > 0,
    ;
}

/// A butterfly whose inputs are shifted by two bits cannot leave the range.
proof fn lemma_butterfly_two(x: Seq<(int, int)>, l: nat, q: nat, p: int)
    requires
        2 <= q <= 31,
        l < 32,
        0 <= p,
        p + pow2(l) < x.len(),
        0 <= block_offset(p, pow2(l) as int) < pow2(l),
        in_range(x[p], q),
        in_range(x[p + pow2(l)], q),
    ensures
        in_range(butterfly_out(x, l, 2, q, p).0, q),
        in_range(butterfly_out(x, l, 2, q, p).1, q),
{
    let step = pow2(l) as int;
    let a = shifted(x[p], 2);
    let b = shifted(x[p + step], 2);
    let angle = stage_angle(block_offset(p, step), l);
    lemma_stage_angle_bound(block_offset(p, step), l);
    lemma_twiddle_bound(angle, q);
    lemma_cmul_bound(twiddle(angle, q), b, q);
    lemma_fdiv_bound(x[p].0, 2, q);
    lemma_fdiv_bound(x[p].1, 2, q);
    lemma_fdiv_bound(x[p + step].0, 2, q);
    lemma_fdiv_bound(x[p + step].1, 2, q);
    lemma_pow2_pos(q);
}

/// Shifting by two bits always leaves room for a butterfly.
proof fn lemma_fits_two(x: Seq<(int, int)>, l: nat, q: nat)
    requires
        2 <= q <= 31,
        l < 32,
        forall|i: int| 0 <= i < x.len() ==> #[trigger] in_range(x[i], q),
        whole_blocks(x.len() as int, pow2(l) as int),
    ensures
        stage_fits(x, l, 2, q),
{
    reveal(stage_fits);
    let step = pow2(l) as int;
    lemma_pow2_pos(l);
    assert forall|p: int|
        #![trigger butterfly_out(x, l, 2, q, p)]
        0 <= p < x.len() && block_offset(p, step) < step implies in_range(butterfly_out(x, l, 2, q, p).0, q)
        && in_range(butterfly_out(x, l, 2, q, p).1, q) by {
        lemma_butterfly_indices(p, step, x.len() as int);
        lemma_offset_value(p, step);
        vstd::arithmetic::div_mod::lemma_mod_bound(p, 2 * step);
        assert(in_range(x[p], q));
        assert(in_range(x[p + step], q));
        lemma_butterfly_two(x, l, q, p);
    }
}

/// Whether the butterflies with upper index below `p` all fit after a shift by `sh`.
pub open spec fn fits_below(x: Seq<(int, int)>, l: nat, sh: nat, q: nat, p: int) -> bool {
    forall|t: int|
        #![trigger butterfly_out(x, l, sh, q, t)]
        0 <= t < p && block_offset(t, pow2(l) as int) < pow2(l) ==> in_range(butterfly_out(x, l, sh, q, t).0, q)
            && in_range(butterfly_out(x, l, sh, q, t).1, q)
}

/// Extending a scan by one index adds the butterfly at that index, if it is an upper one.
proof fn lemma_fits_below_step(x: Seq<(int, int)>, l: nat, sh: nat, q: nat, p: int)
    requires
        0 <= p,
    ensures
        fits_below(x, l, sh, q, p + 1) == (fits_below(x, l, sh, q, p) && (block_offset(p, pow2(l) as int) < pow2(l)
            ==> in_range(butterfly_out(x, l, sh, q, p).0, q) && in_range(butterfly_out(x, l, sh, q, p).1, q))),
{
    if fits_below(x, l, sh, q, p) && (block_offset(p, pow2(l) as int) < pow2(l) ==> in_range(
        butterfly_out(x, l, sh, q, p).0,
        q,
    ) && in_range(butterfly_out(x, l, sh, q, p).1, q)) {
        assert forall|t: int|
            #![trigger butterfly_out(x, l, sh, q, t)]
            0 <= t < p + 1 && block_offset(t, pow2(l) as int) < pow2(l) implies in_range(
            butterfly_out(x, l, sh, q, t).0,
            q,
        ) && in_range(butterfly_out(x, l, sh, q, t).1, q) by {
            if t < p {
            }
        }
    }
}

/// The block position, as computed on machine integers.
proof fn lemma_offset_value(p: int, step: int)
    ensures
        block_offset(p, step) == p % (2 * step),
{
    reveal(block_offset);
}

/// A scan over the whole buffer decides `stage_fits`.
proof fn lemma_fits_below_all(x: Seq<(int, int)>, l: nat, sh: nat, q: nat)
    ensures
        fits_below(x, l, sh, q, x.len() as int) == stage_fits(x, l, sh, q),
{
    reveal(stage_fits);
}

/// Scans the buffer once and picks the right shift of the stage that merges
/// transforms of length `2^l`: the butterflies are computed with no shift and with a
/// one-bit shift, and their outputs tested against the range.
fn choose_shift<C: ?Sized, B: Lanes<C> + ?Sized>(
    buf: &B,
    comp: &C,
    n: u64,
    l: u32,
    step: u64,
    stride: u64,
) -> (sh: u32)
    requires
        buf.wf(comp),
        n == buf.samples(comp).len(),
        n <= 0x1_0000_0000,
        l < 32,
        step == pow2(l as nat),
        stride == pow2((32 - l) as nat),
        whole_blocks(n as int, step as int),
    ensures
        sh as nat == stage_shift(buf.samples(comp), l as nat, B::frac_bits()),
        sh <= 2,
{
    let q = B::frac_bits_exec();
    let ghost x = buf.samples(comp);
    proof {
        lemma2_to64();
        vstd::bits::lemma_u64_shl_is_mul(1, q as u64);
        lemma_pow2_strictly_increases(q as nat, 32);
        lemma_pow2_strictly_increases(l as nat, 32);
        lemma_pow2_pos(l as nat);
        lemma_pow2_adds(l as nat, (32 - l) as nat);
        buf.lemma_samples_in_range(comp);
    }
    let limit: i64 = (1u64 << q) as i64;
    let jump = 2 * step;
    let mut fits0 = true;
    let mut fits1 = true;
    let mut p: u64 = 0;
    while p < n
        invariant
            buf.wf(comp),
            x == buf.samples(comp),
            q == B::frac_bits(),
            2 <= q <= 31,
            n == x.len(),
            n <= 0x1_0000_0000,
            l < 32,
            step == pow2(l as nat),
            stride == pow2((32 - l) as nat),
            step * stride == 0x1_0000_0000,
            step > 0,
            jump == 2 * step,
            whole_blocks(n as int, step as int),
            p <= n,
            limit == pow2(q as nat),
            limit <= 0x8000_0000,
            forall|i: int| 0 <= i < n ==> #[trigger] in_range(x[i], q as nat),
            fits0 == fits_below(x, l as nat, 0, q as nat, p as int),
            fits1 == fits_below(x, l as nat, 1, q as nat, p as int),
        decreases n - p,
    {
        proof {
            lemma_offset_value(p as int, step as int);
            lemma_fits_below_step(x, l as nat, 0, q as nat, p as int);
            lemma_fits_below_step(x, l as nat, 1, q as nat, p as int);
        }
        let g = p % jump;
        if g < step {
            proof {
                lemma_butterfly_indices(p as int, step as int, n as int);
                assert(in_range(x[p as int], q as nat));
                assert(in_range(x[p + step], q as nat));
                assert(g * stride < 0x1_0000_0000) by (nonlinear_arith)
                    requires
                        g < step,
                        step * stride == 0x1_0000_0000,
                ;
            }
            let angle = (g * stride) as u32;
            let w = twiddle_exec(angle, q);
            let a = buf.read(comp, p as usize);
            let b = buf.read(comp, (p + step) as usize);
            let (top0, bottom0) = butterfly(a, b, w, 0, q);
            let (top1, bottom1) = butterfly(a, b, w, 1, q);
            if !(-limit <= top0.0 && top0.0 < limit && -limit <= top0.1 && top0.1 < limit && -limit <= bottom0.0
                && bottom0.0 < limit && -limit <= bottom0.1 && bottom0.1 < limit) {
                fits0 = false;
            }
            if !(-limit <= top1.0 && top1.0 < limit && -limit <= top1.1 && top1.1 < limit && -limit <= bottom1.0
                && bottom1.0 < limit && -limit <= bottom1.1 && bottom1.1 < limit) {
                fits1 = false;
            }
        }
        p = p + 1;
    }
    proof {
        lemma_fits_below_all(x, l as nat, 0, q as nat);
        lemma_fits_below_all(x, l as nat, 1, q as nat);
        reveal(stage_shift);
    }
    if fits0 {
        0
    } else if fits1 {
        1
    } else {
        2
    }
}

/// A power-of-two buffer splits into whole blocks at every smaller power of two.
proof fn lemma_whole_blocks_pow2(l: nat, big_l: nat)
    requires
        l < big_l,
    ensures
        whole_blocks(pow2(big_l) as int, pow2(l) as int),
{
    reveal(whole_blocks);
    let rest = (big_l - l - 1) as nat;
    lemma_pow2_adds(l + 1, rest);
    vstd::arithmetic::power2::lemma_pow2_unfold(l + 1);
    lemma_pow2_pos(l);
    assert(l + 1 + rest == big_l);
    let a = pow2(rest) as int;
    let b = pow2(l) as int;
    assert(pow2(big_l) as int == a * (2 * b)) by (nonlinear_arith)
        requires
            pow2(big_l) as int == pow2(l + 1) as int * a,
            pow2(l + 1) as int == 2 * b,
    ;
    vstd::arithmetic::div_mod::lemma_mod_multiples_basic(a, 2 * b);
}

/// The stage that the driver runs keeps every butterfly in range.
proof fn lemma_chosen_shift_fits(x: Seq<(int, int)>, l: nat, q: nat)
    requires
        2 <= q <= 31,
        l < 32,
        forall|i: int| 0 <= i < x.len() ==> #[trigger] in_range(x[i], q),
        whole_blocks(x.len() as int, pow2(l) as int),
    ensures
        stage_fits(x, l, stage_shift(x, l, q), q),
        stage_shift(x, l, q) <= 2,
{
    reveal(stage_shift);
    lemma_fits_two(x, l, q);
}

/// The forward transform of `x` with `q` fraction bits: the samples in bit-reversed
/// order, then every stage. Yields the outputs and the exponent (the number of bits
/// shifted out), so that output `v` stands for `v * 2^exponent` input units.
pub open spec fn fft(x: Seq<(int, int)>, q: nat) -> (Seq<(int, int)>, int) {
    run_stages(bit_reversed(x), 0, log2(x.len()), q)
}

/// One step of `run_stages`.
pub proof fn lemma_run_stages_unfold(x: Seq<(int, int)>, l: nat, n_stages: nat, q: nat)
    ensures
        l < n_stages ==> run_stages(x, l, n_stages, q) == ({
            let sh = stage_shift(x, l, q);
            let r = run_stages(stage(x, l, sh, q), l + 1, n_stages, q);
            (r.0, r.1 + sh)
        }),
        l >= n_stages ==> run_stages(x, l, n_stages, q) == (x, 0int),
{
    reveal(run_stages);
}

/// Runs every stage of the transform on a buffer already in bit-reversed order and
/// returns the number of bits shifted out.
#[verifier::rlimit(60)]
pub(crate) fn compute<C: ?Sized, B: Lanes<C> + ?Sized>(buf: &mut B, comp: &mut C) -> (range: i16)
    requires
        old(buf).wf(old(comp)),
        is_pow2(old(buf).samples(old(comp)).len()),
        old(buf).samples(old(comp)).len() <= 0x1_0000_0000,
    ensures
        final(buf).wf(final(comp)),
        final(buf).samples(final(comp)).len() == old(buf).samples(old(comp)).len(),
        final(buf).samples(final(comp)) == run_stages(
            old(buf).samples(old(comp)),
            0,
            log2(old(buf).samples(old(comp)).len()),
            B::frac_bits(),
        ).0,
        range as int == run_stages(
            old(buf).samples(old(comp)),
            0,
            log2(old(buf).samples(old(comp)).len()),
            B::frac_bits(),
        ).1,
{
    let q = B::frac_bits_exec();
    let n = buf.count(comp) as u64;
    let ghost x0 = buf.samples(comp);
    let ghost big_l = log2(n as nat);
    let ghost target = run_stages(x0, 0, big_l, q as nat);
    proof {
        lemma2_to64();
        if big_l > 32 {
            lemma_pow2_strictly_increases(32, big_l);
        }
    }
    let mut l: u32 = 0;
    let mut step: u64 = 1;
    let mut stride: u64 = 0x1_0000_0000;
    let mut range: i16 = 0;
    while step < n
        invariant
            buf.wf(comp),
            q == B::frac_bits(),
            2 <= q <= 31,
            n == buf.samples(comp).len(),
            n == pow2(big_l),
            n <= 0x1_0000_0000,
            big_l <= 32,
            l <= big_l,
            step == pow2(l as nat),
            stride == pow2((32 - l) as nat),
            run_stages(buf.samples(comp), l as nat, big_l, q as nat).0 == target.0,
            range + run_stages(buf.samples(comp), l as nat, big_l, q as nat).1 == target.1,
            0 <= range <= 2 * l,
        decreases big_l - l,
    {
        let ghost cur = buf.samples(comp);
        proof {
            if l == big_l {
                assert(false);
            }
            lemma_whole_blocks_pow2(l as nat, big_l);
            buf.lemma_samples_in_range(comp);
            lemma_chosen_shift_fits(cur, l as nat, q as nat);
            vstd::arithmetic::power2::lemma_pow2_unfold((32 - l) as nat);
            vstd::arithmetic::power2::lemma_pow2_unfold((l + 1) as nat);
        }
        let sh = choose_shift(buf, comp, n, l, step, stride);
        proof {
            lemma_run_stages_unfold(cur, l as nat, big_l, q as nat);
        }
        run_stage(buf, comp, n, l, step, stride, sh);
        proof {
            lemma_stage_len(cur, l as nat, sh as nat, q as nat);
        }
        range = range + sh as i16;
        l = l + 1;
        step = step * 2;
        stride = stride / 2;
    }
    proof {
        if l < big_l {
            lemma_pow2_strictly_increases(l as nat, big_l);
        }
        lemma_run_stages_unfold(buf.samples(comp), l as nat, big_l, q as nat);
    }
    range
}

/// Stages `l` onwards shift out between none and two bits each.
#[verifier::rlimit(50)]
pub proof fn lemma_run_stages_range(x: Seq<(int, int)>, l: nat, n_stages: nat, q: nat)
    requires
        l <= n_stages,
    ensures
        0 <= run_stages(x, l, n_stages, q).1 <= 2 * (n_stages - l),
    decreases n_stages - l,
{
    lemma_run_stages_unfold(x, l, n_stages, q);
    if l < n_stages {
        reveal(stage_shift);
        let sh = stage_shift(x, l, q);
        let r = run_stages(stage(x, l, sh, q), l + 1, n_stages, q);
        lemma_run_stages_range(stage(x, l, sh, q), l + 1, n_stages, q);
        assert(sh <= 2);
        assert(run_stages(x, l, n_stages, q).1 == r.1 + sh);
    }
}

/// The exponent of a transform lies between 0 and two bits per stage.
pub proof fn lemma_exponent_bounds(x: Seq<(int, int)>, q: nat)
    ensures
        0 <= fft(x, q).1 <= 2 * log2(x.len()),
{
    lemma_run_stages_range(bit_reversed(x), 0, log2(x.len()), q);
}

} // verus!
