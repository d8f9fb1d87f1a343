//! Forward FFT of complex samples in Q31 fixed point (`i32`, `1.0` is `i32::MAX`).
use vstd::prelude::*;
use crate::kernel::{compute, fft};
use crate::lanes::Lanes;
use crate::reorder::{
    bit_reverse_reorder, bit_reverse_reorder_dyn, bit_reversed, is_pow2, lemma_reverse_bits_permutes, log2,
};

verus! {

/// The exponent returned with a transform: output `v` stands for the value
/// `v * 2^range / i32::MAX`.
pub type RangeInfo = i16;

/// Interleaved samples as integer pairs.
pub open spec fn pairs(s: Seq<(i32, i32)>) -> Seq<(int, int)> {
    Seq::new(s.len(), |i: int| (s[i].0 as int, s[i].1 as int))
}

/// Split samples as integer pairs.
pub open spec fn split(re: Seq<i32>, im: Seq<i32>) -> Seq<(int, int)> {
    Seq::new(re.len(), |i: int| (re[i] as int, im[i] as int))
}

/// The lengths a transform accepts: powers of two up to `2^32`.
pub open spec fn valid_len(n: nat) -> bool {
    is_pow2(n) && n <= 0x1_0000_0000
}

proof fn lemma_pairs_reversed(s: Seq<(i32, i32)>)
    requires
        is_pow2(s.len()),
    ensures
        pairs(bit_reversed(s)) == bit_reversed(pairs(s)),
{
    lemma_reverse_bits_permutes(log2(s.len()));
    assert(pairs(bit_reversed(s)) =~= bit_reversed(pairs(s)));
}

proof fn lemma_split_reversed(re: Seq<i32>, im: Seq<i32>)
    requires
        re.len() == im.len(),
        is_pow2(re.len()),
    ensures
        split(bit_reversed(re), bit_reversed(im)) == bit_reversed(split(re, im)),
{
    lemma_reverse_bits_permutes(log2(re.len()));
    assert(split(bit_reversed(re), bit_reversed(im)) =~= bit_reversed(split(re, im)));
}

/// Transforms interleaved samples in place, their number known only at run time.
pub fn fft_pairs_dyn(data: &mut [(i32, i32)]) -> (range: RangeInfo)
    requires
        valid_len(old(data)@.len()),
    ensures
        final(data)@.len() == old(data)@.len(),
        pairs(final(data)@) == fft(pairs(old(data)@), 31).0,
        range as int == fft(pairs(old(data)@), 31).1,
{
    let ghost x = old(data)@;
    bit_reverse_reorder_dyn(data);
    proof {
        lemma_pairs_reversed(x);
        assert(data.samples(&()) =~= pairs(data@));
    }
    let mut unit = ();
    let range = compute(data, &mut unit);
    proof {
        assert(data.samples(&unit) =~= pairs(data@));
    }
    range
}

/// Transforms `N` interleaved samples in place.
pub fn fft_pairs<const N: usize>(data: &mut [(i32, i32); N]) -> (range: RangeInfo)
    requires
        valid_len(N as nat),
    ensures
        pairs(final(data)@) == fft(pairs(old(data)@), 31).0,
        range as int == fft(pairs(old(data)@), 31).1,
{
    fft_pairs_dyn(data)
}

/// Transforms `N` samples held as separate real and imaginary parts, in place.
pub fn fft_arrays<const N: usize>(data_re: &mut [i32; N], data_im: &mut [i32; N]) -> (range: RangeInfo)
    requires
        valid_len(N as nat),
    ensures
        split(final(data_re)@, final(data_im)@) == fft(split(old(data_re)@, old(data_im)@), 31).0,
        range as int == fft(split(old(data_re)@, old(data_im)@), 31).1,
{
    let ghost re0 = old(data_re)@;
    let ghost im0 = old(data_im)@;
    bit_reverse_reorder(data_re);
    bit_reverse_reorder(data_im);
    proof {
        lemma_split_reversed(re0, im0);
    }
    let re: &mut [i32] = data_re;
    let im: &mut [i32] = data_im;
    proof {
        assert(re.samples(im) =~= split(re@, im@));
    }
    let range = compute(re, im);
    proof {
        assert(re.samples(im) =~= split(re@, im@));
    }
    range
}

/// Split and interleaved storage of the same samples transform alike.
pub proof fn lemma_layouts_agree(re: Seq<i32>, im: Seq<i32>, data: Seq<(i32, i32)>)
    requires
        re.len() == data.len(),
        im.len() == data.len(),
        forall|i: int| 0 <= i < data.len() ==> #[trigger] data[i] == (re[i], im[i]),
    ensures
        fft(split(re, im), 31) == fft(pairs(data), 31),
{
    assert(split(re, im) =~= pairs(data));
}

} // verus!
