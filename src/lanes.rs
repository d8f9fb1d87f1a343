//! Storage layouts of complex fixed-point samples, seen uniformly by the kernel.
//!
//! A layout is a primary buffer plus a companion: interleaved `(re, im)` pairs have
//! the unit value as companion, split storage keeps the real parts in the primary
//! buffer and the imaginary parts in the companion.
use vstd::prelude::*;
use vstd::arithmetic::power2::pow2;

verus! {

/// `v` is a complex sample whose parts fit a signed integer of `q + 1` bits.
pub open spec fn in_range(v: (int, int), q: nat) -> bool {
    -pow2(q) <= v.0 < pow2(q) && -pow2(q) <= v.1 < pow2(q)
}

/// Complex fixed-point samples stored as a primary buffer and a companion `C`.
pub trait Lanes<C: ?Sized> {
    /// Fraction bits of the scalar: a stored integer `v` stands for `v / 2^frac_bits`.
    spec fn frac_bits() -> nat;

    /// The buffer and its companion describe one sequence of samples.
    spec fn wf(&self, c: &C) -> bool;

    /// The samples as integer pairs.
    spec fn samples(&self, c: &C) -> Seq<(int, int)>;

    fn frac_bits_exec() -> (r: u32)
        ensures
            r as nat == Self::frac_bits(),
            2 <= r <= 31;

    proof fn lemma_samples_in_range(&self, c: &C)
        requires
            self.wf(c),
        ensures
            forall|i: int| 0 <= i < self.samples(c).len() ==> #[trigger] in_range(self.samples(c)[i], Self::frac_bits());

    fn count(&self, c: &C) -> (r: usize)
        requires
            self.wf(c),
        ensures
            r == self.samples(c).len();

    fn read(&self, c: &C, i: usize) -> (r: (i64, i64))
        requires
            self.wf(c),
            i < self.samples(c).len(),
        ensures
            (r.0 as int, r.1 as int) == self.samples(c)[i as int];

    fn write(&mut self, c: &mut C, i: usize, v: (i64, i64))
        requires
            old(self).wf(old(c)),
            i < old(self).samples(old(c)).len(),
            in_range((v.0 as int, v.1 as int), Self::frac_bits()),
        ensures
            final(self).wf(final(c)),
            final(self).samples(final(c)) == old(self).samples(old(c)).update(i as int, (v.0 as int, v.1 as int));
}

impl Lanes<()> for [(i16, i16)] {
    open spec fn frac_bits() -> nat {
        15
    }

    open spec fn wf(&self, c: &()) -> bool {
        true
    }

    open spec fn samples(&self, c: &()) -> Seq<(int, int)> {
        Seq::new(self@.len(), |i: int| (self@[i].0 as int, self@[i].1 as int))
    }

    fn frac_bits_exec() -> (r: u32) {
        15
    }

    proof fn lemma_samples_in_range(&self, c: &()) {
        vstd::arithmetic::power2::lemma2_to64();
    }

    fn count(&self, c: &()) -> (r: usize) {
        self.len()
    }

    fn read(&self, c: &(), i: usize) -> (r: (i64, i64)) {
        (self[i].0 as i64, self[i].1 as i64)
    }

    fn write(&mut self, c: &mut (), i: usize, v: (i64, i64)) {
        proof {
            vstd::arithmetic::power2::lemma2_to64();
        }
        self[i] = (v.0 as i16, v.1 as i16);
        assert(self.samples(c) =~= old(self).samples(old(c)).update(i as int, (v.0 as int, v.1 as int)));
    }
}

impl Lanes<[i16]> for [i16] {
    open spec fn frac_bits() -> nat {
        15
    }

    open spec fn wf(&self, c: &[i16]) -> bool {
        self@.len() == c@.len()
    }

    open spec fn samples(&self, c: &[i16]) -> Seq<(int, int)> {
        Seq::new(self@.len(), |i: int| (self@[i] as int, c@[i] as int))
    }

    fn frac_bits_exec() -> (r: u32) {
        15
    }

    proof fn lemma_samples_in_range(&self, c: &[i16]) {
        vstd::arithmetic::power2::lemma2_to64();
    }

    fn count(&self, c: &[i16]) -> (r: usize) {
        self.len()
    }

    fn read(&self, c: &[i16], i: usize) -> (r: (i64, i64)) {
        (self[i] as i64, c[i] as i64)
    }

    fn write(&mut self, c: &mut [i16], i: usize, v: (i64, i64)) {
        proof {
            vstd::arithmetic::power2::lemma2_to64();
        }
        self[i] = v.0 as i16;
        c[i] = v.1 as i16;
        assert(self.samples(c) =~= old(self).samples(old(c)).update(i as int, (v.0 as int, v.1 as int)));
    }
}

impl Lanes<()> for [(i32, i32)] {
    open spec fn frac_bits() -> nat {
        31
    }

    open spec fn wf(&self, c: &()) -> bool {
        true
    }

    open spec fn samples(&self, c: &()) -> Seq<(int, int)> {
        Seq::new(self@.len(), |i: int| (self@[i].0 as int, self@[i].1 as int))
    }

    fn frac_bits_exec() -> (r: u32) {
        31
    }

    proof fn lemma_samples_in_range(&self, c: &()) {
        vstd::arithmetic::power2::lemma2_to64();
    }

    fn count(&self, c: &()) -> (r: usize) {
        self.len()
    }

    fn read(&self, c: &(), i: usize) -> (r: (i64, i64)) {
        (self[i].0 as i64, self[i].1 as i64)
    }

    fn write(&mut self, c: &mut (), i: usize, v: (i64, i64)) {
        proof {
            vstd::arithmetic::power2::lemma2_to64();
        }
        self[i] = (v.0 as i32, v.1 as i32);
        assert(self.samples(c) =~= old(self).samples(old(c)).update(i as int, (v.0 as int, v.1 as int)));
    }
}

impl Lanes<[i32]> for [i32] {
    open spec fn frac_bits() -> nat {
        31
    }

    open spec fn wf(&self, c: &[i32]) -> bool {
        self@.len() == c@.len()
    }

    open spec fn samples(&self, c: &[i32]) -> Seq<(int, int)> {
        Seq::new(self@.len(), |i: int| (self@[i] as int, c@[i] as int))
    }

    fn frac_bits_exec() -> (r: u32) {
        31
    }

    proof fn lemma_samples_in_range(&self, c: &[i32]) {
        vstd::arithmetic::power2::lemma2_to64();
    }

    fn count(&self, c: &[i32]) -> (r: usize) {
        self.len()
    }

    fn read(&self, c: &[i32], i: usize) -> (r: (i64, i64)) {
        (self[i] as i64, c[i] as i64)
    }

    fn write(&mut self, c: &mut [i32], i: usize, v: (i64, i64)) {
        proof {
            vstd::arithmetic::power2::lemma2_to64();
        }
        self[i] = v.0 as i32;
        c[i] = v.1 as i32;
        assert(self.samples(c) =~= old(self).samples(old(c)).update(i as int, (v.0 as int, v.1 as int)));
    }
}

} // verus!
