//! Level statistics of a call: peak, power, and power of its voiced frames.

use vstd::prelude::*;

verus! {

/// Peak and power so far.  Sums saturate.
#[derive(Debug, Clone, Copy)]
pub struct LevelAccumulator {
    peak_abs: i32,
    sum_sq: u64,
    sample_count: u64,
    voiced_sum_sq: u64,
    voiced_sample_count: u64,
}

/// The sum of squares of samples.
pub open spec fn energy(s: Seq<i16>) -> int
    decreases s.len(),
{
    if s.len() == 0 {
        0
    } else {
        energy(s.drop_last()) + s.last() * s.last()
    }
}

/// The largest magnitude among samples.
pub open spec fn peak(s: Seq<i16>) -> int
    decreases s.len(),
{
    if s.len() == 0 {
        0
    } else {
        let before = peak(s.drop_last());
        let last = if s.last() < 0 {
            -s.last()
        } else {
            s.last() as int
        };
        if last > before {
            last
        } else {
            before
        }
    }
}

/// `x`, or the largest 64-bit number.
pub open spec fn capped(x: int) -> int {
    if x > u64::MAX {
        u64::MAX as int
    } else {
        x
    }
}

/// `n` samples of the given energy have an RMS above -40 dB of full scale:
/// their mean square exceeds the square of a hundredth of 32768.
pub open spec fn is_voiced(frame_energy: int, n: int) -> bool {
    frame_energy * 10_000 > n * 0x4000_0000
}

impl LevelAccumulator {
    pub closed spec fn peak_abs_view(self) -> int {
        self.peak_abs as int
    }

    pub closed spec fn sum_sq_view(self) -> int {
        self.sum_sq as int
    }

    pub closed spec fn sample_count_view(self) -> int {
        self.sample_count as int
    }

    pub closed spec fn voiced_sum_sq_view(self) -> int {
        self.voiced_sum_sq as int
    }

    pub closed spec fn voiced_sample_count_view(self) -> int {
        self.voiced_sample_count as int
    }

    /// Adds a frame.
    pub fn add_frame(&mut self, frame: &[i16])
        ensures
            final(self).peak_abs_view() == if peak(frame@) > old(self).peak_abs_view() {
                peak(frame@)
            } else {
                old(self).peak_abs_view()
            },
            final(self).sum_sq_view() == capped(
                old(self).sum_sq_view() + capped(energy(frame@)),
            ),
            final(self).sample_count_view() == capped(
                old(self).sample_count_view() + frame@.len(),
            ),
            is_voiced(capped(energy(frame@)), frame@.len() as int) ==> {
                &&& final(self).voiced_sum_sq_view() == capped(
                    old(self).voiced_sum_sq_view() + capped(energy(frame@)),
                )
                &&& final(self).voiced_sample_count_view() == capped(
                    old(self).voiced_sample_count_view() + frame@.len(),
                )
            },
            !is_voiced(capped(energy(frame@)), frame@.len() as int) ==> {
                &&& final(self).voiced_sum_sq_view() == old(self).voiced_sum_sq_view()
                &&& final(self).voiced_sample_count_view() == old(self).voiced_sample_count_view()
            },
    {
        let mut frame_sum_sq: u64 = 0;
        let mut frame_peak: i32 = 0;
        let mut i: usize = 0;
        assert(frame@.take(0) =~= Seq::<i16>::empty());
        while i < frame.len()
            invariant
                i <= frame@.len(),
                frame_sum_sq == capped(energy(frame@.take(i as int))),
                0 <= energy(frame@.take(i as int)),
                frame_peak == peak(frame@.take(i as int)),
                0 <= frame_peak <= 0x8000,
            decreases frame@.len() - i,
        {
            let s: i64 = frame[i] as i64;
            proof {
                let t = frame@.take(i + 1);
                assert(t.drop_last() =~= frame@.take(i as int));
                assert(t.last() == frame@[i as int]);
            }
            assert(0 <= s * s <= 0x4000_0000) by (nonlinear_arith)
                requires
                    -0x8000 <= s <= 0x7FFF,
            ;
            let abs: i32 = if s < 0 {
                -(s as i32)
            } else {
                s as i32
            };
            if abs > frame_peak {
                frame_peak = abs;
            }
            frame_sum_sq = frame_sum_sq.saturating_add((s * s) as u64);
            i += 1;
        }
        assert(frame@.take(i as int) =~= frame@);
        if frame_peak > self.peak_abs {
            self.peak_abs = frame_peak;
        }
        let n: u64 = frame.len() as u64;
        self.sum_sq = self.sum_sq.saturating_add(frame_sum_sq);
        self.sample_count = self.sample_count.saturating_add(n);
        let voiced = frame_sum_sq as u128 * 10_000 > n as u128 * 0x4000_0000;
        if voiced {
            self.voiced_sum_sq = self.voiced_sum_sq.saturating_add(frame_sum_sq);
            self.voiced_sample_count = self.voiced_sample_count.saturating_add(n);
        }
    }

    /// Largest magnitude.
    pub fn peak_abs(&self) -> (r: i32)
        ensures
            r == self.peak_abs_view(),
    {
        self.peak_abs
    }

    /// Sum of squares and number of samples.
    pub fn power(&self) -> (r: (u64, u64))
        ensures
            r.0 == self.sum_sq_view(),
            r.1 == self.sample_count_view(),
    {
        (self.sum_sq, self.sample_count)
    }

    /// Sum of squares and number of samples of the voiced frames.
    pub fn voiced_power(&self) -> (r: (u64, u64))
        ensures
            r.0 == self.voiced_sum_sq_view(),
            r.1 == self.voiced_sample_count_view(),
    {
        (self.voiced_sum_sq, self.voiced_sample_count)
    }
}

impl Default for LevelAccumulator {
    fn default() -> (r: Self)
        ensures
            r.peak_abs_view() == 0,
            r.sum_sq_view() == 0,
            r.sample_count_view() == 0,
            r.voiced_sum_sq_view() == 0,
            r.voiced_sample_count_view() == 0,
    {
        LevelAccumulator {
            peak_abs: 0,
            sum_sq: 0,
            sample_count: 0,
            voiced_sum_sq: 0,
            voiced_sample_count: 0,
        }
    }
}

/// Law: the energy of samples grows by the square of each sample.
pub proof fn law_energy(s: Seq<i16>, x: i16)
    ensures
        energy(Seq::empty()) == 0,
        energy(s.push(x)) == energy(s) + x * x,
{
    assert(s.push(x).drop_last() =~= s);
}

/// Law: the peak of samples is a magnitude among them, and none is larger.
pub proof fn law_peak(s: Seq<i16>)
    ensures
        s.len() == 0 ==> peak(s) == 0,
        forall|i: int| 0 <= i < s.len() ==> -peak(s) <= #[trigger] s[i] <= peak(s),
        s.len() > 0 ==> exists|i: int|
            0 <= i < s.len() && (#[trigger] s[i] == peak(s) || s[i] == -peak(s)),
    decreases s.len(),
{
    if s.len() > 0 {
        let t = s.drop_last();
        law_peak(t);
        assert forall|i: int| 0 <= i < s.len() implies -peak(s) <= #[trigger] s[i] <= peak(s) by {
            if i < t.len() {
                assert(t[i] == s[i]);
            }
        }
        if peak(s) == peak(t) && t.len() > 0 {
            let i = choose|i: int|
                0 <= i < t.len() && (#[trigger] t[i] == peak(t) || t[i] == -peak(t));
            assert(s[i] == t[i]);
        } else {
            assert(s[s.len() - 1] == s.last());
        }
    }
}

/// Law: sums stop at the largest 64-bit number.  A frame is voiced if its power
/// exceeds a ten-thousandth of that of full scale, and silence is not.
pub proof fn law_voiced(x: int, n: int)
    ensures
        capped(x) == x || capped(x) == 0xFFFF_FFFF_FFFF_FFFF,
        capped(x) == x <==> x <= 0xFFFF_FFFF_FFFF_FFFF,
        is_voiced(x, n) <==> 100 * 100 * x > 32768 * 32768 * n,
{
    assert(100 * 100 * x == x * 10_000 && 32768 * 32768 * n == n * 0x4000_0000) by (nonlinear_arith);
}

} // verus!
