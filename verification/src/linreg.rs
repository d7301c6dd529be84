//! The sums over sample positions that a least-squares line through a window
//! needs. A window of `n` samples has the positions `0 .. n`; the sums depend
//! on `n` alone, so they are taken once.
//!
//! The line is `y = intercept + slope * x` with
//! `intercept = (sum_y * sum_xsq - sum_x * sum_xy) / denominator` and
//! `slope = (n * sum_xy - sum_x * sum_y) / denominator`, where
//! `denominator = n * sum_xsq - sum_x * sum_x`. The sums over the samples and
//! the two quotients are the caller's; what is here is everything that is
//! known before the first sample arrives, and that the denominator is not 0.

use vstd::prelude::*;

verus! {

/// The greatest window length whose sums are taken without overflow.
pub const MAX_SAMPLES: usize = 65535;

/// The sum of the positions `0 .. n`.
pub open spec fn sum_of_positions(n: nat) -> int
    decreases n,
{
    if n == 0 {
        0
    } else {
        sum_of_positions((n - 1) as nat) + (n - 1)
    }
}

/// The sum of the squares of the positions `0 .. n`.
pub open spec fn sum_of_squares(n: nat) -> int
    decreases n,
{
    if n == 0 {
        0
    } else {
        sum_of_squares((n - 1) as nat) + (n - 1) * (n - 1)
    }
}

/// The denominator of both quotients of the fit.
pub open spec fn fit_denominator(n: nat) -> int {
    n * sum_of_squares(n) - sum_of_positions(n) * sum_of_positions(n)
}

/// The two sums in closed form.
pub proof fn lemma_closed_forms(n: nat)
    ensures
        2 * sum_of_positions(n) == n * (n - 1),
        6 * sum_of_squares(n) == (n - 1) * n * (2 * n - 1),
    decreases n,
{
    let k = n as int;
    if n == 0 {
        assert(k * (k - 1) == 0 && (k - 1) * k * (2 * k - 1) == 0) by (nonlinear_arith)
            requires
                k == 0,
        ;
    } else {
        let m = k - 1;
        lemma_closed_forms((n - 1) as nat);
        assert(m * (m - 1) + 2 * m == k * (k - 1)) by (nonlinear_arith)
            requires
                m == k - 1,
        ;
        assert((m - 1) * m * (2 * m - 1) + 6 * (m * m) == (k - 1) * k * (2 * k - 1))
            by (nonlinear_arith)
            requires
                m == k - 1,
        ;
    }
}

/// A window of two samples or more has positions that differ, so the
/// denominator of the fit is positive: twelve times it is
/// `n * n * (n - 1) * (n + 1)`.
pub proof fn lemma_denominator_positive(n: nat)
    requires
        n >= 2,
    ensures
        12 * fit_denominator(n) == n * n * (n - 1) * (n + 1),
        fit_denominator(n) > 0,
{
    lemma_closed_forms(n);
    let p = sum_of_positions(n);
    let q = sum_of_squares(n);
    let k = n as int;
    assert(12 * (k * q - p * p) == k * k * (k - 1) * (k + 1)) by (nonlinear_arith)
        requires
            2 * p == k * (k - 1),
            6 * q == (k - 1) * k * (2 * k - 1),
    ;
    assert(k * k * (k - 1) * (k + 1) > 0) by (nonlinear_arith)
        requires
            k >= 2,
    ;
}

/// Neither sum is negative, and for every window length up to
/// [`MAX_SAMPLES`] the sums and the two products of the denominator stay
/// below what sixty-four bits hold.
proof fn lemma_sums_bounded(n: nat)
    requires
        n <= MAX_SAMPLES,
    ensures
        0 <= sum_of_positions(n) <= 0x7ffe_8001,
        0 <= sum_of_squares(n) <= 0x5553_d557_7fff,
        n * sum_of_squares(n) <= 0x5553_8003_aaa7_8001,
        sum_of_positions(n) * sum_of_positions(n) <= 0x3ffe_8003_3ffd_0001,
{
    lemma_closed_forms(n);
    let p = sum_of_positions(n);
    let q = sum_of_squares(n);
    let k = n as int;
    assert(0 <= k * (k - 1) <= 65535 * 65534) by (nonlinear_arith)
        requires
            0 <= k <= 65535,
    ;
    assert(0 <= (k - 1) * k * (2 * k - 1) <= 65534 * 65535 * 131069) by (nonlinear_arith)
        requires
            0 <= k <= 65535,
    ;
    assert(k * q <= 65535 * 0x5553_d557_7fff) by (nonlinear_arith)
        requires
            0 <= q <= 0x5553_d557_7fff,
            0 <= k <= 65535,
    ;
    assert(p * p <= 0x7ffe_8001 * 0x7ffe_8001) by (nonlinear_arith)
        requires
            0 <= p <= 0x7ffe_8001,
    ;
}

/// The sums over the positions of a window.
#[derive(Clone, Copy, Debug, PartialEq, Eq, Structural)]
pub struct IndexSums {
    /// The window length.
    pub n: u64,
    /// The sum of the positions.
    pub sumx: u64,
    /// The sum of the squares of the positions.
    pub sum_xsq: u64,
    /// The square of the sum of the positions.
    pub sumx_sq: u64,
}

impl IndexSums {
    /// The sums are those of a window of `n` samples, and `n` is in range.
    pub open spec fn wf(&self) -> bool {
        &&& 2 <= self.n <= MAX_SAMPLES
        &&& self.sumx == sum_of_positions(self.n as nat)
        &&& self.sum_xsq == sum_of_squares(self.n as nat)
        &&& self.sumx_sq == self.sumx * self.sumx
    }

    /// Takes the sums for a window of `num_samples` samples.
    pub fn new(num_samples: usize) -> (s: Self)
        requires
            2 <= num_samples <= MAX_SAMPLES,
        ensures
            s.wf(),
            s.n == num_samples,
    {
        let n: u64 = num_samples as u64;
        proof {
            lemma_closed_forms(num_samples as nat);
            lemma_sums_bounded(num_samples as nat);
            assert((n - 1) * n <= 0xfffd_0002) by (nonlinear_arith)
                requires
                    2 <= n <= 65535,
            ;
        }
        let sumx: u64 = ((n - 1) * n) / 2;
        let mut sum_xsq: u64 = 0;
        let mut x: u64 = 0;
        while x < n
            invariant
                x <= n,
                n <= 65535,
                sum_xsq == sum_of_squares(x as nat),
            decreases n - x,
        {
            proof {
                lemma_sums_bounded((x + 1) as nat);
                assert(x * x <= 0xfffe_0001) by (nonlinear_arith)
                    requires
                        x <= 65535,
                ;
            }
            sum_xsq = sum_xsq + x * x;
            x += 1;
        }
        IndexSums { n, sumx, sum_xsq, sumx_sq: sumx * sumx }
    }

    /// The denominator of both quotients of the fit. It is never 0.
    pub fn denominator(&self) -> (d: u64)
        requires
            self.wf(),
        ensures
            d == fit_denominator(self.n as nat),
            d > 0,
    {
        proof {
            lemma_sums_bounded(self.n as nat);
            lemma_denominator_positive(self.n as nat);
        }
        self.n * self.sum_xsq - self.sumx_sq
    }
}

} // verus!
