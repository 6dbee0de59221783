//! Spectral feature extraction.
//!
//! Each analysis frame of 16 mono samples is windowed by an integer
//! triangular window and transformed by a Walsh transform, a frequency-domain
//! transform whose basis functions are the sign patterns
//! `(-1)^(popcount(i AND k))`. The 16 transform coefficients are grouped into
//! four logarithmically spaced sequency bands, and a frame's feature vector
//! is the four band energies, the sums of the squared coefficients of each
//! band. All arithmetic is exact integer arithmetic, so feature vectors are
//! bit-identical across platforms.

use vstd::prelude::*;

verus! {

/// The length of one analysis frame, in samples.
pub const FRAME_LEN: usize = 16;

/// The number of band energies in one feature vector.
pub const NUM_BANDS: usize = 4;

/// The triangular window weight of sample position `i` of a frame.
pub open spec fn spec_window(i: int) -> int {
    if i < 8 {
        i + 1
    } else {
        16 - i
    }
}

/// The Walsh basis sign at sample position `i` for coefficient `k`: minus
/// one where `i` and `k` share an odd number of set bits, else one.
pub open spec fn spec_sign(i: int, k: int) -> int {
    if ((i % 2) * (k % 2) + (i / 2 % 2) * (k / 2 % 2) + (i / 4 % 2) * (k / 4 % 2) + (i / 8 % 2) * (
    k / 8 % 2)) % 2 == 1 {
        -1
    } else {
        1
    }
}

/// The sum of the first `n` windowed, sign-weighted samples of `frame` for
/// coefficient `k`.
pub open spec fn coef_sum(frame: Seq<i16>, k: int, n: int) -> int
    decreases n,
{
    if n <= 0 {
        0
    } else {
        coef_sum(frame, k, n - 1) + spec_window(n - 1) * frame[n - 1] * spec_sign(n - 1, k)
    }
}

/// Walsh coefficient `k` of a frame of 16 samples.
pub open spec fn spec_coef(frame: Seq<i16>, k: int) -> int {
    coef_sum(frame, k, 16)
}

/// The sum of the squared coefficients `lo` up to (excluding) `hi`.
pub open spec fn energy_sum(frame: Seq<i16>, lo: int, hi: int) -> int
    decreases hi - lo,
{
    if lo >= hi {
        0
    } else {
        spec_coef(frame, lo) * spec_coef(frame, lo) + energy_sum(frame, lo + 1, hi)
    }
}

/// The first coefficient of band `b`; bands cover the sequency ranges
/// `[1, 2)`, `[2, 4)`, `[4, 8)` and `[8, 16)`.
pub open spec fn band_lo(b: int) -> int {
    if b == 0 {
        1
    } else if b == 1 {
        2
    } else if b == 2 {
        4
    } else {
        8
    }
}

/// The first coefficient after band `b`.
pub open spec fn band_hi(b: int) -> int {
    if b == 0 {
        2
    } else if b == 1 {
        4
    } else if b == 2 {
        8
    } else {
        16
    }
}

/// The feature vector of a frame: its four band energies.
pub open spec fn spec_features(frame: Seq<i16>) -> Seq<int> {
    Seq::new(4, |b: int| energy_sum(frame, band_lo(b), band_hi(b)))
}

/// The triangular window weight of sample position `i`.
fn window(i: usize) -> (r: i64)
    requires
        i < 16,
    ensures
        r == spec_window(i as int),
        1 <= r <= 8,
{
    if i < 8 {
        (i + 1) as i64
    } else {
        (16 - i) as i64
    }
}

/// The Walsh basis sign at position `i` for coefficient `k`.
fn sign(i: usize, k: usize) -> (r: i64)
    requires
        i < 16,
        k < 16,
    ensures
        r == spec_sign(i as int, k as int),
{
    proof {
        assert((i % 2) * (k % 2) <= 1 && (i / 2 % 2) * (k / 2 % 2) <= 1 && (i / 4 % 2) * (k / 4
            % 2) <= 1 && (i / 8 % 2) * (k / 8 % 2) <= 1) by (nonlinear_arith)
            requires
                i % 2 <= 1,
                k % 2 <= 1,
                i / 2 % 2 <= 1,
                k / 2 % 2 <= 1,
                i / 4 % 2 <= 1,
                k / 4 % 2 <= 1,
                i / 8 % 2 <= 1,
                k / 8 % 2 <= 1,
        ;
    }
    let p: usize = (i % 2) * (k % 2) + (i / 2 % 2) * (k / 2 % 2) + (i / 4 % 2) * (k / 4 % 2) + (i
        / 8 % 2) * (k / 8 % 2);
    if p % 2 == 1 {
        -1
    } else {
        1
    }
}

/// Walsh coefficient `k` of `frame`.
fn coef(frame: &[i16], k: usize) -> (r: i64)
    requires
        frame@.len() == 16,
        k < 16,
    ensures
        r == spec_coef(frame@, k as int),
        -4194304 <= r <= 4194304,
{
    let mut acc: i64 = 0;
    let mut i: usize = 0;
    while i < 16
        invariant
            i <= 16,
            frame@.len() == 16,
            k < 16,
            acc == coef_sum(frame@, k as int, i as int),
            -262144 * (i as i64) <= acc <= 262144 * (i as i64),
        decreases 16 - i,
    {
        let w = window(i);
        let sg = sign(i, k);
        let s = frame[i] as i64;
        assert(-262144 <= w * s <= 262144) by (nonlinear_arith)
            requires
                1 <= w <= 8,
                -32768 <= s <= 32767,
        ;
        let term = if sg == 1 {
            w * s
        } else {
            -(w * s)
        };
        assert(term == spec_window(i as int) * frame@[i as int] * spec_sign(i as int, k as int))
            by (nonlinear_arith)
            requires
                w == spec_window(i as int),
                s == frame@[i as int],
                sg == spec_sign(i as int, k as int),
                term == (if sg == 1 {
                    w * s
                } else {
                    -(w * s)
                }),
                sg == 1 || sg == -1,
        ;
        acc = acc + term;
        i = i + 1;
    }
    acc
}

/// Adding one more coefficient extends a band energy sum on the right.
proof fn lemma_energy_snoc(frame: Seq<i16>, lo: int, k: int)
    requires
        lo <= k,
    ensures
        energy_sum(frame, lo, k + 1) == energy_sum(frame, lo, k) + spec_coef(frame, k)
            * spec_coef(frame, k),
    decreases k - lo,
{
    if lo < k {
        lemma_energy_snoc(frame, lo + 1, k);
        assert(energy_sum(frame, lo, k + 1) == spec_coef(frame, lo) * spec_coef(frame, lo)
            + energy_sum(frame, lo + 1, k + 1));
        assert(energy_sum(frame, lo, k) == spec_coef(frame, lo) * spec_coef(frame, lo)
            + energy_sum(frame, lo + 1, k));
    } else {
        assert(energy_sum(frame, lo, k + 1) == spec_coef(frame, k) * spec_coef(frame, k)
            + energy_sum(frame, lo + 1, k + 1));
        assert(energy_sum(frame, lo + 1, k + 1) == 0);
        assert(energy_sum(frame, lo, k) == 0);
    }
}

/// The energy of the coefficients `lo` up to (excluding) `hi` of `frame`.
fn band_energy(frame: &[i16], lo: usize, hi: usize) -> (r: u64)
    requires
        frame@.len() == 16,
        lo <= hi <= 16,
    ensures
        r as int == energy_sum(frame@, lo as int, hi as int),
        r <= 0x1_0000_0000_0000u64,
{
    let mut acc: u64 = 0;
    let mut k: usize = lo;
    while k < hi
        invariant
            lo <= k <= hi <= 16,
            frame@.len() == 16,
            acc as int == energy_sum(frame@, lo as int, k as int),
            acc <= 17592186044416u64 * ((k - lo) as u64),
        decreases hi - k,
    {
        let c = coef(frame, k);
        assert(0 <= c * c <= 17592186044416i64) by (nonlinear_arith)
            requires
                -4194304 <= c <= 4194304,
        ;
        proof {
            lemma_energy_snoc(frame@, lo as int, k as int);
        }
        acc = acc + ((c * c) as u64);
        k = k + 1;
    }
    acc
}

/// The feature vector of a 16-sample frame: its four band energies, in band
/// order.
pub fn features(frame: &[i16]) -> (r: Vec<u64>)
    requires
        frame@.len() == 16,
    ensures
        r@.len() == 4,
        forall|b: int| 0 <= b < 4 ==> r@[b] as int == spec_features(frame@)[b],
{
    let mut r: Vec<u64> = Vec::new();
    r.push(band_energy(frame, 1, 2));
    r.push(band_energy(frame, 2, 4));
    r.push(band_energy(frame, 4, 8));
    r.push(band_energy(frame, 8, 16));
    r
}

} // verus!
