//! The fingerprint computation pipeline.
//!
//! Interleaved multi-channel PCM samples are downmixed to mono by a biased
//! floor average per channel group, decimated towards a normalized analysis
//! rate of 11025 samples per second by an integer factor, sliced into frames
//! of 16 samples whose start offsets advance by the algorithm variant's
//! stride, and a trailing partial frame is flushed zero-padded. Every pair of
//! consecutive frames contributes one code, a bit pattern of band-energy
//! comparisons between and within their feature vectors.

use vstd::prelude::*;
use vstd::arithmetic::div_mod::{
    lemma_fundamental_div_mod,
    lemma_div_is_ordered,
    lemma_div_multiples_vanish,
};
use vstd::arithmetic::mul::{lemma_mul_inequality, lemma_mul_is_distributive_add_other_way};

use crate::algorithm::Algorithm;
use crate::features::{spec_features, features};

verus! {

/// The decimation factor for a declared sample rate: every `d`-th mono
/// sample is kept, so that the analysis rate is as close to 11025 samples
/// per second as an integer factor allows, never below it.
pub open spec fn spec_decim(rate: int) -> int {
    if rate / 11025 < 1 {
        1
    } else {
        rate / 11025
    }
}

/// The sum over channel group `j` of the first `t` samples, each biased by
/// 32768 so every term is nonnegative.
pub open spec fn group_sum(fed: Seq<i16>, ch: int, j: int, t: int) -> int
    decreases t,
{
    if t <= 0 {
        0
    } else {
        group_sum(fed, ch, j, t - 1) + (fed[j * ch + (t - 1)] + 32768)
    }
}

/// Mono sample `j`: the floor average of channel group `j`, debiased.
pub open spec fn mono_sample(fed: Seq<i16>, ch: int, j: int) -> int {
    group_sum(fed, ch, j, ch) / ch - 32768
}

/// The number of complete channel groups in the samples fed.
pub open spec fn mono_len(fed: Seq<i16>, ch: int) -> int {
    fed.len() as int / ch
}

/// The number of mono samples kept after decimation by `d`.
pub open spec fn sampled_len(fed: Seq<i16>, ch: int, d: int) -> int {
    if mono_len(fed, ch) == 0 {
        0
    } else {
        (mono_len(fed, ch) - 1) / d + 1
    }
}

/// The decimated mono stream: every `d`-th mono sample of the samples fed.
pub open spec fn spec_sampled(fed: Seq<i16>, ch: int, d: int) -> Seq<i16> {
    Seq::new(sampled_len(fed, ch, d) as nat, |j: int| mono_sample(fed, ch, j * d) as i16)
}

/// The complete analysis frames of the stream `sq`: 16 samples each, start
/// offsets `s` apart.
pub open spec fn spec_frames(sq: Seq<i16>, s: int) -> Seq<Seq<i16>>
    decreases sq.len(),
    when 1 <= s <= 16
{
    if sq.len() < 16 {
        seq![]
    } else {
        seq![sq.take(16)] + spec_frames(sq.skip(s), s)
    }
}

/// What remains of the stream `sq` after all complete frames: the samples
/// from the first unemitted frame offset on.
pub open spec fn spec_residue(sq: Seq<i16>, s: int) -> Seq<i16>
    decreases sq.len(),
    when 1 <= s <= 16
{
    if sq.len() < 16 {
        sq
    } else {
        spec_residue(sq.skip(s), s)
    }
}

/// `sq` zero-padded on the right to a full 16-sample frame.
pub open spec fn pad_frame(sq: Seq<i16>) -> Seq<i16> {
    sq + Seq::new((16 - sq.len()) as nat, |i: int| 0i16)
}

/// All frames the stream `sq` yields once flushed: the complete frames, then
/// the zero-padded trailing remainder.
pub open spec fn spec_all_frames(sq: Seq<i16>, s: int) -> Seq<Seq<i16>> {
    spec_frames(sq, s).push(pad_frame(spec_residue(sq, s)))
}

/// The code derived from the feature vectors of two consecutive frames: one
/// bit per band comparing the band energy against the earlier frame, and one
/// bit per adjacent band pair comparing within the later frame.
pub open spec fn code_of(prev: Seq<int>, cur: Seq<int>) -> int {
    (if cur[0] > prev[0] {
        1int
    } else {
        0int
    }) + 2 * (if cur[1] > prev[1] {
        1int
    } else {
        0int
    }) + 4 * (if cur[2] > prev[2] {
        1int
    } else {
        0int
    }) + 8 * (if cur[3] > prev[3] {
        1int
    } else {
        0int
    }) + 16 * (if cur[0] > cur[1] {
        1int
    } else {
        0int
    }) + 32 * (if cur[1] > cur[2] {
        1int
    } else {
        0int
    }) + 64 * (if cur[2] > cur[3] {
        1int
    } else {
        0int
    })
}

/// The codes of a sequence of feature vectors: one per consecutive pair, in
/// order.
pub open spec fn pair_codes(feats: Seq<Seq<int>>) -> Seq<u32>
    decreases feats.len(),
{
    if feats.len() < 2 {
        seq![]
    } else {
        seq![code_of(feats[0], feats[1]) as u32] + pair_codes(feats.skip(1))
    }
}

/// The complete code sequence of a finished session: the pairwise codes of
/// the feature vectors of all frames of the downmixed, decimated stream.
pub open spec fn spec_code_seq(alg: Algorithm, rate: int, ch: int, fed: Seq<i16>) -> Seq<u32> {
    pair_codes(
        spec_all_frames(spec_sampled(fed, ch, spec_decim(rate)), alg.spec_stride()).map_values(
            |f: Seq<i16>| spec_features(f),
        ),
    )
}

/// The code of two consecutive frames, from their band-energy vectors.
fn code_between(prev: &Vec<u64>, cur: &Vec<u64>) -> (r: u32)
    requires
        prev@.len() == 4,
        cur@.len() == 4,
    ensures
        r as int == code_of(
            prev@.map_values(|x: u64| x as int),
            cur@.map_values(|x: u64| x as int),
        ),
{
    let mut r: u32 = 0;
    if cur[0] > prev[0] {
        r = r + 1;
    }
    if cur[1] > prev[1] {
        r = r + 2;
    }
    if cur[2] > prev[2] {
        r = r + 4;
    }
    if cur[3] > prev[3] {
        r = r + 8;
    }
    if cur[0] > cur[1] {
        r = r + 16;
    }
    if cur[1] > cur[2] {
        r = r + 32;
    }
    if cur[2] > cur[3] {
        r = r + 64;
    }
    r
}

/// Every term of a channel group sum lies between 0 and 65535.
proof fn lemma_group_sum_bounds(fed: Seq<i16>, ch: int, j: int, t: int)
    requires
        t >= 0,
    ensures
        0 <= group_sum(fed, ch, j, t) <= t * 65535,
    decreases t,
{
    if t > 0 {
        lemma_group_sum_bounds(fed, ch, j, t - 1);
    }
}

/// Mono samples lie in the 16-bit sample range.
proof fn lemma_mono_sample_bounds(fed: Seq<i16>, ch: int, j: int)
    requires
        ch >= 1,
    ensures
        -32768 <= mono_sample(fed, ch, j) <= 32767,
{
    lemma_group_sum_bounds(fed, ch, j, ch);
    let s = group_sum(fed, ch, j, ch);
    assert(s / ch >= 0) by {
        lemma_div_is_ordered(0, s, ch);
    }
    assert(s / ch <= 65535) by {
        lemma_div_is_ordered(s, ch * 65535, ch);
        lemma_div_multiples_vanish(65535, ch);
    }
}

/// Every kept mono index addresses a complete channel group within the
/// samples fed.
proof fn lemma_sampled_index(fed: Seq<i16>, ch: int, d: int, j: int)
    requires
        ch >= 1,
        d >= 1,
        0 <= j < sampled_len(fed, ch, d),
    ensures
        0 <= j * d < mono_len(fed, ch),
        (j * d) * ch + ch <= fed.len(),
{
    let l = mono_len(fed, ch);
    assert(j * d >= 0) by {
        lemma_mul_inequality(0, j, d);
    }
    assert(j <= (l - 1) / d);
    assert(j * d <= ((l - 1) / d) * d) by {
        lemma_mul_inequality(j, (l - 1) / d, d);
    }
    assert(((l - 1) / d) * d <= l - 1) by {
        lemma_fundamental_div_mod(l - 1, d);
    }
    assert((j * d) * ch + ch == (j * d + 1) * ch) by {
        lemma_mul_is_distributive_add_other_way(ch, j * d, 1);
    }
    assert((j * d + 1) * ch <= l * ch) by {
        lemma_mul_inequality(j * d + 1, l, ch);
    }
    assert(l * ch <= fed.len()) by {
        lemma_fundamental_div_mod(fed.len() as int, ch);
    }
}

/// The decimated mono stream of the samples fed, computed outright.
fn downmix_decimate(fed: &Vec<i16>, ch: usize, d: usize) -> (r: Vec<i16>)
    requires
        ch >= 1,
        d >= 1,
    ensures
        r@ == spec_sampled(fed@, ch as int, d as int),
{
    let flen: usize = fed.len();
    let mlen: usize = flen / ch;
    let slen: usize = if mlen == 0 {
        0
    } else {
        (mlen - 1) / d + 1
    };
    assert(slen as int == sampled_len(fed@, ch as int, d as int));
    let mut r: Vec<i16> = Vec::new();
    let mut j: usize = 0;
    while j < slen
        invariant
            j <= slen,
            ch >= 1,
            d >= 1,
            flen == fed@.len(),
            mlen as int == mono_len(fed@, ch as int),
            slen as int == sampled_len(fed@, ch as int, d as int),
            r@.len() == j,
            forall|jj: int|
                0 <= jj < j ==> r@[jj] == mono_sample(fed@, ch as int, jj * d) as i16,
        decreases slen - j,
    {
        proof {
            lemma_sampled_index(fed@, ch as int, d as int, j as int);
        }
        assert(j * d < mlen);
        let m: usize = j * d;
        assert(m * ch + ch <= flen);
        let base: usize = m * ch;
        let mut sum: u128 = 0;
        let mut t: usize = 0;
        while t < ch
            invariant
                t <= ch,
                flen == fed@.len(),
                base == (j * d) * ch,
                base + ch <= flen,
                sum as int == group_sum(fed@, ch as int, j as int * d, t as int),
                sum <= (t as u128) * 65535,
            decreases ch - t,
        {
            let x: u128 = (fed[base + t] as i32 + 32768) as u128;
            assert(fed@[base + t as int] == fed@[(j as int * d) * (ch as int) + t]);
            sum = sum + x;
            t = t + 1;
        }
        proof {
            lemma_mono_sample_bounds(fed@, ch as int, j as int * d);
        }
        let q: u128 = sum / (ch as u128);
        assert(q as int == group_sum(fed@, ch as int, j as int * d, ch as int) / (ch as int));
        let mono: i16 = (q as i32 - 32768) as i16;
        assert(mono == mono_sample(fed@, ch as int, j as int * d) as i16);
        r.push(mono);
        j = j + 1;
    }
    proof {
        assert(r@ =~= spec_sampled(fed@, ch as int, d as int));
    }
    r
}

/// One more feature vector extends a pairwise code sequence by the code of
/// the last two vectors.
proof fn lemma_pair_codes_snoc(feats: Seq<Seq<int>>, f: Seq<int>)
    ensures
        pair_codes(feats.push(f)) == pair_codes(feats) + (if feats.len() >= 1 {
            seq![code_of(feats.last(), f) as u32]
        } else {
            Seq::<u32>::empty()
        }),
    decreases feats.len(),
{
    let p = feats.push(f);
    if feats.len() == 0 {
        assert(p.len() == 1);
        assert(pair_codes(p) =~= pair_codes(feats) + Seq::<u32>::empty());
    } else if feats.len() == 1 {
        assert(p.len() == 2);
        assert(p.skip(1) =~= seq![f]);
        assert(pair_codes(p.skip(1)) =~= Seq::<u32>::empty());
        assert(pair_codes(feats) =~= Seq::<u32>::empty());
        assert(pair_codes(p) =~= pair_codes(feats) + seq![code_of(feats.last(), f) as u32]);
    } else {
        lemma_pair_codes_snoc(feats.skip(1), f);
        assert(p.skip(1) =~= feats.skip(1).push(f));
        assert(p[0] == feats[0] && p[1] == feats[1]);
        assert(feats.skip(1).last() == feats.last());
        assert(pair_codes(p) =~= pair_codes(feats) + seq![code_of(feats.last(), f) as u32]);
    }
}

/// The codes of the samples fed in one session, computed outright: the
/// stream is downmixed and decimated, framed at the variant's stride, the
/// trailing remainder is flushed zero-padded, and consecutive frames are
/// compared pairwise.
pub fn compute_codes(alg: Algorithm, rate: usize, ch: usize, fed: &Vec<i16>) -> (r: Vec<u32>)
    requires
        rate >= 1,
        ch >= 1,
    ensures
        r@ == spec_code_seq(alg, rate as int, ch as int, fed@),
{
    let d: usize = if rate / 11025 < 1 {
        1
    } else {
        rate / 11025
    };
    assert(d as int == spec_decim(rate as int));
    let sampled = downmix_decimate(fed, ch, d);
    let s: usize = alg.stride();
    let ghost sq = sampled@;
    let ghost si = s as int;
    let mut codes: Vec<u32> = Vec::new();
    let mut prev: Option<Vec<u64>> = None;
    let ghost mut gframes: Seq<Seq<i16>> = seq![];
    let mut off: usize = 0;
    proof {
        assert(sq.skip(0) =~= sq);
        assert(gframes + spec_frames(sq, si) =~= spec_frames(sq, si));
    }
    while sampled.len() - off >= 16
        invariant
            1 <= s <= 16,
            si == s as int,
            off <= sampled@.len(),
            sq == sampled@,
            spec_frames(sq, si) == gframes + spec_frames(sq.skip(off as int), si),
            spec_residue(sq, si) == spec_residue(sq.skip(off as int), si),
            match prev {
                Some(p) => gframes.len() >= 1 && p@.len() == 4 && p@.map_values(|x: u64| x as int)
                    == spec_features(gframes.last()),
                None => gframes.len() == 0,
            },
            codes@ == pair_codes(gframes.map_values(|f: Seq<i16>| spec_features(f))),
        decreases sampled@.len() - off,
    {
        let frame: &[i16] = &sampled.as_slice()[off..off + 16];
        proof {
            assert(frame@ =~= sq.skip(off as int).take(16));
        }
        let f = features(frame);
        proof {
            assert(f@.map_values(|x: u64| x as int) =~= spec_features(frame@));
        }
        match &prev {
            Some(p) => {
                let c = code_between(p, &f);
                proof {
                    lemma_pair_codes_snoc(
                        gframes.map_values(|fr: Seq<i16>| spec_features(fr)),
                        spec_features(frame@),
                    );
                    assert(gframes.map_values(|fr: Seq<i16>| spec_features(fr)).last()
                        == spec_features(gframes.last()));
                    assert(gframes.push(frame@).map_values(|fr: Seq<i16>| spec_features(fr)) =~=
                    gframes.map_values(|fr: Seq<i16>| spec_features(fr)).push(
                        spec_features(frame@),
                    ));
                }
                codes.push(c);
            },
            None => {
                proof {
                    lemma_pair_codes_snoc(
                        gframes.map_values(|fr: Seq<i16>| spec_features(fr)),
                        spec_features(frame@),
                    );
                    assert(gframes.push(frame@).map_values(|fr: Seq<i16>| spec_features(fr)) =~=
                    gframes.map_values(|fr: Seq<i16>| spec_features(fr)).push(
                        spec_features(frame@),
                    ));
                }
            },
        }
        prev = Some(f);
        proof {
            assert(sq.skip(off as int).skip(si) =~= sq.skip(off as int + si));
            assert(spec_frames(sq.skip(off as int), si) == seq![frame@] + spec_frames(
                sq.skip(off as int + si),
                si,
            ));
            assert(gframes + (seq![frame@] + spec_frames(sq.skip(off as int + si), si)) =~=
            gframes.push(frame@) + spec_frames(sq.skip(off as int + si), si));
            gframes = gframes.push(frame@);
        }
        off = off + s;
    }
    proof {
        assert(spec_frames(sq.skip(off as int), si) =~= Seq::<Seq<i16>>::empty());
        assert(gframes + Seq::<Seq<i16>>::empty() =~= gframes);
        assert(gframes == spec_frames(sq, si));
        assert(spec_residue(sq.skip(off as int), si) == sq.skip(off as int));
    }
    // Flush the trailing partial frame, zero-padded to full length.
    let mut tail: Vec<i16> = Vec::new();
    let mut t: usize = off;
    while t < sampled.len()
        invariant
            off <= t <= sampled@.len(),
            sq == sampled@,
            tail@ =~= sq.subrange(off as int, t as int),
        decreases sampled@.len() - t,
    {
        tail.push(sampled[t]);
        t = t + 1;
    }
    proof {
        assert(tail@ =~= sq.skip(off as int));
    }
    while tail.len() < 16
        invariant
            tail@.len() <= 16,
            tail@.len() >= sq.skip(off as int).len(),
            tail@ =~= sq.skip(off as int) + Seq::new(
                (tail@.len() - sq.skip(off as int).len()) as nat,
                |i: int| 0i16,
            ),
        decreases 16 - tail@.len(),
    {
        tail.push(0);
    }
    proof {
        assert(tail@.len() == 16);
        assert(tail@ =~= pad_frame(spec_residue(sq, si)));
    }
    let fpad = features(tail.as_slice());
    proof {
        assert(fpad@.map_values(|x: u64| x as int) =~= spec_features(tail@));
        lemma_pair_codes_snoc(
            gframes.map_values(|fr: Seq<i16>| spec_features(fr)),
            spec_features(tail@),
        );
        assert(spec_all_frames(sq, si).map_values(|fr: Seq<i16>| spec_features(fr)) =~= gframes
            .map_values(|fr: Seq<i16>| spec_features(fr)).push(spec_features(tail@)));
    }
    match &prev {
        Some(p) => {
            let c = code_between(p, &fpad);
            proof {
                assert(gframes.map_values(|fr: Seq<i16>| spec_features(fr)).last()
                    == spec_features(gframes.last()));
            }
            codes.push(c);
        },
        None => {},
    }
    codes
}

} // verus!
