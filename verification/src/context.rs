//! The fingerprinting session and its lifecycle state machine.
//!
//! A session computes one fingerprint per `start` → `feed`* → `finish` cycle
//! and may be restarted. Sample rate and channel count are fixed for the
//! lifetime of one cycle, codes are only ever appended in arrival order, a
//! fingerprint is available only once the session is finished, and a restart
//! clears the code sequence and discards any earlier fingerprint.

use vstd::prelude::*;

use crate::algorithm::Algorithm;
use crate::codec;
use crate::pipeline;

verus! {

/// The errors session operations report. Every fallible operation returns a
/// distinguishable error value; none fails silently.
#[derive(Clone, Copy, Debug, PartialEq, Eq, Structural)]
pub enum ContextError {
    /// Allocating a new session failed; the instance is unusable.
    InitializationError,
    /// `start` was called with invalid parameters.
    StartError,
    /// `feed` was called out of order or with a malformed chunk.
    FeedError,
    /// `finish` was called before a stream was started.
    FinishError,
    /// `get_fingerprint` was called before `finish` succeeded.
    FingerprintError,
    /// The encoded result could not be interpreted as text.
    StringError,
}

/// The lifecycle stage of a session.
#[derive(Clone, Copy, Debug, PartialEq, Eq, Structural)]
pub enum SessionState {
    /// No stream has been started yet.
    Uninitialized,
    /// A stream is open: samples may be fed and the stream finished.
    Started,
    /// The stream was flushed; the fingerprint is available.
    Finished,
}

/// A fingerprinting session: the stream parameters of the current cycle, the
/// samples fed since `start`, and, once finished, the derived codes.
pub struct Context {
    /// The algorithm variant the session was created with.
    pub algorithm: Algorithm,
    /// The lifecycle stage.
    pub state: SessionState,
    /// The declared sample rate of the open stream.
    pub sample_rate: usize,
    /// The declared channel count of the open stream.
    pub channels: usize,
    /// The raw interleaved samples fed since the last `start`.
    pub samples: Vec<i16>,
    /// The codes derived at `finish` from the samples fed.
    pub codes: Vec<u32>,
}

impl Context {
    /// Well-formedness: an open or finished stream has validated parameters,
    /// a fresh session holds no data, and a finished session's codes are
    /// exactly the codes of the samples fed since its last `start`.
    pub open spec fn wf(self) -> bool {
        &&& self.state != SessionState::Uninitialized ==> self.sample_rate >= 1 && self.channels
            >= 1
        &&& self.state == SessionState::Uninitialized ==> self.samples@.len() == 0
            && self.codes@.len() == 0
        &&& self.state == SessionState::Finished ==> self.codes@ == pipeline::spec_code_seq(
            self.algorithm,
            self.sample_rate as int,
            self.channels as int,
            self.samples@,
        )
    }

    /// Allocate and initialize a fingerprinting session for the given
    /// algorithm variant. Allocation cannot fail here, so the result is
    /// always a fresh well-formed session.
    pub fn new(algorithm: Algorithm) -> (r: Result<Context, ContextError>)
        ensures
            match r {
                Ok(c) => c.wf() && c.state == SessionState::Uninitialized && c.algorithm
                    == algorithm,
                Err(_) => false,
            },
    {
        Ok(
            Context {
                algorithm,
                state: SessionState::Uninitialized,
                sample_rate: 0,
                channels: 0,
                samples: Vec::new(),
                codes: Vec::new(),
            },
        )
    }

    /// Start (or restart) the computation of a fingerprint for a new audio
    /// stream. Succeeds exactly when both parameters are nonzero; on success
    /// the pending samples and codes of any earlier cycle are discarded.
    pub fn start(&mut self, sample_rate: usize, num_channels: usize) -> (r: Result<
        (),
        ContextError,
    >)
        requires
            old(self).wf(),
        ensures
            final(self).wf(),
            match r {
                Ok(()) => sample_rate >= 1 && num_channels >= 1 && final(self).state
                    == SessionState::Started && final(self).algorithm == old(self).algorithm
                    && final(self).sample_rate == sample_rate && final(self).channels
                    == num_channels && final(self).samples@.len() == 0 && final(self).codes@.len()
                    == 0,
                Err(e) => e == ContextError::StartError && !(sample_rate >= 1 && num_channels >= 1)
                    && *final(self) == *old(self),
            },
    {
        if sample_rate == 0 || num_channels == 0 {
            return Err(ContextError::StartError);
        }
        self.state = SessionState::Started;
        self.sample_rate = sample_rate;
        self.channels = num_channels;
        self.samples = Vec::new();
        self.codes = Vec::new();
        Ok(())
    }

    /// Send audio data to the fingerprint calculator: interleaved signed
    /// 16-bit samples, a whole number of channel groups per call. Succeeds
    /// exactly when a stream is open and the chunk length is a multiple of
    /// the channel count; the chunk is then appended to the samples of the
    /// cycle, so only the total sequence fed matters, never how it was
    /// split into calls.
    pub fn feed(&mut self, data: &[i16]) -> (r: Result<(), ContextError>)
        requires
            old(self).wf(),
        ensures
            final(self).wf(),
            match r {
                Ok(()) => old(self).state == SessionState::Started && data@.len() as int % (old(self).channels as int) == 0 && *final(self) == (Context {
                    samples: final(self).samples,
                    ..*old(self)
                }) && final(self).samples@ == old(self).samples@ + data@,
                Err(e) => e == ContextError::FeedError && !(old(self).state
                    == SessionState::Started && data@.len() as int % (old(self).channels as int) == 0)
                    && *final(self) == *old(self),
            },
    {
        match self.state {
            SessionState::Started => {
                if data.len() % self.channels == 0 {
                    self.samples.extend_from_slice(data);
                    Ok(())
                } else {
                    Err(ContextError::FeedError)
                }
            },
            _ => Err(ContextError::FeedError),
        }
    }

    /// Process any remaining buffered audio data: the trailing partial frame
    /// is flushed zero-padded and the code sequence of the whole stream is
    /// fixed. Succeeds exactly when a stream is open.
    pub fn finish(&mut self) -> (r: Result<(), ContextError>)
        requires
            old(self).wf(),
        ensures
            final(self).wf(),
            match r {
                Ok(()) => old(self).state == SessionState::Started && final(self).state
                    == SessionState::Finished && final(self).algorithm == old(self).algorithm
                    && final(self).sample_rate == old(self).sample_rate && final(self).channels
                    == old(self).channels && final(self).samples == old(self).samples
                    && final(self).codes@ == pipeline::spec_code_seq(
                    old(self).algorithm,
                    old(self).sample_rate as int,
                    old(self).channels as int,
                    old(self).samples@,
                ),
                Err(e) => e == ContextError::FinishError && old(self).state
                    != SessionState::Started && *final(self) == *old(self),
            },
    {
        match self.state {
            SessionState::Started => {
                let codes = pipeline::compute_codes(
                    self.algorithm,
                    self.sample_rate,
                    self.channels,
                    &self.samples,
                );
                self.codes = codes;
                self.state = SessionState::Finished;
                Ok(())
            },
            _ => Err(ContextError::FinishError),
        }
    }

    /// Return the calculated fingerprint as a compressed string: the
    /// variant's header character followed by the reversible encoding of the
    /// code sequence. Succeeds exactly when the session is finished; the
    /// session itself is left unchanged, so the fingerprint can be retrieved
    /// again.
    pub fn get_fingerprint(&mut self) -> (r: Result<String, ContextError>)
        requires
            old(self).wf(),
        ensures
            *final(self) == *old(self),
            final(self).wf(),
            match r {
                Ok(s) => old(self).state == SessionState::Finished && s@
                    == codec::spec_fingerprint(old(self).algorithm, old(self).codes@),
                Err(e) => e == ContextError::FingerprintError && old(self).state
                    != SessionState::Finished,
            },
    {
        match self.state {
            SessionState::Finished => Ok(codec::encode_fingerprint(self.algorithm, &self.codes)),
            _ => Err(ContextError::FingerprintError),
        }
    }

    /// The codes derived from the samples fed, in arrival order; empty
    /// until `finish` succeeds.
    pub fn codes(&self) -> (r: &Vec<u32>)
        ensures
            r@ == self.codes@,
    {
        &self.codes
    }
}

/// Starting a stream with any valid sample rate and channel count and
/// finishing it at once, with no samples fed, is well-defined and not an
/// error: the contracts of `start` and `finish` promise success on such a
/// cycle, the empty stream yields the empty code sequence, and the
/// fingerprint of the empty code sequence is still a nonempty string.
pub proof fn lemma_empty_stream_fingerprint(alg: Algorithm, rate: int, ch: int)
    requires
        rate >= 1,
        ch >= 1,
    ensures
        pipeline::spec_code_seq(alg, rate, ch, Seq::<i16>::empty()) == Seq::<u32>::empty(),
        codec::spec_fingerprint(alg, pipeline::spec_code_seq(alg, rate, ch, Seq::<i16>::empty())).len() == 1,
{
    let s = alg.spec_stride();
    assert(1 <= s <= 16);
    let fed = Seq::<i16>::empty();
    assert(fed.len() as int / ch == 0) by {
        vstd::arithmetic::div_mod::lemma_div_of0(ch);
    }
    assert(pipeline::mono_len(fed, ch) == 0);
    assert(pipeline::sampled_len(fed, ch, pipeline::spec_decim(rate)) == 0);
    let sq = pipeline::spec_sampled(fed, ch, pipeline::spec_decim(rate));
    assert(sq.len() == 0);
    assert(pipeline::spec_frames(sq, s) =~= Seq::<Seq<i16>>::empty());
    assert(pipeline::spec_all_frames(sq, s).len() == 1);
    assert(pipeline::spec_all_frames(sq, s).map_values(
        |f: Seq<i16>| crate::features::spec_features(f),
    ).len() == 1);
    assert(pipeline::spec_code_seq(alg, rate, ch, fed) =~= Seq::<u32>::empty());
    assert(codec::enc_codes(Seq::<u32>::empty()) =~= Seq::<char>::empty());
}

/// The fingerprint of a finished session is a function of the algorithm
/// variant, the stream parameters, and the total sample sequence fed since
/// its last `start` alone. With `feed`'s contract, which only ever appends
/// the chunk to the samples of the cycle, this gives feed-chunking
/// invariance: any split of one total sequence into chunks yields the same
/// fingerprint. With `start`'s contract, which always resets the samples to
/// empty, it also gives restart idempotence: repeating a whole
/// start-feed-finish cycle with the same samples yields the same fingerprint.
pub proof fn lemma_fingerprint_deterministic(a: Context, b: Context)
    requires
        a.wf(),
        b.wf(),
        a.state == SessionState::Finished,
        b.state == SessionState::Finished,
        a.algorithm == b.algorithm,
        a.sample_rate == b.sample_rate,
        a.channels == b.channels,
        a.samples@ == b.samples@,
    ensures
        a.codes@ == b.codes@,
        codec::spec_fingerprint(a.algorithm, a.codes@) == codec::spec_fingerprint(
            b.algorithm,
            b.codes@,
        ),
{
}

impl Default for Context {
    /// A fresh session with the default algorithm variant.
    fn default() -> (r: Context)
        ensures
            r.wf(),
            r.state == SessionState::Uninitialized,
            r.algorithm == Algorithm::Test2,
    {
        match Context::new(Algorithm::Test2) {
            Ok(c) => c,
            Err(_) => vstd::pervasive::unreached(),
        }
    }
}

} // verus!
