use chromaprint_rs::algorithm::Algorithm;
use chromaprint_rs::context::{Context, ContextError};

#[test]
fn feed_before_start_fails() {
    let mut ctx = Context::default();
    let data: Vec<i16> = vec![0, 1, 2, 3];
    assert_eq!(ctx.feed(&data), Err(ContextError::FeedError));
}

#[test]
fn fingerprint_before_finish_fails() {
    let mut ctx = Context::default();
    assert_eq!(ctx.get_fingerprint(), Err(ContextError::FingerprintError));
    ctx.start(44100, 2).unwrap();
    assert_eq!(ctx.get_fingerprint(), Err(ContextError::FingerprintError));
}

#[test]
fn finish_before_start_fails() {
    let mut ctx = Context::default();
    assert_eq!(ctx.finish(), Err(ContextError::FinishError));
}

#[test]
fn start_rejects_zero_parameters() {
    let mut ctx = Context::default();
    assert_eq!(ctx.start(0, 2), Err(ContextError::StartError));
    assert_eq!(ctx.start(44100, 0), Err(ContextError::StartError));
    assert_eq!(ctx.start(0, 0), Err(ContextError::StartError));
    assert_eq!(ctx.start(44100, 2), Ok(()));
}

#[test]
fn start_finish_without_feed_yields_fingerprint() {
    for &(rate, ch) in &[(96000usize, 1usize), (44100, 2), (11025, 3), (1, 1), (8000, 6)] {
        let mut ctx = Context::default();
        ctx.start(rate, ch).unwrap();
        ctx.finish().unwrap();
        let fp = ctx.get_fingerprint().unwrap();
        assert!(!fp.is_empty());
        assert!(fp.chars().all(|c| c.is_ascii_graphic()));
    }
}

#[test]
fn feed_rejects_partial_channel_group() {
    let mut ctx = Context::default();
    ctx.start(44100, 2).unwrap();
    let odd: Vec<i16> = vec![5, 6, 7];
    assert_eq!(ctx.feed(&odd), Err(ContextError::FeedError));
    // The error is recoverable: the session stays usable.
    let even: Vec<i16> = vec![5, 6];
    assert_eq!(ctx.feed(&even), Ok(()));
    ctx.finish().unwrap();
    assert!(ctx.get_fingerprint().is_ok());
}

#[test]
fn feed_after_finish_fails() {
    let mut ctx = Context::default();
    ctx.start(44100, 1).unwrap();
    ctx.finish().unwrap();
    let data: Vec<i16> = vec![1, 2];
    assert_eq!(ctx.feed(&data), Err(ContextError::FeedError));
}

/// A small deterministic pseudo-random sample generator.
fn test_signal(len: usize) -> Vec<i16> {
    let mut state: u32 = 0x2545_f491;
    let mut out: Vec<i16> = Vec::with_capacity(len);
    for _ in 0..len {
        state = state.wrapping_mul(1664525).wrapping_add(1013904223);
        out.push((state >> 16) as i16);
    }
    out
}

#[test]
fn feed_chunking_invariance() {
    let data = test_signal(40000);

    let mut whole = Context::new(Algorithm::Test2).unwrap();
    whole.start(44100, 2).unwrap();
    whole.feed(&data).unwrap();
    whole.finish().unwrap();
    let fp_whole = whole.get_fingerprint().unwrap();

    let mut split = Context::new(Algorithm::Test2).unwrap();
    split.start(44100, 2).unwrap();
    let mut pos: usize = 0;
    let mut step: usize = 2;
    while pos < data.len() {
        let end = (pos + step).min(data.len());
        split.feed(&data[pos..end]).unwrap();
        pos = end;
        step = (step * 3 + 2) % 1024 / 2 * 2 + 2;
    }
    split.finish().unwrap();
    let fp_split = split.get_fingerprint().unwrap();

    assert_eq!(fp_whole, fp_split);
}

#[test]
fn restart_idempotence() {
    let data = test_signal(30000);
    let mut ctx = Context::default();

    ctx.start(48000, 2).unwrap();
    ctx.feed(&data).unwrap();
    ctx.finish().unwrap();
    let first = ctx.get_fingerprint().unwrap();

    ctx.start(48000, 2).unwrap();
    ctx.feed(&data).unwrap();
    ctx.finish().unwrap();
    let second = ctx.get_fingerprint().unwrap();

    assert_eq!(first, second);
}

#[test]
fn fingerprint_retrieval_is_repeatable() {
    let data = test_signal(5000);
    let mut ctx = Context::default();
    ctx.start(22050, 1).unwrap();
    ctx.feed(&data).unwrap();
    ctx.finish().unwrap();
    let a = ctx.get_fingerprint().unwrap();
    let b = ctx.get_fingerprint().unwrap();
    assert_eq!(a, b);
}

#[test]
fn new_session_carries_its_variant() {
    let mut ctx = Context::new(Algorithm::Test4).unwrap();
    ctx.start(44100, 1).unwrap();
    ctx.finish().unwrap();
    let fp = ctx.get_fingerprint().unwrap();
    assert!(fp.starts_with('4'));
}
