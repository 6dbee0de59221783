use chromaprint_rs::algorithm::Algorithm;
use chromaprint_rs::context::Context;

fn silence_fingerprint(rate: usize, channels: usize) -> String {
    let mut ctx = Context::default();
    ctx.start(rate, channels).unwrap();
    let zeros: Vec<i16> = vec![0; rate * channels];
    ctx.feed(&zeros).unwrap();
    ctx.finish().unwrap();
    ctx.get_fingerprint().unwrap()
}

#[test]
fn one_second_of_mono_silence() {
    let fp = silence_fingerprint(96000, 1);
    assert!(!fp.is_empty());
    assert!(fp.chars().all(|c| c.is_ascii_graphic()));
    // Repeating the whole scenario yields the identical string.
    let again = silence_fingerprint(96000, 1);
    assert_eq!(fp, again);
}

/// One second of a swept sine tone at 96 kHz, stereo interleaved.
fn sweep_signal() -> Vec<i16> {
    let rate = 96000usize;
    let mut out: Vec<i16> = Vec::with_capacity(rate * 2);
    let mut phase: f64 = 0.0;
    for n in 0..rate {
        let t = n as f64 / rate as f64;
        // Frequency rises from 20 Hz to 2020 Hz over the second.
        let freq = 20.0 + 2000.0 * t;
        phase += 2.0 * std::f64::consts::PI * freq / rate as f64;
        let sample = (phase.sin() * 12000.0) as i16;
        out.push(sample);
        out.push(sample);
    }
    out
}

#[test]
fn swept_tone_differs_from_silence() {
    let sweep = sweep_signal();
    let mut ctx = Context::default();
    ctx.start(96000, 2).unwrap();
    // Fed block by block, as a decoder would hand the samples over.
    for block in sweep.chunks(8192) {
        ctx.feed(block).unwrap();
    }
    ctx.finish().unwrap();
    let fp_sweep = ctx.get_fingerprint().unwrap();

    let fp_silence = silence_fingerprint(96000, 2);
    assert!(!fp_sweep.is_empty());
    assert_ne!(fp_sweep, fp_silence);
}

#[test]
fn default_algorithm_is_test2() {
    let alg: Algorithm = Algorithm::default();
    assert_eq!(alg, Algorithm::Test2);
    let mut ctx = Context::default();
    ctx.start(44100, 1).unwrap();
    ctx.finish().unwrap();
    assert!(ctx.get_fingerprint().unwrap().starts_with('2'));
}

#[test]
fn algorithm_ids_round_trip() {
    let variants = [
        Algorithm::Test1,
        Algorithm::Test2,
        Algorithm::Test3,
        Algorithm::Test4,
        Algorithm::Test5,
    ];
    for (i, &alg) in variants.iter().enumerate() {
        assert_eq!(alg.id(), i as i32);
        assert_eq!(Algorithm::from(i as i32), alg);
    }
    // Out-of-range identifiers fall back to the default variant.
    assert_eq!(Algorithm::from(-1), Algorithm::Test2);
    assert_eq!(Algorithm::from(99), Algorithm::Test2);
}

#[test]
fn stride_drives_frame_and_code_count() {
    // 24 mono samples at the normalized rate give one complete 16-sample
    // frame per stride-16, two per stride-8, nine per stride-1, plus the
    // zero-padded trailing frame; silence makes every code zero.
    let zeros: Vec<i16> = vec![0; 24];
    let cases = [
        (Algorithm::Test1, "1A"),
        (Algorithm::Test2, "2AA"),
        (Algorithm::Test5, "5AAAAAAAAA"),
    ];
    for &(alg, expected) in &cases {
        let mut ctx = Context::new(alg).unwrap();
        ctx.start(11025, 1).unwrap();
        ctx.feed(&zeros).unwrap();
        ctx.finish().unwrap();
        assert_eq!(ctx.get_fingerprint().unwrap(), expected);
    }
}

#[test]
fn variants_fingerprint_the_same_stream_differently() {
    let mut signal: Vec<i16> = Vec::new();
    let mut x: i32 = 1;
    for _ in 0..20000 {
        x = (x * 75) % 65537;
        signal.push((x - 32768) as i16);
    }
    let mut fps: Vec<String> = Vec::new();
    for alg in [Algorithm::Test1, Algorithm::Test2, Algorithm::Test3] {
        let mut ctx = Context::new(alg).unwrap();
        ctx.start(11025, 1).unwrap();
        ctx.feed(&signal).unwrap();
        ctx.finish().unwrap();
        fps.push(ctx.get_fingerprint().unwrap());
    }
    assert_ne!(fps[0], fps[1]);
    assert_ne!(fps[1], fps[2]);
}
