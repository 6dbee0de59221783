use chromaprint_rs::algorithm::Algorithm;
use chromaprint_rs::codec::{decode_fingerprint, encode_fingerprint};
use chromaprint_rs::context::Context;

#[test]
fn encode_known_values() {
    assert_eq!(encode_fingerprint(Algorithm::Test1, &vec![]), "1");
    assert_eq!(encode_fingerprint(Algorithm::Test2, &vec![0]), "2A");
    assert_eq!(encode_fingerprint(Algorithm::Test2, &vec![25]), "2Z");
    assert_eq!(encode_fingerprint(Algorithm::Test2, &vec![26]), "26");
    assert_eq!(encode_fingerprint(Algorithm::Test2, &vec![30]), "2-");
    assert_eq!(encode_fingerprint(Algorithm::Test2, &vec![31]), "2_");
    assert_eq!(encode_fingerprint(Algorithm::Test2, &vec![32]), "2aB");
    assert_eq!(encode_fingerprint(Algorithm::Test2, &vec![1000]), "2i_");
    assert_eq!(encode_fingerprint(Algorithm::Test3, &vec![0, 0, 0]), "3AAA");
    assert_eq!(encode_fingerprint(Algorithm::Test5, &vec![u32::MAX]), "5555555D");
}

#[test]
fn decode_known_values() {
    assert_eq!(decode_fingerprint("1"), Some((Algorithm::Test1, vec![])));
    assert_eq!(decode_fingerprint("2A"), Some((Algorithm::Test2, vec![0])));
    assert_eq!(decode_fingerprint("2aB"), Some((Algorithm::Test2, vec![32])));
    assert_eq!(decode_fingerprint("2i_"), Some((Algorithm::Test2, vec![1000])));
    assert_eq!(decode_fingerprint("5555555D"), Some((Algorithm::Test5, vec![u32::MAX])));
}

#[test]
fn decode_rejects_malformed_strings() {
    // Empty: no header.
    assert_eq!(decode_fingerprint(""), None);
    // Unknown header character.
    assert_eq!(decode_fingerprint("9AA"), None);
    // Ends in the middle of a code.
    assert_eq!(decode_fingerprint("2a"), None);
    // A character outside both digit alphabets.
    assert_eq!(decode_fingerprint("2A A"), None);
    assert_eq!(decode_fingerprint("2A!"), None);
    // A value beyond 32 bits.
    assert_eq!(decode_fingerprint("2555555E"), None);
    // An overlong digit run.
    assert_eq!(decode_fingerprint("2aaaaaaaaaaaaaaaaaaaaB"), None);
}

#[test]
fn round_trip_through_codec() {
    for codes in [
        vec![],
        vec![0u32],
        vec![1, 2, 3, 31, 32, 33, 127],
        vec![u32::MAX, 0, u32::MAX - 1, 65536, 1024],
    ] {
        for alg in [
            Algorithm::Test1,
            Algorithm::Test2,
            Algorithm::Test3,
            Algorithm::Test4,
            Algorithm::Test5,
        ] {
            let fp = encode_fingerprint(alg, &codes);
            assert_eq!(decode_fingerprint(&fp), Some((alg, codes.clone())));
        }
    }
}

#[test]
fn decoded_fingerprint_matches_internal_codes() {
    let mut data: Vec<i16> = Vec::new();
    let mut x: i32 = -9000;
    for _ in 0..12000 {
        data.push(x as i16);
        x = (x * 31 + 7) % 32768;
    }
    let mut ctx = Context::new(Algorithm::Test2).unwrap();
    ctx.start(11025, 1).unwrap();
    ctx.feed(&data).unwrap();
    ctx.finish().unwrap();
    let fp = ctx.get_fingerprint().unwrap();
    let (alg, codes) = decode_fingerprint(&fp).unwrap();
    assert_eq!(alg, Algorithm::Test2);
    assert_eq!(&codes, ctx.codes());
}
