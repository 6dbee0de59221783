//! Reversible textual codec for fingerprint code sequences.
//!
//! A fingerprint string is one header character naming the algorithm variant,
//! followed by every code of the sequence in order. Each code is written
//! little-endian in base 32, one character per 5-bit digit: digits that have
//! more significant digits after them come from one 32-character alphabet
//! (`a`..`z`, `0`..`5`), the final digit of a code from a disjoint one
//! (`A`..`Z`, `6`..`9`, `-`, `_`). The two alphabets make the encoding
//! self-describing, so the exact code sequence can be decoded back out of
//! the string.

use vstd::prelude::*;
use vstd::string::*;

use crate::algorithm::Algorithm;

verus! {

/// The character standing for the digit `d` of a code that has further,
/// more significant digits after it.
pub open spec fn cont_char(d: int) -> char {
    if d < 26 {
        ((97 + d) as u8) as char
    } else {
        ((48 + (d - 26)) as u8) as char
    }
}

/// The character standing for the final, most significant digit `d` of a code.
pub open spec fn last_char(d: int) -> char {
    if d < 26 {
        ((65 + d) as u8) as char
    } else if d < 30 {
        ((54 + (d - 26)) as u8) as char
    } else if d == 30 {
        '-'
    } else {
        '_'
    }
}

/// Whether `c` encodes a non-final digit.
pub open spec fn is_cont_char(c: char) -> bool {
    (97 <= c as u32 && c as u32 <= 122) || (48 <= c as u32 && c as u32 <= 53)
}

/// Whether `c` encodes the final digit of a code.
pub open spec fn is_last_char(c: char) -> bool {
    (65 <= c as u32 && c as u32 <= 90) || (54 <= c as u32 && c as u32 <= 57) || c as u32 == 45
        || c as u32 == 95
}

/// The digit a non-final character stands for.
pub open spec fn cont_val(c: char) -> int {
    if 97 <= c as u32 && c as u32 <= 122 {
        c as u32 - 97
    } else {
        26 + (c as u32 - 48)
    }
}

/// The digit a final character stands for.
pub open spec fn last_val(c: char) -> int {
    if 65 <= c as u32 && c as u32 <= 90 {
        c as u32 - 65
    } else if 54 <= c as u32 && c as u32 <= 57 {
        26 + (c as u32 - 54)
    } else if c as u32 == 45 {
        30
    } else {
        31
    }
}

/// The header character naming the algorithm variant of a fingerprint.
pub open spec fn header_char(alg: Algorithm) -> char {
    match alg {
        Algorithm::Test1 => '1',
        Algorithm::Test2 => '2',
        Algorithm::Test3 => '3',
        Algorithm::Test4 => '4',
        Algorithm::Test5 => '5',
    }
}

/// The algorithm variant a header character names, if any.
pub open spec fn header_alg(c: char) -> Option<Algorithm> {
    if c == '1' {
        Some(Algorithm::Test1)
    } else if c == '2' {
        Some(Algorithm::Test2)
    } else if c == '3' {
        Some(Algorithm::Test3)
    } else if c == '4' {
        Some(Algorithm::Test4)
    } else if c == '5' {
        Some(Algorithm::Test5)
    } else {
        None
    }
}

/// The characters of one code, little-endian in base 32.
pub open spec fn enc_one(v: int) -> Seq<char>
    decreases v,
{
    if v < 32 {
        seq![last_char(v)]
    } else {
        seq![cont_char(v % 32)] + enc_one(v / 32)
    }
}

/// The characters of a whole code sequence, in order.
pub open spec fn enc_codes(codes: Seq<u32>) -> Seq<char>
    decreases codes.len(),
{
    if codes.len() == 0 {
        Seq::empty()
    } else {
        enc_one(codes[0] as int) + enc_codes(codes.skip(1))
    }
}

/// The full fingerprint string of a code sequence: header plus codes.
pub open spec fn spec_fingerprint(alg: Algorithm, codes: Seq<u32>) -> Seq<char> {
    seq![header_char(alg)] + enc_codes(codes)
}

/// `o` with `v` prepended to its contents, if it has any.
pub open spec fn opt_prepend(v: u32, o: Option<Seq<u32>>) -> Option<Seq<u32>> {
    match o {
        Some(r) => Some(seq![v] + r),
        None => None,
    }
}

/// Parses the digit characters of `s` into codes. `cur` and `mult` are the
/// value and place weight accumulated from the digits already read of the
/// code in progress; a string ending in the middle of a code, an unknown
/// character, an overlong digit run or a value beyond 32 bits all fail.
pub open spec fn dec_codes(s: Seq<char>, cur: int, mult: int) -> Option<Seq<u32>>
    decreases s.len(),
{
    if s.len() == 0 {
        if cur == 0 && mult == 1 {
            Some(Seq::empty())
        } else {
            None
        }
    } else {
        let c = s[0];
        if is_cont_char(c) {
            if mult > u32::MAX {
                None
            } else {
                dec_codes(s.skip(1), cur + mult * cont_val(c), mult * 32)
            }
        } else if is_last_char(c) {
            let v = cur + mult * last_val(c);
            if v <= u32::MAX {
                opt_prepend(v as u32, dec_codes(s.skip(1), 0, 1))
            } else {
                None
            }
        } else {
            None
        }
    }
}

/// The algorithm variant and code sequence a fingerprint string stands for,
/// if it is well-formed.
pub open spec fn spec_decode(s: Seq<char>) -> Option<(Algorithm, Seq<u32>)> {
    if s.len() == 0 {
        None
    } else {
        match header_alg(s[0]) {
            Some(alg) => match dec_codes(s.skip(1), 0, 1) {
                Some(codes) => Some((alg, codes)),
                None => None,
            },
            None => None,
        }
    }
}

/// Each digit character decodes back to its digit, and the two alphabets are
/// disjoint.
proof fn lemma_digit_chars(d: int)
    requires
        0 <= d < 32,
    ensures
        is_cont_char(cont_char(d)),
        !is_last_char(cont_char(d)),
        cont_val(cont_char(d)) == d,
        is_last_char(last_char(d)),
        !is_cont_char(last_char(d)),
        last_val(last_char(d)) == d,
{
}

/// Decoding the encoding of one code, followed by any trailing characters,
/// yields that code's value and goes on with the trailing characters.
proof fn lemma_dec_enc_one(v: int, t: Seq<char>, cur: int, mult: int)
    requires
        0 <= v,
        0 <= cur,
        1 <= mult,
    ensures
        dec_codes(enc_one(v) + t, cur, mult) == (if cur + mult * v <= u32::MAX {
            opt_prepend((cur + mult * v) as u32, dec_codes(t, 0, 1))
        } else {
            None::<Seq<u32>>
        }),
    decreases v,
{
    let s = enc_one(v) + t;
    if v < 32 {
        lemma_digit_chars(v);
        assert(s[0] == last_char(v));
        assert(s.skip(1) =~= t);
    } else {
        let d = v % 32;
        let q = v / 32;
        assert(0 <= d < 32);
        assert(v == 32 * q + d);
        assert(0 <= q < v);
        lemma_digit_chars(d);
        assert(s[0] == cont_char(d));
        assert(s.skip(1) =~= enc_one(q) + t);
        if mult > u32::MAX {
            // The value is too large whatever the remaining digits hold.
            assert(cur + mult * v > u32::MAX) by (nonlinear_arith)
                requires
                    mult > u32::MAX,
                    v >= 32,
                    cur >= 0,
            ;
        } else {
            lemma_dec_enc_one(q, t, cur + mult * d, mult * 32);
            assert((cur + mult * d) + (mult * 32) * q == cur + mult * v) by (nonlinear_arith)
                requires
                    v == 32 * q + d,
            ;
        }
    }
}

/// Decoding the encoding of a code sequence yields that sequence back.
proof fn lemma_dec_enc_codes(codes: Seq<u32>)
    ensures
        dec_codes(enc_codes(codes), 0, 1) == Some(codes),
    decreases codes.len(),
{
    if codes.len() == 0 {
        assert(enc_codes(codes) =~= Seq::<char>::empty());
    } else {
        lemma_dec_enc_codes(codes.skip(1));
        lemma_dec_enc_one(codes[0] as int, enc_codes(codes.skip(1)), 0, 1);
        assert(seq![codes[0]] + codes.skip(1) =~= codes);
    }
}

/// The codec is lossless: decoding a fingerprint string produced for any
/// algorithm variant and code sequence yields exactly that variant and that
/// sequence.
pub proof fn lemma_fingerprint_round_trip(alg: Algorithm, codes: Seq<u32>)
    ensures
        spec_decode(spec_fingerprint(alg, codes)) == Some((alg, codes)),
{
    let s = spec_fingerprint(alg, codes);
    assert(s[0] == header_char(alg));
    assert(header_alg(header_char(alg)) == Some(alg));
    assert(s.skip(1) =~= enc_codes(codes));
    lemma_dec_enc_codes(codes);
}

/// Whether `c` is a printable ASCII character other than space.
pub open spec fn printable_char(c: char) -> bool {
    33 <= c as u32 <= 126
}

/// Every digit character of both alphabets is printable, non-whitespace
/// ASCII.
proof fn lemma_digit_chars_printable(d: int)
    requires
        0 <= d < 32,
    ensures
        printable_char(cont_char(d)),
        printable_char(last_char(d)),
{
}

/// Every character of one encoded code is printable, non-whitespace ASCII.
proof fn lemma_enc_one_printable(v: int)
    requires
        0 <= v,
    ensures
        forall|i: int| 0 <= i < enc_one(v).len() ==> printable_char(#[trigger] enc_one(v)[i]),
    decreases v,
{
    if v < 32 {
        lemma_digit_chars_printable(v);
        assert(enc_one(v)[0] == last_char(v));
    } else {
        lemma_digit_chars_printable(v % 32);
        lemma_enc_one_printable(v / 32);
        assert forall|i: int| 0 <= i < enc_one(v).len() implies printable_char(
            #[trigger] enc_one(v)[i],
        ) by {
            if i == 0 {
                assert(enc_one(v)[0] == cont_char(v % 32));
            } else {
                assert(enc_one(v)[i] == enc_one(v / 32)[i - 1]);
            }
        }
    }
}

/// A fingerprint string is never empty and is printable ASCII throughout,
/// with no embedded whitespace, for every algorithm variant and every code
/// sequence.
pub proof fn lemma_fingerprint_printable(alg: Algorithm, codes: Seq<u32>)
    ensures
        spec_fingerprint(alg, codes).len() >= 1,
        forall|i: int|
            0 <= i < spec_fingerprint(alg, codes).len() ==> printable_char(
                #[trigger] spec_fingerprint(alg, codes)[i],
            ),
    decreases codes.len(),
{
    if codes.len() == 0 {
        assert(spec_fingerprint(alg, codes) =~= seq![header_char(alg)]);
    } else {
        lemma_fingerprint_printable(alg, codes.skip(1));
        lemma_enc_one_printable(codes[0] as int);
        assert(spec_fingerprint(alg, codes) =~= seq![header_char(alg)] + enc_one(codes[0] as int)
            + enc_codes(codes.skip(1)));
        assert(spec_fingerprint(alg, codes.skip(1)) =~= seq![header_char(alg)] + enc_codes(
            codes.skip(1),
        ));
        assert forall|i: int| 0 <= i < spec_fingerprint(alg, codes).len() implies printable_char(
            #[trigger] spec_fingerprint(alg, codes)[i],
        ) by {
            let s = spec_fingerprint(alg, codes);
            let e1 = enc_one(codes[0] as int);
            if i == 0 {
                assert(printable_char(header_char(alg)));
            } else if i <= e1.len() {
                assert(s[i] == e1[i - 1]);
            } else {
                assert(s[i] == spec_fingerprint(alg, codes.skip(1))[i - e1.len()]);
            }
        }
    }
}

/// Appends the non-final digit character for `d`.
fn append_cont(out: &mut String, d: u32)
    requires
        d < 32,
    ensures
        final(out)@ == old(out)@ + seq![cont_char(d as int)],
{
    let tab = "abcdefghijklmnopqrstuvwxyz012345";
    proof {
        reveal_strlit("abcdefghijklmnopqrstuvwxyz012345");
    }
    let c = tab.substring_ascii(d as usize, d as usize + 1);
    out.append(c);
    proof {
        assert(c@ =~= seq![cont_char(d as int)]);
    }
}

/// Appends the final digit character for `d`.
fn append_last(out: &mut String, d: u32)
    requires
        d < 32,
    ensures
        final(out)@ == old(out)@ + seq![last_char(d as int)],
{
    let tab = "ABCDEFGHIJKLMNOPQRSTUVWXYZ6789-_";
    proof {
        reveal_strlit("ABCDEFGHIJKLMNOPQRSTUVWXYZ6789-_");
    }
    let c = tab.substring_ascii(d as usize, d as usize + 1);
    out.append(c);
    proof {
        assert(c@ =~= seq![last_char(d as int)]);
    }
}

/// Appends the characters of one code, little-endian in base 32.
fn append_code(out: &mut String, v: u32)
    ensures
        final(out)@ == old(out)@ + enc_one(v as int),
{
    let ghost v0 = v;
    let mut v = v;
    while v >= 32
        invariant
            out@ + enc_one(v as int) == old(out)@ + enc_one(v0 as int),
        decreases v,
    {
        let ghost prev = out@;
        append_cont(out, v % 32);
        proof {
            assert(prev + (seq![cont_char(v as int % 32)] + enc_one(v as int / 32)) =~= out@
                + enc_one(v as int / 32));
        }
        v = v / 32;
    }
    append_last(out, v);
    proof {
        assert(out@ =~= old(out)@ + enc_one(v0 as int));
    }
}

/// The fingerprint string of `codes` under variant `alg`: a header character
/// then every code in order.
pub fn encode_fingerprint(alg: Algorithm, codes: &Vec<u32>) -> (r: String)
    ensures
        r@ == spec_fingerprint(alg, codes@),
{
    let mut out = String::new();
    let header = match alg {
        Algorithm::Test1 => "1",
        Algorithm::Test2 => "2",
        Algorithm::Test3 => "3",
        Algorithm::Test4 => "4",
        Algorithm::Test5 => "5",
    };
    proof {
        reveal_strlit("1");
        reveal_strlit("2");
        reveal_strlit("3");
        reveal_strlit("4");
        reveal_strlit("5");
    }
    out.append(header);
    assert(out@ =~= seq![header_char(alg)]);
    let mut i: usize = 0;
    while i < codes.len()
        invariant
            i <= codes.len(),
            out@ == seq![header_char(alg)] + enc_codes(codes@.take(i as int)),
        decreases codes.len() - i,
    {
        append_code(&mut out, codes[i]);
        proof {
            lemma_enc_codes_snoc(codes@.take(i as int), codes[i as int]);
            assert(codes@.take(i as int).push(codes[i as int]) =~= codes@.take(i as int + 1));
        }
        i = i + 1;
    }
    proof {
        assert(codes@.take(codes@.len() as int) =~= codes@);
    }
    out
}

/// `o` with the already-decoded codes `pre` put before its contents, if it
/// has any.
pub open spec fn opt_concat(pre: Seq<u32>, o: Option<Seq<u32>>) -> Option<Seq<u32>> {
    match o {
        Some(r) => Some(pre + r),
        None => None,
    }
}

/// The algorithm variant and code sequence of a fingerprint string, or
/// `None` when the string is not a well-formed fingerprint.
pub fn decode_fingerprint(s: &str) -> (r: Option<(Algorithm, Vec<u32>)>)
    ensures
        match r {
            Some((alg, codes)) => spec_decode(s@) == Some((alg, codes@)),
            None => spec_decode(s@) is None,
        },
{
    let n = s.unicode_len();
    if n == 0 {
        return None;
    }
    let h = s.get_char(0);
    let alg = if h == '1' {
        Algorithm::Test1
    } else if h == '2' {
        Algorithm::Test2
    } else if h == '3' {
        Algorithm::Test3
    } else if h == '4' {
        Algorithm::Test4
    } else if h == '5' {
        Algorithm::Test5
    } else {
        return None;
    };
    assert(header_alg(s@[0]) == Some(alg));
    let mut codes: Vec<u32> = Vec::new();
    let mut cur: u64 = 0;
    let mut mult: u64 = 1;
    let mut i: usize = 1;
    proof {
        if dec_codes(s@.skip(1), 0, 1) is Some {
            assert(Seq::<u32>::empty() + dec_codes(s@.skip(1), 0, 1).unwrap() =~= dec_codes(
                s@.skip(1),
                0,
                1,
            ).unwrap());
        }
    }
    while i < n
        invariant
            1 <= i <= n,
            n == s@.len(),
            s@.len() > 0,
            header_alg(s@[0]) == Some(alg),
            1 <= mult <= 0x20_0000_0000u64,
            cur < 32 * mult,
            opt_concat(codes@, dec_codes(s@.skip(i as int), cur as int, mult as int))
                == dec_codes(s@.skip(1), 0, 1),
        decreases n - i,
    {
        let c = s.get_char(i);
        let u: u32 = c as u32;
        proof {
            assert(s@.skip(i as int)[0] == s@[i as int]);
            assert(s@.skip(i as int).skip(1) =~= s@.skip(i as int + 1));
        }
        if (97 <= u && u <= 122) || (48 <= u && u <= 53) {
            if mult > 0xFFFF_FFFFu64 {
                return None;
            }
            let d: u64 = if u >= 97 {
                (u - 97) as u64
            } else {
                (26 + (u - 48)) as u64
            };
            assert(d as int == cont_val(c));
            assert(mult * d <= 0xFFFF_FFFFu64 * 31) by (nonlinear_arith)
                requires
                    mult <= 0xFFFF_FFFFu64,
                    d <= 31,
            ;
            assert(cur + mult * d < 32 * (mult * 32)) by (nonlinear_arith)
                requires
                    cur < 32 * mult,
                    d <= 31,
                    mult >= 1,
            ;
            cur = cur + mult * d;
            mult = mult * 32;
        } else if (65 <= u && u <= 90) || (54 <= u && u <= 57) || u == 45 || u == 95 {
            let d: u64 = if 65 <= u && u <= 90 {
                (u - 65) as u64
            } else if 54 <= u && u <= 57 {
                (26 + (u - 54)) as u64
            } else if u == 45 {
                30
            } else {
                31
            };
            assert(d as int == last_val(c));
            assert(mult * d <= 0x20_0000_0000u64 * 31) by (nonlinear_arith)
                requires
                    mult <= 0x20_0000_0000u64,
                    d <= 31,
            ;
            let v: u64 = cur + mult * d;
            if v > 0xFFFF_FFFFu64 {
                return None;
            }
            proof {
                let rest = dec_codes(s@.skip(i as int + 1), 0, 1);
                if rest is Some {
                    assert(codes@ + (seq![v as u32] + rest.unwrap()) =~= codes@.push(v as u32)
                        + rest.unwrap());
                }
            }
            codes.push(v as u32);
            cur = 0;
            mult = 1;
        } else {
            return None;
        }
        i = i + 1;
    }
    proof {
        assert(s@.skip(i as int) =~= Seq::<char>::empty());
    }
    if cur == 0 && mult == 1 {
        Some((alg, codes))
    } else {
        None
    }
}

/// Encoding one more code appends its characters after those of the codes
/// before it.
proof fn lemma_enc_codes_snoc(codes: Seq<u32>, v: u32)
    ensures
        enc_codes(codes.push(v)) == enc_codes(codes) + enc_one(v as int),
    decreases codes.len(),
{
    let p = codes.push(v);
    if codes.len() == 0 {
        assert(p.skip(1) =~= Seq::<u32>::empty());
        assert(p[0] == v);
        assert(enc_codes(p) == enc_one(v as int) + enc_codes(Seq::<u32>::empty()));
        assert(enc_one(v as int) + Seq::<char>::empty() =~= Seq::<char>::empty() + enc_one(
            v as int,
        ));
    } else {
        lemma_enc_codes_snoc(codes.skip(1), v);
        assert(p.skip(1) =~= codes.skip(1).push(v));
        assert(p[0] == codes[0]);
        assert(enc_codes(p) == enc_one(codes[0] as int) + (enc_codes(codes.skip(1)) + enc_one(
            v as int,
        )));
        assert(enc_one(codes[0] as int) + (enc_codes(codes.skip(1)) + enc_one(v as int)) =~= (
        enc_one(codes[0] as int) + enc_codes(codes.skip(1))) + enc_one(v as int));
    }
}

} // verus!
