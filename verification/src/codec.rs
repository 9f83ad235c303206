//! The percent codec: decoding of `application/x-www-form-urlencoded`
//! key/value pairs.  Decoding itself is done by the `percent_encoding` crate
//! behind a trusted wrapper whose contract states the decode exactly.

use vstd::prelude::*;
use vstd::utf8::valid_utf8;
use crate::bytes::{spec_find, spec_split, split_all, split_first, views};
use crate::params::ByteMap;

verus! {

/// An ASCII hex digit, either case.
pub open spec fn is_hex_digit(b: u8) -> bool {
    (48 <= b && b <= 57) || (97 <= b && b <= 102) || (65 <= b && b <= 70)
}

/// The value of an ASCII hex digit.
pub open spec fn hex_val(b: u8) -> u8 {
    if 48 <= b && b <= 57 {
        (b - 48) as u8
    } else if 97 <= b && b <= 102 {
        (b - 87) as u8
    } else {
        (b - 55) as u8
    }
}

/// Percent-decoding: a `%` followed by two hex digits becomes the byte they
/// spell; any other byte, including a `%` not followed by two hex digits, is
/// copied unchanged.
pub open spec fn spec_percent_decode(s: Seq<u8>) -> Seq<u8>
    decreases s.len(),
{
    if s.len() == 0 {
        Seq::empty()
    } else if s[0] == 37 && s.len() >= 3 && is_hex_digit(s[1]) && is_hex_digit(s[2]) {
        seq![(hex_val(s[1]) * 16 + hex_val(s[2])) as u8] + spec_percent_decode(s.skip(3))
    } else {
        seq![s[0]] + spec_percent_decode(s.skip(1))
    }
}

/// Relies on `percent_encoding::percent_decode`: its iterator turns each `%`
/// followed by two hex digits (either case) into the byte they spell and
/// passes every other byte through unchanged, which is exactly
/// `spec_percent_decode`.
#[verifier::external_body]
fn percent_decode_bytes(s: &Vec<u8>) -> (r: Vec<u8>)
    ensures
        r@ == spec_percent_decode(s@),
{
    percent_encoding::percent_decode(s.as_slice()).collect()
}

/// What `String::from_utf8_lossy` yields on these bytes, as bytes: each
/// invalid UTF-8 sequence replaced by the replacement character.  The result
/// depends on the bytes alone.
pub uninterp spec fn utf8_lossy_of(s: Seq<u8>) -> Seq<u8>;

/// Relies on `String::from_utf8_lossy`: invalid UTF-8 sequences become the
/// replacement character, already-valid UTF-8 comes back unchanged
/// (`Cow::Borrowed`), the conversion never fails, and the result depends on
/// the bytes alone.
#[verifier::external_body]
fn utf8_lossy_bytes(s: &Vec<u8>) -> (r: Vec<u8>)
    ensures
        r@ == utf8_lossy_of(s@),
        valid_utf8(s@) ==> r@ == s@,
{
    String::from_utf8_lossy(s.as_slice()).into_owned().into_bytes()
}

/// Decode one percent-encoded value: `%XX` escapes become bytes, and the
/// bytes are then read as UTF-8 text lossily, so decoding never fails.  The
/// second clause is the codec's round-trip law: a value percent-encoded from
/// valid UTF-8 text -- the codec's supported range -- decodes back to
/// exactly that text.
pub fn percent_decode_lossy(s: &Vec<u8>) -> (r: Vec<u8>)
    ensures
        r@ == utf8_lossy_of(spec_percent_decode(s@)),
        valid_utf8(spec_percent_decode(s@)) ==> r@ == spec_percent_decode(s@),
        forall|t: Seq<u8>|
            s@ == spec_percent_encode(t) && valid_utf8(t) ==> r@ == t,
{
    let decoded = percent_decode_bytes(s);
    let r = utf8_lossy_bytes(&decoded);
    proof {
        assert forall|t: Seq<u8>| s@ == spec_percent_encode(t) && valid_utf8(t) implies r@
            == t by {
            lemma_percent_round_trip(t);
        }
    }
    r
}

/// The entry contributed by one `key=value` pair: the key is everything
/// before the first `=`, the value is everything after it, percent-decoded
/// and read as UTF-8 text lossily.  A pair without `=` contributes nothing.
pub open spec fn spec_pair_entry(pair: Seq<u8>) -> Option<(Seq<u8>, Seq<u8>)> {
    match spec_find(pair, 61) {
        None => None,
        Some(i) => Some(
            (pair.take(i), utf8_lossy_of(spec_percent_decode(pair.skip(i + 1)))),
        ),
    }
}

/// The mapping after inserting the entries of `pairs[from..]` into `m`, in
/// order.
pub open spec fn spec_walk_pairs(m: Map<Seq<u8>, Seq<u8>>, pairs: Seq<Seq<u8>>, from: int) -> Map<
    Seq<u8>,
    Seq<u8>,
>
    decreases pairs.len() - from,
{
    if from < 0 || from >= pairs.len() {
        m
    } else {
        let m2 = match spec_pair_entry(pairs[from]) {
            None => m,
            Some(p) => m.insert(p.0, p.1),
        };
        spec_walk_pairs(m2, pairs, from + 1)
    }
}

/// The mapping after walking a whole `k1=v1&k2=v2&...` string.
pub open spec fn spec_walk_params(m: Map<Seq<u8>, Seq<u8>>, data: Seq<u8>) -> Map<Seq<u8>, Seq<u8>> {
    spec_walk_pairs(m, spec_split(data, 38), 0)
}

/// Split `data` on `&`; for each piece holding a `=`, insert the key (not
/// decoded) mapped to the percent-decoded, lossily UTF-8-read value;
/// silently drop pieces with no `=`.
pub fn walk_params(data: &Vec<u8>, map: &mut ByteMap)
    requires
        old(map).wf(),
    ensures
        final(map).wf(),
        final(map)@ == spec_walk_params(old(map)@, data@),
{
    let pairs = split_all(data, 38);
    let ghost pv = views(pairs@);
    let ghost goal = spec_walk_params(old(map)@, data@);
    let mut i: usize = 0;
    while i < pairs.len()
        invariant
            i <= pairs@.len(),
            pv == views(pairs@),
            pv.len() == pairs@.len(),
            map.wf(),
            spec_walk_pairs(map@, pv, i as int) == goal,
        decreases pairs@.len() - i,
    {
        match split_first(&pairs[i], 61) {
            Some(kv) => {
                let (k, v) = kv;
                let decoded = percent_decode_lossy(&v);
                map.insert(k, decoded);
            },
            None => {},
        }
        i = i + 1;
    }
    proof {
        assert(spec_walk_pairs(map@, pv, pv.len() as int) == map@);
    }
}

/// A byte the reference encoding leaves unescaped: an ASCII letter, digit,
/// `-`, `_`, `.` or `~`.
pub open spec fn is_unreserved(b: u8) -> bool {
    (48 <= b && b <= 57) || (65 <= b && b <= 90) || (97 <= b && b <= 122) || b == 45 || b == 95
        || b == 46 || b == 126
}

/// The upper-case hex digit spelling `n`, for `n < 16`.
pub open spec fn hex_digit_of(n: u8) -> u8 {
    if n < 10 {
        (48 + n) as u8
    } else {
        (55 + n) as u8
    }
}

/// The reference percent-encoding: unreserved bytes stay, every other byte
/// becomes `%` and two upper-case hex digits.
pub open spec fn spec_percent_encode(s: Seq<u8>) -> Seq<u8>
    decreases s.len(),
{
    if s.len() == 0 {
        Seq::empty()
    } else if is_unreserved(s[0]) {
        seq![s[0]] + spec_percent_encode(s.skip(1))
    } else {
        seq![37u8, hex_digit_of(s[0] / 16), hex_digit_of(s[0] % 16)] + spec_percent_encode(
            s.skip(1),
        )
    }
}

/// Round trip at the byte level: percent-decoding a percent-encoded byte
/// sequence gives the original sequence back, for every byte sequence.  The
/// lossy UTF-8 step leaves the result unchanged whenever the original bytes
/// are valid UTF-8, which `percent_decode_lossy`'s own contract states.
pub proof fn lemma_percent_round_trip(s: Seq<u8>)
    ensures
        spec_percent_decode(spec_percent_encode(s)) == s,
    decreases s.len(),
{
    if s.len() == 0 {
        assert(spec_percent_decode(spec_percent_encode(s)) =~= s);
    } else {
        lemma_percent_round_trip(s.skip(1));
        let e = spec_percent_encode(s);
        if is_unreserved(s[0]) {
            assert(e[0] == s[0] && s[0] != 37);
            assert(e.skip(1) =~= spec_percent_encode(s.skip(1)));
            assert(spec_percent_decode(e) =~= seq![s[0]] + s.skip(1));
            assert(seq![s[0]] + s.skip(1) =~= s);
        } else {
            let b = s[0];
            let d1 = hex_digit_of(b / 16);
            let d2 = hex_digit_of(b % 16);
            assert(e[0] == 37 && e[1] == d1 && e[2] == d2);
            assert(is_hex_digit(d1) && is_hex_digit(d2));
            assert(hex_val(d1) == b / 16 && hex_val(d2) == b % 16);
            assert(hex_val(d1) * 16 + hex_val(d2) == b) by {
                assert(b == 16 * (b / 16) + b % 16) by (nonlinear_arith);
            }
            assert(e.skip(3) =~= spec_percent_encode(s.skip(1)));
            assert(spec_percent_decode(e) =~= seq![b] + s.skip(1));
            assert(seq![b] + s.skip(1) =~= s);
        }
    }
}

} // verus!
