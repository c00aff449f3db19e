//! Parsers for the plain text inputs: decimal integers, realm names, and
//! the separated fields of the ties and weights files.

use vstd::prelude::*;
use vstd::string::StringSliceAdditionalSpecFns;
use crate::coords::Realm;
use crate::strutil::{
    spec_all_digits,
    spec_digit,
    spec_digits_value,
    spec_lower_bytes,
    spec_contains_bytes,
    lower_bytes_of_str,
    contains_bytes,
};

verus! {

/// The value a decimal integer string denotes: an optional sign, then at
/// least one digit, nothing else, and a value within the i32 range.
pub open spec fn spec_parse_i32(b: Seq<u8>) -> Option<int> {
    if b.len() == 0 {
        None
    } else {
        let neg = b[0] == 45;
        let digits = if b[0] == 45 || b[0] == 43 {
            b.drop_first()
        } else {
            b
        };
        if spec_all_digits(digits) {
            let v = if neg {
                -spec_digits_value(digits)
            } else {
                spec_digits_value(digits)
            };
            if i32::MIN <= v <= i32::MAX {
                Some(v)
            } else {
                None
            }
        } else {
            None
        }
    }
}

/// The value of a digit sequence is never negative.
proof fn lemma_digits_value_nonneg(s: Seq<u8>)
    ensures
        spec_digits_value(s) >= 0,
    decreases s.len(),
{
    if s.len() > 0 {
        lemma_digits_value_nonneg(s.drop_last());
        match spec_digit(s.last()) {
            Some(d) => {
                assert(d >= 0);
            },
            None => {},
        }
    }
}

/// Extending a digit sequence cannot shrink its value.
proof fn lemma_digits_value_extend(s: Seq<u8>, k: int)
    requires
        0 <= k <= s.len(),
    ensures
        spec_digits_value(s) >= spec_digits_value(s.take(k)),
    decreases s.len() - k,
{
    if k < s.len() {
        lemma_digits_value_extend(s, k + 1);
        assert(s.take(k + 1).drop_last() =~= s.take(k));
        lemma_digits_value_nonneg(s.take(k));
        match spec_digit(s.take(k + 1).last()) {
            Some(d) => {
                assert(d >= 0);
            },
            None => {},
        }
    } else {
        assert(s.take(k) =~= s);
    }
}

/// Parses the digit part of a decimal integer: all bytes must be digits,
/// and the value is capped detection-exactly at one past the i32 magnitude.
#[verifier::loop_isolation(false)]
fn parse_digits(b: &[u8], start: usize) -> (r: Option<i64>)
    requires
        start <= b@.len(),
    ensures
        match r {
            Some(v) => {
                &&& spec_all_digits(b@.skip(start as int))
                &&& v == spec_digits_value(b@.skip(start as int))
                &&& 0 <= v <= 0x8000_0000
            },
            None => !spec_all_digits(b@.skip(start as int)) || spec_digits_value(
                b@.skip(start as int),
            ) > 0x8000_0000,
        },
{
    let ghost digits = b@.skip(start as int);
    if start >= b.len() {
        proof {
            assert(digits.len() == 0);
        }
        return None;
    }
    let mut acc: i64 = 0;
    let mut i: usize = start;
    while i < b.len()
        invariant
            start <= i <= b@.len(),
            digits == b@.skip(start as int),
            spec_all_digits(digits.take(i - start)) || i == start,
            acc == spec_digits_value(digits.take(i - start)),
            0 <= acc <= 0x8000_0000,
        decreases b@.len() - i,
    {
        let c = b[i];
        if c < 48 || c > 57 {
            proof {
                assert(digits[i - start] == b@[i as int]);
                assert(!spec_all_digits(digits)) by {
                    assert(spec_digit(digits[i - start]) is None);
                }
            }
            return None;
        }
        proof {
            assert(digits.take(i - start + 1).drop_last() =~= digits.take(i - start));
            assert(digits.take(i - start + 1).last() == b@[i as int]);
        }
        acc = acc * 10 + ((c - 48) as i64);
        if acc > 0x8000_0000 {
            proof {
                assert(digits.take(i - start + 1) =~= digits.take(i + 1 - start));
                lemma_digits_value_extend(digits, i + 1 - start);
            }
            return None;
        }
        i = i + 1;
    }
    proof {
        assert(digits.take(i - start) =~= digits);
        assert(digits.len() > 0);
    }
    Some(acc)
}

/// Parses a decimal integer from the bytes of a string.
pub fn parse_i32_bytes(b: &[u8]) -> (r: Option<i32>)
    ensures
        match r {
            Some(v) => spec_parse_i32(b@) == Some(v as int),
            None => spec_parse_i32(b@) is None,
        },
{
    if b.len() == 0 {
        return None;
    }
    let first = b[0];
    let (neg, start): (bool, usize) = if first == 45 {
        (true, 1)
    } else if first == 43 {
        (false, 1)
    } else {
        (false, 0)
    };
    proof {
        if start == 0 {
            assert(b@.skip(0) =~= b@);
        }
    }
    match parse_digits(b, start) {
        Some(v) => {
            if neg {
                if v <= 0x8000_0000 {
                    let out: i32 = (-v) as i32;
                    return Some(out);
                }
                return None;
            }
            if v <= 0x7FFF_FFFF {
                return Some(v as i32);
            }
            None
        },
        None => None,
    }
}

/// Parses a decimal integer from a string.
pub fn i32_from_str(i32_str: &str) -> (r: Option<i32>)
    ensures
        match r {
            Some(v) => spec_parse_i32(i32_str.spec_bytes()) == Some(v as int),
            None => spec_parse_i32(i32_str.spec_bytes()) is None,
        },
{
    parse_i32_bytes(i32_str.as_bytes())
}

/// Parses a coordinate from a string.
pub fn coord_from_str(coord_str: &str) -> (r: Option<i32>)
    ensures
        match r {
            Some(v) => spec_parse_i32(coord_str.spec_bytes()) == Some(v as int),
            None => spec_parse_i32(coord_str.spec_bytes()) is None,
        },
{
    i32_from_str(coord_str)
}

/// The realm a string names, decided case-insensitively: any mention of the
/// nether wins, then any mention of the end, and anything else is the
/// overworld.
pub open spec fn spec_realm_of(b: Seq<u8>) -> Realm {
    if spec_contains_bytes(spec_lower_bytes(b), "nether".spec_bytes()) {
        Realm::Nether
    } else if spec_contains_bytes(spec_lower_bytes(b), "end".spec_bytes()) {
        Realm::End
    } else {
        Realm::Overworld
    }
}

/// Parses the realm a byte string names.
pub fn realm_of_bytes(realm_bytes: &[u8]) -> (r: Realm)
    ensures
        r == spec_realm_of(realm_bytes@),
{
    let lower = crate::strutil::lower_bytes(realm_bytes);
    let nether = vstd::slice::slice_to_vec("nether".as_bytes());
    let end = vstd::slice::slice_to_vec("end".as_bytes());
    if contains_bytes(&lower, &nether) {
        Realm::Nether
    } else if contains_bytes(&lower, &end) {
        Realm::End
    } else {
        Realm::Overworld
    }
}

/// Parses the realm a string names.
pub fn realm_from_str(realm_str: &str) -> (r: Realm)
    ensures
        r == spec_realm_of(realm_str.spec_bytes()),
{
    let lower = lower_bytes_of_str(realm_str);
    let nether = vstd::slice::slice_to_vec("nether".as_bytes());
    let end = vstd::slice::slice_to_vec("end".as_bytes());
    if contains_bytes(&lower, &nether) {
        Realm::Nether
    } else if contains_bytes(&lower, &end) {
        Realm::End
    } else {
        Realm::Overworld
    }
}

/// The length of the first field of `b`: the number of bytes before the
/// first separator, or all of them.
pub open spec fn spec_field_end(b: Seq<u8>, sep: u8) -> int
    decreases b.len(),
{
    if b.len() == 0 {
        0
    } else if b[0] == sep {
        0
    } else {
        1 + spec_field_end(b.drop_first(), sep)
    }
}

/// The first field never runs past the input.
pub proof fn lemma_field_end_bounds(b: Seq<u8>, sep: u8)
    ensures
        0 <= spec_field_end(b, sep) <= b.len(),
    decreases b.len(),
{
    if b.len() > 0 && b[0] != sep {
        lemma_field_end_bounds(b.drop_first(), sep)
    }
}

/// The fields of `b`, split on the separator; consecutive separators give
/// empty fields.
pub open spec fn spec_fields(b: Seq<u8>, sep: u8) -> Seq<Seq<u8>>
    decreases b.len(),
{
    let e = spec_field_end(b, sep);
    if !(0 <= e < b.len()) {
        seq![b]
    } else {
        seq![b.take(e)] + spec_fields(b.skip(e + 1), sep)
    }
}

/// Splits the bytes of a line into its separated fields.
#[verifier::loop_isolation(false)]
pub fn split_fields(b: &[u8], sep: u8) -> (r: Vec<Vec<u8>>)
    ensures
        r@.len() == spec_fields(b@, sep).len(),
        forall|i: int|
            0 <= i < r@.len() ==> (#[trigger] r@[i])@ == spec_fields(b@, sep)[i],
{
    let ghost all_fields = spec_fields(b@, sep);
    let mut out: Vec<Vec<u8>> = Vec::new();
    let mut cur: Vec<u8> = Vec::new();
    let mut i: usize = 0;
    proof {
        assert(b@.skip(0) =~= b@);
        assert(out@.map_values(|v: Vec<u8>| v@) =~= Seq::<Seq<u8>>::empty());
        assert(cur@ =~= b@.skip(0).take(0));
    }
    while i < b.len()
        invariant
            i <= b@.len(),
            all_fields == spec_fields(b@, sep),
            spec_fields(b@, sep) =~= out@.map_values(|v: Vec<u8>| v@) + spec_fields(
                b@.skip(i as int - cur@.len()),
                sep,
            ),
            cur@ =~= b@.skip(i as int - cur@.len()).take(cur@.len() as int),
            cur@.len() <= i,
            forall|j: int| 0 <= j < cur@.len() ==> cur@[j] != sep,
        decreases b@.len() - i,
    {
        let c = b[i];
        proof {
            let rest = b@.skip(i as int - cur@.len());
            lemma_field_end_bounds(rest, sep);
            assert forall|j: int| 0 <= j < cur@.len() implies rest[j] != sep by {
                assert(rest.take(cur@.len() as int)[j] == rest[j]);
                assert(cur@[j] != sep);
            }
            lemma_field_end_at(rest, sep, cur@.len() as int);
        }
        if c == sep {
            let ghost rest = b@.skip(i as int - cur@.len());
            proof {
                assert(rest[cur@.len() as int] == sep);
                assert(spec_field_end(rest, sep) == cur@.len());
                assert(rest.take(cur@.len() as int) =~= cur@);
                assert(rest.skip(cur@.len() as int + 1) =~= b@.skip(i + 1));
            }
            out.push(cur);
            cur = Vec::new();
            proof {
                assert(spec_fields(b@, sep) =~= out@.map_values(|v: Vec<u8>| v@) + spec_fields(
                    b@.skip(i + 1),
                    sep,
                ));
                assert(cur@ =~= b@.skip(i + 1).take(0));
            }
        } else {
            cur.push(c);
            proof {
                let rest = b@.skip(i as int + 1 - cur@.len());
                assert(cur@ =~= rest.take(cur@.len() as int));
            }
        }
        i = i + 1;
    }
    let ghost rest = b@.skip(i as int - cur@.len());
    proof {
        lemma_field_end_bounds(rest, sep);
        assert forall|j: int| 0 <= j < cur@.len() implies rest[j] != sep by {
            assert(rest.take(cur@.len() as int)[j] == rest[j]);
            assert(cur@[j] != sep);
        }
        lemma_field_end_at(rest, sep, cur@.len() as int);
        assert(rest.len() == cur@.len());
        assert(spec_field_end(rest, sep) >= rest.len());
        assert(rest.take(cur@.len() as int) =~= rest);
        assert(rest =~= cur@);
        assert(spec_fields(rest, sep) =~= seq![cur@]);
    }
    out.push(cur);
    proof {
        assert(out@.map_values(|v: Vec<u8>| v@) =~= spec_fields(b@, sep));
    }
    out
}

/// A field whose first `k` bytes miss the separator ends at or after `k`;
/// and exactly at `k` when the byte there is the separator.
proof fn lemma_field_end_at(b: Seq<u8>, sep: u8, k: int)
    requires
        0 <= k <= b.len(),
        forall|j: int| 0 <= j < k ==> b[j] != sep,
    ensures
        spec_field_end(b, sep) >= k,
        k < b.len() && b[k] == sep ==> spec_field_end(b, sep) == k,
    decreases k,
{
    lemma_field_end_bounds(b, sep);
    if k > 0 {
        assert(forall|j: int| 0 <= j < k - 1 ==> b.drop_first()[j] == #[trigger] b[j + 1]);
        lemma_field_end_at(b.drop_first(), sep, k - 1);
    }
}


/// The rank a sign token denotes: the letter n, upper or lower case, then
/// digits denoting a value that fits a usize.
pub open spec fn spec_token_num(t: Seq<u8>) -> Option<int> {
    let lt = spec_lower_bytes(t);
    if lt.len() >= 1 && lt[0] == 110 && spec_all_digits(lt.drop_first()) && spec_digits_value(
        lt.drop_first(),
    ) <= usize::MAX {
        Some(spec_digits_value(lt.drop_first()))
    } else {
        None
    }
}

/// The rank the sign text carries: the first space-separated token that is
/// the letter n followed by a parseable number, or zero.
pub open spec fn spec_nearest_num(fields: Seq<Seq<u8>>) -> int
    decreases fields.len(),
{
    if fields.len() == 0 {
        0
    } else {
        match spec_token_num(fields[0]) {
            Some(v) => v,
            None => spec_nearest_num(fields.drop_first()),
        }
    }
}

/// Parses an unsigned decimal number that must fit a usize.
#[verifier::loop_isolation(false)]
fn parse_usize_digits(b: &[u8]) -> (r: Option<usize>)
    ensures
        match r {
            Some(v) => spec_all_digits(b@) && v == spec_digits_value(b@),
            None => !spec_all_digits(b@) || spec_digits_value(b@) > usize::MAX,
        },
{
    if b.len() == 0 {
        return None;
    }
    let mut acc: u128 = 0;
    let mut i: usize = 0;
    while i < b.len()
        invariant
            i <= b@.len(),
            spec_all_digits(b@.take(i as int)) || i == 0,
            acc == spec_digits_value(b@.take(i as int)),
            acc <= 0xFFFF_FFFF_FFFF_FFFFu128,
        decreases b@.len() - i,
    {
        let c = b[i];
        if c < 48 || c > 57 {
            proof {
                assert(spec_digit(b@[i as int]) is None);
            }
            return None;
        }
        proof {
            assert(b@.take(i + 1).drop_last() =~= b@.take(i as int));
            assert(b@.take(i + 1).last() == b@[i as int]);
        }
        acc = acc * 10 + ((c - 48) as u128);
        if acc > 0xFFFF_FFFF_FFFF_FFFFu128 {
            proof {
                lemma_digits_value_extend(b@, i + 1);
                assert(spec_digits_value(b@) > usize::MAX);
            }
            return None;
        }
        i = i + 1;
    }
    proof {
        assert(b@.take(i as int) =~= b@);
    }
    if acc <= usize::MAX as u128 {
        Some(acc as usize)
    } else {
        None
    }
}

/// Scans the space-separated tokens of a sign text for a rank of the form
/// of the letter n followed by a number, ignoring case; the first one wins,
/// and a sign without one ranks zero.
#[verifier::loop_isolation(false)]
pub fn station_sign_nearest_num(sign_text: &String) -> (r: usize)
    ensures
        r == spec_nearest_num(spec_fields(vstd::utf8::encode_utf8(sign_text@), 32)),
{
    let tokens = split_fields(sign_text.as_str().as_bytes(), 32);
    let ghost fields = spec_fields(vstd::utf8::encode_utf8(sign_text@), 32);
    proof {
        assert(fields.skip(0) =~= fields);
    }
    let mut i: usize = 0;
    while i < tokens.len()
        invariant
            i <= tokens@.len(),
            tokens@.len() == fields.len(),
            forall|j: int| 0 <= j < tokens@.len() ==> (#[trigger] tokens@[j])@ == fields[j],
            spec_nearest_num(fields) == spec_nearest_num(fields.skip(i as int)),
        decreases tokens@.len() - i,
    {
        proof {
            let tail = fields.skip(i as int);
            assert(tail[0] == fields[i as int]);
            assert(tail.drop_first() =~= fields.skip(i + 1));
        }
        let lt = crate::strutil::lower_bytes(tokens[i].as_slice());
        if lt.len() >= 1 && lt[0] == 110 {
            let digits = vstd::slice::slice_subrange(lt.as_slice(), 1, lt.len());
            proof {
                assert(digits@ =~= spec_lower_bytes(fields[i as int]).drop_first());
            }
            if let Some(v) = parse_usize_digits(digits) {
                return v;
            }
        }
        i = i + 1;
    }
    proof {
        assert(fields.skip(i as int) =~= Seq::<Seq<u8>>::empty());
    }
    0
}

} // verus!
