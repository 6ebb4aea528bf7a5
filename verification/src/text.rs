//! Byte-level text helpers: decimal numbers, byte equality and the one
//! conversion from ASCII bytes to `String`.

use vstd::prelude::*;

use crate::ascii::{CASE_GAP, DIGIT_NINE, DIGIT_ZERO, D_LOWER, E_LOWER, N_LOWER, PLUS};

verus! {

pub open spec fn is_digit(b: u8) -> bool {
    DIGIT_ZERO <= b <= DIGIT_NINE
}

pub open spec fn all_digits(s: Seq<u8>) -> bool {
    forall|i: int| 0 <= i < s.len() ==> is_digit(#[trigger] s[i])
}

pub open spec fn all_ascii(s: Seq<u8>) -> bool {
    forall|i: int| 0 <= i < s.len() ==> #[trigger] s[i] < 128
}

/// Value of a digit string, most significant digit first.
pub open spec fn digits_val(s: Seq<u8>) -> nat
    decreases s.len(),
{
    if s.len() == 0 {
        0
    } else {
        digits_val(s.drop_last()) * 10 + (s.last() - DIGIT_ZERO) as nat
    }
}

/// The text std's integer parsing accepts: an optional leading `+`,
/// then at least one digit.
pub open spec fn num_body(s: Seq<u8>) -> Seq<u8> {
    if s.len() > 0 && s[0] == PLUS {
        s.drop_first()
    } else {
        s
    }
}

pub open spec fn is_number(s: Seq<u8>) -> bool {
    num_body(s).len() > 0 && all_digits(num_body(s))
}

/// Decimal rendering of a number, without sign or leading zeros.
pub open spec fn spec_dec(n: nat) -> Seq<u8>
    decreases n,
{
    if n < 10 {
        seq![(DIGIT_ZERO + n) as u8]
    } else {
        spec_dec(n / 10).push((DIGIT_ZERO + n % 10) as u8)
    }
}

/// Extending a digit string on the right never shrinks its value.
pub proof fn lemma_digits_val_prefix(s: Seq<u8>, i: int)
    requires
        0 <= i <= s.len(),
    ensures
        digits_val(s.subrange(0, i)) <= digits_val(s),
    decreases s.len() - i,
{
    if i < s.len() {
        lemma_digits_val_prefix(s, i + 1);
        let t = s.subrange(0, i + 1);
        assert(t.drop_last() =~= s.subrange(0, i));
        assert(digits_val(s.subrange(0, i)) <= digits_val(t));
    } else {
        assert(s.subrange(0, i) =~= s);
    }
}

/// A decimal rendering is a pure digit string that parses back to the
/// number it came from.
pub proof fn lemma_spec_dec_digits(n: nat)
    ensures
        spec_dec(n).len() >= 1,
        all_digits(spec_dec(n)),
        spec_dec(n)[0] != DIGIT_ZERO || n < 10,
        digits_val(spec_dec(n)) == n,
    decreases n,
{
    if n < 10 {
        let s = spec_dec(n);
        assert(s =~= seq![(DIGIT_ZERO + n) as u8]);
        assert(s.drop_last() =~= Seq::<u8>::empty());
        assert(digits_val(Seq::<u8>::empty()) == 0);
        assert(digits_val(s) == 0 * 10 + (s.last() - DIGIT_ZERO) as nat);
        assert(s.last() == (DIGIT_ZERO + n) as u8);
    } else {
        lemma_spec_dec_digits(n / 10);
        let s = spec_dec(n);
        let h = spec_dec(n / 10);
        assert(s =~= h.push((DIGIT_ZERO + n % 10) as u8));
        assert(s.drop_last() =~= h);
        assert(s.last() == (DIGIT_ZERO + n % 10) as u8);
        assert(digits_val(s) == digits_val(h) * 10 + (n % 10));
        assert((n / 10) * 10 + n % 10 == n) by (nonlinear_arith);
        assert(s[0] == h[0]);
        if n / 10 < 10 {
            assert(h =~= seq![(DIGIT_ZERO + n / 10) as u8]);
            assert(n / 10 >= 1);
            assert(h[0] != DIGIT_ZERO);
        }
        assert forall|i: int| 0 <= i < s.len() implies is_digit(#[trigger] s[i]) by {
            if i < h.len() {
                assert(s[i] == h[i]);
            }
        }
    }
}

/// Digit strings hold ASCII bytes only.
pub proof fn lemma_digits_ascii(s: Seq<u8>)
    requires
        all_digits(s),
    ensures
        all_ascii(s),
{
}

/// Byte-wise equality of two slices.
pub fn bytes_eq(a: &[u8], b: &[u8]) -> (r: bool)
    ensures
        r == (a@ == b@),
{
    if a.len() != b.len() {
        assert(a@ != b@);
        return false;
    }
    let mut i: usize = 0;
    while i < a.len()
        invariant
            0 <= i <= a@.len(),
            a@.len() == b@.len(),
            forall|j: int| 0 <= j < i ==> a@[j] == #[trigger] b@[j],
        decreases a@.len() - i,
    {
        if a[i] != b[i] {
            return false;
        }
        i += 1;
    }
    proof {
        assert(a@ =~= b@);
    }
    true
}

/// Parses a decimal number as std's unsigned integer parsing does:
/// optional leading `+`, one or more digits, no value above `u64::MAX`.
pub fn parse_u64(s: &[u8]) -> (r: Option<u64>)
    ensures
        r is Some <==> is_number(s@) && digits_val(num_body(s@)) <= u64::MAX,
        r is Some ==> r->0 == digits_val(num_body(s@)),
{
    let start: usize = if s.len() > 0 && s[0] == PLUS {
        1
    } else {
        0
    };
    let ghost body = num_body(s@);
    proof {
        assert(body =~= s@.subrange(start as int, s@.len() as int));
    }
    if s.len() == start {
        return None;
    }
    let mut val: u64 = 0;
    let mut i: usize = start;
    while i < s.len()
        invariant
            start <= i <= s@.len(),
            start <= 1,
            body == num_body(s@),
            body == s@.subrange(start as int, s@.len() as int),
            all_digits(body.subrange(0, i - start)),
            val == digits_val(body.subrange(0, i - start)),
        decreases s@.len() - i,
    {
        let ghost prefix = body.subrange(0, i - start);
        let b = s[i];
        if b < DIGIT_ZERO || b > DIGIT_NINE {
            proof {
                assert(body[i - start] == s@[i as int]);
                assert(!is_digit(body[i - start]));
                assert(!all_digits(body));
            }
            return None;
        }
        let d: u64 = (b - DIGIT_ZERO) as u64;
        proof {
            assert(body[i - start] == s@[i as int]);
            assert(body.subrange(0, i + 1 - start) =~= prefix.push(b));
            assert(prefix.push(b).drop_last() =~= prefix);
        }
        if val > (u64::MAX - d) / 10 {
            proof {
                assert(digits_val(prefix.push(b)) == val * 10 + d);
                assert(val * 10 + d > u64::MAX) by (nonlinear_arith)
                    requires
                        val > (u64::MAX - d) / 10,
                        d < 10,
                ;
                lemma_digits_val_prefix(body, i + 1 - start);
                assert(digits_val(body.subrange(0, i + 1 - start)) <= digits_val(body));
                assert(digits_val(body) > u64::MAX);
            }
            return None;
        }
        assert(val * 10 + d <= u64::MAX) by (nonlinear_arith)
            requires
                val <= (u64::MAX - d) / 10,
                d < 10,
        ;
        val = val * 10 + d;
        i += 1;
    }
    proof {
        assert(body.subrange(0, s@.len() - start) =~= body);
    }
    Some(val)
}

/// Decimal rendering of a number as bytes, most significant first.
pub fn u64_to_dec(n: u64) -> (r: Vec<u8>)
    ensures
        r@ == spec_dec(n as nat),
    decreases n,
{
    if n < 10 {
        let mut v: Vec<u8> = Vec::new();
        v.push(DIGIT_ZERO + (n as u8));
        proof {
            assert(v@ =~= spec_dec(n as nat));
        }
        v
    } else {
        let mut v = u64_to_dec(n / 10);
        v.push(DIGIT_ZERO + ((n % 10) as u8));
        proof {
            assert(v@ =~= spec_dec(n as nat));
        }
        v
    }
}

/// ASCII lower-casing of one byte.
pub open spec fn to_lower(b: u8) -> u8 {
    if 65 <= b <= 90 {
        (b + CASE_GAP) as u8
    } else {
        b
    }
}

/// Whether the text is the literal `end`, compared without regard to
/// ASCII case.
pub open spec fn is_end_token(s: Seq<u8>) -> bool {
    s.len() == 3 && to_lower(s[0]) == E_LOWER && to_lower(s[1]) == N_LOWER && to_lower(s[2])
        == D_LOWER
}

pub fn check_end_token(s: &[u8]) -> (r: bool)
    ensures
        r == is_end_token(s@),
{
    if s.len() != 3 {
        return false;
    }
    let l0 = if 65 <= s[0] && s[0] <= 90 {
        s[0] + CASE_GAP
    } else {
        s[0]
    };
    let l1 = if 65 <= s[1] && s[1] <= 90 {
        s[1] + CASE_GAP
    } else {
        s[1]
    };
    let l2 = if 65 <= s[2] && s[2] <= 90 {
        s[2] + CASE_GAP
    } else {
        s[2]
    };
    l0 == E_LOWER && l1 == N_LOWER && l2 == D_LOWER
}

/// Relies on `String::from_utf8`: ASCII bytes are valid UTF-8, and the
/// returned string holds exactly the given bytes, each as the character
/// with that code.
#[verifier::external_body]
pub(crate) fn ascii_to_string(v: &Vec<u8>) -> (r: String)
    requires
        all_ascii(v@),
    ensures
        r@ == v@.map_values(|b: u8| b as char),
        vstd::string::string_is_ascii(&r),
        vstd::utf8::encode_utf8(r@) == v@,
{
    String::from_utf8(v.clone()).unwrap()
}

/// Characters of the decimal rendering of a number.
pub open spec fn dec_str(n: nat) -> Seq<char> {
    spec_dec(n).map_values(|b: u8| b as char)
}

/// Decimal rendering of a number as a `String`.
pub fn u64_to_string(n: u64) -> (r: String)
    ensures
        r@ == dec_str(n as nat),
{
    let digits = u64_to_dec(n);
    proof {
        lemma_spec_dec_digits(n as nat);
        lemma_digits_ascii(digits@);
    }
    ascii_to_string(&digits)
}

/// Relies on `String::from_utf8`: valid UTF-8 bytes decode to the
/// string with exactly those bytes; anything else yields the empty
/// string here.
#[verifier::external_body]
pub(crate) fn utf8_or_empty(v: &[u8]) -> (r: String)
    ensures
        vstd::utf8::valid_utf8(v@) ==> vstd::utf8::encode_utf8(r@) == v@,
        !vstd::utf8::valid_utf8(v@) ==> r@ == Seq::<char>::empty(),
{
    match String::from_utf8(v.to_vec()) {
        Ok(s) => s,
        Err(_) => String::new(),
    }
}

} // verus!
