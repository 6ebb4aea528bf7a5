//! Base alphabet, reverse-complement transform and the degenerate
//! pattern / quality matching engine.

use vstd::prelude::*;

use crate::ascii::{
    A_UPPER, B_UPPER, C_UPPER, D_UPPER, G_UPPER, H_UPPER, K_UPPER, M_UPPER, N_UPPER, R_UPPER,
    S_UPPER, T_UPPER, V_UPPER, W_UPPER, Y_UPPER,
};

verus! {

/// The five symbols a well-formed read may carry at a barcode position.
pub open spec fn is_base(b: u8) -> bool {
    b == A_UPPER || b == T_UPPER || b == G_UPPER || b == C_UPPER || b == N_UPPER
}

/// Complement of one base: A<->T, G<->C, N->N. Total; other bytes map
/// to themselves, but `complement` only accepts bases.
pub open spec fn spec_complement(b: u8) -> u8 {
    if b == A_UPPER {
        T_UPPER
    } else if b == T_UPPER {
        A_UPPER
    } else if b == G_UPPER {
        C_UPPER
    } else if b == C_UPPER {
        G_UPPER
    } else {
        b
    }
}

/// Reverse-complement of a whole slice.
pub open spec fn spec_revcomp(s: Seq<u8>) -> Seq<u8> {
    Seq::new(s.len(), |i: int| spec_complement(s[s.len() - 1 - i]))
}

pub open spec fn all_bases(s: Seq<u8>) -> bool {
    forall|i: int| 0 <= i < s.len() ==> is_base(#[trigger] s[i])
}

/// The subset of {A,T,G,C} denoted by one IUPAC ambiguity code.
pub open spec fn code_permits(code: u8, base: u8) -> bool {
    if base == A_UPPER {
        code == A_UPPER || code == R_UPPER || code == M_UPPER || code == W_UPPER || code == H_UPPER || code
            == V_UPPER || code == D_UPPER || code == N_UPPER
    } else if base == T_UPPER {
        code == T_UPPER || code == Y_UPPER || code == K_UPPER || code == W_UPPER || code == H_UPPER || code
            == B_UPPER || code == D_UPPER || code == N_UPPER
    } else if base == G_UPPER {
        code == G_UPPER || code == R_UPPER || code == K_UPPER || code == S_UPPER || code == B_UPPER || code
            == V_UPPER || code == D_UPPER || code == N_UPPER
    } else if base == C_UPPER {
        code == C_UPPER || code == Y_UPPER || code == M_UPPER || code == S_UPPER || code == H_UPPER || code
            == B_UPPER || code == V_UPPER || code == N_UPPER
    } else {
        false
    }
}

/// One read base against one pattern code. `N` on either side always
/// matches; otherwise the code must permit the base.
pub open spec fn base_matches(base: u8, code: u8) -> bool {
    base == N_UPPER || code == N_UPPER || code_permits(code, base)
}

/// A slice fails a pattern when some position of the zipped prefix
/// (the shorter of the two lengths) mismatches. Any excess tail of a
/// longer slice is left unchecked on purpose.
pub open spec fn fails_pattern(seq: Seq<u8>, pat: Seq<u8>) -> bool {
    exists|i: int|
        0 <= i < seq.len() && i < pat.len() && !base_matches(seq[i], #[trigger] pat[i])
}

/// Quality floor: any value strictly below it fails the slice outright.
pub const QUAL_FLOOR: u8 = 53;

/// Upper bound (exclusive) of the low-but-tolerable quality band.
pub const QUAL_BAND_END: u8 = 63;

pub open spec fn has_below_floor(qual: Seq<u8>) -> bool {
    exists|i: int| 0 <= i < qual.len() && #[trigger] qual[i] < QUAL_FLOOR
}

/// Number of values in the low band (everything below the band's upper
/// bound; on a slice with nothing below the floor this is exactly the
/// band `[QUAL_FLOOR, QUAL_BAND_END)`).
pub open spec fn low_band_count(qual: Seq<u8>) -> nat {
    qual.filter(|q: u8| q < QUAL_BAND_END).len()
}

/// The two-tier quality gate: a value below the hard floor fails, and
/// more than two values in the low band fail as well.
pub open spec fn spec_fail_quality(qual: Seq<u8>) -> bool {
    has_below_floor(qual) || low_band_count(qual) > 2
}

/// Complement of one base. Any byte outside {A,T,G,C,N} here is a
/// data-corruption condition, so other bytes are refused outright.
pub fn complement(b: &u8) -> (r: u8)
    requires
        is_base(*b),
    ensures
        r == spec_complement(*b),
{
    if *b == A_UPPER {
        T_UPPER
    } else if *b == T_UPPER {
        A_UPPER
    } else if *b == G_UPPER {
        C_UPPER
    } else if *b == C_UPPER {
        G_UPPER
    } else {
        N_UPPER
    }
}

/// Whether `base` fails to match the pattern code `pattern_char`
/// (true means mismatch; the filters count a read out on any `true`).
pub fn check_base_match(base: u8, pattern_char: u8) -> (r: bool)
    ensures
        r == !base_matches(base, pattern_char),
{
    if base == N_UPPER || pattern_char == N_UPPER {
        false
    } else if base == A_UPPER {
        !(pattern_char == A_UPPER || pattern_char == R_UPPER || pattern_char == M_UPPER || pattern_char
            == W_UPPER || pattern_char == H_UPPER || pattern_char == V_UPPER || pattern_char == D_UPPER)
    } else if base == T_UPPER {
        !(pattern_char == T_UPPER || pattern_char == Y_UPPER || pattern_char == K_UPPER || pattern_char
            == W_UPPER || pattern_char == H_UPPER || pattern_char == B_UPPER || pattern_char == D_UPPER)
    } else if base == G_UPPER {
        !(pattern_char == G_UPPER || pattern_char == R_UPPER || pattern_char == K_UPPER || pattern_char
            == S_UPPER || pattern_char == B_UPPER || pattern_char == V_UPPER || pattern_char == D_UPPER)
    } else if base == C_UPPER {
        !(pattern_char == C_UPPER || pattern_char == Y_UPPER || pattern_char == M_UPPER || pattern_char
            == S_UPPER || pattern_char == H_UPPER || pattern_char == B_UPPER || pattern_char == V_UPPER)
    } else {
        true
    }
}

/// Position-wise pattern gate over the zipped prefix of slice and
/// pattern; true means the slice is filtered out.
pub fn fail_sequence_filter(seq: &[u8], pattern: &[u8]) -> (r: bool)
    ensures
        r == fails_pattern(seq@, pattern@),
{
    let mut i: usize = 0;
    let n: usize = if seq.len() < pattern.len() {
        seq.len()
    } else {
        pattern.len()
    };
    while i < n
        invariant
            0 <= i <= n,
            n <= seq@.len(),
            n <= pattern@.len(),
            n == if seq@.len() < pattern@.len() {
                seq@.len() as int
            } else {
                pattern@.len() as int
            },
            forall|j: int| 0 <= j < i ==> base_matches(seq@[j], #[trigger] pattern@[j]),
        decreases n - i,
    {
        if check_base_match(seq[i], pattern[i]) {
            return true;
        }
        i += 1;
    }
    false
}

/// Two-tier quality gate; true means the slice is filtered out.
pub fn fail_quality_filter(qual: &[u8]) -> (r: bool)
    ensures
        r == spec_fail_quality(qual@),
{
    let mut low_qual_count: u64 = 0;
    let mut i: usize = 0;
    while i < qual.len()
        invariant
            0 <= i <= qual@.len(),
            !has_below_floor(qual@.subrange(0, i as int)),
            low_qual_count == low_band_count(qual@.subrange(0, i as int)),
            low_qual_count <= i,
        decreases qual@.len() - i,
    {
        let ghost prefix = qual@.subrange(0, i as int);
        let q = qual[i];
        if q < QUAL_FLOOR {
            assert(qual@[i as int] < QUAL_FLOOR);
            return true;
        }
        proof {
            assert(qual@.subrange(0, i + 1) =~= prefix.push(q));
            reveal_with_fuel(Seq::filter, 2);
            assert(prefix.push(q).drop_last() =~= prefix);
        }
        if q < QUAL_BAND_END {
            low_qual_count += 1;
        }
        i += 1;
    }
    proof {
        assert(qual@.subrange(0, qual@.len() as int) =~= qual@);
    }
    low_qual_count > 2
}

/// Normalises a surviving slice to its canonical barcode bytes:
/// reverse-complemented when the spec's strand asks for it, copied
/// unchanged otherwise.
pub fn process_barcode(seq: &[u8], is_revcomp: bool) -> (r: Vec<u8>)
    requires
        is_revcomp ==> all_bases(seq@),
    ensures
        r@ == if is_revcomp {
            spec_revcomp(seq@)
        } else {
            seq@
        },
{
    let mut out: Vec<u8> = Vec::new();
    if is_revcomp {
        let mut i: usize = seq.len();
        while i > 0
            invariant
                0 <= i <= seq@.len(),
                all_bases(seq@),
                out@.len() == seq@.len() - i,
                forall|j: int|
                    0 <= j < out@.len() ==> #[trigger] out@[j] == spec_complement(
                        seq@[seq@.len() - 1 - j],
                    ),
            decreases i,
        {
            i -= 1;
            out.push(complement(&seq[i]));
        }
        proof {
            assert(out@ =~= spec_revcomp(seq@));
        }
    } else {
        let mut i: usize = 0;
        while i < seq.len()
            invariant
                0 <= i <= seq@.len(),
                out@ =~= seq@.subrange(0, i as int),
            decreases seq@.len() - i,
        {
            out.push(seq[i]);
            i += 1;
        }
        proof {
            assert(out@ =~= seq@);
        }
    }
    out
}

/// Complementing maps bases to bases and is an involution on them.
pub proof fn lemma_complement_involutive(b: u8)
    requires
        is_base(b),
    ensures
        is_base(spec_complement(b)),
        spec_complement(spec_complement(b)) == b,
{
}

/// Reverse-complement is involutive over {A,T,G,C,N}: applying it
/// twice returns the original slice.
pub proof fn lemma_revcomp_involutive(s: Seq<u8>)
    requires
        all_bases(s),
    ensures
        spec_revcomp(spec_revcomp(s)) == s,
{
    assert forall|i: int| 0 <= i < s.len() implies spec_revcomp(spec_revcomp(s))[i] == s[i] by {
        lemma_complement_involutive(s[i]);
    }
    assert(spec_revcomp(spec_revcomp(s)) =~= s);
}

/// A slice built by substituting, for each position of the zipped
/// prefix, one base the pattern code permits always matches.
pub proof fn lemma_pattern_substitution(seq: Seq<u8>, pat: Seq<u8>)
    requires
        forall|i: int|
            0 <= i < seq.len() && i < pat.len() ==> code_permits(#[trigger] pat[i], seq[i]),
    ensures
        !fails_pattern(seq, pat),
{
}

/// One literal mismatch inside the zipped prefix (a concrete pattern
/// base against a different concrete read base) always fails the slice.
pub proof fn lemma_pattern_literal_mismatch(seq: Seq<u8>, pat: Seq<u8>, i: int)
    requires
        0 <= i < seq.len(),
        i < pat.len(),
        is_base(seq[i]),
        seq[i] != N_UPPER,
        pat[i] == A_UPPER || pat[i] == T_UPPER || pat[i] == G_UPPER || pat[i] == C_UPPER,
        pat[i] != seq[i],
    ensures
        fails_pattern(seq, pat),
{
    assert(!base_matches(seq[i], pat[i]));
}

} // verus!
