//! The sequence-position addressing model: which base range of which
//! paired read to extract, with an optional reverse-complement
//! transform, parsed from and rendered to the textual form
//! `read{1|2}:{+|-}:start-end`.

use vstd::prelude::*;

use vstd::string::StringSliceAdditionalSpecFns;

use crate::ascii::{A_LOWER, COLON, DIGIT_ONE, DIGIT_TWO, D_LOWER, E_LOWER, MINUS, PLUS, R_LOWER};
use crate::text::{
    ascii_to_string, all_ascii, all_digits, bytes_eq, check_end_token, digits_val, is_end_token,
    is_number, lemma_digits_ascii, lemma_spec_dec_digits, num_body, parse_u64, spec_dec,
    u64_to_dec,
};

verus! {

/// Highest base coordinate a spec may address; also the value the
/// literal `end` stands for.
pub const MAX_POS: usize = 150;

#[derive(Debug, Clone, Copy, PartialEq, Eq, Structural)]
pub enum PositionError {
    /// The text is not of the shape `read{1/2}:{+/-}:start-end`.
    InvalidFormat,
    /// The read token is neither `read1` nor `read2`.
    InvalidRead,
    /// The strand token is neither `+` nor `-`.
    InvalidStrand,
    /// The start position is not an integer in `0..=150`.
    InvalidStart,
    /// The end position is not an integer in `0..=150` nor `end`.
    InvalidEnd,
    /// The end position is smaller than the start position.
    EndBeforeStart,
}

/// The position of a barcode inside a read pair.
#[derive(Debug, Clone, Copy, PartialEq, Eq, Structural)]
pub struct Position {
    /// false stands for read1, true for read2.
    pub read: bool,
    /// false stands for the forward strand, true for reverse-complement.
    pub strand: bool,
    /// First base of the range, in `0..=150`.
    pub start: usize,
    /// One past the last base of the range, in `0..=150`, never below
    /// `start`.
    pub end: usize,
    /// Derived length of the range.
    pub len: usize,
}

impl Position {
    pub open spec fn spec_read(&self) -> bool {
        self.read
    }

    pub open spec fn spec_strand(&self) -> bool {
        self.strand
    }

    pub open spec fn spec_start(&self) -> usize {
        self.start
    }

    pub open spec fn spec_end(&self) -> usize {
        self.end
    }

    pub open spec fn spec_len(&self) -> usize {
        self.len
    }

    /// The invariant every built `Position` carries.
    pub open spec fn wf(&self) -> bool {
        self.start <= self.end <= MAX_POS && self.len == self.end - self.start
    }

    pub fn new(read: bool, strand: bool, start: usize, end: usize) -> (r: Self)
        requires
            start <= end <= MAX_POS,
        ensures
            r == (Position { read, strand, start, end, len: (end - start) as usize }),
            r.wf(),
    {
        let len = end - start;
        Self { read, strand, start, end, len }
    }

    #[inline]
    pub fn is_read2(&self) -> (r: bool)
        ensures
            r == self.spec_read(),
    {
        self.read
    }

    #[inline]
    pub fn is_revcomp(&self) -> (r: bool)
        ensures
            r == self.spec_strand(),
    {
        self.strand
    }

    #[inline]
    pub fn start(&self) -> (r: usize)
        ensures
            r == self.spec_start(),
    {
        self.start
    }

    #[inline]
    pub fn end(&self) -> (r: usize)
        ensures
            r == self.spec_end(),
    {
        self.end
    }

    #[inline]
    pub fn len(&self) -> (r: usize)
        ensures
            r == self.spec_len(),
    {
        self.len
    }

    #[inline]
    pub fn range(&self) -> (r: core::ops::Range<usize>)
        ensures
            r.start == self.spec_start(),
            r.end == self.spec_end(),
    {
        self.start..self.end
    }

    /// The configured range clamped to the data actually available:
    /// never indexes out of bounds, and shorter data yields a shorter
    /// (possibly empty) slice.
    #[inline]
    pub fn safe_slice<'a, T>(&self, data: &'a [T]) -> (r: &'a [T])
        requires
            self.wf(),
        ensures
            r@ == data@.subrange(
                vstd::math::min(self.spec_start() as int, data@.len() as int),
                vstd::math::min(self.spec_end() as int, data@.len() as int),
            ),
    {
        let start = if self.start < data.len() {
            self.start
        } else {
            data.len()
        };
        let end = if self.end < data.len() {
            self.end
        } else {
            data.len()
        };
        &data[start..end]
    }
}

/// The byte form of the `read1` token.
pub open spec fn read1_tok() -> Seq<u8> {
    seq![R_LOWER, E_LOWER, A_LOWER, D_LOWER, DIGIT_ONE]
}

/// The byte form of the `read2` token.
pub open spec fn read2_tok() -> Seq<u8> {
    seq![R_LOWER, E_LOWER, A_LOWER, D_LOWER, DIGIT_TWO]
}

/// First occurrence of a byte in a slice.
pub open spec fn spec_find(s: Seq<u8>, sep: u8) -> Option<int>
    decreases s.len(),
{
    if s.len() == 0 {
        None
    } else if s[0] == sep {
        Some(0int)
    } else {
        match spec_find(s.drop_first(), sep) {
            None => None,
            Some(i) => Some(i + 1),
        }
    }
}

/// Splitting at a separator, at most `limit` parts, the last part
/// holding the unsplit rest; this is std's `splitn` on one byte, and
/// with a `limit` past the input length std's `split`.
pub open spec fn spec_splitn(s: Seq<u8>, sep: u8, limit: nat) -> Seq<Seq<u8>>
    decreases limit,
{
    if limit <= 1 {
        seq![s]
    } else {
        match spec_find(s, sep) {
            None => seq![s],
            Some(i) => seq![s.subrange(0, i)] + spec_splitn(
                s.subrange(i + 1, s.len() as int),
                sep,
                (limit - 1) as nat,
            ),
        }
    }
}

pub open spec fn no_byte(s: Seq<u8>, sep: u8) -> bool {
    forall|i: int| 0 <= i < s.len() ==> #[trigger] s[i] != sep
}

/// `spec_find` returns exactly the first occurrence.
pub proof fn lemma_spec_find(s: Seq<u8>, sep: u8)
    ensures
        spec_find(s, sep) is None ==> no_byte(s, sep),
        spec_find(s, sep) matches Some(i) ==> 0 <= i < s.len() && s[i] == sep && no_byte(
            s.subrange(0, i),
            sep,
        ),
    decreases s.len(),
{
    if s.len() == 0 {
    } else if s[0] == sep {
        assert(s.subrange(0, 0) =~= Seq::<u8>::empty());
    } else {
        let t = s.drop_first();
        lemma_spec_find(t, sep);
        match spec_find(t, sep) {
            None => {
                assert forall|i: int| 0 <= i < s.len() implies #[trigger] s[i] != sep by {
                    if i > 0 {
                        assert(s[i] == t[i - 1]);
                    }
                }
            },
            Some(j) => {
                assert(s[j + 1] == t[j]);
                let pre = s.subrange(0, j + 1);
                assert forall|i: int| 0 <= i < pre.len() implies #[trigger] pre[i] != sep by {
                    if i > 0 {
                        assert(pre[i] == t[i - 1]);
                        assert(t.subrange(0, j)[i - 1] == t[i - 1]);
                    }
                }
            },
        }
    }
}

/// A slice without the separator is found unsplit.
pub proof fn lemma_find_none(s: Seq<u8>, sep: u8)
    requires
        no_byte(s, sep),
    ensures
        spec_find(s, sep) is None,
    decreases s.len(),
{
    if s.len() > 0 {
        lemma_find_none(s.drop_first(), sep);
    }
}

/// Prepending a separator-free prefix and one separator puts the first
/// occurrence right after that prefix.
pub proof fn lemma_find_concat(a: Seq<u8>, b: Seq<u8>, sep: u8)
    requires
        no_byte(a, sep),
    ensures
        spec_find(a + seq![sep] + b, sep) == Some(a.len() as int),
    decreases a.len(),
{
    let s = a + seq![sep] + b;
    if a.len() == 0 {
        assert(s[0] == sep);
    } else {
        lemma_find_concat(a.drop_first(), b, sep);
        assert(s[0] == a[0]);
        assert(s.drop_first() =~= a.drop_first() + seq![sep] + b);
    }
}

pub proof fn lemma_splitn_nosep(a: Seq<u8>, sep: u8, limit: nat)
    requires
        no_byte(a, sep),
        limit >= 1,
    ensures
        spec_splitn(a, sep, limit) == seq![a],
{
    lemma_find_none(a, sep);
}

/// Splitting a text made of a separator-free part, a separator and a
/// rest peels off the first part.
pub proof fn lemma_splitn_concat(a: Seq<u8>, b: Seq<u8>, sep: u8, limit: nat)
    requires
        no_byte(a, sep),
        limit >= 2,
    ensures
        spec_splitn(a + seq![sep] + b, sep, limit) == seq![a] + spec_splitn(
            b,
            sep,
            (limit - 1) as nat,
        ),
{
    let s = a + seq![sep] + b;
    lemma_find_concat(a, b, sep);
    assert(s.subrange(0, a.len() as int) =~= a);
    assert(s.subrange(a.len() as int + 1, s.len() as int) =~= b);
}

/// First occurrence of a byte, or nothing.
pub fn find_byte(s: &[u8], sep: u8) -> (r: Option<usize>)
    ensures
        r is Some <==> spec_find(s@, sep) is Some,
        r matches Some(i) ==> spec_find(s@, sep) == Some(i as int),
{
    proof {
        lemma_spec_find(s@, sep);
    }
    let mut i: usize = 0;
    while i < s.len()
        invariant
            0 <= i <= s@.len(),
            no_byte(s@.subrange(0, i as int), sep),
        decreases s@.len() - i,
    {
        let ghost pre = s@.subrange(0, i as int);
        if s[i] == sep {
            proof {
                lemma_find_first_at(s@, sep, i as int);
            }
            return Some(i);
        }
        proof {
            assert(s@.subrange(0, i + 1) =~= pre.push(s@[i as int]));
            assert forall|j: int| 0 <= j < i + 1 implies #[trigger] s@.subrange(0, i + 1)[j]
                != sep by {
                if j < i {
                    assert(pre[j] != sep);
                }
            }
        }
        i += 1;
    }
    proof {
        assert(s@.subrange(0, s@.len() as int) =~= s@);
        lemma_find_none(s@, sep);
    }
    None
}

/// A separator at `i` with none before it is the first occurrence.
proof fn lemma_find_first_at(s: Seq<u8>, sep: u8, i: int)
    requires
        0 <= i < s.len(),
        s[i] == sep,
        no_byte(s.subrange(0, i), sep),
    ensures
        spec_find(s, sep) == Some(i),
    decreases i,
{
    if i == 0 {
    } else {
        assert(s[0] == s.subrange(0, i)[0]);
        let t = s.drop_first();
        assert(t[i - 1] == s[i]);
        assert(t.subrange(0, i - 1) =~= s.subrange(0, i).drop_first());
        assert forall|j: int| 0 <= j < i - 1 implies #[trigger] t.subrange(0, i - 1)[j] != sep by {
            assert(t.subrange(0, i - 1)[j] == s.subrange(0, i)[j + 1]);
        }
        lemma_find_first_at(t, sep, i - 1);
    }
}

/// Splits at a separator into at most `limit` parts, as std's `splitn`
/// over one byte does.
pub fn splitn_bytes(s: &[u8], sep: u8, limit: usize) -> (r: Vec<Vec<u8>>)
    requires
        limit >= 1,
    ensures
        r@.map_values(|v: Vec<u8>| v@) == spec_splitn(s@, sep, limit as nat),
    decreases limit,
{
    if limit > 1 {
        if let Some(i) = find_byte(s, sep) {
            proof {
                lemma_spec_find(s@, sep);
                assert(spec_find(s@, sep) == Some(i as int));
                assert((i as int) < s@.len());
            }
            let n = s.len();
            let head = vstd::slice::slice_to_vec(&s[0..i]);
            let mut rest = splitn_bytes(&s[i + 1..n], sep, limit - 1);
            let ghost rest_view = rest@;
            let mut out: Vec<Vec<u8>> = Vec::new();
            out.push(head);
            out.append(&mut rest);
            proof {
                assert(out@ =~= seq![head] + rest_view);
                assert(out@.map_values(|v: Vec<u8>| v@) =~= seq![head@] + rest_view.map_values(
                    |v: Vec<u8>| v@,
                ));
            }
            return out;
        }
    }
    let mut out: Vec<Vec<u8>> = Vec::new();
    out.push(vstd::slice::slice_to_vec(s));
    proof {
        assert(out@.map_values(|v: Vec<u8>| v@) =~= seq![s@]);
    }
    out
}

/// What parsing yields on any input text, byte for byte.
pub open spec fn spec_parse(s: Seq<u8>) -> Result<Position, PositionError> {
    let parts = spec_splitn(s, COLON, usize::MAX as nat);
    if parts.len() != 3 {
        Err(PositionError::InvalidFormat)
    } else {
        let range_parts = spec_splitn(parts[2], MINUS, usize::MAX as nat);
        if range_parts.len() != 2 {
            Err(PositionError::InvalidFormat)
        } else if parts[0] != read1_tok() && parts[0] != read2_tok() {
            Err(PositionError::InvalidRead)
        } else if parts[1] != seq![PLUS] && parts[1] != seq![MINUS] {
            Err(PositionError::InvalidStrand)
        } else if !(is_number(range_parts[0]) && digits_val(num_body(range_parts[0]))
            <= MAX_POS) {
            Err(PositionError::InvalidStart)
        } else {
            let read = parts[0] == read2_tok();
            let strand = parts[1] == seq![MINUS];
            let start = digits_val(num_body(range_parts[0])) as usize;
            if is_number(range_parts[1]) && digits_val(num_body(range_parts[1]))
                <= usize::MAX {
                let v = digits_val(num_body(range_parts[1]));
                if v > MAX_POS {
                    Err(PositionError::InvalidEnd)
                } else if v < start {
                    Err(PositionError::EndBeforeStart)
                } else {
                    Ok(
                        Position {
                            read,
                            strand,
                            start,
                            end: v as usize,
                            len: (v - start) as usize,
                        },
                    )
                }
            } else if is_end_token(range_parts[1]) {
                Ok(
                    Position {
                        read,
                        strand,
                        start,
                        end: MAX_POS,
                        len: (MAX_POS - start) as usize,
                    },
                )
            } else {
                Err(PositionError::InvalidFormat)
            }
        }
    }
}

/// The rendered byte form `read{1|2}:{+|-}:start-end`.
pub open spec fn spec_format(p: Position) -> Seq<u8> {
    (if p.spec_read() {
        read2_tok()
    } else {
        read1_tok()
    }) + seq![COLON] + (if p.spec_strand() {
        seq![MINUS]
    } else {
        seq![PLUS]
    }) + seq![COLON] + spec_dec(p.spec_start() as nat) + seq![MINUS] + spec_dec(
        p.spec_end() as nat,
    )
}

impl Position {
    /// Parses the textual spec form `read{1|2}:{+|-}:start-end`, where
    /// `end` may be the literal word `end` standing for 150. Each way
    /// the text can be malformed yields its own error kind.
    pub fn from_str(s: &str) -> (r: Result<Position, PositionError>)
        ensures
            r == spec_parse(s.spec_bytes()),
            r matches Ok(p) ==> p.wf(),
    {
        let bytes = s.as_bytes();
        let parts = splitn_bytes(bytes, COLON, usize::MAX);
        if parts.len() != 3 {
            return Err(PositionError::InvalidFormat);
        }
        let range_parts = splitn_bytes(parts[2].as_slice(), MINUS, usize::MAX);
        if range_parts.len() != 2 {
            return Err(PositionError::InvalidFormat);
        }
        let tok1 = tok_read1();
        let tok2 = tok_read2();
        let is_read1 = bytes_eq(parts[0].as_slice(), tok1.as_slice());
        let is_read2 = bytes_eq(parts[0].as_slice(), tok2.as_slice());
        if !is_read1 && !is_read2 {
            return Err(PositionError::InvalidRead);
        }
        let read = is_read2;
        let is_plus = parts[1].len() == 1 && parts[1][0] == PLUS;
        let is_minus = parts[1].len() == 1 && parts[1][0] == MINUS;
        proof {
            assert(is_plus == (parts@[1]@ =~= seq![PLUS]));
            assert(is_minus == (parts@[1]@ =~= seq![MINUS]));
        }
        if !is_plus && !is_minus {
            return Err(PositionError::InvalidStrand);
        }
        let strand = is_minus;
        let start: usize = match parse_u64(range_parts[0].as_slice()) {
            Some(v) if v <= MAX_POS as u64 => v as usize,
            _ => {
                return Err(PositionError::InvalidStart);
            },
        };
        let end: usize = match parse_u64(range_parts[1].as_slice()) {
            Some(v) if v <= usize::MAX as u64 => {
                if v > MAX_POS as u64 {
                    return Err(PositionError::InvalidEnd);
                } else if (v as usize) < start {
                    return Err(PositionError::EndBeforeStart);
                } else {
                    v as usize
                }
            },
            _ => {
                if check_end_token(range_parts[1].as_slice()) {
                    MAX_POS
                } else {
                    return Err(PositionError::InvalidFormat);
                }
            },
        };
        Ok(Position::new(read, strand, start, end))
    }

    /// Renders the spec back to its textual form.
    pub fn to_text(&self) -> (r: String)
        requires
            self.wf(),
        ensures
            vstd::utf8::encode_utf8(r@) == spec_format(*self),
            r@ == spec_format(*self).map_values(|b: u8| b as char),
    {
        let mut out: Vec<u8> = Vec::new();
        let tok = if self.read {
            tok_read2()
        } else {
            tok_read1()
        };
        let mut tok = tok;
        out.append(&mut tok);
        out.push(COLON);
        out.push(if self.strand {
            MINUS
        } else {
            PLUS
        });
        out.push(COLON);
        let mut start_dec = u64_to_dec(self.start as u64);
        out.append(&mut start_dec);
        out.push(MINUS);
        let mut end_dec = u64_to_dec(self.end as u64);
        out.append(&mut end_dec);
        proof {
            assert(out@ =~= spec_format(*self));
            lemma_format_ascii(*self);
        }
        ascii_to_string(&out)
    }
}

/// The rendered form holds ASCII bytes only.
pub proof fn lemma_format_ascii(p: Position)
    ensures
        all_ascii(spec_format(p)),
{
    lemma_spec_dec_digits(p.spec_start() as nat);
    lemma_spec_dec_digits(p.spec_end() as nat);
    lemma_digits_ascii(spec_dec(p.spec_start() as nat));
    lemma_digits_ascii(spec_dec(p.spec_end() as nat));
}

fn tok_read1() -> (v: Vec<u8>)
    ensures
        v@ == read1_tok(),
{
    let mut v: Vec<u8> = Vec::new();
    v.push(R_LOWER);
    v.push(E_LOWER);
    v.push(A_LOWER);
    v.push(D_LOWER);
    v.push(DIGIT_ONE);
    proof {
        assert(v@ =~= read1_tok());
    }
    v
}

fn tok_read2() -> (v: Vec<u8>)
    ensures
        v@ == read2_tok(),
{
    let mut v: Vec<u8> = Vec::new();
    v.push(R_LOWER);
    v.push(E_LOWER);
    v.push(A_LOWER);
    v.push(D_LOWER);
    v.push(DIGIT_TWO);
    proof {
        assert(v@ =~= read2_tok());
    }
    v
}

/// A digit string never spells a separator or a sign, never the word
/// `end`, and always parses back to its own value.
proof fn lemma_dec_part_facts(n: nat)
    requires
        n <= MAX_POS,
    ensures
        no_byte(spec_dec(n), COLON),
        no_byte(spec_dec(n), MINUS),
        is_number(spec_dec(n)),
        digits_val(num_body(spec_dec(n))) == n,
{
    lemma_spec_dec_digits(n);
    let d = spec_dec(n);
    assert forall|i: int| 0 <= i < d.len() implies #[trigger] d[i] != COLON by {
        assert(crate::text::is_digit(d[i]));
    }
    assert forall|i: int| 0 <= i < d.len() implies #[trigger] d[i] != MINUS by {
        assert(crate::text::is_digit(d[i]));
    }
    assert(crate::text::is_digit(d[0]));
    assert(d[0] != PLUS);
    assert(num_body(d) == d);
}

/// Formatting a well-formed position and parsing the text back yields
/// the same position, for every valid combination of read, strand,
/// start and end.
pub proof fn lemma_position_round_trip(p: Position)
    requires
        p.wf(),
    ensures
        spec_parse(spec_format(p)) == Ok::<Position, PositionError>(p),
{
    let rt = if p.spec_read() {
        read2_tok()
    } else {
        read1_tok()
    };
    let st = if p.spec_strand() {
        seq![MINUS]
    } else {
        seq![PLUS]
    };
    let sd = spec_dec(p.spec_start() as nat);
    let ed = spec_dec(p.spec_end() as nat);
    let range_part = sd + seq![MINUS] + ed;
    let tail = st + seq![COLON] + range_part;
    let s = spec_format(p);
    lemma_dec_part_facts(p.spec_start() as nat);
    lemma_dec_part_facts(p.spec_end() as nat);

    assert(s =~= rt + seq![COLON] + tail);
    assert(no_byte(rt, COLON));
    lemma_splitn_concat(rt, tail, COLON, usize::MAX as nat);
    assert(no_byte(st, COLON));
    lemma_splitn_concat(st, range_part, COLON, (usize::MAX - 1) as nat);
    assert(no_byte(range_part, COLON)) by {
        assert forall|i: int| 0 <= i < range_part.len() implies #[trigger] range_part[i]
            != COLON by {
            if i < sd.len() {
                assert(range_part[i] == sd[i]);
            } else if i == sd.len() {
                assert(range_part[i] == MINUS);
            } else {
                assert(range_part[i] == ed[i - sd.len() - 1]);
            }
        }
    }
    lemma_splitn_nosep(range_part, COLON, (usize::MAX - 2) as nat);
    let parts = spec_splitn(s, COLON, usize::MAX as nat);
    assert(parts =~= seq![rt, st, range_part]);

    lemma_splitn_concat(sd, ed, MINUS, usize::MAX as nat);
    lemma_splitn_nosep(ed, MINUS, (usize::MAX - 1) as nat);
    let range_parts = spec_splitn(range_part, MINUS, usize::MAX as nat);
    assert(range_parts =~= seq![sd, ed]);

    assert(rt != seq![PLUS] && rt != seq![MINUS]) by {
        assert(rt.len() == 5);
    }
    if p.spec_read() {
        assert(parts[0] == read2_tok());
        assert(read2_tok() != read1_tok()) by {
            assert(read2_tok()[4] != read1_tok()[4]);
        }
    } else {
        assert(parts[0] == read1_tok());
    }
    assert(st != read1_tok() && st != read2_tok()) by {
        assert(st.len() == 1);
    }

    assert(is_number(sd) && digits_val(num_body(sd)) == p.spec_start());
    assert(is_number(ed) && digits_val(num_body(ed)) == p.spec_end());
    assert(spec_parse(s) == Ok::<Position, PositionError>(p));
}

} // verus!
