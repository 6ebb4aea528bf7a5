//! The tile matcher: per tile, the overlap between the tile's own
//! candidate barcode set and a capped reference sample, held against a
//! pass/fail threshold; and the tile-id universe of the flow cell.

use vstd::prelude::*;

use vstd::string::StringExecFns;
use vstd::string::StringSliceAdditionalSpecFns;

use crate::dedup::{parse_tile_line, parsed_barcodes, spec_line_barcode};
use crate::error::AppError;
use crate::position::Position;
use crate::text::{bytes_eq, dec_str, digits_val, is_number, num_body, parse_u64, u64_to_string};

verus! {

/// The tile ids a flow cell can carry: 4 surfaces, 2 halves, 6 swaths
/// and 78 tiles, written as one decimal number.
pub open spec fn valid_tile_id(id: u64) -> bool {
    &&& 1 <= id / 10000 <= 4
    &&& 1 <= (id / 1000) % 10 <= 2
    &&& 1 <= (id / 100) % 10 <= 6
    &&& 1 <= id % 100 <= 78
}

/// Parses and screens one tile id given on the command line: it must
/// be an integer and lie in the valid tile universe.
pub fn is_valid_tile_id(value: &str) -> (r: Result<u64, String>)
    ensures
        ({
            let b = value.spec_bytes();
            if is_number(b) && digits_val(num_body(b)) <= u64::MAX {
                let v = digits_val(num_body(b)) as u64;
                if valid_tile_id(v) {
                    r == Ok::<u64, String>(v)
                } else {
                    r matches Err(m) && m@ == "tile_id "@ + dec_str(v as nat)
                        + " is not in the valid range (valid range: 11101-42678)"@
                }
            } else {
                r matches Err(m) && m@ == "`"@ + value@ + "` is not valid integer"@
            }
        }),
{
    let bytes = value.as_bytes();
    match parse_u64(bytes) {
        None => Err(
            String::from_str("`").concat(value).concat("` is not valid integer"),
        ),
        Some(v) => {
            let a = v / 10000;
            let b = (v / 1000) % 10;
            let c = (v / 100) % 10;
            let d = v % 100;
            if 1 <= a && a <= 4 && 1 <= b && b <= 2 && 1 <= c && c <= 6 && 1 <= d && d <= 78 {
                Ok(v)
            } else {
                Err(
                    String::from_str("tile_id ").concat(u64_to_string(v).as_str()).concat(
                        " is not in the valid range (valid range: 11101-42678)",
                    ),
                )
            }
        },
    }
}

/// A valid tile id is exactly its four digit groups put back together.
proof fn lemma_valid_decompose(x: u64)
    requires
        valid_tile_id(x),
    ensures
        x == (x / 10000) * 10000 + ((x / 1000) % 10) * 1000 + ((x / 100) % 10) * 100 + x % 100,
{
    assert(x == (x / 10000) * 10000 + ((x / 1000) % 10) * 1000 + ((x / 100) % 10) * 100 + x
        % 100) by (nonlinear_arith);
}

/// A valid tile id at or past the last tile of a swath already lies in
/// the next swath.
proof fn lemma_gap_swath(a: u64, b: u64, c: u64, x: u64)
    requires
        valid_tile_id(x),
        1 <= a <= 4,
        1 <= b <= 2,
        1 <= c <= 6,
        x >= a * 10000 + b * 1000 + c * 100 + 79,
    ensures
        x >= a * 10000 + b * 1000 + (c + 1) * 100 + 1,
{
    lemma_valid_decompose(x);
    let xa = x / 10000;
    let xb = (x / 1000) % 10;
    let xc = (x / 100) % 10;
    let xd = x % 100;
    assert(x >= a * 10000 + b * 1000 + (c + 1) * 100 + 1) by (nonlinear_arith)
        requires
            x == xa * 10000 + xb * 1000 + xc * 100 + xd,
            1 <= xa <= 4,
            1 <= xb <= 2,
            1 <= xc <= 6,
            1 <= xd <= 78,
            1 <= a <= 4,
            1 <= b <= 2,
            1 <= c <= 6,
            x >= a * 10000 + b * 1000 + c * 100 + 79,
    ;
}

/// A valid tile id at or past the last tile of a half already lies in
/// the next half.
proof fn lemma_gap_half(a: u64, b: u64, x: u64)
    requires
        valid_tile_id(x),
        1 <= a <= 4,
        1 <= b <= 2,
        x >= a * 10000 + b * 1000 + 679,
    ensures
        x >= a * 10000 + (b + 1) * 1000 + 101,
{
    lemma_valid_decompose(x);
    let xa = x / 10000;
    let xb = (x / 1000) % 10;
    let xc = (x / 100) % 10;
    let xd = x % 100;
    assert(x >= a * 10000 + (b + 1) * 1000 + 101) by (nonlinear_arith)
        requires
            x == xa * 10000 + xb * 1000 + xc * 100 + xd,
            1 <= xa <= 4,
            1 <= xb <= 2,
            1 <= xc <= 6,
            1 <= xd <= 78,
            1 <= a <= 4,
            1 <= b <= 2,
            x >= a * 10000 + b * 1000 + 679,
    ;
}

/// A valid tile id at or past the last tile of a surface already lies
/// on the next surface.
proof fn lemma_gap_surface(a: u64, x: u64)
    requires
        valid_tile_id(x),
        1 <= a <= 4,
        x >= a * 10000 + 2679,
    ensures
        x >= (a + 1) * 10000 + 1101,
{
    lemma_valid_decompose(x);
    let xa = x / 10000;
    let xb = (x / 1000) % 10;
    let xc = (x / 100) % 10;
    let xd = x % 100;
    assert(x >= (a + 1) * 10000 + 1101) by (nonlinear_arith)
        requires
            x == xa * 10000 + xb * 1000 + xc * 100 + xd,
            1 <= xa <= 4,
            1 <= xb <= 2,
            1 <= xc <= 6,
            1 <= xd <= 78,
            1 <= a <= 4,
            x >= a * 10000 + 2679,
    ;
}

/// Every tile id of the flow cell, in increasing order: all 3744 valid
/// ids, each exactly once.
pub fn all_valid_tile_ids() -> (r: Vec<u64>)
    ensures
        r@.len() == 3744,
        forall|i: int| 0 <= i < r@.len() ==> valid_tile_id(#[trigger] r@[i]),
        forall|i: int, j: int| 0 <= i < j < r@.len() ==> r@[i] < r@[j],
        forall|id: u64| valid_tile_id(id) ==> r@.contains(id),
{
    let mut out: Vec<u64> = Vec::new();
    let mut a: u64 = 1;
    while a <= 4
        invariant
            1 <= a <= 5,
            out@.len() == (a - 1) * 2 * 6 * 78,
            forall|i: int| 0 <= i < out@.len() ==> valid_tile_id(#[trigger] out@[i]),
            forall|i: int| 0 <= i < out@.len() ==> #[trigger] out@[i] < a * 10000 + 1101,
            forall|i: int, j: int| 0 <= i < j < out@.len() ==> out@[i] < out@[j],
            forall|id: u64|
                valid_tile_id(id) && id < a * 10000 + 1101 ==> out@.contains(id),
        decreases 5 - a,
    {
        let mut b: u64 = 1;
        while b <= 2
            invariant
                1 <= a <= 4,
                1 <= b <= 3,
                out@.len() == (a - 1) * 2 * 6 * 78 + (b - 1) * 6 * 78,
                forall|i: int| 0 <= i < out@.len() ==> valid_tile_id(#[trigger] out@[i]),
                forall|i: int|
                    0 <= i < out@.len() ==> #[trigger] out@[i] < a * 10000 + b * 1000 + 101,
                forall|i: int, j: int| 0 <= i < j < out@.len() ==> out@[i] < out@[j],
                forall|id: u64|
                    valid_tile_id(id) && id < a * 10000 + b * 1000 + 101 ==> out@.contains(id),
            decreases 3 - b,
        {
            let mut c: u64 = 1;
            while c <= 6
                invariant
                    1 <= a <= 4,
                    1 <= b <= 2,
                    1 <= c <= 7,
                    out@.len() == (a - 1) * 2 * 6 * 78 + (b - 1) * 6 * 78 + (c - 1) * 78,
                    forall|i: int| 0 <= i < out@.len() ==> valid_tile_id(#[trigger] out@[i]),
                    forall|i: int|
                        0 <= i < out@.len() ==> #[trigger] out@[i] < a * 10000 + b * 1000 + c * 100
                            + 1,
                    forall|i: int, j: int| 0 <= i < j < out@.len() ==> out@[i] < out@[j],
                    forall|id: u64|
                        valid_tile_id(id) && id < a * 10000 + b * 1000 + c * 100 + 1
                            ==> out@.contains(id),
                decreases 7 - c,
            {
                let mut d: u64 = 1;
                while d <= 78
                    invariant
                        1 <= a <= 4,
                        1 <= b <= 2,
                        1 <= c <= 6,
                        1 <= d <= 79,
                        out@.len() == (a - 1) * 2 * 6 * 78 + (b - 1) * 6 * 78 + (c - 1) * 78 + (d
                            - 1),
                        forall|i: int| 0 <= i < out@.len() ==> valid_tile_id(#[trigger] out@[i]),
                        forall|i: int|
                            0 <= i < out@.len() ==> #[trigger] out@[i] < a * 10000 + b * 1000 + c
                                * 100 + d,
                        forall|i: int, j: int| 0 <= i < j < out@.len() ==> out@[i] < out@[j],
                        forall|id: u64|
                            valid_tile_id(id) && id < a * 10000 + b * 1000 + c * 100 + d
                                ==> out@.contains(id),
                    decreases 79 - d,
                {
                    let id = a * 10000 + b * 1000 + c * 100 + d;
                    assert(valid_tile_id(id)) by {
                        assert(id / 10000 == a) by (nonlinear_arith)
                            requires
                                1 <= a <= 4,
                                1 <= b <= 2,
                                1 <= c <= 6,
                                1 <= d <= 78,
                                id == a * 10000 + b * 1000 + c * 100 + d,
                        ;
                        assert((id / 1000) % 10 == b) by (nonlinear_arith)
                            requires
                                1 <= a <= 4,
                                1 <= b <= 2,
                                1 <= c <= 6,
                                1 <= d <= 78,
                                id == a * 10000 + b * 1000 + c * 100 + d,
                        ;
                        assert((id / 100) % 10 == c) by (nonlinear_arith)
                            requires
                                1 <= a <= 4,
                                1 <= b <= 2,
                                1 <= c <= 6,
                                1 <= d <= 78,
                                id == a * 10000 + b * 1000 + c * 100 + d,
                        ;
                        assert(id % 100 == d) by (nonlinear_arith)
                            requires
                                1 <= a <= 4,
                                1 <= b <= 2,
                                1 <= c <= 6,
                                1 <= d <= 78,
                                id == a * 10000 + b * 1000 + c * 100 + d,
                        ;
                    }
                    let ghost out0 = out@;
                    out.push(id);
                    proof {
                        assert forall|x: u64|
                            valid_tile_id(x) && x < a * 10000 + b * 1000 + c * 100 + (d + 1)
                                implies out@.contains(x) by {
                            if x < a * 10000 + b * 1000 + c * 100 + d {
                                let i = choose|i: int| 0 <= i < out0.len() && out0[i] == x;
                                assert(out@[i] == x);
                            } else {
                                assert(x == id);
                                assert(out@[out@.len() - 1] == x);
                            }
                        }
                    }
                    d += 1;
                }
                proof {
                    assert forall|x: u64|
                        valid_tile_id(x) && x < a * 10000 + b * 1000 + (c + 1) * 100 + 1
                            implies out@.contains(x) by {
                        if x >= a * 10000 + b * 1000 + c * 100 + 79 {
                            lemma_gap_swath(a, b, c, x);
                        }
                    }
                }
                c += 1;
            }
            proof {
                assert forall|x: u64|
                    valid_tile_id(x) && x < a * 10000 + (b + 1) * 1000 + 101 implies out@.contains(
                    x,
                ) by {
                    if x >= a * 10000 + b * 1000 + 679 {
                        lemma_gap_half(a, b, x);
                    }
                }
            }
            b += 1;
        }
        proof {
            assert forall|x: u64|
                valid_tile_id(x) && x < (a + 1) * 10000 + 1101 implies out@.contains(x) by {
                if x >= a * 10000 + 2679 {
                    lemma_gap_surface(a, x);
                }
            }
        }
        a += 1;
    }
    proof {
        assert(out@.len() == 3744);
        assert forall|id: u64| valid_tile_id(id) implies out@.contains(id) by {
            assert(id < 5 * 10000 + 1101);
        }
    }
    out
}

/// An operator threshold in [0, 1], held as the exact fraction
/// `num / den`.
#[derive(Debug, Clone, Copy, PartialEq, Eq, Structural)]
pub struct Threshold {
    pub num: u64,
    pub den: u64,
}

impl Threshold {
    pub open spec fn wf(&self) -> bool {
        self.den > 0 && self.num <= self.den
    }

    pub fn new(num: u64, den: u64) -> (r: Self)
        requires
            den > 0,
            num <= den,
        ensures
            r == (Threshold { num, den }),
            r.wf(),
    {
        Threshold { num, den }
    }
}

/// The verdict on one tile, produced once and never changed.
#[derive(Debug, Clone, PartialEq, Eq, Structural)]
pub struct TileMatchReport {
    pub tile_id: u64,
    pub passed_num: usize,
    pub total_num: usize,
    pub pass_threshold: bool,
}

impl TileMatchReport {
    fn new(tile_id: u64, passed_num: usize, total_num: usize, pass_threshold: bool) -> (r: Self)
        ensures
            r == (TileMatchReport { tile_id, passed_num, total_num, pass_threshold }),
    {
        Self { tile_id, passed_num, total_num, pass_threshold }
    }

    #[inline]
    pub fn tile_id(&self) -> (r: u64)
        ensures
            r == self.tile_id,
    {
        self.tile_id
    }

    #[inline]
    pub fn pass_threshold(&self) -> (r: bool)
        ensures
            r == self.pass_threshold,
    {
        self.pass_threshold
    }

    #[inline]
    pub fn passed_num(&self) -> (r: usize)
        ensures
            r == self.passed_num,
    {
        self.passed_num
    }

    #[inline]
    pub fn total_num(&self) -> (r: usize)
        ensures
            r == self.total_num,
    {
        self.total_num
    }
}

/// Whether a tile whose candidate set has `total` values, `matched` of
/// them shared with the reference sample, reaches the threshold. A
/// tile without candidates never passes: the ratio is taken as zero,
/// never as a division fault.
pub open spec fn spec_passes(matched: int, total: int, t: Threshold) -> bool {
    total > 0 && matched * t.den >= t.num * total
}

/// The verdict one tile should get.
pub open spec fn spec_match_tile(
    tile_id: u64,
    lines: Seq<Seq<u8>>,
    sample: Set<Seq<u8>>,
    t: Threshold,
) -> TileMatchReport {
    let tile_set = parsed_barcodes(lines);
    let matched = tile_set.intersect(sample).len() as int;
    let total = tile_set.len() as int;
    TileMatchReport {
        tile_id,
        passed_num: matched as usize,
        total_num: total as usize,
        pass_threshold: spec_passes(matched, total, t),
    }
}

/// Whether a reference sample holds a barcode.
fn sample_contains(sample: &Vec<Vec<u8>>, needle: &[u8]) -> (r: bool)
    ensures
        r == sample@.map_values(|v: Vec<u8>| v@).contains(needle@),
{
    let ghost mapped = sample@.map_values(|v: Vec<u8>| v@);
    let mut i: usize = 0;
    while i < sample.len()
        invariant
            0 <= i <= sample@.len(),
            mapped == sample@.map_values(|v: Vec<u8>| v@),
            forall|j: int| 0 <= j < i ==> #[trigger] mapped[j] != needle@,
        decreases sample@.len() - i,
    {
        if bytes_eq(sample[i].as_slice(), needle) {
            proof {
                assert(mapped[i as int] == needle@);
            }
            return true;
        }
        proof {
            assert(mapped[i as int] == sample@[i as int]@);
        }
        i += 1;
    }
    proof {
        if mapped.contains(needle@) {
            let j = choose|j: int| 0 <= j < mapped.len() && mapped[j] == needle@;
            assert(mapped[j] != needle@);
        }
    }
    false
}

/// A sequence of pairwise distinct values counts its own set.
proof fn lemma_distinct_to_set_len<A>(s: Seq<A>)
    requires
        forall|i: int, j: int| 0 <= i < j < s.len() ==> s[i] != s[j],
    ensures
        s.to_set().finite(),
        s.to_set().len() == s.len(),
{
    assert(s.no_duplicates());
    s.unique_seq_to_set();
}

/// Computes one tile's report: the candidate set is the distinct
/// barcode values of the tile's fetched lines (no cross-tile dedup),
/// the matched count is its overlap with the reference sample, and the
/// verdict holds the ratio against the threshold. A malformed line is
/// the fatal store-format error.
pub fn match_tile(
    tile_id: u64,
    lines: &Vec<Vec<u8>>,
    sample: &Vec<Vec<u8>>,
    threshold: Threshold,
) -> (r: Result<TileMatchReport, AppError>)
    requires
        threshold.wf(),
        forall|i: int, j: int| 0 <= i < j < sample@.len() ==> sample@[i]@ != sample@[j]@,
    ensures
        ({
            let ls = lines@.map_values(|l: Vec<u8>| l@);
            let sam = sample@.map_values(|v: Vec<u8>| v@).to_set();
            if forall|i: int| 0 <= i < ls.len() ==> (#[trigger] spec_line_barcode(ls[i])) is Some {
                r == Ok::<TileMatchReport, AppError>(
                    spec_match_tile(tile_id, ls, sam, threshold),
                )
            } else {
                r matches Err(e) && e matches AppError::IoError(m) && m@
                    == "Invalid tile's barcode file format"@
            }
        }),
{
    let ghost ls = lines@.map_values(|l: Vec<u8>| l@);
    let ghost sam = sample@.map_values(|v: Vec<u8>| v@).to_set();
    let mut uniq: Vec<Vec<u8>> = Vec::new();
    let mut matched: usize = 0;
    let mut i: usize = 0;
    proof {
        assert(ls.subrange(0, 0) =~= Seq::<Seq<u8>>::empty());
        assert(rev_parsed(Seq::<Seq<u8>>::empty()) =~= Set::<Seq<u8>>::empty());
    }
    while i < lines.len()
        invariant
            0 <= i <= lines@.len(),
            ls == lines@.map_values(|l: Vec<u8>| l@),
            sam == sample@.map_values(|v: Vec<u8>| v@).to_set(),
            forall|j: int, k: int| 0 <= j < k < sample@.len() ==> sample@[j]@ != sample@[k]@,
            forall|j: int|
                0 <= j < i ==> (#[trigger] spec_line_barcode(ls[j])) is Some,
            forall|j: int, k: int| 0 <= j < k < uniq@.len() ==> uniq@[j]@ != uniq@[k]@,
            uniq@.map_values(|v: Vec<u8>| v@).to_set() == rev_parsed(ls.subrange(0, i as int)),
            matched == uniq@.map_values(|v: Vec<u8>| v@).filter(|b: Seq<u8>| sam.contains(b)).len(),
            matched <= i,
        decreases lines@.len() - i,
    {
        let ghost prefix = ls.subrange(0, i as int);
        let ghost uniq0 = uniq@.map_values(|v: Vec<u8>| v@);
        let line = &lines[i];
        proof {
            assert(ls[i as int] == lines@[i as int]@);
        }
        match parse_tile_line(line.as_slice()) {
            None => {
                return Err(
                    AppError::IoError(String::from_str("Invalid tile's barcode file format")),
                );
            },
            Some(barcode) => {
                let ghost b = barcode@;
                proof {
                    assert(ls.subrange(0, i + 1) =~= prefix.push(ls[i as int]));
                    lemma_rev_parsed_push(prefix, ls[i as int], b);
                }
                let mut present = false;
                let mut k: usize = 0;
                let n = uniq.len();
                while k < n && !present
                    invariant
                        0 <= k <= n,
                        n == uniq@.len(),
                        uniq0 == uniq@.map_values(|v: Vec<u8>| v@),
                        b == barcode@,
                        !present ==> forall|j: int| 0 <= j < k ==> #[trigger] uniq0[j] != b,
                        present ==> uniq0.contains(b),
                    decreases n - k, (if present { 0int } else { 1int }),
                {
                    if bytes_eq(uniq[k].as_slice(), barcode.as_slice()) {
                        proof {
                            assert(uniq0[k as int] == uniq@[k as int]@);
                            assert(uniq0[k as int] == b);
                        }
                        present = true;
                    } else {
                        proof {
                            assert(uniq0[k as int] == uniq@[k as int]@);
                        }
                        k += 1;
                    }
                }
                if !present {
                    proof {
                        assert(uniq0.len() == uniq@.len());
                        if uniq0.contains(b) {
                            let j = choose|j: int| 0 <= j < uniq0.len() && uniq0[j] == b;
                            assert(uniq0[j] != b);
                        }
                    }
                    let in_sample = sample_contains(sample, barcode.as_slice());
                    let ghost upre = uniq@;
                    uniq.push(barcode);
                    proof {
                        assert(uniq@.map_values(|v: Vec<u8>| v@) =~= uniq0.push(b));
                        assert forall|j: int, k: int|
                            0 <= j < k < uniq@.len() implies uniq@[j]@ != uniq@[k]@ by {
                            if k == uniq@.len() - 1 {
                                assert(uniq@[j] == upre[j]);
                                assert(uniq@[k]@ == b);
                                assert(uniq0[j] == upre[j]@);
                                assert(uniq0[j] != b);
                            } else {
                                assert(uniq@[j] == upre[j]);
                                assert(uniq@[k] == upre[k]);
                            }
                        }
                        uniq0.lemma_push_to_set_commute(b);
                        let f = |x: Seq<u8>| sam.contains(x);
                        assert(uniq0.push(b).drop_last() =~= uniq0);
                        reveal_with_fuel(Seq::filter, 2);
                        if in_sample {
                            assert(sam.contains(b));
                            assert(uniq0.push(b).filter(f) =~= uniq0.filter(f).push(b));
                        } else {
                            assert(!sam.contains(b));
                            assert(uniq0.push(b).filter(f) =~= uniq0.filter(f));
                        }
                    }
                    if in_sample {
                        matched = matched + 1;
                    }
                } else {
                    proof {
                        assert(uniq@.map_values(|v: Vec<u8>| v@).to_set() =~= rev_parsed(
                            ls.subrange(0, i + 1),
                        ));
                    }
                }
            },
        }
        i += 1;
    }
    proof {
        assert(ls.subrange(0, ls.len() as int) =~= ls);
        lemma_rev_parsed_is_parsed(ls);
        let uniqs = uniq@.map_values(|v: Vec<u8>| v@);
        lemma_distinct_to_set_len(uniqs);
        lemma_filter_counts_intersection(uniqs, sam);
        assert(uniqs.to_set() == parsed_barcodes(ls));
    }
    let total = uniq.len();
    proof {
        assert((matched as int) * (threshold.den as int) < 0x100000000000000000000000000000000int)
            by (nonlinear_arith)
            requires
                0 <= matched <= u64::MAX,
                0 <= threshold.den <= u64::MAX,
        ;
        assert((threshold.num as int) * (total as int) < 0x100000000000000000000000000000000int)
            by (nonlinear_arith)
            requires
                0 <= threshold.num <= u64::MAX,
                0 <= total <= u64::MAX,
        ;
    }
    let passes = if total == 0 {
        false
    } else {
        (matched as u128) * (threshold.den as u128) >= (threshold.num as u128) * (total as u128)
    };
    Ok(TileMatchReport::new(tile_id, matched, total, passes))
}

/// `parsed_barcodes`, accumulated front to back; the loop builds it in
/// this order.
pub open spec fn rev_parsed(lines: Seq<Seq<u8>>) -> Set<Seq<u8>>
    decreases lines.len(),
{
    if lines.len() == 0 {
        Set::empty()
    } else {
        match spec_line_barcode(lines.last()) {
            Some(b) => rev_parsed(lines.drop_last()).insert(b),
            None => rev_parsed(lines.drop_last()),
        }
    }
}

proof fn lemma_rev_parsed_push(lines: Seq<Seq<u8>>, line: Seq<u8>, b: Seq<u8>)
    requires
        spec_line_barcode(line) == Some(b),
    ensures
        rev_parsed(lines.push(line)) == rev_parsed(lines).insert(b),
{
    assert(lines.push(line).last() == line);
    assert(lines.push(line).drop_last() =~= lines);
}

/// Both accumulation orders yield the same set of barcode values.
proof fn lemma_rev_parsed_is_parsed(lines: Seq<Seq<u8>>)
    ensures
        rev_parsed(lines) == parsed_barcodes(lines),
    decreases lines.len(),
{
    if lines.len() == 0 {
        assert(rev_parsed(lines) =~= parsed_barcodes(lines));
    } else {
        let front = lines.drop_first();
        let back = lines.drop_last();
        lemma_rev_parsed_is_parsed(back);
        lemma_parsed_mid(lines);
    }
}

/// Removing the last line removes at most its own barcode from the
/// front-recursion set.
proof fn lemma_parsed_mid(lines: Seq<Seq<u8>>)
    requires
        lines.len() > 0,
    ensures
        parsed_barcodes(lines) == (match spec_line_barcode(lines.last()) {
            Some(b) => parsed_barcodes(lines.drop_last()).insert(b),
            None => parsed_barcodes(lines.drop_last()),
        }),
    decreases lines.len(),
{
    if lines.len() == 1 {
        assert(lines.drop_last() =~= Seq::<Seq<u8>>::empty());
        assert(lines.drop_first() =~= Seq::<Seq<u8>>::empty());
        match spec_line_barcode(lines[0]) {
            Some(b) => {
                assert(lines.last() == lines[0]);
                assert(parsed_barcodes(lines) == parsed_barcodes(
                    Seq::<Seq<u8>>::empty(),
                ).insert(b));
            },
            None => {
            },
        }
    } else {
        let rest = lines.drop_first();
        lemma_parsed_mid(rest);
        assert(rest.last() == lines.last());
        assert(rest.drop_last() =~= lines.drop_last().drop_first());
        assert(lines.drop_last()[0] == lines[0]);
        assert(lines.drop_last().drop_first() =~= rest.drop_last());
        match spec_line_barcode(lines.last()) {
            Some(b) => {
                match spec_line_barcode(lines[0]) {
                    Some(c) => {
                        assert(parsed_barcodes(lines) == parsed_barcodes(rest).insert(c));
                        assert(parsed_barcodes(rest) == parsed_barcodes(rest.drop_last()).insert(
                            b,
                        ));
                        assert(parsed_barcodes(lines.drop_last()) == parsed_barcodes(
                            rest.drop_last(),
                        ).insert(c));
                        assert(parsed_barcodes(rest.drop_last()).insert(b).insert(c)
                            =~= parsed_barcodes(rest.drop_last()).insert(c).insert(b));
                    },
                    None => {
                    },
                }
            },
            None => {
            },
        }
    }
}

/// On a pairwise distinct sequence, counting the values a set shares
/// with it counts the intersection of the two sets.
proof fn lemma_filter_counts_intersection(s: Seq<Seq<u8>>, sam: Set<Seq<u8>>)
    requires
        forall|i: int, j: int| 0 <= i < j < s.len() ==> s[i] != s[j],
    ensures
        s.filter(|b: Seq<u8>| sam.contains(b)).len() == s.to_set().intersect(sam).len(),
    decreases s.len(),
{
    let f = |b: Seq<u8>| sam.contains(b);
    if s.len() == 0 {
        assert(s.filter(f) =~= Seq::<Seq<u8>>::empty());
        assert(s.to_set() =~= Set::<Seq<u8>>::empty());
        assert(s.to_set().intersect(sam) =~= Set::<Seq<u8>>::empty());
    } else {
        let rest = s.drop_last();
        let b = s.last();
        lemma_filter_counts_intersection(rest, sam);
        reveal_with_fuel(Seq::filter, 2);
        rest.lemma_push_to_set_commute(b);
        assert(rest.push(b) =~= s);
        assert(s.to_set() == rest.to_set().insert(b));
        assert(!rest.to_set().contains(b)) by {
            if rest.to_set().contains(b) {
                let j = choose|j: int| 0 <= j < rest.len() && rest[j] == b;
                assert(s[j] == rest[j]);
                assert(s[j] != s[s.len() - 1]);
            }
        }
        lemma_distinct_to_set_len(rest);
        if sam.contains(b) {
            assert(s.filter(f) =~= rest.filter(f).push(b));
            assert(s.to_set().intersect(sam) =~= rest.to_set().intersect(sam).insert(b));
            assert(!rest.to_set().intersect(sam).contains(b));
            assert(rest.to_set().intersect(sam).finite()) by {
                lemma_distinct_to_set_len(rest);
            }
        } else {
            assert(s.filter(f) =~= rest.filter(f));
            assert(s.to_set().intersect(sam) =~= rest.to_set().intersect(sam));
        }
    }
}

/// One tile's fetched store lines, keyed by its id.
#[derive(Debug)]
pub struct TileLines {
    pub tile_id: u64,
    pub lines: Vec<Vec<u8>>,
}

/// Computes every tile's report, in tile order. The first malformed
/// line of any tile fails the whole search.
pub fn search_tiles(
    tiles: &Vec<TileLines>,
    sample: &Vec<Vec<u8>>,
    threshold: Threshold,
) -> (r: Result<Vec<TileMatchReport>, AppError>)
    requires
        threshold.wf(),
        forall|i: int, j: int| 0 <= i < j < sample@.len() ==> sample@[i]@ != sample@[j]@,
    ensures
        ({
            let sam = sample@.map_values(|v: Vec<u8>| v@).to_set();
            if forall|t: int, i: int|
                0 <= t < tiles@.len() && 0 <= i < tiles@[t].lines@.len()
                    ==> (#[trigger] spec_line_barcode(tiles@[t].lines@[i]@)) is Some {
                r matches Ok(reports) && reports@.len() == tiles@.len() && (forall|t: int|
                    0 <= t < tiles@.len() ==> #[trigger] reports@[t] == spec_match_tile(
                        tiles@[t].tile_id,
                        tiles@[t].lines@.map_values(|l: Vec<u8>| l@),
                        sam,
                        threshold,
                    ))
            } else {
                r matches Err(e) && e matches AppError::IoError(m) && m@
                    == "Invalid tile's barcode file format"@
            }
        }),
{
    let ghost sam = sample@.map_values(|v: Vec<u8>| v@).to_set();
    let mut reports: Vec<TileMatchReport> = Vec::new();
    let mut t: usize = 0;
    while t < tiles.len()
        invariant
            0 <= t <= tiles@.len(),
            sam == sample@.map_values(|v: Vec<u8>| v@).to_set(),
            threshold.wf(),
            forall|i: int, j: int| 0 <= i < j < sample@.len() ==> sample@[i]@ != sample@[j]@,
            reports@.len() == t,
            forall|u: int, i: int|
                0 <= u < t && 0 <= i < tiles@[u].lines@.len() ==> (#[trigger] spec_line_barcode(
                    tiles@[u].lines@[i]@,
                )) is Some,
            forall|u: int|
                0 <= u < t ==> #[trigger] reports@[u] == spec_match_tile(
                    tiles@[u].tile_id,
                    tiles@[u].lines@.map_values(|l: Vec<u8>| l@),
                    sam,
                    threshold,
                ),
        decreases tiles@.len() - t,
    {
        let tile = &tiles[t];
        match match_tile(tile.tile_id, &tile.lines, sample, threshold) {
            Err(e) => {
                proof {
                    let ls = tiles@[t as int].lines@.map_values(|l: Vec<u8>| l@);
                    assert(!(forall|i: int|
                        0 <= i < ls.len() ==> (#[trigger] spec_line_barcode(ls[i])) is Some));
                    let i = choose|i: int|
                        0 <= i < ls.len() && !((#[trigger] spec_line_barcode(ls[i])) is Some);
                    assert(ls[i] == tiles@[t as int].lines@[i]@);
                }
                return Err(e);
            },
            Ok(report) => {
                proof {
                    let ls = tiles@[t as int].lines@.map_values(|l: Vec<u8>| l@);
                    assert(forall|i: int|
                        0 <= i < ls.len() ==> (#[trigger] spec_line_barcode(ls[i])) is Some);
                    assert forall|i: int| 0 <= i < tiles@[t as int].lines@.len() implies (
                    #[trigger] spec_line_barcode(tiles@[t as int].lines@[i]@)) is Some by {
                        assert(ls[i] == tiles@[t as int].lines@[i]@);
                        assert(spec_line_barcode(ls[i]) is Some);
                    }
                }
                reports.push(report);
            },
        }
        t += 1;
    }
    Ok(reports)
}

/// The whole matching run of one invocation: build the capped
/// reference sample from the primary record stream, then judge every
/// tile's fetched candidate set against it. The verdicts depend only
/// on which values the sample holds, so they are deterministic in
/// content even though the sample's internal order is not.
pub fn search_tile(
    records: &Vec<crate::pipeline::SequencingRecord>,
    pos: &Position,
    pattern: &[u8],
    num_barcode: usize,
    tiles: &Vec<TileLines>,
    threshold: Threshold,
) -> (r: Result<Vec<TileMatchReport>, AppError>)
    requires
        pos.wf(),
        threshold.wf(),
        forall|i: int|
            0 <= i < records@.len() ==> (#[trigger] records@[i]).seq@.len() >= pos.spec_end()
                && records@[i].qual@.len() >= pos.spec_end(),
    ensures
        ({
            let run = crate::sample::sample_run_spec(
                *pos,
                pattern@,
                num_barcode as nat,
                crate::sample::SampleStateV { seen: Set::empty(), count: 0 },
                records@.map_values(|x: crate::pipeline::SequencingRecord| (x.seq@, x.qual@)),
            );
            match run.error {
                Some(e) => r == Err::<Vec<TileMatchReport>, AppError>(e),
                None => {
                    if forall|t: int, i: int|
                        0 <= t < tiles@.len() && 0 <= i < tiles@[t].lines@.len()
                            ==> (#[trigger] spec_line_barcode(tiles@[t].lines@[i]@)) is Some {
                        r matches Ok(reports) && reports@.len() == tiles@.len() && (forall|t: int|
                            0 <= t < tiles@.len() ==> #[trigger] reports@[t] == spec_match_tile(
                                tiles@[t].tile_id,
                                tiles@[t].lines@.map_values(|l: Vec<u8>| l@),
                                run.state.seen,
                                threshold,
                            ))
                    } else {
                        r matches Err(e) && e matches AppError::IoError(m) && m@
                            == "Invalid tile's barcode file format"@
                    }
                },
            }
        }),
{
    let sample = match crate::sample::extract_sample_barcodes(pos, pattern, records, num_barcode) {
        Ok(s) => s,
        Err(e) => {
            return Err(e);
        },
    };
    proof {
        assert(sample@.map_values(|v: Vec<u8>| v@).to_set() == crate::sample::sample_run_spec(
            *pos,
            pattern@,
            num_barcode as nat,
            crate::sample::SampleStateV { seen: Set::empty(), count: 0 },
            records@.map_values(|x: crate::pipeline::SequencingRecord| (x.seq@, x.qual@)),
        ).state.seen);
    }
    search_tiles(tiles, &sample, threshold)
}

/// Barcode parsing modes for the tile matcher.
#[derive(Clone, Copy, Debug, PartialEq, Eq, Structural)]
pub enum BarcodeMode {
    Openst,
    Custom,
}

impl BarcodeMode {
    /// The built-in preset: the barcode lies at bases 2..30 of read1 on
    /// the forward strand, under the probe's degenerate pattern.
    pub fn openst() -> (r: (Position, String))
        ensures
            r.0 == (Position { read: false, strand: false, start: 2, end: 30, len: 28 }),
            r.0.wf(),
            r.1@ == "VNBVNNVNNVNNVNNVNNVNNVNNVNNN"@,
    {
        let pos = Position::new(false, false, 2, 30);
        let pattern: String = String::from_str("VNBVNNVNNVNNVNNVNNVNNVNNVNNN");
        (pos, pattern)
    }
}

} // verus!
