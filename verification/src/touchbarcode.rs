//! The barcode-touch workflow's own logic: validation of degenerate
//! barcode patterns, the run-settings record with its derived file
//! paths, and the scan of a run-info document for tile ids. Running
//! the conversion tools themselves is the caller's business.

use vstd::prelude::*;

use vstd::string::StringExecFns;
use vstd::string::StringSliceAdditionalSpecFns;

use crate::ascii::{
    A_UPPER, B_UPPER, C_UPPER, DIGIT_FOUR, DIGIT_ONE, D_UPPER, E_LOWER, GREATER_THAN, G_UPPER,
    H_UPPER, I_LOWER, K_UPPER, LESS_THAN, L_LOWER, M_UPPER, N_UPPER, R_UPPER, SLASH, S_UPPER,
    T_UPPER, UNDERSCORE, U_UPPER, V_UPPER, W_UPPER, Y_UPPER,
};
use crate::error::AppError;
use crate::position::Position;
use crate::text::is_digit;

verus! {

/// The symbols a degenerate barcode pattern may hold.
pub open spec fn pattern_code_ok(b: u8) -> bool {
    b == A_UPPER || b == T_UPPER || b == G_UPPER || b == C_UPPER || b == U_UPPER || b == R_UPPER
        || b == Y_UPPER || b == M_UPPER || b == K_UPPER || b == S_UPPER || b == W_UPPER || b
        == H_UPPER || b == B_UPPER || b == V_UPPER || b == D_UPPER || b == N_UPPER
}

pub open spec fn spec_pattern_valid(s: Seq<u8>) -> bool {
    s.len() > 0 && forall|i: int| 0 <= i < s.len() ==> pattern_code_ok(#[trigger] s[i])
}

/// Screens a barcode pattern given on the command line: one or more
/// IUPAC symbols and nothing else.
pub fn validate_barcode_pattern(s: &str) -> (r: Result<String, String>)
    ensures
        spec_pattern_valid(s.spec_bytes()) ==> (r matches Ok(v) && v@ == s@),
        !spec_pattern_valid(s.spec_bytes()) ==> (r matches Err(m) && m@
            == "Invalid barcode pattern. \n            Allowed characters: A, T, G, C, R, Y, M, K, S, W, H, B, V, D, N"@),
{
    let bytes = s.as_bytes();
    let mut ok = bytes.len() > 0;
    let mut i: usize = 0;
    while i < bytes.len()
        invariant
            0 <= i <= bytes@.len(),
            ok == (bytes@.len() > 0 && forall|j: int|
                0 <= j < i ==> pattern_code_ok(#[trigger] bytes@[j])),
        decreases bytes@.len() - i,
    {
        let b = bytes[i];
        let good = b == A_UPPER || b == T_UPPER || b == G_UPPER || b == C_UPPER || b == U_UPPER
            || b == R_UPPER || b == Y_UPPER || b == M_UPPER || b == K_UPPER || b == S_UPPER || b
            == W_UPPER || b == H_UPPER || b == B_UPPER || b == V_UPPER || b == D_UPPER || b
            == N_UPPER;
        ok = ok && good;
        i += 1;
    }
    if ok {
        Ok(s.to_owned())
    } else {
        Err(
            String::from_str(
                "Invalid barcode pattern. \n            Allowed characters: A, T, G, C, R, Y, M, K, S, W, H, B, V, D, N",
            ),
        )
    }
}

/// Barcode parsing modes for the touch workflow.
#[derive(Clone, Copy, Debug, PartialEq, Eq, Structural)]
pub enum BarcodeMode {
    Openst,
    Custom,
}

impl BarcodeMode {
    /// The built-in preset: the barcode lies at bases 2..30 of the
    /// single-ended read, reverse-complemented, under the probe's
    /// degenerate pattern.
    pub fn openst() -> (r: (Position, String))
        ensures
            r.0 == (Position { read: false, strand: true, start: 2, end: 30, len: 28 }),
            r.0.wf(),
            r.1@ == "NNNBNNBNNBNNBNNBNNBNNBNNBVNB"@,
    {
        let pos = Position::new(false, true, 2, 30);
        let pattern: String = String::from_str("NNNBNNBNNBNNBNNBNNBNNBNNBVNB");
        (pos, pattern)
    }
}

/// The validated settings of one touch run, with its derived paths.
#[derive(Debug, Clone)]
pub struct InitTouchBarcodeArgs {
    pub bcl_dir: String,
    pub output: String,
    pub fastqc: bool,
    pub pos: Position,
    pub pattern: String,
}

impl InitTouchBarcodeArgs {
    pub fn new(bcl_dir: String, output: String, fastqc: bool, pos: Position, pattern: String) -> (
        r: Self)
        ensures
            r.bcl_dir == bcl_dir,
            r.output == output,
            r.fastqc == fastqc,
            r.pos == pos,
            r.pattern == pattern,
    {
        Self { bcl_dir, output, fastqc, pos, pattern }
    }

    #[inline]
    pub fn bcl_dir(&self) -> (r: &String)
        ensures
            r == &self.bcl_dir,
    {
        &self.bcl_dir
    }

    #[inline]
    pub fn output(&self) -> (r: &String)
        ensures
            r == &self.output,
    {
        &self.output
    }

    #[inline]
    pub fn pos(&self) -> (r: &Position)
        ensures
            *r == self.pos,
    {
        &self.pos
    }

    #[inline]
    pub fn pattern(&self) -> (r: &String)
        ensures
            r == &self.pattern,
    {
        &self.pattern
    }

    /// The per-tile directory the converted reads land in.
    pub fn fastq_path(&self, tile_id: &str) -> (r: String)
        ensures
            r@ == self.output@ + "/fastq/"@ + tile_id@,
    {
        self.output.clone().concat("/fastq/").concat(tile_id)
    }

    /// The converted read file of one tile.
    pub fn fastq_file(&self, tile_id: &str) -> (r: String)
        ensures
            r@ == self.output@ + "/fastq/"@ + tile_id@ + "/Undetermined_S0_R1_001.fastq.gz"@,
    {
        self.output.clone().concat("/fastq/").concat(tile_id).concat(
            "/Undetermined_S0_R1_001.fastq.gz",
        )
    }

    /// The scratch file one tile's extracted barcodes land in.
    pub fn tmp_file(&self, tile_id: &str) -> (r: String)
        ensures
            r@ == self.output@ + "/tmp/"@ + tile_id@ + ".txt"@,
    {
        self.output.clone().concat("/tmp/").concat(tile_id).concat(".txt")
    }

    /// Scans a run-info document for tile ids and demands at least
    /// one: none at all is the empty-tile-list error, naming the
    /// document.
    pub fn extract_tile_ids(&self, content: &[u8]) -> (r: Result<Vec<Vec<u8>>, AppError>)
        ensures
            spec_scan_tiles(content@).len() > 0 ==> (r matches Ok(ids)
                && ids@.map_values(|v: Vec<u8>| v@) == spec_scan_tiles(content@)),
            spec_scan_tiles(content@).len() == 0 ==> (r matches Err(e) && e matches
                AppError::EmptyTileIDsList(p) && p@ == self.bcl_dir@ + "/RunInfo.xml"@),
    {
        let ids = scan_tile_ids(content);
        if ids.len() == 0 {
            Err(
                AppError::EmptyTileIDsList(self.bcl_dir.clone().concat("/RunInfo.xml")),
            )
        } else {
            Ok(ids)
        }
    }
}

/// Whether a tile tag of the form `<Tile>d_dddd</Tile>` (first digit
/// 1 to 4) begins the text.
pub open spec fn tile_tag_at(s: Seq<u8>) -> bool {
    &&& s.len() >= 19
    &&& s[0] == LESS_THAN
    &&& s[1] == T_UPPER
    &&& s[2] == I_LOWER
    &&& s[3] == L_LOWER
    &&& s[4] == E_LOWER
    &&& s[5] == GREATER_THAN
    &&& DIGIT_ONE <= s[6] <= DIGIT_FOUR
    &&& s[7] == UNDERSCORE
    &&& is_digit(s[8])
    &&& is_digit(s[9])
    &&& is_digit(s[10])
    &&& is_digit(s[11])
    &&& s[12] == LESS_THAN
    &&& s[13] == SLASH
    &&& s[14] == T_UPPER
    &&& s[15] == I_LOWER
    &&& s[16] == L_LOWER
    &&& s[17] == E_LOWER
    &&& s[18] == GREATER_THAN
}

/// All tile ids of the text, left to right, matches never overlapping.
pub open spec fn spec_scan_tiles(s: Seq<u8>) -> Seq<Seq<u8>>
    decreases s.len(),
{
    if s.len() < 19 {
        Seq::empty()
    } else if tile_tag_at(s) {
        seq![s.subrange(6, 12)] + spec_scan_tiles(s.skip(19))
    } else {
        spec_scan_tiles(s.skip(1))
    }
}

/// Whether a tile tag begins at offset `i`.
fn tile_tag_check(s: &[u8], i: usize) -> (r: bool)
    requires
        i + 19 <= s@.len(),
    ensures
        r == tile_tag_at(s@.skip(i as int)),
{
    let ghost t = s@.skip(i as int);
    proof {
        assert forall|j: int| 0 <= j < t.len() implies #[trigger] t[j] == s@[i + j] by {
        }
    }
    s[i] == LESS_THAN && s[i + 1] == T_UPPER && s[i + 2] == I_LOWER && s[i + 3] == L_LOWER && s[i
        + 4] == E_LOWER && s[i + 5] == GREATER_THAN && DIGIT_ONE <= s[i + 6] && s[i + 6]
        <= DIGIT_FOUR && s[i + 7] == UNDERSCORE && (48 <= s[i + 8] && s[i + 8] <= 57) && (48 <= s[i
        + 9] && s[i + 9] <= 57) && (48 <= s[i + 10] && s[i + 10] <= 57) && (48 <= s[i + 11] && s[i
        + 11] <= 57) && s[i + 12] == LESS_THAN && s[i + 13] == SLASH && s[i + 14] == T_UPPER && s[i
        + 15] == I_LOWER && s[i + 16] == L_LOWER && s[i + 17] == E_LOWER && s[i + 18]
        == GREATER_THAN
}

/// Collects every tile id of the text, in reading order.
pub fn scan_tile_ids(content: &[u8]) -> (r: Vec<Vec<u8>>)
    ensures
        r@.map_values(|v: Vec<u8>| v@) == spec_scan_tiles(content@),
{
    let mut out: Vec<Vec<u8>> = Vec::new();
    let n = content.len();
    let mut i: usize = 0;
    proof {
        assert(content@.skip(0) =~= content@);
        assert(out@.map_values(|v: Vec<u8>| v@) =~= Seq::<Seq<u8>>::empty());
    }
    while i < n && n - i >= 19
        invariant
            0 <= i <= n,
            n == content@.len(),
            out@.map_values(|v: Vec<u8>| v@) + spec_scan_tiles(content@.skip(i as int))
                == spec_scan_tiles(content@),
        decreases n - i,
    {
        let ghost rest = content@.skip(i as int);
        let ghost out0 = out@.map_values(|v: Vec<u8>| v@);
        if tile_tag_check(content, i) {
            let id = vstd::slice::slice_to_vec(&content[i + 6..i + 12]);
            out.push(id);
            proof {
                assert(id@ =~= rest.subrange(6, 12));
                assert(out@.map_values(|v: Vec<u8>| v@) =~= out0.push(rest.subrange(6, 12)));
                assert(rest.skip(19) =~= content@.skip(i + 19));
                assert(spec_scan_tiles(rest) == seq![rest.subrange(6, 12)] + spec_scan_tiles(
                    content@.skip(i + 19),
                ));
                assert(out0.push(rest.subrange(6, 12)) + spec_scan_tiles(content@.skip(i + 19))
                    =~= out0 + spec_scan_tiles(rest));
            }
            i += 19;
        } else {
            proof {
                assert(rest.skip(1) =~= content@.skip(i + 1));
            }
            i += 1;
        }
    }
    proof {
        assert(spec_scan_tiles(content@.skip(i as int)) =~= Seq::<Seq<u8>>::empty());
        assert(out@.map_values(|v: Vec<u8>| v@) =~= spec_scan_tiles(content@));
    }
    out
}

} // verus!
