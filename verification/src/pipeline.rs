//! The single-pass barcode extraction pipeline: per record, slice the
//! configured region, derive the spatial coordinate from the id, run
//! the quality and pattern gates, drop coordinate duplicates, and emit
//! the canonical barcode line, counting every rejection by its reason.

use vstd::prelude::*;

use vstd::string::StringExecFns;

use crate::ascii::{COLON, NEWLINE, TAB};
use crate::error::AppError;
use crate::matcher::{
    all_bases, fail_quality_filter, fail_sequence_filter, fails_pattern, is_base, process_barcode,
    spec_fail_quality, spec_revcomp,
};
use crate::position::{spec_splitn, splitn_bytes, Position};
use crate::text::{bytes_eq, dec_str, u64_to_string};

verus! {

/// One streamed record: id line, base sequence and per-base quality.
#[derive(Debug, Clone)]
pub struct SequencingRecord {
    pub id: Vec<u8>,
    pub seq: Vec<u8>,
    pub qual: Vec<u8>,
}

/// Ghost image of a record.
pub struct RecordV {
    pub id: Seq<u8>,
    pub seq: Seq<u8>,
    pub qual: Seq<u8>,
}

impl SequencingRecord {
    pub open spec fn view_rec(&self) -> RecordV {
        RecordV { id: self.id@, seq: self.seq@, qual: self.qual@ }
    }
}

/// The region of a read the position addresses, clamped to the data
/// actually present.
pub open spec fn clamp_slice(s: Seq<u8>, pos: Position) -> Seq<u8> {
    s.subrange(
        vstd::math::min(pos.spec_start() as int, s.len() as int),
        vstd::math::min(pos.spec_end() as int, s.len() as int),
    )
}

/// An intra-tile spatial coordinate, the dedup key.
#[derive(Debug, Clone)]
pub struct Coord {
    pub x: Vec<u8>,
    pub y: Vec<u8>,
}

/// Summary of one pipeline run.
#[derive(Debug, Clone, Copy, PartialEq, Eq, Structural)]
pub struct Report {
    pub total_count: u64,
    pub filter_qual_count: u64,
    pub filter_seq_count: u64,
    pub filter_dup_count: u64,
}

impl Report {
    /// The counts a run can actually produce: the three rejection
    /// counts never outnumber the records seen.
    pub open spec fn wf(&self) -> bool {
        self.filter_qual_count + self.filter_seq_count + self.filter_dup_count
            <= self.total_count
    }

    pub fn new(
        total_count: u64,
        filter_qual_count: u64,
        filter_seq_count: u64,
        filter_dup_count: u64,
    ) -> (r: Self)
        requires
            filter_qual_count + filter_seq_count + filter_dup_count <= total_count,
        ensures
            r == (Report { total_count, filter_qual_count, filter_seq_count, filter_dup_count }),
            r.wf(),
    {
        Self { total_count, filter_qual_count, filter_seq_count, filter_dup_count }
    }

    pub open spec fn spec_filtered(&self) -> int {
        self.filter_qual_count + self.filter_seq_count + self.filter_dup_count
    }

    pub open spec fn spec_passed(&self) -> int {
        self.total_count - self.spec_filtered()
    }

    #[inline]
    pub fn filtered_count(&self) -> (r: u64)
        requires
            self.wf(),
        ensures
            r == self.spec_filtered(),
    {
        self.filter_qual_count + self.filter_seq_count + self.filter_dup_count
    }

    #[inline]
    pub fn passed_count(&self) -> (r: u64)
        requires
            self.wf(),
        ensures
            r == self.spec_passed(),
    {
        self.total_count - self.filtered_count()
    }

    /// The one-line text form of the summary.
    pub fn to_line(&self) -> (r: String)
        requires
            self.wf(),
        ensures
            r@ == "Total="@ + dec_str(self.total_count as nat) + ", Filtered="@ + dec_str(
                self.spec_filtered() as nat,
            ) + " (Qual="@ + dec_str(self.filter_qual_count as nat) + ", Seq="@ + dec_str(
                self.filter_seq_count as nat,
            ) + ", Dup="@ + dec_str(self.filter_dup_count as nat) + "), Passed="@ + dec_str(
                self.spec_passed() as nat,
            ),
    {
        String::from_str("Total=").concat(u64_to_string(self.total_count).as_str()).concat(
            ", Filtered=",
        ).concat(u64_to_string(self.filtered_count()).as_str()).concat(" (Qual=").concat(
            u64_to_string(self.filter_qual_count).as_str(),
        ).concat(", Seq=").concat(u64_to_string(self.filter_seq_count).as_str()).concat(
            ", Dup=",
        ).concat(u64_to_string(self.filter_dup_count).as_str()).concat("), Passed=").concat(
            u64_to_string(self.passed_count()).as_str(),
        )
    }
}

/// Every report holds the balance: the passed records and the three
/// rejection counts together account for every record seen.
pub proof fn lemma_report_balance(r: Report)
    requires
        r.wf(),
    ensures
        r.spec_passed() + r.filter_qual_count + r.filter_seq_count + r.filter_dup_count
            == r.total_count,
{
}

/// Ghost image of the running pipeline: the coordinates already seen
/// and the four counters.
pub struct ChipStateV {
    pub seen: Set<(Seq<u8>, Seq<u8>)>,
    pub total: nat,
    pub qual: nat,
    pub pat: nat,
    pub dup: nat,
}

impl ChipStateV {
    pub open spec fn initial() -> ChipStateV {
        ChipStateV { seen: Set::empty(), total: 0, qual: 0, pat: 0, dup: 0 }
    }

    /// The counter balance the pipeline maintains, with `emitted` lines
    /// already produced.
    pub open spec fn balanced(&self, emitted: nat) -> bool {
        self.qual + self.pat + self.dup + emitted == self.total
    }
}

/// What one record does to the pipeline.
pub enum ChipOutcomeV {
    /// The run must stop with this error.
    Rejected(AppError),
    FilteredQuality,
    FilteredPattern,
    FilteredDuplicate,
    /// The record survives and emits this line.
    Passed(Seq<u8>),
}

pub struct ChipStepV {
    pub state: ChipStateV,
    pub outcome: ChipOutcomeV,
}

/// The lowest-index byte of a slice outside the base alphabet.
pub open spec fn first_invalid_base(s: Seq<u8>) -> u8
    decreases s.len(),
{
    if s.len() == 0 {
        0
    } else if !is_base(s[0]) {
        s[0]
    } else {
        first_invalid_base(s.drop_first())
    }
}

/// The emitted line: lane and tile joined into one tile id, then x, y
/// and the barcode, tab-separated, newline-terminated.
pub open spec fn chip_line(
    lane: Seq<u8>,
    tile: Seq<u8>,
    x: Seq<u8>,
    y: Seq<u8>,
    barcode: Seq<u8>,
) -> Seq<u8> {
    lane + tile + seq![TAB] + x + seq![TAB] + y + seq![TAB] + barcode + seq![NEWLINE]
}

/// One record through the pipeline, in order: spatial coordinate from
/// the id, quality gate, pattern gate, coordinate dedup, barcode
/// normalisation. A record with a malformed id or (after winning the
/// dedup race) an alien byte under reverse-complement stops the run.
pub open spec fn chip_step_spec(
    pos: Position,
    pattern: Seq<u8>,
    st: ChipStateV,
    rec: RecordV,
) -> ChipStepV {
    let parts = spec_splitn(rec.id, COLON, 7);
    let sseq = clamp_slice(rec.seq, pos);
    let squal = clamp_slice(rec.qual, pos);
    let st1 = ChipStateV { total: st.total + 1, ..st };
    if parts.len() != 7 {
        ChipStepV { state: st1, outcome: ChipOutcomeV::Rejected(AppError::InvalidRecordId) }
    } else {
        let coord = (parts[5], parts[6]);
        if spec_fail_quality(squal) {
            ChipStepV {
                state: ChipStateV { qual: st.qual + 1, ..st1 },
                outcome: ChipOutcomeV::FilteredQuality,
            }
        } else if fails_pattern(sseq, pattern) {
            ChipStepV {
                state: ChipStateV { pat: st.pat + 1, ..st1 },
                outcome: ChipOutcomeV::FilteredPattern,
            }
        } else if st.seen.contains(coord) {
            ChipStepV {
                state: ChipStateV { dup: st.dup + 1, ..st1 },
                outcome: ChipOutcomeV::FilteredDuplicate,
            }
        } else {
            let st2 = ChipStateV { seen: st.seen.insert(coord), ..st1 };
            if pos.spec_strand() && !all_bases(sseq) {
                ChipStepV {
                    state: st2,
                    outcome: ChipOutcomeV::Rejected(
                        AppError::InvalidBase(first_invalid_base(sseq)),
                    ),
                }
            } else {
                let barcode = if pos.spec_strand() {
                    spec_revcomp(sseq)
                } else {
                    sseq
                };
                ChipStepV {
                    state: st2,
                    outcome: ChipOutcomeV::Passed(
                        chip_line(parts[3], parts[4], parts[5], parts[6], barcode),
                    ),
                }
            }
        }
    }
}

pub struct ChipRunV {
    pub state: ChipStateV,
    pub lines: Seq<Seq<u8>>,
    pub error: Option<AppError>,
}

/// The whole run folded over the record stream, stopping at the first
/// fatal record.
pub open spec fn chip_run_spec(
    pos: Position,
    pattern: Seq<u8>,
    st: ChipStateV,
    lines: Seq<Seq<u8>>,
    rs: Seq<RecordV>,
) -> ChipRunV
    decreases rs.len(),
{
    if rs.len() == 0 {
        ChipRunV { state: st, lines, error: None }
    } else {
        let step = chip_step_spec(pos, pattern, st, rs[0]);
        match step.outcome {
            ChipOutcomeV::Rejected(e) => ChipRunV { state: step.state, lines, error: Some(e) },
            ChipOutcomeV::Passed(l) => chip_run_spec(
                pos,
                pattern,
                step.state,
                lines.push(l),
                rs.drop_first(),
            ),
            _ => chip_run_spec(pos, pattern, step.state, lines, rs.drop_first()),
        }
    }
}

/// What `step` hands back for one record.
pub enum StepOutcome {
    FilteredQuality,
    FilteredPattern,
    FilteredDuplicate,
    Passed(Vec<u8>),
}

/// The running extraction pipeline over one record stream.
pub struct ChipExtractor {
    pub pos: Position,
    pub pattern: Vec<u8>,
    pub seen: Vec<Coord>,
    pub total: u64,
    pub filter_qual: u64,
    pub filter_seq: u64,
    pub filter_dup: u64,
}

impl ChipExtractor {
    pub open spec fn spec_pos(&self) -> Position {
        self.pos
    }

    pub open spec fn spec_pattern(&self) -> Seq<u8> {
        self.pattern@
    }

    /// The ghost state of the pipeline.
    pub open spec fn state_view(&self) -> ChipStateV {
        ChipStateV {
            seen: self.seen@.map_values(|c: Coord| (c.x@, c.y@)).to_set(),
            total: self.total as nat,
            qual: self.filter_qual as nat,
            pat: self.filter_seq as nat,
            dup: self.filter_dup as nat,
        }
    }

    pub open spec fn wf(&self) -> bool {
        self.pos.wf()
    }

    pub fn new(pos: &Position, pattern: &[u8]) -> (r: Self)
        requires
            pos.wf(),
        ensures
            r.wf(),
            r.spec_pos() == *pos,
            r.spec_pattern() == pattern@,
            r.state_view() == ChipStateV::initial(),
    {
        let r = ChipExtractor {
            pos: *pos,
            pattern: vstd::slice::slice_to_vec(pattern),
            seen: Vec::new(),
            total: 0,
            filter_qual: 0,
            filter_seq: 0,
            filter_dup: 0,
        };
        proof {
            assert(r.seen@.map_values(|c: Coord| (c.x@, c.y@)) =~= Seq::<(Seq<u8>, Seq<u8>)>::empty());
            assert(r.state_view().seen =~= Set::<(Seq<u8>, Seq<u8>)>::empty());
            assert(r.state_view() == ChipStateV::initial());
        }
        r
    }

    /// Whether this coordinate was already emitted.
    fn coord_seen(&self, x: &[u8], y: &[u8]) -> (r: bool)
        ensures
            r == self.state_view().seen.contains((x@, y@)),
    {
        let ghost mapped = self.seen@.map_values(|c: Coord| (c.x@, c.y@));
        let mut i: usize = 0;
        while i < self.seen.len()
            invariant
                0 <= i <= self.seen@.len(),
                mapped == self.seen@.map_values(|c: Coord| (c.x@, c.y@)),
                forall|j: int| 0 <= j < i ==> #[trigger] mapped[j] != (x@, y@),
            decreases self.seen@.len() - i,
        {
            let c = &self.seen[i];
            if bytes_eq(c.x.as_slice(), x) && bytes_eq(c.y.as_slice(), y) {
                proof {
                    assert(mapped[i as int] == (x@, y@));
                    assert(mapped.to_set().contains((x@, y@)));
                }
                return true;
            }
            proof {
                assert(mapped[i as int] == (self.seen@[i as int].x@, self.seen@[i as int].y@));
            }
            i += 1;
        }
        proof {
            if mapped.to_set().contains((x@, y@)) {
                let j = choose|j: int| 0 <= j < mapped.len() && mapped[j] == (x@, y@);
                assert(mapped[j] != (x@, y@));
            }
        }
        false
    }

    /// One record through the pipeline; the state advances exactly as
    /// the step spec says, and the returned outcome is the spec's.
    pub fn step(&mut self, rec: &SequencingRecord) -> (r: Result<StepOutcome, AppError>)
        requires
            old(self).wf(),
            old(self).state_view().total < u64::MAX,
            old(self).state_view().qual < u64::MAX,
            old(self).state_view().pat < u64::MAX,
            old(self).state_view().dup < u64::MAX,
        ensures
            final(self).wf(),
            final(self).spec_pos() == old(self).spec_pos(),
            final(self).spec_pattern() == old(self).spec_pattern(),
            final(self).state_view() == chip_step_spec(
                old(self).spec_pos(),
                old(self).spec_pattern(),
                old(self).state_view(),
                rec.view_rec(),
            ).state,
            ({
                let out = chip_step_spec(
                    old(self).spec_pos(),
                    old(self).spec_pattern(),
                    old(self).state_view(),
                    rec.view_rec(),
                ).outcome;
                match out {
                    ChipOutcomeV::Rejected(e) => r == Err::<StepOutcome, AppError>(e),
                    ChipOutcomeV::FilteredQuality => r == Ok::<StepOutcome, AppError>(
                        StepOutcome::FilteredQuality,
                    ),
                    ChipOutcomeV::FilteredPattern => r == Ok::<StepOutcome, AppError>(
                        StepOutcome::FilteredPattern,
                    ),
                    ChipOutcomeV::FilteredDuplicate => r == Ok::<StepOutcome, AppError>(
                        StepOutcome::FilteredDuplicate,
                    ),
                    ChipOutcomeV::Passed(l) => r matches Ok(StepOutcome::Passed(v)) && v@ == l,
                }
            }),
    {
        let ghost st0 = self.state_view();
        let ghost step = chip_step_spec(self.pos, self.pattern@, st0, rec.view_rec());
        self.total = self.total + 1;
        let parts = splitn_bytes(rec.id.as_slice(), COLON, 7);
        if parts.len() != 7 {
            proof {
                lemma_state_eq(self.state_view(), step.state);
            }
            return Err(AppError::InvalidRecordId);
        }
        let seq_slice = self.pos.safe_slice(rec.seq.as_slice());
        let qual_slice = self.pos.safe_slice(rec.qual.as_slice());
        if fail_quality_filter(qual_slice) {
            self.filter_qual = self.filter_qual + 1;
            proof {
                lemma_state_eq(self.state_view(), step.state);
            }
            return Ok(StepOutcome::FilteredQuality);
        }
        if fail_sequence_filter(seq_slice, self.pattern.as_slice()) {
            self.filter_seq = self.filter_seq + 1;
            proof {
                lemma_state_eq(self.state_view(), step.state);
            }
            return Ok(StepOutcome::FilteredPattern);
        }
        let x = &parts[5];
        let y = &parts[6];
        if self.coord_seen(x.as_slice(), y.as_slice()) {
            self.filter_dup = self.filter_dup + 1;
            proof {
                lemma_state_eq(self.state_view(), step.state);
            }
            return Ok(StepOutcome::FilteredDuplicate);
        }
        let coord = Coord {
            x: vstd::slice::slice_to_vec(x.as_slice()),
            y: vstd::slice::slice_to_vec(y.as_slice()),
        };
        let ghost seen0 = self.seen@;
        self.seen.push(coord);
        proof {
            let f = |c: Coord| (c.x@, c.y@);
            assert(self.seen@.map_values(f) =~= seen0.map_values(f).push((x@, y@)));
            seen0.map_values(f).lemma_push_to_set_commute((x@, y@));
            assert(self.seen@.map_values(f).to_set() =~= seen0.map_values(f).to_set().insert(
                (x@, y@),
            ));
            lemma_state_eq(self.state_view(), step.state);
        }
        if self.pos.is_revcomp() {
            if let Some(b) = find_alien_base(seq_slice) {
                return Err(AppError::InvalidBase(b));
            }
        }
        let barcode = process_barcode(seq_slice, self.pos.is_revcomp());
        let lane = &parts[3];
        let tile = &parts[4];
        let mut line: Vec<u8> = Vec::new();
        let mut lane_v = vstd::slice::slice_to_vec(lane.as_slice());
        let mut tile_v = vstd::slice::slice_to_vec(tile.as_slice());
        let mut x_v = vstd::slice::slice_to_vec(x.as_slice());
        let mut y_v = vstd::slice::slice_to_vec(y.as_slice());
        let mut barcode_v = barcode;
        line.append(&mut lane_v);
        line.append(&mut tile_v);
        line.push(TAB);
        line.append(&mut x_v);
        line.push(TAB);
        line.append(&mut y_v);
        line.push(TAB);
        line.append(&mut barcode_v);
        line.push(NEWLINE);
        proof {
            assert(step.outcome matches ChipOutcomeV::Passed(l) && line@ =~= l);
        }
        Ok(StepOutcome::Passed(line))
    }

    /// The report of the run so far.
    pub fn report(&self) -> (r: Report)
        requires
            self.state_view().qual + self.state_view().pat + self.state_view().dup
                <= self.state_view().total,
        ensures
            r == (Report {
                total_count: self.state_view().total as u64,
                filter_qual_count: self.state_view().qual as u64,
                filter_seq_count: self.state_view().pat as u64,
                filter_dup_count: self.state_view().dup as u64,
            }),
            r.wf(),
    {
        Report::new(self.total, self.filter_qual, self.filter_seq, self.filter_dup)
    }
}

/// Two ghost states with equal members are equal.
proof fn lemma_state_eq(a: ChipStateV, b: ChipStateV)
    requires
        a.seen =~= b.seen,
        a.total == b.total,
        a.qual == b.qual,
        a.pat == b.pat,
        a.dup == b.dup,
    ensures
        a == b,
{
}

/// The lowest-index byte outside the base alphabet, if any.
pub(crate) fn find_alien_base(s: &[u8]) -> (r: Option<u8>)
    ensures
        r is Some <==> !all_bases(s@),
        r matches Some(b) ==> b == first_invalid_base(s@),
{
    let mut i: usize = 0;
    while i < s.len()
        invariant
            0 <= i <= s@.len(),
            forall|j: int| 0 <= j < i ==> is_base(#[trigger] s@[j]),
        decreases s@.len() - i,
    {
        if check_alien(s[i]) {
            proof {
                lemma_first_invalid_at(s@, i as int);
            }
            return Some(s[i]);
        }
        i += 1;
    }
    None
}

fn check_alien(b: u8) -> (r: bool)
    ensures
        r == !is_base(b),
{
    !(b == crate::ascii::A_UPPER || b == crate::ascii::T_UPPER || b == crate::ascii::G_UPPER || b
        == crate::ascii::C_UPPER || b == crate::ascii::N_UPPER)
}

/// With everything before `i` a base and `s[i]` not, `s[i]` is the
/// first invalid byte.
proof fn lemma_first_invalid_at(s: Seq<u8>, i: int)
    requires
        0 <= i < s.len(),
        !is_base(s[i]),
        forall|j: int| 0 <= j < i ==> is_base(#[trigger] s[j]),
    ensures
        first_invalid_base(s) == s[i],
        !all_bases(s),
    decreases i,
{
    if i == 0 {
    } else {
        let t = s.drop_first();
        assert forall|j: int| 0 <= j < i - 1 implies is_base(#[trigger] t[j]) by {
            assert(t[j] == s[j + 1]);
        }
        assert(t[i - 1] == s[i]);
        lemma_first_invalid_at(t, i - 1);
        assert(is_base(s[0]));
    }
}

/// Runs the pipeline over a whole record stream: on success the lines
/// in discovery order and the balanced summary report; the first fatal
/// record stops the run with its error.
pub fn extract_chip_barcodes(pos: &Position, pattern: &[u8], records: &Vec<SequencingRecord>) -> (r:
    Result<(Vec<Vec<u8>>, Report), AppError>)
    requires
        pos.wf(),
    ensures
        ({
            let run = chip_run_spec(
                *pos,
                pattern@,
                ChipStateV::initial(),
                Seq::empty(),
                records@.map_values(|x: SequencingRecord| x.view_rec()),
            );
            match run.error {
                Some(e) => r == Err::<(Vec<Vec<u8>>, Report), AppError>(e),
                None => r matches Ok((lines, rep)) && lines@.map_values(|v: Vec<u8>| v@)
                    == run.lines && rep.wf() && rep.total_count == run.state.total
                    && rep.filter_qual_count == run.state.qual && rep.filter_seq_count
                    == run.state.pat && rep.filter_dup_count == run.state.dup
                    && rep.spec_passed() == run.lines.len(),
            }
        }),
{
    let ghost rs = records@.map_values(|x: SequencingRecord| x.view_rec());
    let ghost run = chip_run_spec(*pos, pattern@, ChipStateV::initial(), Seq::empty(), rs);
    let mut ext = ChipExtractor::new(pos, pattern);
    let mut lines: Vec<Vec<u8>> = Vec::new();
    let mut i: usize = 0;
    proof {
        assert(rs.subrange(i as int, rs.len() as int) =~= rs);
        assert(lines@.map_values(|v: Vec<u8>| v@) =~= Seq::<Seq<u8>>::empty());
    }
    while i < records.len()
        invariant
            0 <= i <= records@.len(),
            rs == records@.map_values(|x: SequencingRecord| x.view_rec()),
            run == chip_run_spec(*pos, pattern@, ChipStateV::initial(), Seq::empty(), rs),
            ext.wf(),
            ext.spec_pos() == *pos,
            ext.spec_pattern() == pattern@,
            ext.state_view().total <= i,
            ext.state_view().balanced(lines@.len() as nat),
            chip_run_spec(
                *pos,
                pattern@,
                ext.state_view(),
                lines@.map_values(|v: Vec<u8>| v@),
                rs.subrange(i as int, rs.len() as int),
            ) == run,
        decreases records@.len() - i,
    {
        let ghost rest = rs.subrange(i as int, rs.len() as int);
        let ghost st_before = ext.state_view();
        let ghost lines_before = lines@.map_values(|v: Vec<u8>| v@);
        proof {
            assert(rest[0] == rs[i as int]);
            assert(rs[i as int] == records@[i as int].view_rec());
            assert(i < u64::MAX && st_before.total < u64::MAX);
            assert(st_before.qual < u64::MAX && st_before.pat < u64::MAX && st_before.dup
                < u64::MAX);
        }
        let rec = &records[i];
        let outcome = ext.step(rec);
        proof {
            assert(rest.drop_first() =~= rs.subrange(i + 1, rs.len() as int));
        }
        match outcome {
            Err(e) => {
                proof {
                    let step = chip_step_spec(*pos, pattern@, st_before, rest[0]);
                    assert(step.outcome == ChipOutcomeV::Rejected(e));
                    assert(run == chip_run_spec(*pos, pattern@, st_before, lines_before, rest));
                    assert(run.error == Some(e));
                }
                return Err(e);
            },
            Ok(StepOutcome::Passed(line)) => {
                let ghost l = line@;
                lines.push(line);
                proof {
                    assert(lines@.map_values(|v: Vec<u8>| v@) =~= lines_before.push(l));
                }
            },
            Ok(_) => {
            },
        }
        i += 1;
    }
    proof {
        assert(rs.subrange(i as int, rs.len() as int) =~= Seq::<RecordV>::empty());
        assert(run.error is None);
        assert(run.lines == lines@.map_values(|v: Vec<u8>| v@));
        assert(run.state == ext.state_view());
    }
    let report = ext.report();
    Ok((lines, report))
}

} // verus!
