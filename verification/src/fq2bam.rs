//! Pairing of the two read streams and the region arithmetic of the
//! read-to-alignment conversion: which slices of a record pair become
//! the main read, the barcode tag and the UMI tag, under the three
//! parsing modes.

use vstd::prelude::*;

use crate::ascii::{ASTERISK, EXCLAM};
use crate::error::AppError;
use crate::matcher::{all_bases, spec_revcomp};
use crate::pipeline::{clamp_slice, SequencingRecord};
use crate::position::Position;
use crate::sample::exact_slice;
use crate::text::{bytes_eq, utf8_or_empty};

verus! {

/// Output shapes of the conversion.
#[derive(Debug, Clone, Copy, PartialEq, Eq, Structural)]
pub enum Format {
    Bam,
    Sam,
}

/// Barcode/UMI parsing modes of the conversion.
#[derive(Debug, Clone, Copy, PartialEq, Eq, Structural)]
pub enum Mode {
    Openst,
    OpenTSO,
    Custom,
}

/// The three regions one record pair is cut into.
#[derive(Debug, Clone, Copy, PartialEq, Eq, Structural)]
pub struct BamConfig {
    pub barcode_pos: Position,
    pub umi_pos: Position,
    pub read_pos: Position,
}

impl BamConfig {
    pub open spec fn wf(&self) -> bool {
        self.barcode_pos.wf() && self.umi_pos.wf() && self.read_pos.wf()
    }

    pub fn new(barcode_pos: Position, umi_pos: Position, read_pos: Position) -> (r: Self)
        ensures
            r == (BamConfig { barcode_pos, umi_pos, read_pos }),
    {
        Self { barcode_pos, umi_pos, read_pos }
    }

    #[inline]
    pub fn barcode_pos(&self) -> (r: &Position)
        ensures
            *r == self.barcode_pos,
    {
        &self.barcode_pos
    }

    #[inline]
    pub fn umi_pos(&self) -> (r: &Position)
        ensures
            *r == self.umi_pos,
    {
        &self.umi_pos
    }

    #[inline]
    pub fn read_pos(&self) -> (r: &Position)
        ensures
            *r == self.read_pos,
    {
        &self.read_pos
    }
}

impl Mode {
    /// The spatial-probe preset: barcode on read1 bases 2..30, UMI on
    /// read2 bases 0..9, main read on read2 bases 9..150.
    pub fn openst() -> (r: BamConfig)
        ensures
            r == (BamConfig {
                barcode_pos: Position { read: false, strand: false, start: 2, end: 30, len: 28 },
                umi_pos: Position { read: true, strand: false, start: 0, end: 9, len: 9 },
                read_pos: Position { read: true, strand: false, start: 9, end: 150, len: 141 },
            }),
            r.wf(),
    {
        BamConfig::new(
            Position::new(false, false, 2, 30),
            Position::new(true, false, 0, 9),
            Position::new(true, false, 9, 150),
        )
    }

    /// The template-switch preset: barcode on read1 bases 2..30, UMI
    /// on read1 bases 12..20, main read on read2 bases 9..150.
    pub fn open_tso() -> (r: BamConfig)
        ensures
            r == (BamConfig {
                barcode_pos: Position { read: false, strand: false, start: 2, end: 30, len: 28 },
                umi_pos: Position { read: false, strand: false, start: 12, end: 20, len: 8 },
                read_pos: Position { read: true, strand: false, start: 9, end: 150, len: 141 },
            }),
            r.wf(),
    {
        BamConfig::new(
            Position::new(false, false, 2, 30),
            Position::new(false, false, 12, 20),
            Position::new(true, false, 9, 150),
        )
    }

    /// Operator-supplied regions.
    pub fn custom(cr: Position, ur: Position, read: Position) -> (r: BamConfig)
        ensures
            r == (BamConfig { barcode_pos: cr, umi_pos: ur, read_pos: read }),
    {
        BamConfig::new(cr, ur, read)
    }
}

/// The conversion's settings, as handed over by the caller after
/// argument validation.
#[derive(Debug, Clone)]
pub struct Fq2BamArgs {
    pub read1: Vec<String>,
    pub read2: Vec<String>,
    pub sample_id: String,
    pub format: Format,
    pub mode: Mode,
    pub barcode_pos: Option<Position>,
    pub umi_pos: Option<Position>,
    pub read_pos: Option<Position>,
}

impl Fq2BamArgs {
    #[inline]
    pub fn format(&self) -> (r: &Format)
        ensures
            *r == self.format,
    {
        &self.format
    }

    #[inline]
    pub fn read_pos(&self) -> (r: Option<&Position>)
        ensures
            r is Some <==> self.read_pos is Some,
            r matches Some(p) ==> *p == self.read_pos->0,
    {
        self.read_pos.as_ref()
    }

    #[inline]
    pub fn barcode_pos(&self) -> (r: Option<&Position>)
        ensures
            r is Some <==> self.barcode_pos is Some,
            r matches Some(p) ==> *p == self.barcode_pos->0,
    {
        self.barcode_pos.as_ref()
    }

    #[inline]
    pub fn umi_pos(&self) -> (r: Option<&Position>)
        ensures
            r is Some <==> self.umi_pos is Some,
            r matches Some(p) ==> *p == self.umi_pos->0,
    {
        self.umi_pos.as_ref()
    }

    /// The two read-file lists must pair up: anything else is the
    /// mismatched-file-count error.
    pub fn validate_eq_file_count(&self) -> (r: Result<(), AppError>)
        ensures
            self.read1@.len() == self.read2@.len() ==> r == Ok::<(), AppError>(()),
            self.read1@.len() != self.read2@.len() ==> r == Err::<(), AppError>(
                AppError::NotEqualFileNumber {
                    n1: self.read1@.len() as usize,
                    n2: self.read2@.len() as usize,
                },
            ),
    {
        if self.read1.len() != self.read2.len() {
            return Err(
                AppError::NotEqualFileNumber { n1: self.read1.len(), n2: self.read2.len() },
            );
        }
        Ok(())
    }

    /// The region configuration the chosen mode stands for; a custom
    /// mode takes its three regions out of the arguments.
    pub fn record_config(&mut self) -> (r: BamConfig)
        requires
            old(self).mode is Custom ==> old(self).barcode_pos is Some && old(self).umi_pos
                is Some && old(self).read_pos is Some,
        ensures
            ({
                match old(self).mode {
                    Mode::Openst => r == (BamConfig {
                        barcode_pos: Position {
                            read: false,
                            strand: false,
                            start: 2,
                            end: 30,
                            len: 28,
                        },
                        umi_pos: Position { read: true, strand: false, start: 0, end: 9, len: 9 },
                        read_pos: Position {
                            read: true,
                            strand: false,
                            start: 9,
                            end: 150,
                            len: 141,
                        },
                    }) && *final(self) == *old(self),
                    Mode::OpenTSO => r == (BamConfig {
                        barcode_pos: Position {
                            read: false,
                            strand: false,
                            start: 2,
                            end: 30,
                            len: 28,
                        },
                        umi_pos: Position {
                            read: false,
                            strand: false,
                            start: 12,
                            end: 20,
                            len: 8,
                        },
                        read_pos: Position {
                            read: true,
                            strand: false,
                            start: 9,
                            end: 150,
                            len: 141,
                        },
                    }) && *final(self) == *old(self),
                    Mode::Custom => r == (BamConfig {
                        barcode_pos: old(self).barcode_pos->0,
                        umi_pos: old(self).umi_pos->0,
                        read_pos: old(self).read_pos->0,
                    }) && final(self).barcode_pos is None && final(self).umi_pos is None
                        && final(self).read_pos is None && final(self).read1 == old(self).read1
                        && final(self).read2 == old(self).read2 && final(self).sample_id == old(
                        self,
                    ).sample_id && final(self).format == old(self).format && final(self).mode
                        == old(self).mode,
                }
            }),
    {
        match self.mode {
            Mode::Openst => Mode::openst(),
            Mode::OpenTSO => Mode::open_tso(),
            Mode::Custom => {
                let cr = self.barcode_pos.take();
                let ur = self.umi_pos.take();
                let rr = self.read_pos.take();
                match (cr, ur, rr) {
                    (Some(c), Some(u), Some(rd)) => Mode::custom(c, u, rd),
                    _ => {
                        proof {
                            assert(false);
                        }
                        Mode::openst()
                    },
                }
            },
        }
    }
}

/// One paired record, owned: the shared name, both base sequences and
/// both quality sequences.
#[derive(Debug, Clone)]
pub struct PairedOwnedRecord {
    pub qname: Vec<u8>,
    pub r1: Vec<u8>,
    pub r2: Vec<u8>,
    pub q1: Vec<u8>,
    pub q2: Vec<u8>,
}

impl PairedOwnedRecord {
    pub fn new(r1: &SequencingRecord, r2: &SequencingRecord) -> (r: Self)
        ensures
            r.qname@ == r1.id@,
            r.r1@ == r1.seq@,
            r.r2@ == r2.seq@,
            r.q1@ == r1.qual@,
            r.q2@ == r2.qual@,
    {
        Self {
            qname: vstd::slice::slice_to_vec(r1.id.as_slice()),
            r1: vstd::slice::slice_to_vec(r1.seq.as_slice()),
            r2: vstd::slice::slice_to_vec(r2.seq.as_slice()),
            q1: vstd::slice::slice_to_vec(r1.qual.as_slice()),
            q2: vstd::slice::slice_to_vec(r2.qual.as_slice()),
        }
    }
}

/// The pairing decision for one pull from the two streams: both
/// exhausted ends the run; one exhausted is the length-mismatch
/// error; unequal ids are the id-mismatch error; otherwise the pair
/// is owned and handed on.
pub fn pair_records(
    r1: Option<SequencingRecord>,
    r2: Option<SequencingRecord>,
    line1: u64,
    line2: u64,
) -> (r: Option<Result<PairedOwnedRecord, AppError>>)
    ensures
        r1 is None && r2 is None ==> r is None,
        (r1 is None) != (r2 is None) ==> r == Some(
            Err::<PairedOwnedRecord, AppError>(
                AppError::FastqFileLengthNotEqual { line1, line2 },
            ),
        ),
        (r1 matches Some(a) && r2 matches Some(b) && a.id@ == b.id@) ==> (r matches Some(Ok(p))
            && p.qname@ == r1->0.id@ && p.r1@ == r1->0.seq@ && p.r2@ == r2->0.seq@ && p.q1@
            == r1->0.qual@ && p.q2@ == r2->0.qual@),
        (r1 matches Some(a) && r2 matches Some(b) && a.id@ != b.id@) ==> (r matches Some(Err(e))
            && e matches AppError::FastqIdMismatch { line, id1, id2 } && line == line1 && (
        vstd::utf8::valid_utf8(r1->0.id@) ==> vstd::utf8::encode_utf8(id1@) == r1->0.id@) && (
        vstd::utf8::valid_utf8(r2->0.id@) ==> vstd::utf8::encode_utf8(id2@) == r2->0.id@)),
{
    match (r1, r2) {
        (None, None) => None,
        (None, Some(_)) => Some(Err(AppError::FastqFileLengthNotEqual { line1, line2 })),
        (Some(_), None) => Some(Err(AppError::FastqFileLengthNotEqual { line1, line2 })),
        (Some(a), Some(b)) => {
            if bytes_eq(a.id.as_slice(), b.id.as_slice()) {
                Some(Ok(PairedOwnedRecord::new(&a, &b)))
            } else {
                let id1 = utf8_or_empty(a.id.as_slice());
                let id2 = utf8_or_empty(b.id.as_slice());
                Some(Err(AppError::FastqIdMismatch { line: line1, id1, id2 }))
            }
        },
    }
}

/// Every byte of the slice at or above the floor `m`.
pub open spec fn all_at_least(s: Seq<u8>, m: u8) -> bool {
    forall|i: int| 0 <= i < s.len() ==> #[trigger] s[i] >= m
}

/// A missing-quality marker becomes the lowest real quality byte;
/// everything else stays.
pub open spec fn spec_replace_asterisk(q: u8) -> u8 {
    if q == ASTERISK {
        EXCLAM
    } else {
        q
    }
}

#[inline]
pub fn replace_asterisk(q: &u8) -> (r: u8)
    ensures
        r == spec_replace_asterisk(*q),
{
    if *q == ASTERISK {
        EXCLAM
    } else {
        *q
    }
}

/// A sequence read back to front.
pub open spec fn spec_reverse(s: Seq<u8>) -> Seq<u8> {
    Seq::new(s.len(), |i: int| s[s.len() - 1 - i])
}

/// The main read region of a pair: the configured read's clamped
/// slice, reverse-complemented when asked, with qualities re-based to
/// raw scores (the text offset removed) in matching order.
pub open spec fn spec_read_area(cfg: BamConfig, rec: PairedOwnedRecord) -> (Seq<u8>, Seq<u8>) {
    let pos = cfg.read_pos;
    let s = if pos.read {
        clamp_slice(rec.r2@, pos)
    } else {
        clamp_slice(rec.r1@, pos)
    };
    let q = if pos.read {
        clamp_slice(rec.q2@, pos)
    } else {
        clamp_slice(rec.q1@, pos)
    };
    let qr = if pos.strand {
        spec_reverse(q)
    } else {
        q
    };
    (
        if pos.strand {
            spec_revcomp(s)
        } else {
            s
        },
        qr.map_values(|x: u8| (spec_replace_asterisk(x) - 33) as u8),
    )
}

/// A tag region of a pair: the exact configured slice, reversed and
/// complemented when asked, qualities kept in text form.
pub open spec fn spec_tag_area(pos: Position, rec: PairedOwnedRecord) -> (Seq<u8>, Seq<u8>) {
    let s = if pos.read {
        exact_slice(rec.r2@, pos)
    } else {
        exact_slice(rec.r1@, pos)
    };
    let q = if pos.read {
        exact_slice(rec.q2@, pos)
    } else {
        exact_slice(rec.q1@, pos)
    };
    (
        if pos.strand {
            spec_revcomp(s)
        } else {
            s
        },
        (if pos.strand {
            spec_reverse(q)
        } else {
            q
        }).map_values(|x: u8| spec_replace_asterisk(x)),
    )
}

/// Cuts the main read region out of a pair.
pub fn parse_read_area(cfg: &BamConfig, record: &PairedOwnedRecord) -> (r: (Vec<u8>, Vec<u8>))
    requires
        cfg.wf(),
        ({
            let pos = cfg.read_pos;
            let s = if pos.read {
                clamp_slice(record.r2@, pos)
            } else {
                clamp_slice(record.r1@, pos)
            };
            let q = if pos.read {
                clamp_slice(record.q2@, pos)
            } else {
                clamp_slice(record.q1@, pos)
            };
            (pos.strand ==> all_bases(s)) && all_at_least(q, 33)
        }),
    ensures
        (r.0@, r.1@) == spec_read_area(*cfg, *record),
{
    let pos = &cfg.read_pos;
    let seq_slice = if pos.is_read2() {
        pos.safe_slice(record.r2.as_slice())
    } else {
        pos.safe_slice(record.r1.as_slice())
    };
    let qual_slice = if pos.is_read2() {
        pos.safe_slice(record.q2.as_slice())
    } else {
        pos.safe_slice(record.q1.as_slice())
    };
    let ghost q = qual_slice@;
    proof {
        let cq = if cfg.read_pos.read {
            clamp_slice(record.q2@, cfg.read_pos)
        } else {
            clamp_slice(record.q1@, cfg.read_pos)
        };
        assert(q == cq);
        assert(all_at_least(cq, 33));
        assert forall|j: int| 0 <= j < q.len() implies #[trigger] q[j] >= 33 by {
            assert(cq[j] >= 33);
        }
    }
    let seq_out = crate::matcher::process_barcode(seq_slice, pos.is_revcomp());
    let mut qual_out: Vec<u8> = Vec::new();
    if pos.is_revcomp() {
        let mut i: usize = qual_slice.len();
        while i > 0
            invariant
                0 <= i <= q.len(),
                q == qual_slice@,
                forall|j: int| 0 <= j < q.len() ==> #[trigger] q[j] >= 33,
                qual_out@.len() == q.len() - i,
                forall|j: int|
                    0 <= j < qual_out@.len() ==> #[trigger] qual_out@[j] == (
                    spec_replace_asterisk(q[q.len() - 1 - j]) - 33) as u8,
            decreases i,
        {
            i -= 1;
            qual_out.push(replace_asterisk(&qual_slice[i]) - 33);
        }
        proof {
            assert(qual_out@ =~= spec_reverse(q).map_values(
                |x: u8| (spec_replace_asterisk(x) - 33) as u8,
            ));
        }
    } else {
        let mut i: usize = 0;
        while i < qual_slice.len()
            invariant
                0 <= i <= q.len(),
                q == qual_slice@,
                forall|j: int| 0 <= j < q.len() ==> #[trigger] q[j] >= 33,
                qual_out@.len() == i,
                forall|j: int|
                    0 <= j < i ==> #[trigger] qual_out@[j] == (spec_replace_asterisk(q[j])
                        - 33) as u8,
            decreases q.len() - i,
        {
            qual_out.push(replace_asterisk(&qual_slice[i]) - 33);
            i += 1;
        }
        proof {
            assert(qual_out@ =~= q.map_values(|x: u8| (spec_replace_asterisk(x) - 33) as u8));
        }
    }
    (seq_out, qual_out)
}

/// Cuts one tag region (barcode or UMI) out of a pair.
pub fn parse_tag_area(pos: &Position, record: &PairedOwnedRecord) -> (r: (Vec<u8>, Vec<u8>))
    requires
        pos.wf(),
        pos.read ==> record.r2@.len() >= pos.end && record.q2@.len() >= pos.end,
        !pos.read ==> record.r1@.len() >= pos.end && record.q1@.len() >= pos.end,
        ({
            let s = if pos.read {
                exact_slice(record.r2@, *pos)
            } else {
                exact_slice(record.r1@, *pos)
            };
            pos.strand ==> all_bases(s)
        }),
    ensures
        (r.0@, r.1@) == spec_tag_area(*pos, *record),
{
    let start = pos.start();
    let end = pos.end();
    let seq_slice = if pos.is_read2() {
        &record.r2.as_slice()[start..end]
    } else {
        &record.r1.as_slice()[start..end]
    };
    let qual_slice = if pos.is_read2() {
        &record.q2.as_slice()[start..end]
    } else {
        &record.q1.as_slice()[start..end]
    };
    let ghost q = qual_slice@;
    let seq_out = crate::matcher::process_barcode(seq_slice, pos.is_revcomp());
    let mut qual_out: Vec<u8> = Vec::new();
    if pos.is_revcomp() {
        let mut i: usize = qual_slice.len();
        while i > 0
            invariant
                0 <= i <= q.len(),
                q == qual_slice@,
                qual_out@.len() == q.len() - i,
                forall|j: int|
                    0 <= j < qual_out@.len() ==> #[trigger] qual_out@[j]
                        == spec_replace_asterisk(q[q.len() - 1 - j]),
            decreases i,
        {
            i -= 1;
            qual_out.push(replace_asterisk(&qual_slice[i]));
        }
        proof {
            assert(qual_out@ =~= spec_reverse(q).map_values(|x: u8| spec_replace_asterisk(x)));
        }
    } else {
        let mut i: usize = 0;
        while i < qual_slice.len()
            invariant
                0 <= i <= q.len(),
                q == qual_slice@,
                qual_out@.len() == i,
                forall|j: int|
                    0 <= j < i ==> #[trigger] qual_out@[j] == spec_replace_asterisk(q[j]),
            decreases q.len() - i,
        {
            qual_out.push(replace_asterisk(&qual_slice[i]));
            i += 1;
        }
        proof {
            assert(qual_out@ =~= q.map_values(|x: u8| spec_replace_asterisk(x)));
        }
    }
    (seq_out, qual_out)
}

} // verus!
