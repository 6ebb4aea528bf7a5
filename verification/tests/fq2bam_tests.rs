use opentools::fq2bam::{
    pair_records, parse_read_area, parse_tag_area, replace_asterisk, Fq2BamArgs, Format, Mode,
    PairedOwnedRecord,
};
use opentools::error::AppError;
use opentools::pipeline::SequencingRecord;
use opentools::position::Position;

fn args(mode: Mode) -> Fq2BamArgs {
    Fq2BamArgs {
        read1: vec!["a_1.fastq.gz".to_string()],
        read2: vec!["a_2.fastq.gz".to_string()],
        sample_id: "Unknown".to_string(),
        format: Format::Bam,
        mode,
        barcode_pos: None,
        umi_pos: None,
        read_pos: None,
    }
}

fn rec(id: &str, seq: &str, qual: &str) -> SequencingRecord {
    SequencingRecord {
        id: id.as_bytes().to_vec(),
        seq: seq.as_bytes().to_vec(),
        qual: qual.as_bytes().to_vec(),
    }
}

#[test]
fn test_validate_eq_file_count() {
    let mut a = args(Mode::Openst);
    assert!(a.validate_eq_file_count().is_ok());
    a.read2.push("b_2.fastq.gz".to_string());
    assert_eq!(
        a.validate_eq_file_count(),
        Err(AppError::NotEqualFileNumber { n1: 1, n2: 2 })
    );
}

#[test]
fn test_record_config_openst() {
    let mut a = args(Mode::Openst);
    let cfg = a.record_config();
    assert_eq!(*cfg.barcode_pos(), Position::new(false, false, 2, 30));
    assert_eq!(*cfg.umi_pos(), Position::new(true, false, 0, 9));
    assert_eq!(*cfg.read_pos(), Position::new(true, false, 9, 150));
}

#[test]
fn test_record_config_open_tso() {
    let mut a = args(Mode::OpenTSO);
    let cfg = a.record_config();
    assert_eq!(*cfg.umi_pos(), Position::new(false, false, 12, 20));
}

#[test]
fn test_record_config_custom_takes_positions() {
    let mut a = args(Mode::Custom);
    a.barcode_pos = Some(Position::new(false, false, 1, 16));
    a.umi_pos = Some(Position::new(true, false, 0, 8));
    a.read_pos = Some(Position::new(true, false, 8, 150));
    let cfg = a.record_config();
    assert_eq!(*cfg.barcode_pos(), Position::new(false, false, 1, 16));
    assert!(a.barcode_pos().is_none());
    assert!(a.umi_pos().is_none());
    assert!(a.read_pos().is_none());
}

#[test]
fn test_pair_records_decisions() {
    assert!(pair_records(None, None, 4, 4).is_none());
    let one = pair_records(Some(rec("id", "A", "I")), None, 8, 4).unwrap();
    assert_eq!(
        one.unwrap_err(),
        AppError::FastqFileLengthNotEqual { line1: 8, line2: 4 }
    );
    let pair = pair_records(
        Some(rec("id:1", "ACGT", "IIII")),
        Some(rec("id:1", "TTTT", "JJJJ")),
        4,
        4,
    )
    .unwrap()
    .unwrap();
    assert_eq!(pair.qname, b"id:1".to_vec());
    assert_eq!(pair.r1, b"ACGT".to_vec());
    assert_eq!(pair.r2, b"TTTT".to_vec());
    let mismatch = pair_records(
        Some(rec("id:1", "A", "I")),
        Some(rec("id:2", "A", "I")),
        12,
        12,
    )
    .unwrap()
    .unwrap_err();
    assert_eq!(
        mismatch,
        AppError::FastqIdMismatch {
            line: 12,
            id1: "id:1".to_string(),
            id2: "id:2".to_string()
        }
    );
}

fn pair() -> PairedOwnedRecord {
    PairedOwnedRecord::new(
        &rec("q", "AACCGGTT", "IIIIJJJJ"),
        &rec("q", "ACGTACGT", "KKKKLLLL"),
    )
}

#[test]
fn test_parse_tag_area_forward() {
    let pos = Position::new(false, false, 1, 5);
    let (seq, qual) = parse_tag_area(&pos, &pair());
    assert_eq!(seq, b"ACCG".to_vec());
    assert_eq!(qual, b"IIIJ".to_vec());
}

#[test]
fn test_parse_tag_area_revcomp_reverses_both() {
    let pos = Position::new(true, true, 0, 4);
    let (seq, qual) = parse_tag_area(&pos, &pair());
    assert_eq!(seq, b"ACGT".to_vec());
    assert_eq!(qual, b"KKKK".to_vec());
    let pos = Position::new(false, true, 0, 4);
    let (seq, qual) = parse_tag_area(&pos, &pair());
    assert_eq!(seq, b"GGTT".to_vec());
    assert_eq!(qual, b"IIII".to_vec());
}

#[test]
fn test_parse_read_area_rebases_quality() {
    let cfg = Mode::custom(
        Position::new(false, false, 0, 2),
        Position::new(false, false, 0, 2),
        Position::new(true, false, 0, 4),
    );
    let (seq, qual) = parse_read_area(&cfg, &pair());
    assert_eq!(seq, b"ACGT".to_vec());
    // 'K' is 75; 75 - 33 == 42.
    assert_eq!(qual, vec![42, 42, 42, 42]);
}

#[test]
fn test_replace_asterisk() {
    assert_eq!(replace_asterisk(&b'*'), b'!');
    assert_eq!(replace_asterisk(&b'I'), b'I');
}
