use opentools::error::AppError;
use opentools::pipeline::{extract_chip_barcodes, Report, SequencingRecord, StepOutcome,
    ChipExtractor};
use opentools::position::Position;

fn record(id: &str, seq: &str, qual_byte: u8) -> SequencingRecord {
    SequencingRecord {
        id: id.as_bytes().to_vec(),
        seq: seq.as_bytes().to_vec(),
        qual: vec![qual_byte; seq.len()],
    }
}

#[test]
fn test_extract_emits_line_in_order() {
    let pos = Position::new(false, false, 0, 4);
    let records = vec![
        record("m:r:f:1:1101:100:200", "ACGT", 70),
        record("m:r:f:1:1101:101:201", "TTTT", 70),
    ];
    let (lines, report) = extract_chip_barcodes(&pos, b"NNNN", &records).unwrap();
    assert_eq!(lines.len(), 2);
    assert_eq!(lines[0], b"11101\t100\t200\tACGT\n".to_vec());
    assert_eq!(lines[1], b"11101\t101\t201\tTTTT\n".to_vec());
    assert_eq!(report.total_count, 2);
    assert_eq!(report.passed_count(), 2);
}

#[test]
fn test_report_balance_holds() {
    // passed + filteredQuality + filteredPattern + filteredDuplicate == total
    let pos = Position::new(false, false, 0, 4);
    let records = vec![
        record("m:r:f:1:1101:1:1", "ACGT", 70),
        record("m:r:f:1:1101:2:2", "ACGT", 40),
        record("m:r:f:1:1101:3:3", "TTTT", 70),
        record("m:r:f:1:1101:1:1", "ACGT", 70),
    ];
    let (lines, report) = extract_chip_barcodes(&pos, b"ACGT", &records).unwrap();
    assert_eq!(report.total_count, 4);
    assert_eq!(report.filter_qual_count, 1);
    assert_eq!(report.filter_seq_count, 1);
    assert_eq!(report.filter_dup_count, 1);
    assert_eq!(lines.len(), 1);
    assert_eq!(
        report.passed_count() + report.filter_qual_count + report.filter_seq_count
            + report.filter_dup_count,
        report.total_count
    );
    assert_eq!(report.passed_count() as usize, lines.len());
}

#[test]
fn test_duplicate_coordinate_dropped() {
    let pos = Position::new(false, false, 0, 4);
    let records = vec![
        record("m:r:f:1:1101:5:6", "ACGT", 70),
        record("m:r:f:2:1102:5:6", "TTTT", 70),
    ];
    let (lines, report) = extract_chip_barcodes(&pos, b"NNNN", &records).unwrap();
    assert_eq!(lines.len(), 1);
    assert_eq!(report.filter_dup_count, 1);
}

#[test]
fn test_revcomp_normalisation_in_line() {
    let pos = Position::new(false, true, 0, 4);
    let records = vec![record("m:r:f:1:1101:1:2", "ACGT", 70)];
    let (lines, _) = extract_chip_barcodes(&pos, b"NNNN", &records).unwrap();
    assert_eq!(lines[0], b"11101\t1\t2\tACGT\n".to_vec());
    let records = vec![record("m:r:f:1:1101:1:2", "AAGT", 70)];
    let (lines, _) = extract_chip_barcodes(&pos, b"NNNN", &records).unwrap();
    assert_eq!(lines[0], b"11101\t1\t2\tACTT\n".to_vec());
}

#[test]
fn test_malformed_id_is_fatal() {
    let pos = Position::new(false, false, 0, 4);
    let records = vec![record("only:three:fields", "ACGT", 70)];
    let err = extract_chip_barcodes(&pos, b"NNNN", &records).unwrap_err();
    assert_eq!(err, AppError::InvalidRecordId);
    assert_eq!(err.message(), "Invalid fastq id occurs!");
}

#[test]
fn test_step_outcomes() {
    let pos = Position::new(false, false, 0, 4);
    let mut ext = ChipExtractor::new(&pos, b"ACGT");
    let out = ext.step(&record("m:r:f:1:1101:1:1", "ACGT", 70)).unwrap();
    assert!(matches!(out, StepOutcome::Passed(_)));
    let out = ext.step(&record("m:r:f:1:1101:1:1", "ACGT", 70)).unwrap();
    assert!(matches!(out, StepOutcome::FilteredDuplicate));
    let out = ext.step(&record("m:r:f:1:1101:2:2", "TTTT", 70)).unwrap();
    assert!(matches!(out, StepOutcome::FilteredPattern));
    let out = ext.step(&record("m:r:f:1:1101:3:3", "ACGT", 10)).unwrap();
    assert!(matches!(out, StepOutcome::FilteredQuality));
    let report = ext.report();
    assert_eq!(report.total_count, 4);
    assert_eq!(report.passed_count(), 1);
}

#[test]
fn test_report_to_line() {
    let report = Report::new(10, 2, 3, 1);
    assert_eq!(
        report.to_line(),
        "Total=10, Filtered=6 (Qual=2, Seq=3, Dup=1), Passed=4"
    );
}
