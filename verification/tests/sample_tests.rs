use opentools::pipeline::SequencingRecord;
use opentools::position::Position;
use opentools::sample::extract_sample_barcodes;

fn record(seq: &str, qual_byte: u8) -> SequencingRecord {
    SequencingRecord {
        id: b"m:r:f:1:1101:1:1".to_vec(),
        seq: seq.as_bytes().to_vec(),
        qual: vec![qual_byte; seq.len()],
    }
}

fn sorted(mut v: Vec<Vec<u8>>) -> Vec<Vec<u8>> {
    v.sort();
    v
}

#[test]
fn test_sample_collects_distinct_values() {
    let pos = Position::new(false, false, 0, 4);
    let records = vec![record("ACGT", 70), record("TTTT", 70), record("ACGT", 70)];
    let sample = extract_sample_barcodes(&pos, b"NNNN", &records, 10).unwrap();
    assert_eq!(
        sorted(sample),
        vec![b"ACGT".to_vec(), b"TTTT".to_vec()]
    );
}

#[test]
fn test_sample_cap_is_never_exceeded() {
    let pos = Position::new(false, false, 0, 4);
    let records = vec![
        record("AAAA", 70),
        record("CCCC", 70),
        record("GGGG", 70),
        record("TTTT", 70),
    ];
    let sample = extract_sample_barcodes(&pos, b"NNNN", &records, 2).unwrap();
    assert_eq!(sample.len(), 2);
    let sample = extract_sample_barcodes(&pos, b"NNNN", &records, 0).unwrap();
    assert_eq!(sample.len(), 0);
}

#[test]
fn test_sample_applies_both_gates() {
    let pos = Position::new(false, false, 0, 4);
    let records = vec![
        record("AAAA", 70),
        record("TTTT", 70),  // pattern reject
        record("AACA", 40),  // quality reject
    ];
    let sample = extract_sample_barcodes(&pos, b"AANA", &records, 10).unwrap();
    assert_eq!(sample, vec![b"AAAA".to_vec()]);
}

#[test]
fn test_sample_normalises_reverse_complement() {
    let pos = Position::new(false, true, 0, 4);
    let records = vec![record("AAGT", 70)];
    let sample = extract_sample_barcodes(&pos, b"NNNN", &records, 10).unwrap();
    assert_eq!(sample, vec![b"ACTT".to_vec()]);
}
