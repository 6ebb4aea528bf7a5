use opentools::position::{Position, PositionError};

#[test]
fn test_parse_read1_forward_range() {
    let p = Position::from_str("read1:+:2-30").unwrap();
    assert!(!p.is_read2());
    assert!(!p.is_revcomp());
    assert_eq!(p.start(), 2);
    assert_eq!(p.end(), 30);
    assert_eq!(p.len(), 28);
    assert_eq!(p.range(), 2..30);
}

#[test]
fn test_parse_read2_end_keyword() {
    let p = Position::from_str("read2:-:9-end").unwrap();
    assert!(p.is_read2());
    assert!(p.is_revcomp());
    assert_eq!(p.start(), 9);
    assert_eq!(p.end(), 150);
    assert_eq!(p.len(), 141);
}

#[test]
fn test_parse_end_keyword_ignores_case() {
    let p = Position::from_str("read1:+:0-END").unwrap();
    assert_eq!(p.end(), 150);
    let p = Position::from_str("read1:+:0-End").unwrap();
    assert_eq!(p.end(), 150);
}

#[test]
fn test_parse_invalid_format() {
    assert_eq!(Position::from_str("read1:+"), Err(PositionError::InvalidFormat));
    assert_eq!(Position::from_str("read1:+:1"), Err(PositionError::InvalidFormat));
    assert_eq!(Position::from_str(""), Err(PositionError::InvalidFormat));
    assert_eq!(Position::from_str("read1:+:1-banana"), Err(PositionError::InvalidFormat));
    assert_eq!(Position::from_str("a:b:c:d"), Err(PositionError::InvalidFormat));
}

#[test]
fn test_parse_invalid_read() {
    assert_eq!(Position::from_str("read3:+:1-5"), Err(PositionError::InvalidRead));
    assert_eq!(Position::from_str("Read1:+:1-5"), Err(PositionError::InvalidRead));
}

#[test]
fn test_parse_invalid_strand() {
    assert_eq!(Position::from_str("read1:*:1-5"), Err(PositionError::InvalidStrand));
    assert_eq!(Position::from_str("read1::1-5"), Err(PositionError::InvalidStrand));
}

#[test]
fn test_parse_invalid_start() {
    assert_eq!(Position::from_str("read1:+:x-5"), Err(PositionError::InvalidStart));
    assert_eq!(Position::from_str("read1:+:151-155"), Err(PositionError::InvalidStart));
    assert_eq!(Position::from_str("read1:+:-5"), Err(PositionError::InvalidStart));
}

#[test]
fn test_parse_invalid_end() {
    assert_eq!(Position::from_str("read1:+:1-151"), Err(PositionError::InvalidEnd));
}

#[test]
fn test_parse_end_before_start() {
    assert_eq!(Position::from_str("read1:+:30-10"), Err(PositionError::EndBeforeStart));
}

#[test]
fn test_round_trip_all_field_combinations() {
    for text in [
        "read1:+:2-30",
        "read2:-:9-150",
        "read1:-:0-150",
        "read2:+:0-0",
        "read1:+:150-150",
        "read2:-:17-43",
    ] {
        let p = Position::from_str(text).unwrap();
        let rendered = p.to_text();
        assert_eq!(rendered, text);
        let q = Position::from_str(&rendered).unwrap();
        assert_eq!(p, q);
    }
}

#[test]
fn test_round_trip_normalises_end_keyword() {
    let p = Position::from_str("read2:-:9-end").unwrap();
    assert_eq!(p.to_text(), "read2:-:9-150");
    assert_eq!(Position::from_str(&p.to_text()).unwrap(), p);
}

#[test]
fn test_safe_slice_clamps() {
    let p = Position::new(false, false, 2, 30);
    let data: Vec<u8> = b"ACGTACGT".to_vec();
    assert_eq!(p.safe_slice(&data), b"GTACGT");
    let short: Vec<u8> = b"A".to_vec();
    assert_eq!(p.safe_slice(&short), b"");
    let long: Vec<u8> = vec![65u8; 150];
    assert_eq!(p.safe_slice(&long).len(), 28);
}
