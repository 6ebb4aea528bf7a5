use opentools::error::AppError;
use opentools::pipeline::SequencingRecord;
use opentools::position::Position;
use opentools::tiles::{
    all_valid_tile_ids, is_valid_tile_id, match_tile, search_tile, search_tiles, BarcodeMode,
    Threshold, TileLines,
};

fn line(barcode: &str) -> Vec<u8> {
    format!("11101\t1\t1\t{}", barcode).into_bytes()
}

#[test]
fn test_reference_overlap_ratio_against_thresholds() {
    // A reference sample of 100_000 values; a tile candidate set of 50
    // with 10 overlapping values: ratio 0.2 passes threshold 0.1 and
    // fails threshold 0.3.
    let sample: Vec<Vec<u8>> = (0..100_000u32)
        .map(|i| format!("REF{:06}", i).into_bytes())
        .collect();
    let mut lines: Vec<Vec<u8>> = Vec::new();
    for i in 0..10u32 {
        lines.push(line(&format!("REF{:06}", i)));
    }
    for i in 0..40u32 {
        lines.push(line(&format!("TILEONLY{:04}", i)));
    }
    let report = match_tile(21305, &lines, &sample, Threshold::new(1, 10)).unwrap();
    assert_eq!(report.tile_id(), 21305);
    assert_eq!(report.total_num(), 50);
    assert_eq!(report.passed_num(), 10);
    assert!(report.pass_threshold());
    let report = match_tile(21305, &lines, &sample, Threshold::new(3, 10)).unwrap();
    assert!(!report.pass_threshold());
}

#[test]
fn test_ratio_boundary_is_inclusive() {
    let sample: Vec<Vec<u8>> = vec![b"AAAA".to_vec()];
    let lines = vec![line("AAAA"), line("CCCC")];
    // ratio = 1/2; threshold 1/2 passes, just above fails.
    let report = match_tile(11101, &lines, &sample, Threshold::new(1, 2)).unwrap();
    assert!(report.pass_threshold());
    let report = match_tile(11101, &lines, &sample, Threshold::new(51, 100)).unwrap();
    assert!(!report.pass_threshold());
}

#[test]
fn test_empty_tile_fails_closed() {
    let sample: Vec<Vec<u8>> = vec![b"AAAA".to_vec()];
    let report = match_tile(11101, &Vec::new(), &sample, Threshold::new(0, 10)).unwrap();
    assert_eq!(report.total_num(), 0);
    assert!(!report.pass_threshold());
}

#[test]
fn test_tile_candidates_counted_once() {
    let sample: Vec<Vec<u8>> = vec![b"AAAA".to_vec()];
    let lines = vec![line("AAAA"), line("AAAA"), line("AAAA")];
    let report = match_tile(11101, &lines, &sample, Threshold::new(1, 10)).unwrap();
    assert_eq!(report.total_num(), 1);
    assert_eq!(report.passed_num(), 1);
}

#[test]
fn test_malformed_tile_line_is_fatal() {
    let sample: Vec<Vec<u8>> = Vec::new();
    let lines = vec![b"short".to_vec()];
    let err = match_tile(11101, &lines, &sample, Threshold::new(1, 10)).unwrap_err();
    assert!(matches!(err, AppError::IoError(_)));
}

#[test]
fn test_search_tiles_orders_reports_by_input() {
    let sample: Vec<Vec<u8>> = vec![b"AAAA".to_vec()];
    let tiles = vec![
        TileLines { tile_id: 11101, lines: vec![line("AAAA")] },
        TileLines { tile_id: 11102, lines: vec![line("CCCC")] },
    ];
    let reports = search_tiles(&tiles, &sample, Threshold::new(1, 2)).unwrap();
    assert_eq!(reports.len(), 2);
    assert_eq!(reports[0].tile_id(), 11101);
    assert!(reports[0].pass_threshold());
    assert_eq!(reports[1].tile_id(), 11102);
    assert!(!reports[1].pass_threshold());
}

#[test]
fn test_valid_tile_ids() {
    assert_eq!(is_valid_tile_id("11101"), Ok(11101));
    assert_eq!(is_valid_tile_id("42678"), Ok(42678));
    assert_eq!(is_valid_tile_id("21305"), Ok(21305));
    assert_eq!(
        is_valid_tile_id("abc"),
        Err("`abc` is not valid integer".to_string())
    );
    assert_eq!(
        is_valid_tile_id("11100"),
        Err("tile_id 11100 is not in the valid range (valid range: 11101-42678)".to_string())
    );
    assert_eq!(
        is_valid_tile_id("50000"),
        Err("tile_id 50000 is not in the valid range (valid range: 11101-42678)".to_string())
    );
}

#[test]
fn test_all_valid_tile_ids_universe() {
    let ids = all_valid_tile_ids();
    assert_eq!(ids.len(), 3744);
    assert_eq!(ids[0], 11101);
    assert_eq!(ids[ids.len() - 1], 42678);
    assert!(ids.contains(&21305));
    assert!(!ids.contains(&11100));
    for w in ids.windows(2) {
        assert!(w[0] < w[1]);
    }
}

#[test]
fn test_openst_preset_for_matching() {
    let (pos, pattern) = BarcodeMode::openst();
    assert!(!pos.is_read2());
    assert!(!pos.is_revcomp());
    assert_eq!(pos.start(), 2);
    assert_eq!(pos.end(), 30);
    assert_eq!(pattern, "VNBVNNVNNVNNVNNVNNVNNVNNVNNN");
}

#[test]
fn test_search_tile_builds_sample_and_matches() {
    let pos = Position::new(false, false, 0, 4);
    let records = vec![
        SequencingRecord {
            id: b"m:r:f:1:1101:1:1".to_vec(),
            seq: b"AAAA".to_vec(),
            qual: vec![70; 4],
        },
        SequencingRecord {
            id: b"m:r:f:1:1101:2:2".to_vec(),
            seq: b"CCCC".to_vec(),
            qual: vec![70; 4],
        },
    ];
    let tiles = vec![
        TileLines { tile_id: 11101, lines: vec![line("AAAA"), line("GGGG")] },
        TileLines { tile_id: 11102, lines: vec![line("TTTT")] },
    ];
    let reports =
        search_tile(&records, &pos, b"NNNN", 10, &tiles, Threshold::new(1, 2)).unwrap();
    assert_eq!(reports.len(), 2);
    assert_eq!(reports[0].passed_num(), 1);
    assert_eq!(reports[0].total_num(), 2);
    assert!(reports[0].pass_threshold());
    assert_eq!(reports[1].passed_num(), 0);
    assert!(!reports[1].pass_threshold());
}

#[test]
fn test_tilesmatch_returns_ok() {
    // This is just a placeholder test
    let result: Result<(), AppError> = Ok(());
    assert!(result.is_ok());
}
