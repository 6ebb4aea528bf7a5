use opentools::dedup::{dedup, parse_tile_line, DedupEngine};
use opentools::error::AppError;

fn line(tile: &str, x: &str, y: &str, barcode: &str) -> Vec<u8> {
    format!("{}\t{}\t{}\t{}", tile, x, y, barcode).into_bytes()
}

const HEADER: &[u8] = b"tile_id\tx_po\ty_pos\tbarcode";

#[test]
fn test_parse_tile_line_takes_fourth_field() {
    assert_eq!(
        parse_tile_line(b"11101\t10\t20\tACGT"),
        Some(b"ACGT".to_vec())
    );
    // Everything after the third tab belongs to the barcode field.
    assert_eq!(
        parse_tile_line(b"11101\t10\t20\tAC\tGT"),
        Some(b"AC\tGT".to_vec())
    );
    assert_eq!(parse_tile_line(b"11101\t10\t20"), None);
    assert_eq!(parse_tile_line(b""), None);
}

#[test]
fn test_shared_barcode_survives_once() {
    // Two tiles holding the same barcode value: the whitelist gets it
    // exactly once, and only one tile's local output keeps its line.
    let shared = "ACGTACGTACGTACGT";
    let t1 = vec![line("11101", "1", "2", shared)];
    let t2 = vec![line("11102", "3", "4", shared)];
    let out = dedup(&vec![t1.clone(), t2]).unwrap();
    assert_eq!(out.whitelist, vec![shared.as_bytes().to_vec()]);
    assert_eq!(out.mapping, vec![t1[0].clone()]);
    assert_eq!(out.tile_outputs.len(), 2);
    assert_eq!(out.tile_outputs[0].local_lines, vec![HEADER.to_vec(), t1[0].clone()]);
    assert_eq!(out.tile_outputs[1].local_lines, vec![HEADER.to_vec()]);
}

#[test]
fn test_three_tiles_mixed_barcodes() {
    let t1 = vec![line("11101", "1", "1", "AAAA"), line("11101", "1", "2", "CCCC")];
    let t2 = vec![line("11102", "2", "1", "AAAA"), line("11102", "2", "2", "GGGG")];
    let t3 = vec![line("11103", "3", "1", "CCCC"), line("11103", "3", "2", "AAAA")];
    let out = dedup(&vec![t1, t2, t3]).unwrap();
    let whitelist: Vec<String> = out
        .whitelist
        .iter()
        .map(|b| String::from_utf8(b.clone()).unwrap())
        .collect();
    assert_eq!(whitelist, vec!["AAAA", "CCCC", "GGGG"]);
    assert_eq!(out.mapping.len(), 3);
    // Each winner's record carries its own barcode.
    for (rec, bc) in out.mapping.iter().zip(out.whitelist.iter()) {
        assert_eq!(parse_tile_line(rec), Some(bc.clone()));
    }
    // The duplicate never wins a second tile.
    assert_eq!(out.tile_outputs[0].winner_barcodes.len(), 2);
    assert_eq!(out.tile_outputs[1].winner_barcodes.len(), 1);
    assert_eq!(out.tile_outputs[2].winner_barcodes.len(), 0);
}

#[test]
fn test_within_tile_duplicate_dropped() {
    let t1 = vec![line("11101", "1", "1", "AAAA"), line("11101", "1", "2", "AAAA")];
    let out = dedup(&vec![t1]).unwrap();
    assert_eq!(out.whitelist.len(), 1);
    assert_eq!(out.tile_outputs[0].winner_records.len(), 1);
}

#[test]
fn test_malformed_line_is_fatal() {
    let t1 = vec![line("11101", "1", "1", "AAAA")];
    let t2 = vec![b"no tabs here".to_vec()];
    let err = dedup(&vec![t1, t2]).unwrap_err();
    assert_eq!(
        err.message(),
        "IO operation error: Invalid tile's barcode file format"
    );
}

#[test]
fn test_engine_process_tile_reports_winners() {
    let mut engine = DedupEngine::new();
    let t1 = vec![line("11101", "1", "1", "TTTT")];
    let r1 = engine.process_tile(&t1).unwrap();
    assert_eq!(r1.winner_barcodes, vec![b"TTTT".to_vec()]);
    let t2 = vec![line("11102", "9", "9", "TTTT")];
    let r2 = engine.process_tile(&t2).unwrap();
    assert_eq!(r2.winner_barcodes.len(), 0);
    assert_eq!(r2.local_lines, vec![HEADER.to_vec()]);
}

#[test]
fn test_viewbarcode_returns_ok() {
    // This is just a placeholder test
    let result: Result<(), AppError> = Ok(());
    assert!(result.is_ok());
}
