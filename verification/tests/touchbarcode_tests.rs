use opentools::position::Position;
use opentools::touchbarcode::{
    scan_tile_ids, validate_barcode_pattern, BarcodeMode, InitTouchBarcodeArgs,
};

fn init() -> InitTouchBarcodeArgs {
    let (pos, pattern) = BarcodeMode::openst();
    InitTouchBarcodeArgs::new(
        "/data/run".to_string(),
        "/data/out".to_string(),
        false,
        pos,
        pattern,
    )
}

#[test]
fn test_validate_barcode_pattern_accepts_codes() {
    assert_eq!(
        validate_barcode_pattern("ATGCNRYMKSWHBVDU"),
        Ok("ATGCNRYMKSWHBVDU".to_string())
    );
    assert_eq!(
        validate_barcode_pattern("NNNBNNBNNBNNBNNBNNBNNBNNBVNB"),
        Ok("NNNBNNBNNBNNBNNBNNBNNBNNBVNB".to_string())
    );
}

#[test]
fn test_validate_barcode_pattern_rejects() {
    let expected = "Invalid barcode pattern. \n            Allowed characters: A, T, G, C, R, Y, M, K, S, W, H, B, V, D, N";
    assert_eq!(validate_barcode_pattern("ACGX"), Err(expected.to_string()));
    assert_eq!(validate_barcode_pattern(""), Err(expected.to_string()));
    assert_eq!(validate_barcode_pattern("acgt"), Err(expected.to_string()));
}

#[test]
fn test_openst_preset_for_touch() {
    let (pos, pattern) = BarcodeMode::openst();
    assert_eq!(pos, Position::new(false, true, 2, 30));
    assert_eq!(pattern, "NNNBNNBNNBNNBNNBNNBNNBNNBVNB");
}

#[test]
fn test_derived_paths() {
    let args = init();
    assert_eq!(args.fastq_path("1101"), "/data/out/fastq/1101");
    assert_eq!(
        args.fastq_file("1101"),
        "/data/out/fastq/1101/Undetermined_S0_R1_001.fastq.gz"
    );
    assert_eq!(args.tmp_file("1101"), "/data/out/tmp/1101.txt");
    assert_eq!(args.output(), "/data/out");
}

#[test]
fn test_extract_tile_ids_finds_all() {
    let args = init();
    let content = b"<Tiles><Tile>1_1101</Tile>\n  <Tile>2_1102</Tile><Tile>4_2678</Tile></Tiles>";
    let ids = args.extract_tile_ids(content).unwrap();
    assert_eq!(
        ids,
        vec![b"1_1101".to_vec(), b"2_1102".to_vec(), b"4_2678".to_vec()]
    );
}

#[test]
fn test_extract_tile_ids_skips_malformed_tags() {
    // A surface digit outside 1..4 and a short id are no matches.
    let content = b"<Tile>5_1101</Tile><Tile>1_12</Tile><Tile>3_1404</Tile>";
    let ids = scan_tile_ids(content);
    assert_eq!(ids, vec![b"3_1404".to_vec()]);
}

#[test]
fn test_extract_tile_ids_empty_is_error() {
    let args = init();
    let err = args.extract_tile_ids(b"<Tiles></Tiles>").unwrap_err();
    assert_eq!(
        err.message(),
        "Empty tile IDs list: \"/data/run/RunInfo.xml\""
    );
}
