use opentools::matcher::{
    check_base_match, complement, fail_quality_filter, fail_sequence_filter, process_barcode,
};

#[test]
fn test_complement_pairs() {
    assert_eq!(complement(&b'A'), b'T');
    assert_eq!(complement(&b'T'), b'A');
    assert_eq!(complement(&b'G'), b'C');
    assert_eq!(complement(&b'C'), b'G');
    assert_eq!(complement(&b'N'), b'N');
}

#[test]
fn test_revcomp_involutive() {
    let original: Vec<u8> = b"ACGTNNTGCA".to_vec();
    let once = process_barcode(&original, true);
    assert_eq!(once, b"TGCANNACGT");
    let twice = process_barcode(&once, true);
    assert_eq!(twice, original);
}

#[test]
fn test_process_barcode_forward_copies() {
    let original: Vec<u8> = b"ACGTN".to_vec();
    assert_eq!(process_barcode(&original, false), original);
}

#[test]
fn test_base_match_literal() {
    // A matching code permits the base; `true` means mismatch.
    assert!(!check_base_match(b'A', b'A'));
    assert!(!check_base_match(b'A', b'R'));
    assert!(!check_base_match(b'G', b'R'));
    assert!(!check_base_match(b'C', b'S'));
    assert!(!check_base_match(b'T', b'W'));
    // A literal mismatch never matches.
    assert!(check_base_match(b'T', b'A'));
    assert!(check_base_match(b'A', b'Y'));
    assert!(check_base_match(b'C', b'R'));
}

#[test]
fn test_n_matches_both_ways() {
    assert!(!check_base_match(b'N', b'A'));
    assert!(!check_base_match(b'N', b'B'));
    assert!(!check_base_match(b'A', b'N'));
    assert!(!check_base_match(b'G', b'N'));
}

#[test]
fn test_pattern_substitution_matches() {
    // Substituting each code with one base it permits always matches.
    let pattern = b"RYSWKM";
    assert!(!fail_sequence_filter(b"ACGAGA", pattern));
    assert!(!fail_sequence_filter(b"GTCTTC", pattern));
}

#[test]
fn test_pattern_literal_mismatch_fails() {
    assert!(fail_sequence_filter(b"T", b"A"));
    assert!(fail_sequence_filter(b"ACGT", b"ACGA"));
}

#[test]
fn test_nnn_matches_any_three_base_slice() {
    for slice in [b"AAA", b"ACG", b"TTT", b"GCN", b"NNN"] {
        assert!(!fail_sequence_filter(slice, b"NNN"));
    }
}

#[test]
fn test_pattern_excess_tail_unchecked() {
    // Comparison stops at the shorter length: the tail is not judged.
    assert!(!fail_sequence_filter(b"AXXX", b"A"));
    assert!(!fail_sequence_filter(b"A", b"ATTT"));
}

#[test]
fn test_quality_hard_floor_fails_alone() {
    // One value below the floor fails regardless of all other values.
    let mut qual = vec![70u8; 20];
    qual[7] = 52;
    assert!(fail_quality_filter(&qual));
    assert!(fail_quality_filter(&[52]));
}

#[test]
fn test_quality_band_counting() {
    // Up to two low-band values pass; three fail.
    assert!(!fail_quality_filter(&[70, 60, 60, 70]));
    assert!(fail_quality_filter(&[70, 60, 60, 60, 70]));
    assert!(!fail_quality_filter(&[70, 70, 70]));
    assert!(!fail_quality_filter(&[]));
}
