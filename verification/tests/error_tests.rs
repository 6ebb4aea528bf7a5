use opentools::error::AppError;

#[test]
fn test_io_error_display() {
    let app_error = AppError::IoError("file not found".to_string());
    assert_eq!(app_error.message(), "IO operation error: file not found");
}

#[test]
fn test_not_equal_file_number_display() {
    let app_error = AppError::NotEqualFileNumber { n1: 3, n2: 5 };
    assert_eq!(
        app_error.message(),
        "Mismatched number of input files: 3 forward files, 5 reverse files"
    );
}

#[test]
fn test_command_not_found_display() {
    let app_error = AppError::CommandNotFound("my_command".to_string());
    assert_eq!(app_error.message(), "System command not found: my_command");
}

#[test]
fn test_length_mismatch_display() {
    let app_error = AppError::FastqFileLengthNotEqual { line1: 40, line2: 44 };
    assert_eq!(
        app_error.message(),
        "Inconsistent line counts in Fastq files: file1 at line 40, file2 at line 44"
    );
}

#[test]
fn test_id_mismatch_display() {
    let app_error = AppError::FastqIdMismatch {
        line: 8,
        id1: "a".to_string(),
        id2: "b".to_string(),
    };
    assert_eq!(
        app_error.message(),
        "Mismatched Fastq IDs at line 8: ID1=a, ID2=b"
    );
}

#[test]
fn test_channel_error_display() {
    assert_eq!(
        AppError::ChannelError.message(),
        "Thread channel communication failed"
    );
}

#[test]
fn test_invalid_base_display() {
    assert_eq!(AppError::InvalidBase(88).message(), "Invalid base: 88");
}

#[test]
fn test_unsupported_os_display() {
    assert_eq!(
        AppError::UnsupportedOS.message(),
        "Unsupported operating system"
    );
}

#[test]
fn test_empty_tile_ids_display() {
    assert_eq!(
        AppError::EmptyTileIDsList("/r/RunInfo.xml".to_string()).message(),
        "Empty tile IDs list: \"/r/RunInfo.xml\""
    );
}

#[test]
fn test_command_error_display() {
    assert_eq!(
        AppError::CommandError("bcl-convert run failed in tile_id 1_1101".to_string()).message(),
        "Command execution failed: bcl-convert run failed in tile_id 1_1101"
    );
}

#[test]
fn test_invalid_utf8_display() {
    assert_eq!(
        AppError::InvalidUtf8InBarcode.message(),
        "Barcode contains invalid UTF-8 characters"
    );
}

#[test]
fn test_docker_image_display() {
    assert_eq!(
        AppError::DockerImageNotFound("zymoresearch/bcl-convert".to_string()).message(),
        "Docker image not found: zymoresearch/bcl-convert"
    );
}

#[test]
fn test_parse_error_display() {
    assert_eq!(
        AppError::FastqParseError("truncated record".to_string()).message(),
        "Fastq parsing error: truncated record"
    );
}

#[test]
fn test_bam_record_error_display() {
    assert_eq!(
        AppError::BamRecordError("aux write".to_string()).message(),
        "BAM record operation error: aux write"
    );
}

#[test]
fn test_invalid_pattern_display() {
    assert_eq!(
        AppError::InvalidBarcodePattern("ZZZ".to_string()).message(),
        "Invalid barcode pattern: ZZZ"
    );
}
