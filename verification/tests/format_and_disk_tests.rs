use sweep::ScanBounds;
use sweep::cmd::Cmd;
use sweep::estimate::estimate;
use sweep::format::format_size;
use sweep::preview::scan_deletion_preview;

#[test]
fn format_size_bytes_unit() {
    assert_eq!(format_size(0), "0 B");
    assert_eq!(format_size(512), "512 B");
    assert_eq!(format_size(1023), "1023 B");
}

#[test]
fn format_size_larger_units() {
    assert_eq!(format_size(1024), "1.00 KB");
    assert_eq!(format_size(1536), "1.50 KB");
    assert_eq!(format_size(1535), "1.50 KB");
    assert_eq!(format_size(10 * 1048576), "10.00 MB");
    assert_eq!(format_size(1073741824), "1.00 GB");
    assert_eq!(format_size(1099511627776), "1.00 TB");
    assert_eq!(format_size(u64::MAX), "16777216.00 TB");
}

#[test]
fn format_size_rounds_ties_to_even() {
    // 1.125 KB and 1.375 KB are exact halves between two hundredths: the
    // even neighbour wins, as in standard float formatting.
    assert_eq!(format_size(1024 + 128), "1.12 KB");
    assert_eq!(format_size(1024 + 384), "1.38 KB");
    // 2047 bytes is 1.9990 KB: rounding carries into the whole part.
    assert_eq!(format_size(2047), "2.00 KB");
}

#[test]
fn estimate_missing_path_is_zero() {
    // Estimation never fails: a path that does not exist yields 0.
    let bounds = ScanBounds::new(8, 1000);
    let missing = "/no/such/directory/for/sweep/tests".to_string();
    assert_eq!(estimate(&missing, &bounds), 0);
}

#[test]
fn scan_missing_root_finds_nothing() {
    let commands = vec![Cmd::new("cargo".to_string(), vec!["Cargo.toml".to_string()])];
    let missing = "/no/such/directory/for/sweep/tests".to_string();
    let candidates = scan_deletion_preview(&missing, &commands, &vec![], 8, 1000);
    assert!(candidates.is_empty());
}
