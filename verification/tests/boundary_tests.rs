use interview_notes::boundary::{locate_boundary, BoundaryScan, ScanPhase};
use interview_notes::errors::MyErrors;

fn lines(items: &[&str]) -> Vec<String> {
    items.iter().map(|s| s.to_string()).collect()
}

#[test]
fn last_standalone_marker_wins() {
    let record = lines(&[
        "MIME-Version: 1.0",
        "Content-Type: multipart/mixed; boundary=abc123",
        "",
        "--abc123",
        "some body text",
        "--abc123",
        "--abc123--",
    ]);
    assert_eq!(locate_boundary(&record).unwrap(), 5);
}

#[test]
fn record_without_declaration_reports_zero() {
    let record = lines(&["--abc123", "text", "--abc123"]);
    assert_eq!(locate_boundary(&record).unwrap(), 0);
}

#[test]
fn empty_record_reports_zero() {
    assert_eq!(locate_boundary(&Vec::new()).unwrap(), 0);
}

#[test]
fn declaration_without_marker_lines_reports_zero() {
    let record = lines(&["Content-Type: multipart/mixed; boundary=zz", "--zz--", "-- zz"]);
    assert_eq!(locate_boundary(&record).unwrap(), 0);
}

#[test]
fn marker_before_its_declaration_is_not_counted() {
    let record = lines(&["--tok", "A: b; boundary=tok", "x", "--tok", "y"]);
    assert_eq!(locate_boundary(&record).unwrap(), 3);
}

#[test]
fn value_starts_after_the_first_equals_sign() {
    let record = lines(&["X=1; boundary=abc", "--1; boundary=abc", "--abc"]);
    assert_eq!(locate_boundary(&record).unwrap(), 1);
}

#[test]
fn second_declaration_extends_the_token() {
    let record = lines(&["a; boundary=ab", "--ab", "b; boundary=cd", "--ab", "--cd", "--abcd"]);
    assert_eq!(locate_boundary(&record).unwrap(), 5);
}

#[test]
fn empty_declared_value_keeps_seeking() {
    let record = lines(&["a; boundary=", "--", "--"]);
    assert_eq!(locate_boundary(&record).unwrap(), 0);
}

#[test]
fn declaration_cut_inside_a_character_is_malformed() {
    let record = lines(&["éééééééééééé; boundary=x", "--x"]);
    assert!(matches!(locate_boundary(&record), Err(MyErrors::InvalidBoundaryLine)));
}

#[test]
fn declaration_after_short_accented_prefix_is_accepted() {
    let record = lines(&["é; boundary=x", "--x"]);
    assert_eq!(locate_boundary(&record).unwrap(), 1);
}

#[test]
fn repeated_scans_agree() {
    let record = lines(&["h; boundary=q", "--q", "t", "--q", "--q--"]);
    let first = locate_boundary(&record).unwrap();
    let second = locate_boundary(&record).unwrap();
    assert_eq!(first, 3);
    assert_eq!(first, second);
}

#[test]
fn scan_moves_from_seeking_to_tracking() {
    let mut scan = BoundaryScan::new();
    assert_eq!(scan.phase(), ScanPhase::SeekingBoundaryDeclaration);
    scan.step("nothing here").unwrap();
    assert_eq!(scan.phase(), ScanPhase::SeekingBoundaryDeclaration);
    scan.step("Content-Type: multipart/mixed; boundary=k9").unwrap();
    assert_eq!(scan.phase(), ScanPhase::TrackingKnownBoundary);
    assert_eq!(scan.offset(), 0);
    scan.step("--k9").unwrap();
    assert_eq!(scan.offset(), 2);
    scan.step("--k9--").unwrap();
    assert_eq!(scan.offset(), 2);
}
