use interview_notes::creator::{
    after_claim, after_write, boundary_from, company_slug, editor_argument, generate_boundary,
    hex_char, hyphenate, record_name, record_path, year_directory, ClaimOutcome, NextStep,
    BOUNDARY_LENGTH, FIRST_EDIT_LINE,
};
use interview_notes::errors::MyErrors;
use interview_notes::stamp::Timestamp;

#[test]
fn slug_has_hyphens_for_spaces_and_is_lowercase() {
    assert_eq!(hyphenate("Acme  Corp Ltd"), "Acme--Corp-Ltd");
    assert_eq!(company_slug("Acme Corp"), "acme-corp");
    assert_eq!(company_slug("ACME"), "acme");
    assert_eq!(company_slug(""), "");
}

#[test]
fn record_name_is_stamp_hyphen_slug_and_extension() {
    assert_eq!(record_name("20240102T030405", "acme"), "20240102T030405-acme.eml");
}

#[test]
fn record_path_lies_in_the_directory_of_its_year() {
    let t = Timestamp::new(2024, 1, 2, 3, 4, 5).unwrap();
    assert_eq!(
        record_path("/tmp/interviews", &t, "Acme Corp"),
        "/tmp/interviews/2024/20240102T030405-acme-corp.eml"
    );
    let t = Timestamp::new(987, 1, 2, 3, 4, 5).unwrap();
    assert_eq!(record_path("/r", &t, "x"), "/r/987/09870102T030405-x.eml");
}

#[test]
fn year_directory_is_root_and_year() {
    assert_eq!(year_directory("/tmp/interviews", 2024), "/tmp/interviews/2024");
}

#[test]
fn editor_argument_is_path_colon_line() {
    assert_eq!(editor_argument("/r/a.eml", 0), "/r/a.eml:0");
    assert_eq!(editor_argument("/r/a.eml", FIRST_EDIT_LINE), "/r/a.eml:24");
    assert_eq!(editor_argument("/r/a.eml", 105), "/r/a.eml:105");
}

#[test]
fn taken_path_gives_the_creation_up() {
    let next = after_claim(ClaimOutcome::Taken);
    assert!(matches!(next, NextStep::GiveUp(MyErrors::FileAlreadyExists)));
    assert!(!matches!(next, NextStep::WriteRecord | NextStep::StartEditor));
}

#[test]
fn refused_creation_keeps_its_cause() {
    let cause = std::io::Error::new(std::io::ErrorKind::PermissionDenied, "denied");
    match after_claim(ClaimOutcome::Refused(cause)) {
        NextStep::GiveUp(MyErrors::CannotCreateFile(e)) => {
            assert_eq!(e.kind(), std::io::ErrorKind::PermissionDenied)
        }
        other => panic!("unexpected {:?}", other),
    }
}

#[test]
fn record_is_written_to_the_file_that_was_created() {
    assert!(matches!(after_claim(ClaimOutcome::Claimed), NextStep::WriteRecord));
}

#[test]
fn editor_starts_on_a_written_record_only() {
    assert!(matches!(after_write(Ok(())), NextStep::StartEditor));
    let cause = std::io::Error::new(std::io::ErrorKind::WriteZero, "full");
    match after_write(Err(cause)) {
        NextStep::GiveUp(MyErrors::CannotWriteToFile(e)) => {
            assert_eq!(e.kind(), std::io::ErrorKind::WriteZero)
        }
        other => panic!("unexpected {:?}", other),
    }
}

#[test]
fn picks_select_hexadecimal_digits() {
    assert_eq!(boundary_from(&vec![0, 9, 10, 15, 16, 31, 255]), "09af0ff");
    assert_eq!(boundary_from(&Vec::new()), "");
    let all: String = (0..16).map(hex_char).collect();
    assert_eq!(all, "0123456789abcdef");
}

#[test]
fn generated_boundary_is_28_hexadecimal_digits() {
    let token = generate_boundary();
    assert_eq!(token.len(), BOUNDARY_LENGTH);
    assert_eq!(token.chars().count(), 28);
    assert!(token.chars().all(|c| c.is_ascii_digit() || ('a'..='f').contains(&c)));
}

#[test]
fn generated_boundaries_are_drawn_at_random() {
    let first = generate_boundary();
    let second = generate_boundary();
    assert_ne!(first, "0".repeat(28));
    assert_ne!(first, second);
}
