use interview_notes::matcher::{
    company_fragment, company_matches, fragment_from_lowered, matches_fragment, matches_lowered,
};

#[test]
fn company_matches_its_own_record() {
    assert!(company_matches("20240101T000000-acme.eml", "Acme"));
}

#[test]
fn company_does_not_match_a_longer_company() {
    assert!(!company_matches("20240101T000000-notacme.eml", "Acme"));
}

#[test]
fn tail_of_a_name_without_the_hyphen_does_not_match() {
    assert!(!company_matches("20240101T000000-acme.eml", "cme"));
}

#[test]
fn match_is_by_substring_and_not_anchored() {
    assert!(company_matches("20240101T000000-never-mind.eml", "Mind"));
    assert!(!company_matches("20240101T000000-mindbody.eml", "Mind"));
    assert!(company_matches("20240101T000000-acme.corp.md", "acme"));
}

#[test]
fn both_sides_are_compared_in_lowercase() {
    assert!(company_matches("20240101T000000-Acme.eml", "ACME"));
    assert!(company_matches("20240101T000000-ÉCOLE.md", "école"));
}

#[test]
fn only_record_extensions_are_accepted() {
    assert!(company_matches("20240101T000000-acme.md", "acme"));
    assert!(!company_matches("20240101T000000-acme.txt", "acme"));
    assert!(!company_matches("20240101T000000-acme.eml.bak", "acme"));
    assert!(!company_matches("20240101T000000-acme.MD", "acme"));
}

#[test]
fn empty_company_gives_the_bare_delimiters() {
    assert_eq!(company_fragment(""), "-.");
    assert!(company_matches("20240101T000000-.eml", ""));
    assert!(!company_matches("20240101T000000-acme.eml", ""));
}

#[test]
fn fragment_is_the_lowercase_name_between_hyphen_and_period() {
    assert_eq!(company_fragment("ACME Corp"), "-acme corp.");
    assert_eq!(fragment_from_lowered("acme"), "-acme.");
}

#[test]
fn matching_on_a_given_lowercase_form() {
    assert!(matches_lowered("X-ACME.eml", "x-acme.eml", "-acme."));
    assert!(!matches_lowered("X-ACME.eml", "X-ACME.eml", "-acme."));
    assert!(!matches_lowered("x-acme.txt", "x-acme.txt", "-acme."));
    assert!(matches_fragment("X-ACME.eml", "-acme."));
}

#[test]
fn blank_company_is_taken_as_it_is() {
    assert_eq!(company_fragment(" "), "- .");
    assert!(company_matches("20240101T000000- .eml", " "));
    assert!(!company_matches("20240101T000000-acme.eml", " "));
}
