use interview_notes::commands::{
    create, open, parse_command, previous_company_notes, recent, require_argument, search, Command,
};
use interview_notes::errors::MyErrors;
use interview_notes::notes::CompanyNotes;
use interview_notes::selector::RecordFile;
use interview_notes::stamp::Timestamp;

fn lines(items: &[&str]) -> Vec<String> {
    items.iter().map(|s| s.to_string()).collect()
}

#[test]
fn command_words_are_recognised() {
    assert_eq!(parse_command(Some("open")), Command::Open);
    assert_eq!(parse_command(Some("list")), Command::List);
    assert_eq!(parse_command(Some("recent")), Command::Recent);
    assert_eq!(parse_command(Some("search")), Command::Search);
    assert_eq!(parse_command(Some("help")), Command::Help);
}

#[test]
fn no_argument_asks_for_help() {
    assert_eq!(parse_command(None), Command::Help);
}

#[test]
fn any_other_word_names_a_company_to_create() {
    assert_eq!(parse_command(Some("Acme")), Command::Create);
    assert_eq!(parse_command(Some("Open")), Command::Create);
    assert_eq!(parse_command(Some("")), Command::Create);
    assert_eq!(parse_command(Some("opening")), Command::Create);
}

#[test]
fn absent_argument_is_a_missing_command() {
    assert!(matches!(require_argument(None), Err(MyErrors::MissingCommand)));
    assert_eq!(require_argument(Some("acme".to_string())).unwrap(), "acme");
}

#[test]
fn search_does_nothing_and_succeeds() {
    assert!(search().is_ok());
}

#[test]
fn open_points_the_editor_at_the_last_marker() {
    let record = lines(&["a; boundary=abc123", "", "--abc123", "text", "--abc123", "--abc123--"]);
    assert_eq!(open("/r/x.eml", &record).unwrap(), "/r/x.eml:4");
    assert_eq!(open("/r/x.eml", &lines(&["plain"])).unwrap(), "/r/x.eml:0");
}

#[test]
fn open_fails_on_a_malformed_declaration() {
    let record = lines(&["éééééééééééé; boundary=x"]);
    assert!(matches!(open("/r/x.eml", &record), Err(MyErrors::InvalidBoundaryLine)));
}

#[test]
fn recent_gives_the_ten_greatest_paths() {
    let mut files = Vec::new();
    for day in [5, 12, 1, 9, 3, 11, 7, 2, 10, 4, 8, 6] {
        let name = format!("202401{:02}T000000-acme.eml", day);
        files.push(RecordFile { path: format!("/r/2024/{}", name), name });
    }
    let got = recent(&files);
    let expected: Vec<String> =
        (3..=12).map(|day| format!("/r/2024/202401{:02}T000000-acme.eml", day)).collect();
    assert_eq!(got, expected);
    assert!(recent(&Vec::new()).is_empty());
}

#[test]
fn failed_lookup_is_swallowed_and_gives_the_defaults() {
    let notes = previous_company_notes(Err(MyErrors::FileNotFound));
    let defaults = CompanyNotes::new();
    assert_eq!(notes.description, defaults.description);
    assert_eq!(notes.employment, "fulltime, on-site, CITY");
    assert_eq!(notes.headquarters, "CITY, STATE, COUNTRY");
    assert_eq!(notes.industry, "");
    assert_eq!(notes.techstack, "");
    assert_eq!(notes.website, "URL");
    let notes = previous_company_notes(Err(MyErrors::CannotReadDirectory));
    assert_eq!(notes.website, "URL");
}

#[test]
fn previous_notes_are_carried_from_the_latest_record() {
    let notes = previous_company_notes(Ok(lines(&["Website: w", "Industry: Space"])));
    assert_eq!(notes.website, "w");
    assert_eq!(notes.industry, "Space");
    assert_eq!(notes.employment, "fulltime, on-site, CITY");
}

#[test]
fn create_plans_path_argument_boundary_and_notes() {
    let moment = Timestamp::new(2024, 1, 2, 3, 4, 5).unwrap();
    let notes = previous_company_notes(Err(MyErrors::FileNotFound));
    let plan = create("/tmp/interviews", &moment, "Acme Corp", notes);
    assert_eq!(plan.path, "/tmp/interviews/2024/20240102T030405-acme-corp.eml");
    assert_eq!(plan.edit_line, 24);
    assert_eq!(plan.editor_argument, "/tmp/interviews/2024/20240102T030405-acme-corp.eml:24");
    assert_eq!(plan.boundary.len(), 28);
    assert_eq!(plan.notes.website, "URL");
    let mut earlier = CompanyNotes::new();
    earlier.industry = "Space".to_string();
    let plan = create("/r", &moment, "Acme", earlier);
    assert_eq!(plan.notes.industry, "Space");
    assert_eq!(plan.path, "/r/2024/20240102T030405-acme.eml");
}
