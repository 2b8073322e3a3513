use interview_notes::creator::record_path;
use interview_notes::errors::MyErrors;
use interview_notes::selector::{latest_company_file, latest_matching, RecordFile};
use interview_notes::stamp::Timestamp;

fn file(dir: &str, name: &str) -> RecordFile {
    RecordFile { name: name.to_string(), path: format!("{}/{}", dir, name) }
}

#[test]
fn latest_is_the_greatest_matching_name() {
    let files = vec![
        file("/r/2023", "20231231T235959-acme.eml"),
        file("/r/2024", "20240301T120000-acme.eml"),
        file("/r/2024", "20240302T120000-other.eml"),
        file("/r/2024", "20240115T080000-acme.md"),
    ];
    assert_eq!(latest_company_file(&files, "Acme").unwrap(), "/r/2024/20240301T120000-acme.eml");
}

#[test]
fn latest_goes_by_name_and_not_by_path() {
    let files = vec![
        file("/r/zzz", "20230101T000000-acme.eml"),
        file("/r/aaa", "20240101T000000-acme.eml"),
    ];
    assert_eq!(latest_company_file(&files, "acme").unwrap(), "/r/aaa/20240101T000000-acme.eml");
}

#[test]
fn no_match_is_file_not_found() {
    let files = vec![file("/r/2024", "20240301T120000-other.eml")];
    assert!(matches!(latest_company_file(&files, "acme"), Err(MyErrors::FileNotFound)));
    assert!(matches!(latest_company_file(&Vec::new(), "acme"), Err(MyErrors::FileNotFound)));
}

#[test]
fn first_of_equal_names_is_kept() {
    let files = vec![
        file("/r/a", "20240101T000000-acme.eml"),
        file("/r/b", "20240101T000000-acme.eml"),
    ];
    assert_eq!(latest_matching(&files, "-acme."), Some(0));
    assert_eq!(latest_company_file(&files, "acme").unwrap(), "/r/a/20240101T000000-acme.eml");
}

#[test]
fn names_off_the_convention_are_compared_as_text() {
    let files = vec![file("/r", "20240101T000000-acme.eml"), file("/r", "draft-acme.eml")];
    assert_eq!(latest_company_file(&files, "acme").unwrap(), "/r/draft-acme.eml");
}

#[test]
fn created_record_is_the_latest_of_its_company() {
    let earlier = Timestamp::new(2024, 1, 1, 0, 0, 0).unwrap();
    let moment = Timestamp::new(2024, 6, 30, 9, 15, 0).unwrap();
    let old_path = record_path("/r", &earlier, "Acme");
    let new_path = record_path("/r", &moment, "Acme");
    assert_eq!(new_path, "/r/2024/20240630T091500-acme.eml");
    let files = vec![
        RecordFile { name: "20240101T000000-acme.eml".to_string(), path: old_path },
        RecordFile { name: "20240630T091500-acme.eml".to_string(), path: new_path.clone() },
        file("/r/2024", "20240701T000000-zeta.eml"),
    ];
    assert_eq!(latest_company_file(&files, "Acme").unwrap(), new_path);
}

#[test]
fn latest_by_name_is_latest_by_time() {
    let moments = [
        (2023, 12, 31, 23, 59, 59),
        (2024, 1, 1, 0, 0, 0),
        (2019, 7, 4, 12, 30, 1),
        (2024, 1, 1, 0, 0, 1),
        (2024, 1, 1, 0, 0, 0),
    ];
    let mut files = Vec::new();
    for m in moments {
        let t = Timestamp::new(m.0, m.1, m.2, m.3, m.4, m.5).unwrap();
        let name = format!("{}-acme.eml", t.file_stamp());
        files.push(file("/r", &name));
    }
    let youngest = moments.iter().max().unwrap();
    let index = latest_matching(&files, "-acme.").unwrap();
    assert_eq!(&moments[index], youngest);
    assert_eq!(index, 3);
}
