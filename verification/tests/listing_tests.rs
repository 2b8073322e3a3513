use interview_notes::listing::{list_company_files, list_files, list_matching_files};
use interview_notes::selector::RecordFile;
use interview_notes::sorting::sort_paths;

fn file(dir: &str, name: &str) -> RecordFile {
    RecordFile { name: name.to_string(), path: format!("{}/{}", dir, name) }
}

fn sample() -> Vec<RecordFile> {
    vec![
        file("/r/2024", "20240301T120000-acme.eml"),
        file("/r/2023", "20231231T235959-acme.eml"),
        file("/r/2024", "20240302T120000-other.eml"),
        file("/r/2024", "20240115T080000-Acme.md"),
        file("/r/2024", "20240116T080000-acme.txt"),
    ]
}

#[test]
fn all_files_are_listed_in_ascending_order() {
    assert_eq!(
        list_files(&sample()),
        vec![
            "/r/2023/20231231T235959-acme.eml",
            "/r/2024/20240115T080000-Acme.md",
            "/r/2024/20240116T080000-acme.txt",
            "/r/2024/20240301T120000-acme.eml",
            "/r/2024/20240302T120000-other.eml",
        ]
    );
}

#[test]
fn company_files_are_the_matching_ones_in_ascending_order() {
    assert_eq!(
        list_company_files(&sample(), "ACME"),
        vec![
            "/r/2023/20231231T235959-acme.eml",
            "/r/2024/20240115T080000-Acme.md",
            "/r/2024/20240301T120000-acme.eml",
        ]
    );
    assert!(list_company_files(&sample(), "nobody").is_empty());
    assert_eq!(
        list_matching_files(&sample(), "-other."),
        vec!["/r/2024/20240302T120000-other.eml"]
    );
}

#[test]
fn sorting_agrees_with_the_order_of_strings() {
    let input: Vec<String> =
        ["b", "", "a", "ab", "B", "é", "a", "z", "日本", "~"].iter().map(|s| s.to_string()).collect();
    let mut expected = input.clone();
    expected.sort();
    assert_eq!(sort_paths(&input), expected);
}
