use interview_notes::notes::{carry_metadata, CompanyNotes};

fn lines(items: &[&str]) -> Vec<String> {
    items.iter().map(|s| s.to_string()).collect()
}

fn all_fields(n: &CompanyNotes) -> [&str; 6] {
    [&n.description, &n.employment, &n.headquarters, &n.industry, &n.techstack, &n.website]
}

#[test]
fn new_notes_hold_the_defaults() {
    let n = CompanyNotes::new();
    assert_eq!(all_fields(&n), ["", "fulltime, on-site, CITY", "CITY, STATE, COUNTRY", "", "", "URL"]);
}

#[test]
fn fields_are_taken_from_their_labelled_lines() {
    let record = lines(&[
        "MIME-Version: 1.0",
        "Description: Widgets",
        "Employment: contract, remote",
        "Headquarters: Oslo, Norway",
        "Industry: Manufacturing",
        "JobPostURL: URL",
        "TechStack: Rust, Verus",
        "Website: https://acme.test",
        "",
        "--b",
    ]);
    let n = carry_metadata(&record);
    assert_eq!(
        all_fields(&n),
        [
            "Widgets",
            "contract, remote",
            "Oslo, Norway",
            "Manufacturing",
            "Rust, Verus",
            "https://acme.test"
        ]
    );
}

#[test]
fn missing_fields_keep_their_defaults() {
    let n = carry_metadata(&lines(&["Industry: Space", "Website: w"]));
    assert_eq!(
        all_fields(&n),
        ["", "fulltime, on-site, CITY", "CITY, STATE, COUNTRY", "Space", "", "w"]
    );
    let n = carry_metadata(&Vec::new());
    assert_eq!(all_fields(&n), all_fields(&CompanyNotes::new()));
}

#[test]
fn first_line_of_a_label_wins() {
    let n = carry_metadata(&lines(&["Industry: first", "Industry: second", "Industry: third"]));
    assert_eq!(n.industry, "first");
}

#[test]
fn label_must_lead_the_line_with_its_space() {
    let n = carry_metadata(&lines(&[" Industry: x", "Industry:y", "industry: z", "Website: "]));
    assert_eq!(n.industry, "");
    assert_eq!(n.website, "");
}

#[test]
fn lines_after_the_sixth_field_do_not_count() {
    let n = carry_metadata(&lines(&[
        "Website: w",
        "TechStack: t",
        "Industry: i",
        "Headquarters: h",
        "Employment: e",
        "Description: d",
        "Description: late",
        "Website: late",
    ]));
    assert_eq!(all_fields(&n), ["d", "e", "h", "i", "t", "w"]);
}
