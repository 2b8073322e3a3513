//! The metadata that a new record inherits from the latest record of the same
//! company: six labelled header fields, each with a default of its own.

use crate::text::{chars_match_at, chars_of, starts_with, texts};
use vstd::prelude::*;
use vstd::string::{StrSliceExecFns, StringExecFns};

verus! {

/// The fields carried from one record of a company to the next.
#[derive(Debug)]
pub struct CompanyNotes {
    pub description: String,
    pub employment: String,
    pub headquarters: String,
    pub industry: String,
    pub techstack: String,
    pub website: String,
}

/// Every field is at its default.
pub open spec fn is_default_notes(notes: CompanyNotes) -> bool {
    &&& notes.description@ == Seq::<char>::empty()
    &&& notes.employment@ == "fulltime, on-site, CITY"@
    &&& notes.headquarters@ == "CITY, STATE, COUNTRY"@
    &&& notes.industry@ == Seq::<char>::empty()
    &&& notes.techstack@ == Seq::<char>::empty()
    &&& notes.website@ == "URL"@
}

impl CompanyNotes {
    /// The notes of a company without an earlier record: every field at its
    /// default.
    pub fn new() -> (r: CompanyNotes)
        ensures
            is_default_notes(r),
    {
        CompanyNotes {
            description: String::new(),
            employment: String::from_str("fulltime, on-site, CITY"),
            headquarters: String::from_str("CITY, STATE, COUNTRY"),
            industry: String::new(),
            techstack: String::new(),
            website: String::from_str("URL"),
        }
    }
}

/// Line `i` is the first of `lines` that begins with `label`.
pub open spec fn is_first_labelled(lines: Seq<Seq<char>>, label: Seq<char>, i: int) -> bool {
    &&& 0 <= i < lines.len()
    &&& starts_with(lines[i], label)
    &&& forall|j: int| 0 <= j < i ==> !starts_with(#[trigger] lines[j], label)
}

/// What follows `label` on the first line that begins with it, or `default`
/// where no line does.
pub open spec fn carried_value(lines: Seq<Seq<char>>, label: Seq<char>, default: Seq<char>) -> Seq<
    char,
> {
    if exists|i: int| is_first_labelled(lines, label, i) {
        lines[choose|i: int| is_first_labelled(lines, label, i)].skip(label.len() as int)
    } else {
        default
    }
}

/// The notes are those that `lines` carry: each field is what follows its
/// label on the first line that begins with it, or its default.
pub open spec fn is_carried_from(notes: CompanyNotes, lines: Seq<Seq<char>>) -> bool {
    &&& notes.description@ == carried_value(lines, "Description: "@, Seq::<char>::empty())
    &&& notes.employment@ == carried_value(lines, "Employment: "@, "fulltime, on-site, CITY"@)
    &&& notes.headquarters@ == carried_value(lines, "Headquarters: "@, "CITY, STATE, COUNTRY"@)
    &&& notes.industry@ == carried_value(lines, "Industry: "@, Seq::<char>::empty())
    &&& notes.techstack@ == carried_value(lines, "TechStack: "@, Seq::<char>::empty())
    &&& notes.website@ == carried_value(lines, "Website: "@, "URL"@)
}

/// The line begins with one of the six labels.
pub open spec fn is_labelled(line: Seq<char>) -> bool {
    ||| starts_with(line, "Description: "@)
    ||| starts_with(line, "Employment: "@)
    ||| starts_with(line, "Headquarters: "@)
    ||| starts_with(line, "Industry: "@)
    ||| starts_with(line, "TechStack: "@)
    ||| starts_with(line, "Website: "@)
}

/// A record without a labelled line carries the defaults.
pub proof fn lemma_unlabelled_lines_carry_defaults(notes: CompanyNotes, lines: Seq<Seq<char>>)
    requires
        is_carried_from(notes, lines),
        forall|i: int| 0 <= i < lines.len() ==> !is_labelled(#[trigger] lines[i]),
    ensures
        is_default_notes(notes),
{
}

/// What is known of one field after the first `upto` lines.
spec fn field_after(
    lines: Seq<Seq<char>>,
    upto: int,
    label: Seq<char>,
    default: Seq<char>,
    seen: bool,
    value: Seq<char>,
) -> bool {
    if seen {
        exists|k: int|
            0 <= k < upto && is_first_labelled(lines, label, k) && value == lines[k].skip(
                label.len() as int,
            )
    } else {
        value == default && forall|j: int|
            0 <= j < upto ==> !starts_with(#[trigger] lines[j], label)
    }
}

/// A field that was found, or that was looked for on every line, has its
/// carried value.
proof fn lemma_field_settled(
    lines: Seq<Seq<char>>,
    upto: int,
    label: Seq<char>,
    default: Seq<char>,
    seen: bool,
    value: Seq<char>,
)
    requires
        0 <= upto <= lines.len(),
        field_after(lines, upto, label, default, seen, value),
        seen || upto == lines.len(),
    ensures
        value == carried_value(lines, label, default),
{
    if seen {
        let k = choose|k: int|
            0 <= k < upto && is_first_labelled(lines, label, k) && value == lines[k].skip(
                label.len() as int,
            );
        let c = choose|i: int| is_first_labelled(lines, label, i);
        assert(is_first_labelled(lines, label, c));
        if c < k {
            assert(!starts_with(lines[c], label));
        } else if k < c {
            assert(!starts_with(lines[k], label));
        }
    } else {
        if exists|i: int| is_first_labelled(lines, label, i) {
            let c = choose|i: int| is_first_labelled(lines, label, i);
            assert(!starts_with(lines[c], label));
        }
    }
}

/// Looks for one field on one line: a field not yet seen takes what follows
/// its label where the line begins with it.
fn capture(
    line: &str,
    line_chars: &Vec<char>,
    label: &Vec<char>,
    seen: bool,
    field: String,
    Ghost(lines): Ghost<Seq<Seq<char>>>,
    Ghost(at): Ghost<int>,
    Ghost(default): Ghost<Seq<char>>,
) -> (r: (bool, String))
    requires
        line_chars@ == line@,
        0 <= at < lines.len(),
        lines[at] == line@,
        field_after(lines, at, label@, default, seen, field@),
    ensures
        field_after(lines, at + 1, label@, default, r.0, r.1@),
        seen ==> r.0,
{
    if !seen && chars_match_at(line_chars, label, 0) {
        let value = line.substring_char(label.len(), line_chars.len());
        proof {
            assert(value@ =~= lines[at].skip(label@.len() as int));
            assert(is_first_labelled(lines, label@, at));
        }
        (true, String::from_str(value))
    } else {
        (seen, field)
    }
}

/// The metadata that the lines of a record carry: for each of the six labels
/// the rest of the first line that begins with it, and the default of the
/// field where no line does. The scan ends as soon as all six are found.
pub fn carry_metadata(lines: &Vec<String>) -> (r: CompanyNotes)
    ensures
        is_carried_from(r, texts(lines@)),
{
    let defaults = CompanyNotes::new();
    let mut description = defaults.description;
    let mut employment = defaults.employment;
    let mut headquarters = defaults.headquarters;
    let mut industry = defaults.industry;
    let mut techstack = defaults.techstack;
    let mut website = defaults.website;
    let mut description_seen = false;
    let mut employment_seen = false;
    let mut headquarters_seen = false;
    let mut industry_seen = false;
    let mut techstack_seen = false;
    let mut website_seen = false;
    let description_label = chars_of("Description: ");
    let employment_label = chars_of("Employment: ");
    let headquarters_label = chars_of("Headquarters: ");
    let industry_label = chars_of("Industry: ");
    let techstack_label = chars_of("TechStack: ");
    let website_label = chars_of("Website: ");
    let ghost all = texts(lines@);
    let ghost none = Seq::<char>::empty();
    let mut i: usize = 0;
    while i < lines.len() && !(description_seen && employment_seen && headquarters_seen
        && industry_seen && techstack_seen && website_seen)
        invariant
            i <= lines.len(),
            all == texts(lines@),
            none == Seq::<char>::empty(),
            description_label@ == "Description: "@,
            employment_label@ == "Employment: "@,
            headquarters_label@ == "Headquarters: "@,
            industry_label@ == "Industry: "@,
            techstack_label@ == "TechStack: "@,
            website_label@ == "Website: "@,
            field_after(all, i as int, "Description: "@, none, description_seen, description@),
            field_after(
                all,
                i as int,
                "Employment: "@,
                "fulltime, on-site, CITY"@,
                employment_seen,
                employment@,
            ),
            field_after(
                all,
                i as int,
                "Headquarters: "@,
                "CITY, STATE, COUNTRY"@,
                headquarters_seen,
                headquarters@,
            ),
            field_after(all, i as int, "Industry: "@, none, industry_seen, industry@),
            field_after(all, i as int, "TechStack: "@, none, techstack_seen, techstack@),
            field_after(all, i as int, "Website: "@, "URL"@, website_seen, website@),
        decreases lines.len() - i,
    {
        let line = lines[i].as_str();
        let chars = chars_of(line);
        let at = Ghost(i as int);
        let found = capture(
            line,
            &chars,
            &description_label,
            description_seen,
            description,
            Ghost(all),
            at,
            Ghost(none),
        );
        description_seen = found.0;
        description = found.1;
        let found = capture(
            line,
            &chars,
            &employment_label,
            employment_seen,
            employment,
            Ghost(all),
            at,
            Ghost("fulltime, on-site, CITY"@),
        );
        employment_seen = found.0;
        employment = found.1;
        let found = capture(
            line,
            &chars,
            &headquarters_label,
            headquarters_seen,
            headquarters,
            Ghost(all),
            at,
            Ghost("CITY, STATE, COUNTRY"@),
        );
        headquarters_seen = found.0;
        headquarters = found.1;
        let found = capture(
            line,
            &chars,
            &industry_label,
            industry_seen,
            industry,
            Ghost(all),
            at,
            Ghost(none),
        );
        industry_seen = found.0;
        industry = found.1;
        let found = capture(
            line,
            &chars,
            &techstack_label,
            techstack_seen,
            techstack,
            Ghost(all),
            at,
            Ghost(none),
        );
        techstack_seen = found.0;
        techstack = found.1;
        let found = capture(
            line,
            &chars,
            &website_label,
            website_seen,
            website,
            Ghost(all),
            at,
            Ghost("URL"@),
        );
        website_seen = found.0;
        website = found.1;
        i = i + 1;
    }
    proof {
        let n = i as int;
        lemma_field_settled(all, n, "Description: "@, none, description_seen, description@);
        lemma_field_settled(
            all,
            n,
            "Employment: "@,
            "fulltime, on-site, CITY"@,
            employment_seen,
            employment@,
        );
        lemma_field_settled(
            all,
            n,
            "Headquarters: "@,
            "CITY, STATE, COUNTRY"@,
            headquarters_seen,
            headquarters@,
        );
        lemma_field_settled(all, n, "Industry: "@, none, industry_seen, industry@);
        lemma_field_settled(all, n, "TechStack: "@, none, techstack_seen, techstack@);
        lemma_field_settled(all, n, "Website: "@, "URL"@, website_seen, website@);
    }
    CompanyNotes { description, employment, headquarters, industry, techstack, website }
}

} // verus!
