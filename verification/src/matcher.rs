//! Matching file names against a company: a name belongs to a company where
//! it has a record's extension and its lowercase form holds the company's
//! fragment, the lowercase company name between a hyphen and a period.

use crate::text::{contains_text, ends_with, str_contains, str_ends_with};
use vstd::prelude::*;
use vstd::string::StringExecFns;

verus! {

/// The lowercase form of a text, as `str::to_lowercase` of the standard
/// library gives it.
pub uninterp spec fn lowercase(s: Seq<char>) -> Seq<char>;

/// Calls `str::to_lowercase`. The contract only names the result: it is the
/// lowercase form of the argument by the Unicode rules that the standard
/// library implements, and depends on nothing else.
#[verifier::external_body]
pub(crate) fn lowercase_of(s: &str) -> (r: String)
    ensures
        r@ == lowercase(s@),
{
    s.to_lowercase()
}

/// The fragment of a company whose lowercase name is `lowered`.
pub open spec fn fragment_of(lowered: Seq<char>) -> Seq<char> {
    "-"@ + lowered + "."@
}

/// The name ends like a record: in `.md` or in `.eml`.
pub open spec fn has_record_extension(name: Seq<char>) -> bool {
    ends_with(name, ".md"@) || ends_with(name, ".eml"@)
}

/// A name with the lowercase form `lowered_name` matches `fragment`.
pub open spec fn lowered_matches(
    name: Seq<char>,
    lowered_name: Seq<char>,
    fragment: Seq<char>,
) -> bool {
    has_record_extension(name) && contains_text(lowered_name, fragment)
}

/// The name matches `fragment`.
pub open spec fn name_matches(name: Seq<char>, fragment: Seq<char>) -> bool {
    lowered_matches(name, lowercase(name), fragment)
}

/// The name is that of a record of `company`.
pub open spec fn belongs_to(name: Seq<char>, company: Seq<char>) -> bool {
    name_matches(name, fragment_of(lowercase(company)))
}

/// The fragment that the names of a company's records hold: the company's
/// lowercase name between a hyphen and a period. An empty company gives `-.`.
pub fn company_fragment(company: &str) -> (r: String)
    ensures
        r@ == fragment_of(lowercase(company@)),
{
    let lowered = lowercase_of(company);
    fragment_from_lowered(lowered.as_str())
}

/// The fragment of a company whose name is already in lowercase.
pub fn fragment_from_lowered(lowered: &str) -> (r: String)
    ensures
        r@ == fragment_of(lowered@),
{
    let mut fragment = String::from_str("-");
    fragment.append(lowered);
    fragment.append(".");
    fragment
}

/// Whether a name, given with its lowercase form, matches a fragment: the
/// name has a record's extension and the fragment stands somewhere in the
/// lowercase form.
pub fn matches_lowered(name: &str, lowered_name: &str, fragment: &str) -> (r: bool)
    ensures
        r == lowered_matches(name@, lowered_name@, fragment@),
{
    (str_ends_with(name, ".md") || str_ends_with(name, ".eml")) && str_contains(
        lowered_name,
        fragment,
    )
}

/// Whether a file name matches a company's fragment.
pub fn matches_fragment(name: &str, fragment: &str) -> (r: bool)
    ensures
        r == name_matches(name@, fragment@),
{
    let lowered = lowercase_of(name);
    matches_lowered(name, lowered.as_str(), fragment)
}

/// Whether a file name is that of a record of `company`. The match is by
/// substring, so a company whose name ends another company's name matches
/// that company's records too.
pub fn company_matches(name: &str, company: &str) -> (r: bool)
    ensures
        r == belongs_to(name@, company@),
{
    let fragment = company_fragment(company);
    matches_fragment(name, fragment.as_str())
}

} // verus!
