//! Creating a record: the path that a new record gets, the boundary token
//! that separates its parts, and what to report when the path is taken.

use crate::errors::MyErrors;
use crate::matcher::{lowercase, lowercase_of};
use crate::matcher::has_record_extension;
use crate::stamp::{
    decimal_string, decimal_text, has_timestamp_prefix, is_moment, lemma_stamp_text_writes_moment,
    moment_of, stamp_text, Timestamp,
};
use crate::text::{chars_of, ends_with};
use vstd::prelude::*;
use vstd::string::StringExecFns;

verus! {

/// The line of a new record at which editing starts, just past its header.
pub const FIRST_EDIT_LINE: usize = 24;

/// How many characters a boundary token has.
pub const BOUNDARY_LENGTH: usize = 28;

/// The company name with every space turned into a hyphen.
pub open spec fn hyphenated(company: Seq<char>) -> Seq<char> {
    company.map_values(
        |c: char|
            if c == ' ' {
                '-'
            } else {
                c
            },
    )
}

/// The slug of a company: its name with hyphens for spaces, in lowercase.
pub open spec fn slug_of(company: Seq<char>) -> Seq<char> {
    lowercase(hyphenated(company))
}

/// The name of the record that has the given stamp and slug.
pub open spec fn record_name_of(stamp: Seq<char>, slug: Seq<char>) -> Seq<char> {
    stamp + "-"@ + slug + ".eml"@
}

/// The path of the file `name` in the directory of `year` under `root`.
pub open spec fn record_path_of(root: Seq<char>, year: Seq<char>, name: Seq<char>) -> Seq<char> {
    root + "/"@ + year + "/"@ + name
}

/// The name of a new record is that of a record: it begins with the
/// timestamp of its moment, so that it takes its place in the order of time,
/// and it has a record's extension.
pub proof fn lemma_record_name_conforms(m: (int, int, int, int, int, int), slug: Seq<char>)
    requires
        is_moment(m),
    ensures
        has_timestamp_prefix(record_name_of(stamp_text(m), slug)),
        moment_of(record_name_of(stamp_text(m), slug)) == m,
        has_record_extension(record_name_of(stamp_text(m), slug)),
{
    let name = record_name_of(stamp_text(m), slug);
    let rest = "-"@ + slug + ".eml"@;
    assert(name =~= stamp_text(m) + rest);
    lemma_stamp_text_writes_moment(m, rest);
    assert(name.subrange(name.len() - ".eml"@.len(), name.len() as int) =~= ".eml"@);
    assert(ends_with(name, ".eml"@));
}

/// The company name with every space turned into a hyphen.
pub fn hyphenate(company: &str) -> (r: String)
    ensures
        r@ == hyphenated(company@),
{
    let chars = chars_of(company);
    let mut out = String::new();
    let mut i: usize = 0;
    while i < chars.len()
        invariant
            i <= chars.len(),
            chars@ == company@,
            out@ == hyphenated(company@).take(i as int),
        decreases chars.len() - i,
    {
        let c = chars[i];
        if c == ' ' {
            out.push('-');
        } else {
            out.push(c);
        }
        proof {
            assert(out@ =~= hyphenated(company@).take(i + 1));
        }
        i = i + 1;
    }
    proof {
        assert(hyphenated(company@).take(i as int) =~= hyphenated(company@));
    }
    out
}

/// The slug of a company: its name with hyphens for spaces, in lowercase.
pub fn company_slug(company: &str) -> (r: String)
    ensures
        r@ == slug_of(company@),
{
    let dashed = hyphenate(company);
    lowercase_of(dashed.as_str())
}

/// The name of the record with the given stamp and slug: the stamp, a
/// hyphen, the slug and the extension `.eml`.
pub fn record_name(stamp: &str, slug: &str) -> (r: String)
    ensures
        r@ == record_name_of(stamp@, slug@),
{
    let mut name = String::from_str(stamp);
    name.append("-");
    name.append(slug);
    name.append(".eml");
    name
}

/// The directory of a year under `root`.
pub fn year_directory(root: &str, year: u64) -> (r: String)
    ensures
        r@ == root@ + "/"@ + decimal_text(year as nat),
{
    let mut path = String::from_str(root);
    path.append("/");
    path.append(decimal_string(year).as_str());
    path
}

/// The path of the record of `company` created at `moment`, under `root`:
/// the directory of the moment's year, then the record's name.
pub fn record_path(root: &str, moment: &Timestamp, company: &str) -> (r: String)
    ensures
        r@ == record_path_of(
            root@,
            decimal_text(moment.moment().0 as nat),
            record_name_of(stamp_text(moment.moment()), slug_of(company@)),
        ),
{
    let name = record_name(moment.file_stamp().as_str(), company_slug(company).as_str());
    let mut path = year_directory(root, moment.year() as u64);
    path.append("/");
    path.append(name.as_str());
    path
}

/// What the editor is started with: the path, a colon and the line.
pub fn editor_argument(path: &str, line: usize) -> (r: String)
    ensures
        r@ == path@ + ":"@ + decimal_text(line as nat),
{
    let mut argument = String::from_str(path);
    argument.append(":");
    argument.append(decimal_string(line as u64).as_str());
    argument
}

/// What an attempt to create the record's file, and only if nothing stands
/// at its path, came to.
#[derive(Debug)]
pub enum ClaimOutcome {
    /// The file was created, empty, and is ready to be written.
    Claimed,
    /// Something stands at the path already.
    Taken,
    /// The file system refused for another reason.
    Refused(std::io::Error),
}

/// What is to be done next in the creation of a record.
#[derive(Debug)]
pub enum NextStep {
    /// Write the record's text to the file that was created.
    WriteRecord,
    /// Start the editor on the record.
    StartEditor,
    /// Give the creation up with this error, and do nothing more.
    GiveUp(MyErrors),
}

/// What follows the attempt to create the record's file. The record is
/// written only to a file that this creation made: where the path is taken,
/// the creation is given up, nothing is written and no editor is started.
pub fn after_claim(outcome: ClaimOutcome) -> (r: NextStep)
    ensures
        match outcome {
            ClaimOutcome::Claimed => r == NextStep::WriteRecord,
            ClaimOutcome::Taken => r == NextStep::GiveUp(MyErrors::FileAlreadyExists),
            ClaimOutcome::Refused(cause) => r == NextStep::GiveUp(
                MyErrors::CannotCreateFile(cause),
            ),
        },
{
    match outcome {
        ClaimOutcome::Claimed => NextStep::WriteRecord,
        ClaimOutcome::Taken => NextStep::GiveUp(MyErrors::FileAlreadyExists),
        ClaimOutcome::Refused(cause) => NextStep::GiveUp(MyErrors::CannotCreateFile(cause)),
    }
}

/// What follows the writing of the record: the editor is started on a record
/// that was written in full, and on no other.
pub fn after_write(outcome: Result<(), std::io::Error>) -> (r: NextStep)
    ensures
        match outcome {
            Ok(_) => r == NextStep::StartEditor,
            Err(cause) => r == NextStep::GiveUp(MyErrors::CannotWriteToFile(cause)),
        },
{
    match outcome {
        Ok(_) => NextStep::StartEditor,
        Err(cause) => NextStep::GiveUp(MyErrors::CannotWriteToFile(cause)),
    }
}

/// A lowercase hexadecimal digit.
pub open spec fn is_hex_digit(c: char) -> bool {
    ('0' <= c <= '9') || ('a' <= c <= 'f')
}

/// The hexadecimal digit of the value `d`.
pub open spec fn hex_of(d: int) -> char {
    if d == 0 {
        '0'
    } else if d == 1 {
        '1'
    } else if d == 2 {
        '2'
    } else if d == 3 {
        '3'
    } else if d == 4 {
        '4'
    } else if d == 5 {
        '5'
    } else if d == 6 {
        '6'
    } else if d == 7 {
        '7'
    } else if d == 8 {
        '8'
    } else if d == 9 {
        '9'
    } else if d == 10 {
        'a'
    } else if d == 11 {
        'b'
    } else if d == 12 {
        'c'
    } else if d == 13 {
        'd'
    } else if d == 14 {
        'e'
    } else {
        'f'
    }
}

/// The boundary token that the picks select, one hexadecimal digit for each,
/// by its remainder modulo 16.
pub open spec fn token_of(picks: Seq<usize>) -> Seq<char> {
    picks.map_values(|p: usize| hex_of((p % 16) as int))
}

/// The hexadecimal digit that a pick selects.
pub fn hex_char(pick: usize) -> (c: char)
    ensures
        c == hex_of((pick % 16) as int),
        is_hex_digit(c),
{
    match pick % 16 {
        0 => '0',
        1 => '1',
        2 => '2',
        3 => '3',
        4 => '4',
        5 => '5',
        6 => '6',
        7 => '7',
        8 => '8',
        9 => '9',
        10 => 'a',
        11 => 'b',
        12 => 'c',
        13 => 'd',
        14 => 'e',
        _ => 'f',
    }
}

/// The boundary token that the picks select.
pub fn boundary_from(picks: &Vec<usize>) -> (r: String)
    ensures
        r@ == token_of(picks@),
        r@.len() == picks.len(),
        forall|i: int| 0 <= i < r@.len() ==> is_hex_digit(#[trigger] r@[i]),
{
    let mut text = String::new();
    let mut i: usize = 0;
    while i < picks.len()
        invariant
            i <= picks.len(),
            text@ == token_of(picks@).take(i as int),
            forall|k: int| 0 <= k < i ==> is_hex_digit(#[trigger] text@[k]),
        decreases picks.len() - i,
    {
        text.push(hex_char(picks[i]));
        proof {
            assert(text@ =~= token_of(picks@).take(i + 1));
        }
        i = i + 1;
    }
    proof {
        assert(token_of(picks@).take(i as int) =~= token_of(picks@));
    }
    text
}

/// Calls `gen_range` of `rand` on the generator of the current thread, with
/// the range from 0 up to and without `bound`. The result lies in that
/// range; which value it is depends on chance. An empty range is left out,
/// since the call panics on it.
#[verifier::external_body]
fn random_below(bound: usize) -> (r: usize)
    requires
        bound > 0,
    ensures
        r < bound,
{
    rand::Rng::gen_range(&mut rand::thread_rng(), 0..bound)
}

/// A fresh boundary token: 28 hexadecimal digits drawn at random.
pub fn generate_boundary() -> (r: String)
    ensures
        r@.len() == BOUNDARY_LENGTH,
        forall|i: int| 0 <= i < r@.len() ==> is_hex_digit(#[trigger] r@[i]),
{
    let mut picks: Vec<usize> = Vec::new();
    let mut i: usize = 0;
    while i < BOUNDARY_LENGTH
        invariant
            i <= BOUNDARY_LENGTH,
            picks.len() == i,
        decreases BOUNDARY_LENGTH - i,
    {
        picks.push(random_below(16));
        i = i + 1;
    }
    boundary_from(&picks)
}

} // verus!
