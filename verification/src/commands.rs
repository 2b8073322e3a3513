//! The commands of the archive's command line and what each needs from it.

use crate::boundary::{boundary_offset, locate_boundary};
use crate::creator::{
    editor_argument, generate_boundary, is_hex_digit, record_name_of, record_path,
    record_path_of, slug_of, BOUNDARY_LENGTH, FIRST_EDIT_LINE,
};
use crate::errors::MyErrors;
use crate::notes::{carry_metadata, is_carried_from, is_default_notes, CompanyNotes};
use crate::ranker::{most_recent, rank_recent, RECENT_LIMIT};
use crate::selector::{paths_of, RecordFile};
use crate::stamp::{decimal_text, stamp_text, Timestamp};
use crate::text::{str_eq, texts};
use vstd::prelude::*;

verus! {

/// What the first argument of the command line asks for.
#[derive(Clone, Copy, Debug, PartialEq, Eq, Structural)]
pub enum Command {
    /// Open the latest record of a company.
    Open,
    /// List the records of a company.
    List,
    /// List the most recent records.
    Recent,
    /// Search the records; reserved.
    Search,
    /// Print the usage.
    Help,
    /// Create a record for the company that the argument names.
    Create,
}

/// The command that a first argument stands for: one of the five command
/// words, the usage where there is no argument, and otherwise the creation
/// of a record for the company of that name.
pub open spec fn command_of(first: Option<Seq<char>>) -> Command {
    match first {
        None => Command::Help,
        Some(word) => if word == "open"@ {
            Command::Open
        } else if word == "list"@ {
            Command::List
        } else if word == "recent"@ {
            Command::Recent
        } else if word == "search"@ {
            Command::Search
        } else if word == "help"@ {
            Command::Help
        } else {
            Command::Create
        },
    }
}

/// The view of an optional argument.
pub open spec fn argument_text(argument: Option<&str>) -> Option<Seq<char>> {
    match argument {
        Some(word) => Some(word@),
        None => None,
    }
}

/// Decides the command from the first argument of the command line.
pub fn parse_command(first: Option<&str>) -> (r: Command)
    ensures
        r == command_of(argument_text(first)),
{
    match first {
        None => Command::Help,
        Some(word) => {
            if str_eq(word, "open") {
                Command::Open
            } else if str_eq(word, "list") {
                Command::List
            } else if str_eq(word, "recent") {
                Command::Recent
            } else if str_eq(word, "search") {
                Command::Search
            } else if str_eq(word, "help") {
                Command::Help
            } else {
                Command::Create
            }
        },
    }
}

/// An argument that a command cannot do without.
pub fn require_argument(argument: Option<String>) -> (r: Result<String, MyErrors>)
    ensures
        match argument {
            Some(value) => r == Ok::<String, MyErrors>(value),
            None => r == Err::<String, MyErrors>(MyErrors::MissingCommand),
        },
{
    match argument {
        Some(value) => Ok(value),
        None => Err(MyErrors::MissingCommand),
    }
}

/// Searching the records is reserved: the command succeeds and does nothing.
pub fn search() -> (r: Result<(), MyErrors>)
    ensures
        r == Ok::<(), MyErrors>(()),
{
    Ok(())
}

/// What opening a record comes to: the argument for the editor, the
/// record's path and the line of its last boundary marker, or line 0 where
/// it has none. A malformed boundary declaration fails the command.
pub fn open(path: &str, lines: &Vec<String>) -> (r: Result<String, MyErrors>)
    ensures
        match boundary_offset(texts(lines@)) {
            Some(offset) => r matches Ok(argument) && argument@ == path@ + ":"@ + decimal_text(
                offset,
            ),
            None => r == Err::<String, MyErrors>(MyErrors::InvalidBoundaryLine),
        },
{
    match locate_boundary(lines) {
        Ok(marker) => Ok(editor_argument(path, marker)),
        Err(e) => Err(e),
    }
}

/// The ten most recent of the files that a walk found, oldest first.
pub fn recent(files: &Vec<RecordFile>) -> (r: Vec<String>)
    ensures
        texts(r@) == most_recent(paths_of(files@), RECENT_LIMIT as nat),
        r.len() == if files.len() <= RECENT_LIMIT {
            files.len()
        } else {
            RECENT_LIMIT
        },
{
    let mut paths: Vec<String> = Vec::new();
    let mut i: usize = 0;
    proof {
        assert(texts(paths@) =~= paths_of(files@).take(0));
    }
    while i < files.len()
        invariant
            i <= files.len(),
            texts(paths@) == paths_of(files@).take(i as int),
        decreases files.len() - i,
    {
        let ghost before = texts(paths@);
        paths.push(files[i].path.clone());
        proof {
            assert(texts(paths@) =~= before.push(files@[i as int].path@));
            assert(before.push(files@[i as int].path@) =~= paths_of(files@).take(i + 1));
        }
        i = i + 1;
    }
    proof {
        assert(paths_of(files@).take(i as int) =~= paths_of(files@));
    }
    rank_recent(&paths)
}

/// The metadata that a new record of a company starts from, given the
/// outcome of looking up the company's latest record and reading its lines.
/// A failed lookup is not handed on: the caller then receives the defaults.
pub fn previous_company_notes(latest: Result<Vec<String>, MyErrors>) -> (r: CompanyNotes)
    ensures
        match latest {
            Ok(lines) => is_carried_from(r, texts(lines@)),
            Err(_) => is_default_notes(r),
        },
{
    match latest {
        Ok(lines) => carry_metadata(&lines),
        Err(_) => CompanyNotes::new(),
    }
}

/// What is settled of a record before it is written.
#[derive(Debug)]
pub struct NewRecord {
    /// Where the record goes.
    pub path: String,
    /// The line at which editing starts, just past the header.
    pub edit_line: usize,
    /// What the editor is started with once the record is written.
    pub editor_argument: String,
    /// The token that separates the record's parts.
    pub boundary: String,
    /// The metadata that the record starts from.
    pub notes: CompanyNotes,
}

/// Plans the record of `company` at `moment`: its path under `root`, the
/// editor's argument, which points just past the header, a fresh boundary
/// token, and the metadata that the record starts from.
pub fn create(root: &str, moment: &Timestamp, company: &str, notes: CompanyNotes) -> (r: NewRecord)
    ensures
        r.path@ == record_path_of(
            root@,
            decimal_text(moment.moment().0 as nat),
            record_name_of(stamp_text(moment.moment()), slug_of(company@)),
        ),
        r.edit_line == FIRST_EDIT_LINE,
        r.editor_argument@ == r.path@ + ":"@ + decimal_text(FIRST_EDIT_LINE as nat),
        r.boundary@.len() == BOUNDARY_LENGTH,
        forall|i: int| 0 <= i < r.boundary@.len() ==> is_hex_digit(#[trigger] r.boundary@[i]),
        r.notes == notes,
{
    let path = record_path(root, moment, company);
    let argument = editor_argument(path.as_str(), FIRST_EDIT_LINE);
    let boundary = generate_boundary();
    NewRecord { path, edit_line: FIRST_EDIT_LINE, editor_argument: argument, boundary, notes }
}

} // verus!
