//! Listings of the archive: every file, or the records of one company, in
//! ascending order of their paths.

use crate::matcher::{company_fragment, fragment_of, lowercase, matches_fragment, name_matches};
use crate::selector::{paths_of, RecordFile};
use crate::sorting::{ascending, sort_paths};
use crate::text::texts;
use vstd::prelude::*;

verus! {

/// The paths of the files whose name matches `fragment`, in the order of
/// `files`.
pub open spec fn matching_paths(files: Seq<RecordFile>, fragment: Seq<char>) -> Seq<Seq<char>>
    decreases files.len(),
{
    if files.len() == 0 {
        Seq::empty()
    } else if name_matches(files.last().name@, fragment) {
        matching_paths(files.drop_last(), fragment).push(files.last().path@)
    } else {
        matching_paths(files.drop_last(), fragment)
    }
}

/// The paths of all `files`, in ascending order.
pub fn list_files(files: &Vec<RecordFile>) -> (r: Vec<String>)
    ensures
        texts(r@) == ascending(paths_of(files@)),
        r.len() == files.len(),
{
    let mut paths: Vec<String> = Vec::new();
    let mut i: usize = 0;
    proof {
        assert(texts(paths@) =~= paths_of(files@).take(0));
    }
    while i < files.len()
        invariant
            i <= files.len(),
            texts(paths@) == paths_of(files@).take(i as int),
        decreases files.len() - i,
    {
        let ghost before = texts(paths@);
        paths.push(files[i].path.clone());
        proof {
            assert(texts(paths@) =~= before.push(files@[i as int].path@));
            assert(before.push(files@[i as int].path@) =~= paths_of(files@).take(i + 1));
        }
        i = i + 1;
    }
    proof {
        assert(paths_of(files@).take(i as int) =~= paths_of(files@));
    }
    sort_paths(&paths)
}

/// The paths of the files whose name matches `fragment`, in ascending order.
pub fn list_matching_files(files: &Vec<RecordFile>, fragment: &str) -> (r: Vec<String>)
    ensures
        texts(r@) == ascending(matching_paths(files@, fragment@)),
{
    let mut paths: Vec<String> = Vec::new();
    let mut i: usize = 0;
    proof {
        assert(files@.take(0) =~= Seq::<RecordFile>::empty());
        assert(texts(paths@) =~= Seq::<Seq<char>>::empty());
    }
    while i < files.len()
        invariant
            i <= files.len(),
            texts(paths@) == matching_paths(files@.take(i as int), fragment@),
        decreases files.len() - i,
    {
        let ghost before = texts(paths@);
        proof {
            assert(files@.take(i + 1).drop_last() =~= files@.take(i as int));
            assert(files@.take(i + 1).last() == files@[i as int]);
        }
        if matches_fragment(files[i].name.as_str(), fragment) {
            paths.push(files[i].path.clone());
            proof {
                assert(texts(paths@) =~= before.push(files@[i as int].path@));
            }
        }
        i = i + 1;
    }
    proof {
        assert(files@.take(i as int) =~= files@);
    }
    sort_paths(&paths)
}

/// The paths of the records of `company` among `files`, in ascending order.
pub fn list_company_files(files: &Vec<RecordFile>, company: &str) -> (r: Vec<String>)
    ensures
        texts(r@) == ascending(matching_paths(files@, fragment_of(lowercase(company@)))),
{
    let fragment = company_fragment(company);
    list_matching_files(files, fragment.as_str())
}

} // verus!
