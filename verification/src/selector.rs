//! Choosing the latest record of a company: the file with the greatest name
//! among those that match, which by the naming convention is the youngest.

use crate::errors::MyErrors;
use crate::matcher::{
    belongs_to, company_fragment, fragment_of, lowercase, matches_fragment, name_matches,
};
use crate::text::{
    lemma_lex_le_antisymmetric, lemma_lex_le_transitive, lemma_lex_lt_asymmetric,
    lemma_lex_lt_irreflexive, lex_le, lex_lt, str_lt,
};
use crate::stamp::{
    has_timestamp_prefix, lemma_name_order_is_chronological, moment_le, moment_of,
};
use vstd::prelude::*;

verus! {

/// A file that a walk of the archive found.
#[derive(Debug)]
pub struct RecordFile {
    /// The file's name, without its directory.
    pub name: String,
    /// The file's full path.
    pub path: String,
}

/// The names of `files`, in order.
pub open spec fn names_of(files: Seq<RecordFile>) -> Seq<Seq<char>> {
    files.map_values(|f: RecordFile| f.name@)
}

/// The paths of `files`, in order.
pub open spec fn paths_of(files: Seq<RecordFile>) -> Seq<Seq<char>> {
    files.map_values(|f: RecordFile| f.path@)
}

/// Index `i` is the latest of the names that match `fragment`: its name
/// matches, no matching name is greater, and among equal names it is the
/// first.
pub open spec fn is_latest(names: Seq<Seq<char>>, fragment: Seq<char>, i: int) -> bool {
    &&& 0 <= i < names.len()
    &&& name_matches(names[i], fragment)
    &&& forall|j: int|
        0 <= j < names.len() && name_matches(#[trigger] names[j], fragment) ==> lex_le(
            names[j],
            names[i],
        )
    &&& forall|j: int| 0 <= j < i ==> #[trigger] names[j] != names[i]
}

/// No name of `names` matches `fragment`.
pub open spec fn none_matches(names: Seq<Seq<char>>, fragment: Seq<char>) -> bool {
    forall|j: int| 0 <= j < names.len() ==> !name_matches(#[trigger] names[j], fragment)
}

/// There is at most one latest index.
pub proof fn lemma_latest_unique(names: Seq<Seq<char>>, fragment: Seq<char>, i: int, j: int)
    requires
        is_latest(names, fragment, i),
        is_latest(names, fragment, j),
    ensures
        i == j,
{
    assert(lex_le(names[j], names[i]));
    assert(lex_le(names[i], names[j]));
    lemma_lex_le_antisymmetric(names[i], names[j]);
}

/// A matching name that is greater than every other matching name is the
/// latest, at whatever place the walk found it.
pub proof fn lemma_greatest_match_is_latest(names: Seq<Seq<char>>, fragment: Seq<char>, k: int)
    requires
        0 <= k < names.len(),
        name_matches(names[k], fragment),
        forall|j: int|
            0 <= j < names.len() && j != k && name_matches(#[trigger] names[j], fragment)
                ==> lex_lt(names[j], names[k]),
    ensures
        is_latest(names, fragment, k),
        forall|i: int| is_latest(names, fragment, i) ==> i == k,
{
    let top = names[k];
    lemma_lex_lt_irreflexive(top);
    assert forall|j: int|
        0 <= j < names.len() && name_matches(#[trigger] names[j], fragment) implies lex_le(
        names[j],
        top,
    ) by {
        if j != k {
            lemma_lex_lt_asymmetric(names[j], top);
        }
    }
    assert forall|j: int| 0 <= j < k implies #[trigger] names[j] != top by {
        if names[j] == top {
            assert(lex_lt(names[j], top));
        }
    }
    assert forall|i: int| is_latest(names, fragment, i) implies i == k by {
        lemma_latest_unique(names, fragment, i, k);
    }
}

/// A record that has just joined the archive is the latest of its company
/// from then on: where its name matches the company and every other
/// matching name is less, looking the company up finds this record and no
/// other.
pub proof fn lemma_new_record_is_found(files: Seq<RecordFile>, company: Seq<char>, k: int)
    requires
        0 <= k < files.len(),
        belongs_to(files[k].name@, company),
        forall|j: int|
            0 <= j < files.len() && j != k && belongs_to(#[trigger] files[j].name@, company)
                ==> lex_lt(files[j].name@, files[k].name@),
    ensures
        !none_matches(names_of(files), fragment_of(lowercase(company))),
        forall|i: int|
            is_latest(names_of(files), fragment_of(lowercase(company)), i) ==> i == k,
        is_latest(names_of(files), fragment_of(lowercase(company)), k),
{
    let names = names_of(files);
    let fragment = fragment_of(lowercase(company));
    assert(names[k] == files[k].name@);
    assert forall|j: int|
        0 <= j < names.len() && j != k && name_matches(
            #[trigger] names[j],
            fragment,
        ) implies lex_lt(names[j], names[k]) by {
        assert(names[j] == files[j].name@);
    }
    lemma_greatest_match_is_latest(names, fragment, k);
}

/// Where every matching name begins with a timestamp, the latest match is
/// the youngest: no matching name writes a later moment.
pub proof fn lemma_latest_is_youngest(names: Seq<Seq<char>>, fragment: Seq<char>, i: int)
    requires
        is_latest(names, fragment, i),
        forall|j: int|
            0 <= j < names.len() && name_matches(#[trigger] names[j], fragment)
                ==> has_timestamp_prefix(names[j]),
    ensures
        forall|j: int|
            0 <= j < names.len() && name_matches(#[trigger] names[j], fragment) ==> moment_le(
                moment_of(names[j]),
                moment_of(names[i]),
            ),
{
    assert forall|j: int|
        0 <= j < names.len() && name_matches(#[trigger] names[j], fragment) implies moment_le(
        moment_of(names[j]),
        moment_of(names[i]),
    ) by {
        lemma_name_order_is_chronological(names[j], names[i]);
    }
}

/// The index of the latest file among those whose name matches `fragment`,
/// if any matches.
pub fn latest_matching(files: &Vec<RecordFile>, fragment: &str) -> (r: Option<usize>)
    ensures
        match r {
            Some(i) => is_latest(names_of(files@), fragment@, i as int),
            None => none_matches(names_of(files@), fragment@),
        },
{
    let ghost names = names_of(files@);
    let mut best: Option<usize> = None;
    let mut i: usize = 0;
    while i < files.len()
        invariant
            i <= files.len(),
            names == names_of(files@),
            match best {
                Some(b) => b < i && is_latest(names.take(i as int), fragment@, b as int),
                None => none_matches(names.take(i as int), fragment@),
            },
        decreases files.len() - i,
    {
        let ghost before = names.take(i as int);
        let ghost after = names.take(i + 1);
        proof {
            assert(forall|j: int| 0 <= j < i ==> before[j] == after[j]);
            assert(after[i as int] == files@[i as int].name@);
        }
        if matches_fragment(files[i].name.as_str(), fragment) {
            match best {
                None => {
                    best = Some(i);
                    proof {
                        lemma_lex_lt_irreflexive(after[i as int]);
                        assert forall|j: int| 0 <= j < i implies #[trigger] after[j] != after[i as int] by {
                            assert(!name_matches(before[j], fragment@));
                        }
                    }
                },
                Some(b) => {
                    if str_lt(files[b].name.as_str(), files[i].name.as_str()) {
                        best = Some(i);
                        proof {
                            let top = after[i as int];
                            lemma_lex_lt_irreflexive(top);
                            lemma_lex_lt_asymmetric(before[b as int], top);
                            assert forall|j: int|
                                0 <= j < after.len() && name_matches(
                                    #[trigger] after[j],
                                    fragment@,
                                ) implies lex_le(after[j], top) by {
                                if j < i {
                                    assert(lex_le(before[j], before[b as int]));
                                    lemma_lex_le_transitive(after[j], before[b as int], top);
                                }
                            }
                            assert forall|j: int| 0 <= j < i implies #[trigger] after[j] != top by {
                                if after[j] == top {
                                    assert(lex_le(before[j], before[b as int]));
                                }
                            }
                        }
                    } else {
                        proof {
                            assert(is_latest(after, fragment@, b as int));
                        }
                    }
                },
            }
        } else {
            proof {
                match best {
                    Some(b) => {
                        assert(is_latest(after, fragment@, b as int));
                    },
                    None => {},
                }
            }
        }
        i = i + 1;
    }
    proof {
        assert(names.take(i as int) =~= names);
    }
    best
}

/// The path of the latest record of `company` among `files`: the one whose
/// name is the greatest of those that match the company. Fails where none
/// matches.
pub fn latest_company_file(files: &Vec<RecordFile>, company: &str) -> (r: Result<String, MyErrors>)
    ensures
        match r {
            Ok(path) => exists|i: int|
                #[trigger] is_latest(names_of(files@), fragment_of(lowercase(company@)), i)
                    && path@ == files@[i].path@,
            Err(e) => e == MyErrors::FileNotFound && none_matches(
                names_of(files@),
                fragment_of(lowercase(company@)),
            ),
        },
{
    let fragment = company_fragment(company);
    match latest_matching(files, fragment.as_str()) {
        Some(i) => {
            let path = files[i].path.clone();
            proof {
                assert(is_latest(names_of(files@), fragment_of(lowercase(company@)), i as int));
            }
            Ok(path)
        },
        None => Err(MyErrors::FileNotFound),
    }
}

} // verus!
