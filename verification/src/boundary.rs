//! Locating the multipart boundary inside a record: a scan over its lines that
//! learns the boundary token from the header and remembers the last line that
//! is exactly two dashes and the token.

use crate::errors::MyErrors;
use crate::text::{
    chars_of, contains_text, find_char, find_chars, first_index, str_eq, texts,
};
use vstd::prelude::*;
use vstd::string::{StrSliceExecFns, StringExecFns};
use vstd::utf8::{encode_utf8, is_char_boundary};

verus! {

/// The two states of the scan.
#[derive(Clone, Copy, Debug, PartialEq, Eq, Structural)]
pub enum ScanPhase {
    /// No boundary token is known yet.
    SeekingBoundaryDeclaration,
    /// A token is known and its marker lines are being tracked.
    TrackingKnownBoundary,
}

/// The line is a marker of the known boundary: two dashes and the token,
/// nothing else.
pub open spec fn is_marker_line(token: Seq<char>, line: Seq<char>) -> bool {
    token.len() > 0 && line == "--"@ + token
}

/// The line declares a boundary.
pub open spec fn declares_boundary(line: Seq<char>) -> bool {
    contains_text(line, "; boundary="@)
}

/// The value that a declaring line gives: everything after its first `=`.
///
/// The cut is addressed as a byte offset of the line's UTF-8 text, one more
/// than the number of characters before that `=`. Where this offset is not the
/// start of a character the line yields no value.
pub open spec fn declared_value(line: Seq<char>) -> Option<Seq<char>> {
    if line.contains('=') && is_char_boundary(encode_utf8(line), first_index(line, '=') + 1) {
        Some(line.skip(first_index(line, '=') + 1))
    } else {
        None
    }
}

/// One transition of the scan on the line at `index`, from the token and the
/// marker known before it; `None` where the line is a malformed declaration.
pub open spec fn scan_step(state: (Seq<char>, nat), index: nat, line: Seq<char>) -> Option<
    (Seq<char>, nat),
> {
    if is_marker_line(state.0, line) {
        Some((state.0, index))
    } else if declares_boundary(line) {
        match declared_value(line) {
            Some(value) => Some((state.0 + value, state.1)),
            None => None,
        }
    } else {
        Some(state)
    }
}

/// The scan folded over `lines` from the initial state: no token, marker 0.
pub open spec fn scan_lines(lines: Seq<Seq<char>>) -> Option<(Seq<char>, nat)>
    decreases lines.len(),
{
    if lines.len() == 0 {
        Some((Seq::empty(), 0nat))
    } else {
        match scan_lines(lines.drop_last()) {
            Some(state) => scan_step(state, (lines.len() - 1) as nat, lines.last()),
            None => None,
        }
    }
}

/// The zero-based index of the last marker line of `lines`, 0 where there is
/// none; `None` where a declaration is malformed.
pub open spec fn boundary_offset(lines: Seq<Seq<char>>) -> Option<nat> {
    match scan_lines(lines) {
        Some(state) => Some(state.1),
        None => None,
    }
}

/// Scanning is repeatable: the offset is a function of the lines alone, so
/// two scans of the same record agree.
pub proof fn lemma_scan_repeatable(first: Seq<Seq<char>>, second: Seq<Seq<char>>)
    requires
        first.len() == second.len(),
        forall|i: int| 0 <= i < first.len() ==> first[i] == second[i],
    ensures
        scan_lines(first) == scan_lines(second),
        boundary_offset(first) == boundary_offset(second),
{
    assert(first =~= second);
}

/// The marker that a scan reports is the index of one of its lines, or 0.
pub proof fn lemma_marker_within_lines(lines: Seq<Seq<char>>)
    ensures
        match scan_lines(lines) {
            Some(state) => state.1 == 0 || (state.1 < lines.len() && is_marker_line(
                lines[state.1 as int].skip(2),
                lines[state.1 as int],
            )),
            None => true,
        },
    decreases lines.len(),
{
    if lines.len() > 0 {
        let front = lines.drop_last();
        lemma_marker_within_lines(front);
        match scan_lines(front) {
            Some(state) => {
                if is_marker_line(state.0, lines.last()) {
                    reveal_strlit("--");
                    assert(lines.last().skip(2) =~= state.0);
                } else if state.1 != 0 {
                    assert(front[state.1 as int] == lines[state.1 as int]);
                }
            },
            None => {},
        }
    }
}

/// The state of a scan in progress.
pub struct BoundaryScan {
    boundary: String,
    known: bool,
    marker: usize,
    index: usize,
    token: Ghost<Seq<char>>,
}

impl BoundaryScan {
    /// The boundary token gathered so far; empty while none is known.
    pub closed spec fn token(&self) -> Seq<char> {
        self.token@
    }

    /// The index of the last marker line seen, 0 while there is none.
    pub closed spec fn marker(&self) -> nat {
        self.marker as nat
    }

    /// How many lines the scan has consumed.
    pub closed spec fn position(&self) -> nat {
        self.index as nat
    }

    /// The stored text is two dashes and the token.
    pub closed spec fn wf(&self) -> bool {
        &&& self.boundary@ == "--"@ + self.token@
        &&& self.known == (self.token@.len() > 0)
    }

    /// The state that the scan is in.
    pub open spec fn phase_of(&self) -> ScanPhase {
        if self.token().len() > 0 {
            ScanPhase::TrackingKnownBoundary
        } else {
            ScanPhase::SeekingBoundaryDeclaration
        }
    }

    /// A scan that has consumed nothing.
    pub fn new() -> (r: BoundaryScan)
        ensures
            r.wf(),
            r.token() == Seq::<char>::empty(),
            r.marker() == 0,
            r.position() == 0,
    {
        let boundary = String::from_str("--");
        assert(boundary@ =~= "--"@ + Seq::<char>::empty());
        BoundaryScan { boundary, known: false, marker: 0, index: 0, token: Ghost(Seq::empty()) }
    }

    /// The state that the scan is in.
    pub fn phase(&self) -> (r: ScanPhase)
        requires
            self.wf(),
        ensures
            r == self.phase_of(),
    {
        if self.known {
            ScanPhase::TrackingKnownBoundary
        } else {
            ScanPhase::SeekingBoundaryDeclaration
        }
    }

    /// Consumes the next line. A marker line of the known boundary moves the
    /// marker to it; a declaration of a boundary extends the token; any other
    /// line changes nothing. A malformed declaration stops the scan.
    pub fn step(&mut self, line: &str) -> (r: Result<(), MyErrors>)
        requires
            old(self).wf(),
            old(self).position() < usize::MAX,
        ensures
            match scan_step((old(self).token(), old(self).marker()), old(self).position(), line@) {
                Some(next) => {
                    &&& r == Ok::<(), MyErrors>(())
                    &&& final(self).wf()
                    &&& final(self).token() == next.0
                    &&& final(self).marker() == next.1
                    &&& final(self).position() == old(self).position() + 1
                },
                None => r == Err::<(), MyErrors>(MyErrors::InvalidBoundaryLine) && *final(self)
                    == *old(self),
            },
    {
        if self.known && str_eq(line, self.boundary.as_str()) {
            self.marker = self.index;
        } else {
            let chars = chars_of(line);
            let declaration = chars_of("; boundary=");
            if find_chars(&chars, &declaration).is_some() {
                match find_char(&chars, '=') {
                    Some(mark) => {
                        if !line.is_char_boundary(mark + 1) {
                            return Err(MyErrors::InvalidBoundaryLine);
                        }
                        let value = line.substring_char(mark + 1, chars.len());
                        assert(value@ =~= line@.skip(mark + 1));
                        if !value.is_empty() {
                            self.known = true;
                        }
                        self.boundary.append(value);
                        proof {
                            assert(self.boundary@ =~= "--"@ + (self.token@ + value@));
                            self.token = Ghost(self.token@ + value@);
                        }
                    },
                    None => {
                        return Err(MyErrors::InvalidBoundaryLine);
                    },
                }
            }
        }
        self.index = self.index + 1;
        Ok(())
    }

    /// The offset found so far: the index of the last marker line, or 0.
    pub fn offset(&self) -> (r: usize)
        ensures
            r == self.marker(),
    {
        self.marker
    }
}

/// The zero-based index of the last line of the record that is exactly two
/// dashes and the declared boundary token, or 0 where no line is. A malformed
/// declaration fails the scan.
pub fn locate_boundary(lines: &Vec<String>) -> (r: Result<usize, MyErrors>)
    ensures
        match boundary_offset(texts(lines@)) {
            Some(offset) => r == Ok::<usize, MyErrors>(offset as usize) && offset < usize::MAX,
            None => r == Err::<usize, MyErrors>(MyErrors::InvalidBoundaryLine),
        },
{
    let mut scan = BoundaryScan::new();
    let mut i: usize = 0;
    proof {
        assert(texts(lines@).take(0) =~= Seq::<Seq<char>>::empty());
    }
    while i < lines.len()
        invariant
            i <= lines.len(),
            scan.wf(),
            scan.position() == i,
            scan.marker() == 0 || scan.marker() < i,
            scan_lines(texts(lines@).take(i as int)) == Some((scan.token(), scan.marker())),
        decreases lines.len() - i,
    {
        let ghost front = texts(lines@).take(i as int);
        let ghost next = texts(lines@).take(i + 1);
        proof {
            assert(next.drop_last() =~= front);
            assert(next.last() == lines@[i as int]@);
        }
        match scan.step(lines[i].as_str()) {
            Ok(()) => {},
            Err(e) => {
                proof {
                    lemma_malformed_is_final(texts(lines@), i + 1);
                }
                return Err(e);
            },
        }
        i = i + 1;
    }
    proof {
        assert(texts(lines@).take(i as int) =~= texts(lines@));
    }
    Ok(scan.offset())
}

/// Once a prefix of the lines holds a malformed declaration, so does the whole.
proof fn lemma_malformed_is_final(lines: Seq<Seq<char>>, upto: int)
    requires
        0 <= upto <= lines.len(),
        scan_lines(lines.take(upto)) is None,
    ensures
        scan_lines(lines) is None,
    decreases lines.len() - upto,
{
    if upto < lines.len() {
        assert(lines.take(upto + 1).drop_last() =~= lines.take(upto));
        lemma_malformed_is_final(lines, upto + 1);
    } else {
        assert(lines.take(upto) =~= lines);
    }
}

} // verus!
