use vstd::prelude::*;

verus! {

use crate::error::ConfigError;

/// What a probe of one candidate path found on disk. Probing is I/O and
/// stays outside the library; the caller hands the outcome in as plain data.
#[derive(Debug, Clone, Copy, PartialEq, Eq, Structural)]
pub enum FileStatus {
    /// The path exists and is a regular file.
    RegularFile,
    /// The path exists but is something else, such as a directory.
    OtherKind,
    /// The path does not exist.
    Missing,
}

/// One candidate location of the configuration file: the full path and what
/// a probe of it found.
#[derive(Debug)]
pub struct Candidate {
    pub path: String,
    pub status: FileStatus,
}

/// The outcome the locator owes for an ordered candidate list: the first
/// present path decides, and an ambiguous path must not be skipped.
pub enum Located {
    Found(Seq<char>),
    Rejected(Seq<char>),
    Absent,
}

pub open spec fn locate_spec(s: Seq<Candidate>) -> Located
    decreases s.len(),
{
    if s.len() == 0 {
        Located::Absent
    } else {
        match s[0].status {
            FileStatus::Missing => locate_spec(s.drop_first()),
            FileStatus::RegularFile => Located::Found(s[0].path@),
            FileStatus::OtherKind => Located::Rejected(s[0].path@),
        }
    }
}

/// Joins a directory and a file name into one candidate path.
pub fn candidate_path(dir: &str, filename: &str) -> (r: String)
    ensures
        r@ == dir@ + "/"@ + filename@,
{
    String::from_str(dir).concat("/").concat(filename)
}

/// Picks the configuration file path out of an ordered candidate list: the
/// first path that exists decides. A regular file is the result; any other
/// existing entry is rejected as an invalid path rather than skipped; if
/// every candidate is missing, the file was not found.
pub fn locate(candidates: &Vec<Candidate>) -> (r: Result<String, ConfigError>)
    ensures
        match locate_spec(candidates@) {
            Located::Found(p) => r matches Ok(q) && q@ == p,
            Located::Rejected(p) => r matches Err(e) && e matches ConfigError::BadFilePath {
                path,
                reason,
            } && path@ == p && reason@ == "exists but is not a regular file"@,
            Located::Absent => r == Err::<String, ConfigError>(ConfigError::NotFound),
        },
{
    let n = candidates.len();
    let mut i: usize = 0;
    proof {
        assert(candidates@.skip(0) =~= candidates@);
    }
    while i < n
        invariant
            i <= n,
            n == candidates@.len(),
            locate_spec(candidates@) == locate_spec(candidates@.skip(i as int)),
        decreases n - i,
    {
        proof {
            assert(candidates@.skip(i as int)[0] == candidates@[i as int]);
        }
        let c = &candidates[i];
        match c.status {
            FileStatus::RegularFile => {
                return Ok(c.path.clone());
            },
            FileStatus::OtherKind => {
                return Err(
                    ConfigError::BadFilePath {
                        path: c.path.clone(),
                        reason: String::from_str("exists but is not a regular file"),
                    },
                );
            },
            FileStatus::Missing => {
                proof {
                    assert(candidates@.skip(i as int).drop_first() =~= candidates@.skip(
                        i + 1,
                    ));
                }
                i += 1;
            },
        }
    }
    Err(ConfigError::NotFound)
}

/// Law: for every candidate list in which the file is absent everywhere, the
/// locator's outcome is absence, so `locate` reports `NotFound`.
pub proof fn lemma_locate_all_missing(s: Seq<Candidate>)
    requires
        forall|i: int| 0 <= i < s.len() ==> s[i].status == FileStatus::Missing,
    ensures
        locate_spec(s) is Absent,
    decreases s.len(),
{
    if s.len() > 0 {
        assert(forall|i: int|
            0 <= i < s.drop_first().len() ==> s.drop_first()[i] == s[i + 1]);
        lemma_locate_all_missing(s.drop_first());
    }
}

} // verus!
