//! The integrity verifier: one verdict for each declared item, from the staged content.

use crate::archive::{MemberView, StagingArea, KIND_DIRECTORY, KIND_FILE};
use crate::digest::{digest_matches, hex_string, matches_digest, sha1_digest, sha1_of, to_hex};
use crate::parser::{declares_directory, path_of, File, FileView, Files};
use vstd::prelude::*;

verus! {

/// What the engine does when an item fails verification.
#[derive(Clone, Copy, Debug, PartialEq, Eq, Structural)]
pub enum Policy {
    /// Any item that does not verify aborts the install before anything is written.
    Strict,
    /// Items that do not verify are reported and left out; the others are installed.
    Permissive,
}

/// Why a staged item could not be read for verification.
#[derive(Clone, Copy, Debug, PartialEq, Eq, Structural)]
pub enum UnreadableCause {
    /// The staging area holds nothing under the item's path.
    Missing,
    /// What is staged under the path is not of the declared kind, or is neither a regular
    /// file nor a directory: a symbolic link, a device, a sparse file.
    WrongKind,
}

/// The verdict on one declared item.
#[derive(Clone, Debug, PartialEq, Eq)]
pub enum VerificationResult {
    /// The staged content has the declared digest, or the declared directory is staged.
    Match,
    /// The staged content has another digest than the declared one.
    Mismatch { expected: String, actual: String },
    /// The staged item could not be read.
    Unreadable { cause: UnreadableCause },
}

/// The view of a [`VerificationResult`].
pub enum Verdict {
    Match,
    Mismatch { expected: Seq<char>, actual: Seq<char> },
    Unreadable { cause: UnreadableCause },
}

impl View for VerificationResult {
    type V = Verdict;

    open spec fn view(&self) -> Verdict {
        match self {
            VerificationResult::Match => Verdict::Match,
            VerificationResult::Mismatch { expected, actual } => Verdict::Mismatch {
                expected: expected@,
                actual: actual@,
            },
            VerificationResult::Unreadable { cause } => Verdict::Unreadable { cause: *cause },
        }
    }
}

/// The views of a sequence of verdicts.
pub open spec fn verdicts_view(results: Seq<VerificationResult>) -> Seq<Verdict> {
    results.map_values(|r: VerificationResult| r@)
}

/// The verdict on content with the given digest, against the declared digest.
pub open spec fn judged(declared: Seq<char>, digest: Seq<u8>) -> Verdict {
    if digest_matches(declared, digest) {
        Verdict::Match
    } else {
        Verdict::Mismatch { expected: declared, actual: hex_string(digest) }
    }
}

/// The verdict on one declared item. A directory verifies when a directory is staged under
/// its path; anything else verifies when a regular file is staged under its path and the
/// digest of that file's content is the declared one. The engine installs regular files and
/// directories only: whatever else the archive holds under a declared path, such as a
/// symbolic link, makes the item unreadable, so it is left out under the permissive policy
/// and fails the install under the strict one.
pub open spec fn verdict_of(entry: FileView, staging: Map<Seq<u8>, MemberView>) -> Verdict {
    let path = path_of(entry);
    if !staging.contains_key(path) {
        Verdict::Unreadable { cause: UnreadableCause::Missing }
    } else if declares_directory(entry) {
        if staging[path].kind == KIND_DIRECTORY {
            Verdict::Match
        } else {
            Verdict::Unreadable { cause: UnreadableCause::WrongKind }
        }
    } else if staging[path].kind != KIND_FILE {
        Verdict::Unreadable { cause: UnreadableCause::WrongKind }
    } else {
        judged(entry.hash, sha1_of(staging[path].content))
    }
}

/// The verdicts on all the items of a listing, in its order.
pub open spec fn verdicts_of(files: Seq<FileView>, staging: Map<Seq<u8>, MemberView>) -> Seq<
    Verdict,
> {
    Seq::new(files.len(), |i: int| verdict_of(files[i], staging))
}

impl VerificationResult {
    /// Whether the verdict is `Match`.
    pub fn is_match(&self) -> (r: bool)
        ensures
            r == (self@ is Match),
    {
        match self {
            VerificationResult::Match => true,
            _ => false,
        }
    }

    /// A copy of the verdict.
    pub fn duplicate(&self) -> (r: VerificationResult)
        ensures
            r@ == self@,
    {
        match self {
            VerificationResult::Match => VerificationResult::Match,
            VerificationResult::Mismatch { expected, actual } => VerificationResult::Mismatch {
                expected: expected.clone(),
                actual: actual.clone(),
            },
            VerificationResult::Unreadable { cause } => VerificationResult::Unreadable {
                cause: *cause,
            },
        }
    }
}

/// Judges content by its digest: see [`judged`].
pub fn judge(declared: &str, digest: &[u8]) -> (r: VerificationResult)
    ensures
        r@ == judged(declared@, digest@),
{
    if matches_digest(declared, digest) {
        VerificationResult::Match
    } else {
        VerificationResult::Mismatch { expected: declared.to_owned(), actual: to_hex(digest) }
    }
}

/// Verifies one declared item against the staging area: see [`verdict_of`].
pub fn verify_entry(entry: &File, staging: &StagingArea) -> (r: VerificationResult)
    ensures
        r@ == verdict_of(entry@, staging@),
{
    match staging.get(entry.path_bytes()) {
        None => VerificationResult::Unreadable { cause: UnreadableCause::Missing },
        Some(member) => {
            if entry.is_directory() {
                if member.kind == KIND_DIRECTORY {
                    VerificationResult::Match
                } else {
                    VerificationResult::Unreadable { cause: UnreadableCause::WrongKind }
                }
            } else if member.kind != KIND_FILE {
                VerificationResult::Unreadable { cause: UnreadableCause::WrongKind }
            } else {
                let digest = sha1_digest(member.content.as_slice());
                judge(entry.Hash.as_str(), digest.as_slice())
            }
        },
    }
}

/// Verifies every item of a listing, in its order: see [`verdicts_of`].
pub fn verify_all(files: &Files, staging: &StagingArea) -> (r: Vec<VerificationResult>)
    ensures
        verdicts_view(r@) == verdicts_of(files@, staging@),
{
    let mut results: Vec<VerificationResult> = Vec::new();
    let mut i: usize = 0;
    while i < files.File.len()
        invariant
            i <= files.File@.len(),
            results@.len() == i,
            forall|k: int| 0 <= k < i ==> (#[trigger] results@[k])@ == verdict_of(files@[k], staging@),
        decreases files.File@.len() - i,
    {
        assert(files@[i as int] == files.File@[i as int]@);
        results.push(verify_entry(&files.File[i], staging));
        i += 1;
    }
    assert(verdicts_view(results@) =~= verdicts_of(files@, staging@));
    results
}

} // verus!
