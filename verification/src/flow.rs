//! Submission flow: choose a fresh identifier, then store the paste.
//!
//! The flow draws random identifiers until the repository does not hold the
//! candidate, then creates the paste under it. With the generator's
//! keyspace a collision is astronomically unlikely, so the retry budget
//! below is unreachable in practice; it bounds the loop all the same, so
//! that the flow provably terminates. A storage failure is fatal to the
//! submission and is not retried: exactly one durable entry is created on
//! success, none on failure.

use vstd::prelude::*;
use crate::id::generate_id;
use crate::id::valid_id;
use crate::repo::PasteRepository;
use crate::repo::RepoError;

verus! {

/// How many identifiers a submission may draw before giving up. One draw
/// almost always suffices; the budget exists so that the retry loop has a
/// bound at all.
pub const MAX_ID_ATTEMPTS: u64 = 100_000;

/// Why a submission failed. Either way the repository is unchanged.
#[derive(Clone, Copy, Debug, PartialEq, Eq)]
pub enum SubmitError {
    /// Storing the paste failed; the submission is not retried, since a
    /// repository failure is not repaired by choosing another identifier.
    Storage(RepoError),
    /// Every identifier drawn within the budget was already taken — with
    /// the generator's keyspace, practically unreachable.
    NoFreeId,
}

/// Draws random identifiers until one is absent from `repo`, making at
/// most `attempts` draws. A returned identifier has the generated shape
/// and is free in `repo`; the draw itself is random, so nothing more is
/// promised about which one comes back.
pub fn fresh_id<R: PasteRepository>(repo: &R, attempts: u64) -> (r: Option<String>)
    ensures
        r matches Some(id) ==> valid_id(id@) && !repo.repo_view().contains_key(id@),
        attempts > 0 && repo.repo_view().dom() == Set::<Seq<char>>::empty() ==> r is Some,
{
    let mut left = attempts;
    while left > 0
        invariant
            left < attempts ==> repo.repo_view().dom() != Set::<Seq<char>>::empty(),
        decreases left,
    {
        let id = generate_id();
        if !repo.contains(id.as_str()) {
            return Some(id);
        }
        proof {
            assert(repo.repo_view().dom().contains(id@));
        }
        left = left - 1;
    }
    None
}

/// Submits `content`: finds a free identifier, then creates the paste
/// under it and returns the identifier. On success the repository holds
/// exactly one new entry, under a fresh identifier of the generated shape,
/// bound to exactly `content`; on failure it is unchanged.
pub fn submit_paste<R: PasteRepository>(repo: &mut R, content: &[u8]) -> (r: Result<
    String,
    SubmitError,
>)
    ensures
        r matches Ok(id) ==> valid_id(id@) && !old(repo).repo_view().contains_key(id@)
            && final(repo).repo_view() == old(repo).repo_view().insert(id@, content@),
        r is Err ==> final(repo).repo_view() == old(repo).repo_view(),
{
    let id = match fresh_id(repo, MAX_ID_ATTEMPTS) {
        Some(id) => id,
        None => {
            return Err(SubmitError::NoFreeId);
        },
    };
    match repo.create(id.as_str(), content) {
        Ok(_) => Ok(id),
        Err(e) => Err(SubmitError::Storage(e)),
    }
}

} // verus!
