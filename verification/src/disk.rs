//! Verified planning core of the disk-backed paste repository.
//!
//! The disk-backed repository persists each paste as one file in a storage
//! directory: file name the identifier verbatim, file contents the raw
//! paste bytes, no header and no trailing delimiter. The file operations
//! themselves live with the binary that owns the directory; what is
//! verified here is the part with an invariant worth stating: an untrusted
//! identifier never names a file unless it has the generated shape — the
//! alphabet holds no separator, no dot, nothing that could escape the
//! storage directory — and the file path is derived from the directory and
//! the identifier alone.

use vstd::prelude::*;
use vstd::string::StringExecFns;
use crate::id::is_valid_id;
use crate::id::valid_id;
use crate::repo::RepoError;

verus! {

/// The verified core of the repository rooted at one storage directory:
/// checks untrusted identifiers and derives the file path each paste lives
/// under.
pub struct PasteDiskRepository {
    dir: String,
}

impl PasteDiskRepository {
    /// The storage directory this repository is rooted at.
    pub closed spec fn spec_dir(&self) -> Seq<char> {
        self.dir@
    }

    /// The core for the storage directory `dir`. That the directory exists
    /// and is writable is checked by the caller before first use.
    pub fn new(dir: String) -> (r: Self)
        ensures
            r.spec_dir() == dir@,
    {
        PasteDiskRepository { dir }
    }

    /// The path of the file holding the paste `id`: the storage directory,
    /// one separator, the identifier verbatim. An identifier without the
    /// generated shape is rejected, so no externally supplied identifier
    /// can name anything outside the storage directory.
    pub fn paste_path(&self, id: &str) -> (r: Result<String, RepoError>)
        ensures
            r matches Ok(p) ==> valid_id(id@) && p@ == self.spec_dir() + seq!['/'] + id@,
            r is Err <==> !valid_id(id@),
            r is Err ==> r == Err::<String, RepoError>(RepoError::InvalidId),
    {
        if !is_valid_id(id) {
            return Err(RepoError::InvalidId);
        }
        let mut p = self.dir.clone();
        p.append("/");
        p.append(id);
        proof {
            reveal_strlit("/");
            assert("/"@ =~= seq!['/']);
            assert(p@ =~= self.spec_dir() + seq!['/'] + id@);
        }
        Ok(p)
    }
}

} // verus!
