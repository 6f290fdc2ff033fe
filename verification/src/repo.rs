//! Durable paste repository abstraction.
//!
//! A repository is a mapping from identifier to content bytes with the
//! capability set `{create, read, exists}` and no capacity bound. The trait
//! carries the contracts; the in-memory implementation here is verified
//! against them and stands in for the disk-backed one in tests. The
//! disk-backed implementation lives with the binary that owns the storage
//! directory, built on the verified planning core in [`crate::disk`].

use vstd::prelude::*;
use vstd::slice::slice_to_vec;
use crate::id::is_valid_id;
use crate::id::valid_id;
use crate::store::PasteSeq;
use crate::store::distinct_keys;
use crate::store::entry_views;
use crate::store::find_in;
use crate::store::has_key;
use crate::store::lemma_key_at_index;
use crate::store::lemma_push_fresh;
use crate::store::lemma_remove_key;
use crate::store::lookup;
use crate::store::remove_key;

verus! {

/// Why a repository call failed. An I/O failure is the only error kind that
/// reaches outside the core; an identifier without the generated shape is
/// rejected before it can name anything on the storage medium.
#[derive(Clone, Copy, Debug, PartialEq, Eq)]
pub enum RepoError {
    /// The identifier does not have the generated shape, so it may not be
    /// used as a storage name.
    InvalidId,
    /// The underlying storage medium rejected the write.
    Io,
}

/// The mapping from identifier to content that an entry sequence stands
/// for.
pub open spec fn as_map(s: PasteSeq) -> Map<Seq<char>, Seq<u8>> {
    Map::new(|k: Seq<char>| has_key(s, k), |k: Seq<char>| lookup(s, k)->Some_0)
}

/// Overwriting or adding the entry for `k` turns the mapping of an entry
/// sequence into the mapping with `k` bound to `v`.
proof fn lemma_as_map_update(s: PasteSeq, k: Seq<char>, v: Seq<u8>)
    requires
        distinct_keys(s),
    ensures
        as_map(remove_key(s, k).push((k, v))) =~= as_map(s).insert(k, v),
{
    lemma_remove_key(s, k);
    let rem = remove_key(s, k);
    lemma_push_fresh(rem, k, v);
    let g = rem.push((k, v));
    assert forall|k2: Seq<char>| k2 != k implies lookup(g, k2) == lookup(s, k2) by {
        assert(lookup(g, k2) == lookup(rem, k2));
    }
    let m1 = as_map(g);
    let m2 = as_map(s).insert(k, v);
    assert forall|k2: Seq<char>| m1.dom().contains(k2) implies m2.dom().contains(k2) && m1[k2]
        == m2[k2] by {
        assert(has_key(g, k2));
        if k2 == k {
            assert(m1[k2] == lookup(g, k)->Some_0);
            assert(lookup(g, k) == Some(v));
        } else {
            assert(lookup(g, k2) == lookup(s, k2));
            assert(has_key(s, k2));
        }
    }
    assert forall|k2: Seq<char>| m2.dom().contains(k2) implies m1.dom().contains(k2) by {
        if k2 == k {
            assert(lookup(g, k) == Some(v));
            assert(has_key(g, k));
        } else {
            assert(has_key(s, k2));
            assert(lookup(g, k2) == lookup(s, k2));
            assert(lookup(s, k2) is Some);
            assert(has_key(g, k2));
        }
    }
    assert(as_map(g) =~= as_map(s).insert(k, v));
}

/// Capability set of a durable paste repository: write a paste under an
/// identifier, read one back, test presence. No capacity bound, no
/// eviction; the caller is responsible for identifier uniqueness.
pub trait PasteRepository: Sized {
    /// The mapping from identifier to content that the repository holds.
    /// The default — nothing stored — is what an implementation outside the
    /// verifier's sight is taken at; a verified implementation supplies its
    /// own.
    open spec fn repo_view(&self) -> Map<Seq<char>, Seq<u8>> {
        Map::empty()
    }

    /// Writes `content` durably under `id`. On success the entry for `id`
    /// holds exactly `content` — last write wins — and every other entry is
    /// untouched; on failure nothing observable has changed. An identifier
    /// without the generated shape is rejected, never handed to the
    /// storage medium.
    fn create(&mut self, id: &str, content: &[u8]) -> (r: Result<(), RepoError>)
        ensures
            r is Ok ==> valid_id(id@) && final(self).repo_view() == old(self).repo_view().insert(
                id@,
                content@,
            ),
            r is Err ==> final(self).repo_view() == old(self).repo_view(),
            !valid_id(id@) ==> r == Err::<(), RepoError>(RepoError::InvalidId),
    ;

    /// The content under `id`, or absence. A missing entry and an entry
    /// that could not be fully read are indistinguishable here, and neither
    /// is an error; a returned content is always complete and exact, never
    /// partial.
    fn read(&self, id: &str) -> (r: Option<Vec<u8>>)
        ensures
            r matches Some(c) ==> self.repo_view().contains_key(id@) && c@
                == self.repo_view()[id@],
            !self.repo_view().contains_key(id@) ==> r is None,
    ;

    /// Whether an entry for `id` is present; free of side effects, and
    /// consistent with a subsequent `read` on the same repository value.
    fn contains(&self, id: &str) -> (present: bool)
        ensures
            present == self.repo_view().contains_key(id@),
    ;
}

/// Durable round-trip, at the level every repository promises: once
/// `create(id, content)` has succeeded — so the mapping is the old one with
/// `id` bound to `content` — the entry for `id` is present and holds
/// exactly `content`, whatever bytes, including none, it consists of.
pub proof fn lemma_create_read_round_trip(
    m: Map<Seq<char>, Seq<u8>>,
    id: Seq<char>,
    content: Seq<u8>,
)
    ensures
        m.insert(id, content).contains_key(id),
        m.insert(id, content)[id] == content,
{
}

/// An unbounded in-memory paste repository: the drop-in substitute for the
/// disk-backed implementation in tests and verified callers. Its storage
/// medium never fails, so `create` fails exactly on an identifier without
/// the generated shape.
pub struct PasteMemRepository {
    entries: Vec<(String, Vec<u8>)>,
}

impl PasteMemRepository {
    #[verifier::type_invariant]
    spec fn wf(&self) -> bool {
        distinct_keys(entry_views(self.entries@))
    }

    /// A fresh repository holding nothing.
    pub fn new() -> (r: Self)
        ensures
            r.repo_view() =~= Map::<Seq<char>, Seq<u8>>::empty(),
    {
        PasteMemRepository { entries: Vec::new() }
    }

    /// Writes `content` under `id`: succeeds exactly on identifiers of the
    /// generated shape, and then binds `id` to `content`, last write wins.
    pub fn create_paste(&mut self, id: &str, content: &[u8]) -> (r: Result<(), RepoError>)
        ensures
            r is Ok <==> valid_id(id@),
            r is Ok ==> final(self).repo_view() == old(self).repo_view().insert(id@, content@),
            r is Err ==> final(self).repo_view() == old(self).repo_view() && r == Err::<
                (),
                RepoError,
            >(RepoError::InvalidId),
    {
        proof {
            use_type_invariant(&*self);
        }
        if !is_valid_id(id) {
            return Err(RepoError::InvalidId);
        }
        let ghost s0: PasteSeq = entry_views(self.entries@);
        let mut es: Vec<(String, Vec<u8>)> = Vec::new();
        std::mem::swap(&mut es, &mut self.entries);
        match find_in(&es, id) {
            Some(i) => {
                proof {
                    lemma_key_at_index(s0, id@, i as int);
                    lemma_remove_key(s0, id@);
                }
                let ghost before = es@;
                es.remove(i);
                proof {
                    assert(entry_views(es@) =~= entry_views(before).remove(i as int));
                }
            },
            None => {},
        }
        proof {
            assert(entry_views(es@) =~= remove_key(s0, id@));
            lemma_remove_key(s0, id@);
        }
        let ghost rem: PasteSeq = entry_views(es@);
        es.push((id.to_owned(), slice_to_vec(content)));
        proof {
            assert(entry_views(es@) =~= rem.push((id@, content@)));
            lemma_push_fresh(rem, id@, content@);
            lemma_as_map_update(s0, id@, content@);
        }
        self.entries = es;
        Ok(())
    }

    /// The content under `id`, exactly when an entry for `id` is present:
    /// this medium never fails a read.
    pub fn read_paste(&self, id: &str) -> (r: Option<Vec<u8>>)
        ensures
            match r {
                Some(c) => self.repo_view().contains_key(id@) && c@ == self.repo_view()[id@],
                None => !self.repo_view().contains_key(id@),
            },
    {
        proof {
            use_type_invariant(&*self);
        }
        match find_in(&self.entries, id) {
            Some(i) => {
                proof {
                    lemma_key_at_index(entry_views(self.entries@), id@, i as int);
                }
                Some(slice_to_vec(self.entries[i].1.as_slice()))
            },
            None => None,
        }
    }

    /// Whether an entry for `id` is present.
    pub fn contains_paste(&self, id: &str) -> (present: bool)
        ensures
            present == self.repo_view().contains_key(id@),
    {
        proof {
            use_type_invariant(&*self);
        }
        match find_in(&self.entries, id) {
            Some(i) => {
                proof {
                    assert(has_key(entry_views(self.entries@), id@));
                }
                true
            },
            None => false,
        }
    }
}

impl PasteRepository for PasteMemRepository {
    closed spec fn repo_view(&self) -> Map<Seq<char>, Seq<u8>> {
        as_map(entry_views(self.entries@))
    }

    fn create(&mut self, id: &str, content: &[u8]) -> (r: Result<(), RepoError>) {
        self.create_paste(id, content)
    }

    fn read(&self, id: &str) -> (r: Option<Vec<u8>>) {
        self.read_paste(id)
    }

    fn contains(&self, id: &str) -> (present: bool) {
        self.contains_paste(id)
    }
}

} // verus!
