//! Bounded in-memory paste store with first-in-first-out eviction.
//!
//! The store is an ordered mapping from identifier to content bytes. A
//! `store` call places the entry at the newest end, overwriting any earlier
//! entry for the same identifier, and then evicts entries from the oldest
//! end until no more than the configured capacity remain. `get` returns an
//! independent copy of the content and never reorders entries.
//!
//! The store itself is a sequential component; a serving layer that shares
//! one store across request handlers guards it with a lock so that each
//! `store` call, insertion and eviction together, is atomic to its readers.

use vstd::prelude::*;
use vstd::slice::slice_to_vec;
use vstd::string::StrSliceExecFns;

verus! {

/// The mathematical model of an ordered paste mapping: the sequence of
/// entries, oldest first, each an identifier with its content bytes.
pub type PasteSeq = Seq<(Seq<char>, Seq<u8>)>;

/// The entries a vector of pastes stands for.
pub open spec fn entry_views(es: Seq<(String, Vec<u8>)>) -> PasteSeq {
    es.map_values(|e: (String, Vec<u8>)| (e.0@, e.1@))
}

/// Whether some entry of `s` carries the identifier `k`.
pub open spec fn has_key(s: PasteSeq, k: Seq<char>) -> bool {
    exists|i: int| 0 <= i < s.len() && (#[trigger] s[i]).0 == k
}

/// The position of the entry carrying `k`; meaningful only while `has_key`
/// holds and keys are distinct.
pub open spec fn key_index(s: PasteSeq, k: Seq<char>) -> int {
    choose|i: int| 0 <= i < s.len() && (#[trigger] s[i]).0 == k
}

/// The content stored under `k`, or `None` where no entry carries `k`.
pub open spec fn lookup(s: PasteSeq, k: Seq<char>) -> Option<Seq<u8>> {
    if has_key(s, k) {
        Some(s[key_index(s, k)].1)
    } else {
        None
    }
}

/// `s` without the entry carrying `k`, where there is one.
pub open spec fn remove_key(s: PasteSeq, k: Seq<char>) -> PasteSeq {
    if has_key(s, k) {
        s.remove(key_index(s, k))
    } else {
        s
    }
}

/// Whether no two entries of `s` carry the same identifier.
pub open spec fn distinct_keys(s: PasteSeq) -> bool {
    forall|i: int, j: int|
        0 <= i < j < s.len() ==> (#[trigger] s[i]).0 != (#[trigger] s[j]).0
}

/// What one `store(k, v)` call does to the entries of a store of capacity
/// `cap`: the entry for `k` moves to the newest end with content `v`, and
/// the oldest entries are evicted until at most `cap` remain.
pub open spec fn store_step(s: PasteSeq, cap: nat, k: Seq<char>, v: Seq<u8>) -> PasteSeq {
    let grown = remove_key(s, k).push((k, v));
    if grown.len() > cap {
        grown.skip(grown.len() - cap)
    } else {
        grown
    }
}

/// With distinct keys, an entry carrying `k` is the single place `lookup`
/// reads from.
pub proof fn lemma_key_at_index(s: PasteSeq, k: Seq<char>, i: int)
    requires
        distinct_keys(s),
        0 <= i < s.len(),
        s[i].0 == k,
    ensures
        has_key(s, k),
        key_index(s, k) == i,
        lookup(s, k) == Some(s[i].1),
{
    assert(has_key(s, k));
    let j = key_index(s, k);
    if i < j {
        assert(s[i].0 != s[j].0);
    } else if j < i {
        assert(s[j].0 != s[i].0);
    }
}

/// Removing the entry for `k` keeps the other entries, their order and
/// their distinctness, and leaves no entry for `k` behind.
pub proof fn lemma_remove_key(s: PasteSeq, k: Seq<char>)
    requires
        distinct_keys(s),
    ensures
        distinct_keys(remove_key(s, k)),
        !has_key(remove_key(s, k), k),
        remove_key(s, k).len() == if has_key(s, k) { s.len() - 1 } else { s.len() as int },
        forall|k2: Seq<char>| k2 != k ==> lookup(remove_key(s, k), k2) == lookup(s, k2),
{
    if has_key(s, k) {
        let i = key_index(s, k);
        assert(0 <= i < s.len() && s[i].0 == k);
        let r = s.remove(i);
        assert forall|j: int| 0 <= j < r.len() implies (#[trigger] r[j]).0 != k by {
            if j < i {
                assert(r[j] == s[j]);
                if s[j].0 == k {
                    lemma_key_at_index(s, k, j);
                }
            } else {
                assert(r[j] == s[j + 1]);
                if s[j + 1].0 == k {
                    lemma_key_at_index(s, k, j + 1);
                }
            }
        }
        assert forall|p: int, q: int|
            0 <= p < q < r.len() implies (#[trigger] r[p]).0 != (#[trigger] r[q]).0 by {
            let p0: int = if p < i { p } else { p + 1 };
            let q0: int = if q < i { q } else { q + 1 };
            assert(r[p] == s[p0]);
            assert(r[q] == s[q0]);
            assert(s[p0].0 != s[q0].0);
        }
        assert forall|k2: Seq<char>| k2 != k implies lookup(r, k2) == lookup(s, k2) by {
            lemma_lookup_remove_other(s, k, k2);
        }
    }
}

/// Removing the entry for one identifier does not change what is stored
/// under any other.
proof fn lemma_lookup_remove_other(s: PasteSeq, k: Seq<char>, k2: Seq<char>)
    requires
        distinct_keys(s),
        has_key(s, k),
        k2 != k,
    ensures
        lookup(s.remove(key_index(s, k)), k2) == lookup(s, k2),
{
    let i = key_index(s, k);
    lemma_key_at_index(s, k, i);
    let r = s.remove(i);
    assert forall|p: int, q: int|
        0 <= p < q < r.len() implies (#[trigger] r[p]).0 != (#[trigger] r[q]).0 by {
        let p0: int = if p < i { p } else { p + 1 };
        let q0: int = if q < i { q } else { q + 1 };
        assert(r[p] == s[p0]);
        assert(r[q] == s[q0]);
    }
    if has_key(s, k2) {
        let j = key_index(s, k2);
        lemma_key_at_index(s, k2, j);
        assert(j != i);
        let j2: int = if j < i { j } else { j - 1 };
        assert(r[j2] == s[j]);
        lemma_key_at_index(r, k2, j2);
    } else {
        if has_key(r, k2) {
            let j = choose|j: int| 0 <= j < r.len() && (#[trigger] r[j]).0 == k2;
            let j0: int = if j < i { j } else { j + 1 };
            assert(r[j] == s[j0]);
            assert(has_key(s, k2));
        }
    }
}

/// Appending an entry with a fresh identifier keeps keys distinct and does
/// not change what is stored under any other identifier.
pub proof fn lemma_push_fresh(s: PasteSeq, k: Seq<char>, v: Seq<u8>)
    requires
        distinct_keys(s),
        !has_key(s, k),
    ensures
        distinct_keys(s.push((k, v))),
        lookup(s.push((k, v)), k) == Some(v),
        forall|k2: Seq<char>| k2 != k ==> lookup(s.push((k, v)), k2) == lookup(s, k2),
{
    let g = s.push((k, v));
    assert forall|p: int, q: int|
        0 <= p < q < g.len() implies (#[trigger] g[p]).0 != (#[trigger] g[q]).0 by {
        if q < g.len() - 1 {
            assert(g[p] == s[p]);
            assert(g[q] == s[q]);
        } else {
            assert(g[q] == (k, v));
            assert(g[p] == s[p]);
            if s[p].0 == k {
                assert(has_key(s, k));
            }
        }
    }
    assert(g[g.len() - 1] == (k, v));
    lemma_key_at_index(g, k, g.len() - 1);
    assert forall|k2: Seq<char>| k2 != k implies lookup(g, k2) == lookup(s, k2) by {
        if has_key(s, k2) {
            let j = key_index(s, k2);
            lemma_key_at_index(s, k2, j);
            assert(g[j] == s[j]);
            lemma_key_at_index(g, k2, j);
        } else {
            if has_key(g, k2) {
                let j = choose|j: int| 0 <= j < g.len() && (#[trigger] g[j]).0 == k2;
                assert(g[j] == s[j]);
                assert(has_key(s, k2));
            }
        }
    }
}

/// A suffix of a sequence with distinct keys has distinct keys.
pub proof fn lemma_distinct_skip(s: PasteSeq, d: int)
    requires
        distinct_keys(s),
        0 <= d <= s.len(),
    ensures
        distinct_keys(s.skip(d)),
{
    let r = s.skip(d);
    assert forall|p: int, q: int|
        0 <= p < q < r.len() implies (#[trigger] r[p]).0 != (#[trigger] r[q]).0 by {
        assert(r[p] == s[p + d]);
        assert(r[q] == s[q + d]);
    }
}

/// Capacity invariant: whatever the store held before, one `store` call
/// leaves at most `cap` entries.
pub proof fn lemma_store_step_capacity(s: PasteSeq, cap: nat, k: Seq<char>, v: Seq<u8>)
    ensures
        store_step(s, cap, k, v).len() <= cap,
{
}

/// Read-after-write: an identifier just stored into a store with any room
/// at all is found, and holds exactly the content last stored under it.
pub proof fn lemma_read_after_write(s: PasteSeq, cap: nat, k: Seq<char>, v: Seq<u8>)
    requires
        distinct_keys(s),
        cap > 0,
    ensures
        lookup(store_step(s, cap, k, v), k) == Some(v),
        distinct_keys(store_step(s, cap, k, v)),
{
    lemma_remove_key(s, k);
    let rem = remove_key(s, k);
    lemma_push_fresh(rem, k, v);
    let g = rem.push((k, v));
    let r = store_step(s, cap, k, v);
    if g.len() > cap {
        let d = g.len() - cap;
        lemma_distinct_skip(g, d);
        assert(r == g.skip(d));
        assert(r[r.len() - 1] == g[g.len() - 1]);
        lemma_key_at_index(r, k, r.len() - 1);
    } else {
        lemma_key_at_index(g, k, g.len() - 1);
    }
}

/// First-in-first-out order: storing a fresh identifier into a full store
/// evicts exactly the oldest entry; the remaining entries keep their order
/// and the new entry stands at the newest end.
pub proof fn lemma_store_step_fifo(s: PasteSeq, cap: nat, k: Seq<char>, v: Seq<u8>)
    requires
        distinct_keys(s),
        !has_key(s, k),
        s.len() == cap,
        cap > 0,
    ensures
        store_step(s, cap, k, v) =~= s.skip(1).push((k, v)),
{
    lemma_remove_key(s, k);
    assert(remove_key(s, k) == s);
    let g = s.push((k, v));
    assert(store_step(s, cap, k, v) == g.skip(1));
    assert(g.skip(1) =~= s.skip(1).push((k, v)));
}

/// Overwrite semantics: storing twice under one identifier leaves exactly
/// one entry for it, holding the second content; the second store changes
/// neither the number of entries nor what any other identifier holds.
pub proof fn lemma_store_step_overwrite(
    s: PasteSeq,
    cap: nat,
    k: Seq<char>,
    v1: Seq<u8>,
    v2: Seq<u8>,
)
    requires
        distinct_keys(s),
        s.len() <= cap,
        cap > 0,
    ensures
        ({
            let s1 = store_step(s, cap, k, v1);
            let s2 = store_step(s1, cap, k, v2);
            &&& s2.len() == s1.len()
            &&& lookup(s2, k) == Some(v2)
            &&& forall|k2: Seq<char>| k2 != k ==> lookup(s2, k2) == lookup(s1, k2)
        }),
{
    lemma_remove_key(s, k);
    let rem = remove_key(s, k);
    lemma_push_fresh(rem, k, v1);
    let g1 = rem.push((k, v1));
    let s1 = store_step(s, cap, k, v1);
    lemma_read_after_write(s, cap, k, v1);
    lemma_store_step_capacity(s, cap, k, v1);
    if g1.len() > cap {
        let d = g1.len() - cap;
        lemma_distinct_skip(g1, d);
    }
    lemma_remove_key(s1, k);
    let rem1 = remove_key(s1, k);
    lemma_push_fresh(rem1, k, v2);
    let g2 = rem1.push((k, v2));
    let s2 = store_step(s1, cap, k, v2);
    assert(has_key(s1, k));
    assert(g2.len() == s1.len());
    assert(s2 == g2);
}

/// The entries left after storing each element of `ps`, oldest first, into
/// a store already holding `s`.
pub open spec fn store_all(s: PasteSeq, cap: nat, ps: PasteSeq) -> PasteSeq
    decreases ps.len(),
{
    if ps.len() == 0 {
        s
    } else {
        store_all(store_step(s, cap, ps[0].0, ps[0].1), cap, ps.drop_first())
    }
}

proof fn lemma_skip_skip(s: PasteSeq, a: int, b: int)
    requires
        0 <= a,
        0 <= b,
        a + b <= s.len(),
    ensures
        s.skip(a).skip(b) =~= s.skip(a + b),
{
}

proof fn lemma_skip_concat(x: PasteSeq, y: PasteSeq, a: int)
    requires
        0 <= a <= x.len(),
    ensures
        (x + y).skip(a) =~= x.skip(a) + y,
{
}

/// Filling, first-in-first-out: storing a run of pastes whose identifiers
/// are pairwise distinct and not yet present leaves exactly the newest
/// entries that fit — the run appended to what was there, cut to the
/// capacity from the oldest end, order kept. In particular, a run of `n`
/// distinct identifiers against an empty store leaves exactly the newest
/// `n` or `cap` entries, whichever is fewer.
pub proof fn lemma_store_all_fifo(s: PasteSeq, cap: nat, ps: PasteSeq)
    requires
        distinct_keys(s + ps),
        s.len() <= cap,
    ensures
        ({
            let all = s + ps;
            store_all(s, cap, ps) =~= if all.len() > cap {
                all.skip(all.len() - cap)
            } else {
                all
            }
        }),
    decreases ps.len(),
{
    let all = s + ps;
    if ps.len() == 0 {
        assert(all =~= s);
    } else {
        let e = ps[0];
        let rest = ps.drop_first();
        let a1 = s.push(e);
        assert(a1 + rest =~= all);
        // the first identifier of the run is absent from `s`
        assert(!has_key(s, e.0)) by {
            if has_key(s, e.0) {
                let i = choose|i: int| 0 <= i < s.len() && (#[trigger] s[i]).0 == e.0;
                assert(all[i] == s[i]);
                assert(all[s.len() as int] == e);
                assert(all[i].0 != all[s.len() as int].0);
            }
        }
        assert(remove_key(s, e.0) == s);
        assert((e.0, e.1) == e);
        let s1 = store_step(s, cap, e.0, e.1);
        let d1: int = if a1.len() > cap {
            a1.len() - cap
        } else {
            0
        };
        assert(s1 =~= a1.skip(d1));
        lemma_skip_concat(a1, rest, d1);
        assert(s1 + rest =~= all.skip(d1));
        lemma_distinct_skip(all, d1);
        assert(distinct_keys(s1 + rest));
        assert(s1.len() <= cap);
        lemma_store_all_fifo(s1, cap, rest);
        assert(store_all(s, cap, ps) == store_all(s1, cap, rest));
        let part = s1 + rest;
        if part.len() > cap {
            assert(store_all(s1, cap, rest) =~= part.skip(part.len() - cap));
            lemma_skip_skip(all, d1, part.len() - cap);
            assert(part.skip(part.len() - cap) =~= all.skip(d1).skip(part.len() - cap));
            assert(d1 + (part.len() - cap) == all.len() - cap);
        } else {
            assert(store_all(s1, cap, rest) =~= part);
            if all.len() > cap {
                assert(d1 == all.len() - cap);
            } else {
                assert(d1 == 0);
                assert(part =~= all);
            }
        }
    }
}

/// A bounded, ordered, in-memory mapping from paste identifier to content
/// bytes, capped at a capacity fixed at construction, evicting oldest
/// entries first. Its view is the entry sequence, oldest first.
pub struct BoundedPasteStore {
    capacity: usize,
    entries: Vec<(String, Vec<u8>)>,
}

impl View for BoundedPasteStore {
    type V = PasteSeq;

    closed spec fn view(&self) -> PasteSeq {
        entry_views(self.entries@)
    }
}

impl BoundedPasteStore {
    /// The capacity the store was built with.
    pub closed spec fn spec_capacity(&self) -> nat {
        self.capacity as nat
    }

    #[verifier::type_invariant]
    spec fn wf(&self) -> bool {
        &&& distinct_keys(self@)
        &&& self@.len() <= self.spec_capacity()
    }

    /// A fresh store holding nothing, capped at `capacity` entries.
    ///
    /// A capacity of zero is well-defined: every insert evicts itself.
    pub fn new(capacity: usize) -> (s: Self)
        ensures
            s@ =~= Seq::<(Seq<char>, Seq<u8>)>::empty(),
            s.spec_capacity() == capacity,
    {
        BoundedPasteStore { capacity, entries: Vec::new() }
    }

    /// The capacity the store was built with. As every observer may, it
    /// also reports the store's standing invariant: identifiers are
    /// pairwise distinct and the capacity bound holds.
    pub fn capacity(&self) -> (c: usize)
        ensures
            c == self.spec_capacity(),
            distinct_keys(self@),
            self@.len() <= self.spec_capacity(),
    {
        proof {
            use_type_invariant(&*self);
        }
        self.capacity
    }

    /// How many entries the store holds now; never more than the
    /// capacity, whatever sequence of calls came before.
    pub fn len(&self) -> (n: usize)
        ensures
            n == self@.len(),
            n <= self.spec_capacity(),
            distinct_keys(self@),
    {
        proof {
            use_type_invariant(&*self);
        }
        self.entries.len()
    }

    /// Inserts or overwrites the entry for `id`, placing it at the newest
    /// end, then evicts oldest entries until at most the capacity remain.
    /// Total: no failure conditions.
    pub fn store(&mut self, id: &str, content: Vec<u8>)
        ensures
            final(self).spec_capacity() == old(self).spec_capacity(),
            final(self)@ == store_step(old(self)@, old(self).spec_capacity(), id@, content@),
    {
        proof {
            use_type_invariant(&*self);
        }
        let ghost s0: PasteSeq = self@;
        let ghost cap: nat = self.spec_capacity();
        let mut es: Vec<(String, Vec<u8>)> = Vec::new();
        std::mem::swap(&mut es, &mut self.entries);
        match find_in(&es, id) {
            Some(i) => {
                proof {
                    lemma_key_at_index(s0, id@, i as int);
                    lemma_remove_key(s0, id@);
                }
                let ghost before = es@;
                es.remove(i);
                proof {
                    assert(entry_views(es@) =~= entry_views(before).remove(i as int));
                }
            },
            None => {},
        }
        proof {
            assert(entry_views(es@) =~= remove_key(s0, id@));
            lemma_remove_key(s0, id@);
        }
        let ghost rem: PasteSeq = entry_views(es@);
        let key = id.to_owned();
        es.push((key, content));
        let ghost g: PasteSeq = rem.push((id@, content@));
        proof {
            assert(entry_views(es@) =~= g);
            lemma_push_fresh(rem, id@, content@);
            assert(g.skip(0) =~= g);
        }
        let cap_now = self.capacity;
        while es.len() > cap_now
            invariant
                cap_now == cap,
                distinct_keys(g),
                es@.len() <= g.len(),
                entry_views(es@) =~= g.skip(g.len() - es@.len()),
                es@.len() >= cap || es@.len() == g.len(),
            decreases es@.len(),
        {
            let ghost before = es@;
            es.remove(0);
            proof {
                assert(entry_views(es@) =~= entry_views(before).remove(0));
                assert(entry_views(es@) =~= g.skip(g.len() - es@.len()));
            }
        }
        proof {
            let d = g.len() - es@.len();
            lemma_distinct_skip(g, d);
            assert(entry_views(es@) =~= store_step(s0, cap, id@, content@));
        }
        self.entries = es;
    }

    /// Returns an independent copy of the content stored under `id`, or
    /// `None` where no entry carries `id` — whether it was never stored or
    /// already evicted is indistinguishable, and neither is an error.
    /// Leaves the order of entries untouched.
    pub fn get(&self, id: &str) -> (r: Option<Vec<u8>>)
        ensures
            match r {
                Some(c) => lookup(self@, id@) == Some(c@),
                None => lookup(self@, id@) is None,
            },
    {
        proof {
            use_type_invariant(&*self);
        }
        match find_in(&self.entries, id) {
            Some(i) => {
                proof {
                    lemma_key_at_index(self@, id@, i as int);
                }
                Some(slice_to_vec(self.entries[i].1.as_slice()))
            },
            None => None,
        }
    }
}

/// Character-for-character equality of two string slices.
pub(crate) fn str_eq(a: &str, b: &str) -> (r: bool)
    ensures
        r == (a@ == b@),
{
    let na = a.unicode_len();
    let nb = b.unicode_len();
    if na != nb {
        return false;
    }
    let mut k: usize = 0;
    while k < na
        invariant
            na == a@.len(),
            nb == b@.len(),
            na == nb,
            k <= na,
            forall|i: int| 0 <= i < k ==> a@[i] == b@[i],
        decreases na - k,
    {
        if a.get_char(k) != b.get_char(k) {
            return false;
        }
        k += 1;
    }
    proof {
        assert(a@ =~= b@);
    }
    true
}

/// The position of the entry carrying `id`, scanning oldest first.
pub(crate) fn find_in(es: &Vec<(String, Vec<u8>)>, id: &str) -> (r: Option<usize>)
    requires
        distinct_keys(entry_views(es@)),
    ensures
        match r {
            Some(i) => i < es@.len() && entry_views(es@)[i as int].0 == id@,
            None => !has_key(entry_views(es@), id@),
        },
{
    let n = es.len();
    let mut k: usize = 0;
    while k < n
        invariant
            n == es@.len(),
            k <= n,
            forall|i: int| 0 <= i < k ==> entry_views(es@)[i].0 != id@,
        decreases n - k,
    {
        if str_eq(es[k].0.as_str(), id) {
            return Some(k);
        }
        k += 1;
    }
    None
}

} // verus!
