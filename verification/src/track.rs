//! Incremental change tracking: which sources need re-processing.
//!
//! The index maps a source path to the moment it was last indexed. It is
//! loaded from and saved to its backing store at process boundaries by the
//! surrounding program; this module owns the in-memory mapping and the
//! re-indexing decision.

use vstd::prelude::*;
use crate::strutil::str_eq;

verus! {

/// One persisted fact: `path` was last indexed at `last_indexed`
/// (epoch seconds).
pub struct IndexEntry {
    pub path: String,
    pub last_indexed: u64,
}

/// The recorded indexing time of `path` in `s`, if any.
pub open spec fn spec_lookup(s: Seq<IndexEntry>, path: Seq<char>) -> Option<u64>
    decreases s.len(),
{
    if s.len() == 0 {
        None
    } else if s[0].path@ == path {
        Some(s[0].last_indexed)
    } else {
        spec_lookup(s.drop_first(), path)
    }
}

/// The change tracker's index: a mapping with unique keys from source
/// path to last-indexed time.
pub struct Index {
    entries: Vec<IndexEntry>,
}

impl Index {
    /// The entry list, as specifications see it.
    pub closed spec fn spec_entries(&self) -> Seq<IndexEntry> {
        self.entries@
    }

    /// Keys are pairwise distinct, so the entry list is a mapping.
    pub open spec fn wf(&self) -> bool {
        forall|i: int, j: int|
            0 <= i < j < self.spec_entries().len() ==> self.spec_entries()[i].path@
                != self.spec_entries()[j].path@
    }

    /// The recorded indexing time of `path`, if any.
    pub open spec fn spec_get(&self, path: Seq<char>) -> Option<u64> {
        spec_lookup(self.spec_entries(), path)
    }

    /// An empty index: the backing store did not exist yet.
    pub fn new() -> (r: Index)
        ensures
            r.wf(),
            forall|p: Seq<char>| r.spec_get(p) is None,
            r.spec_entries().len() == 0,
    {
        Index { entries: Vec::new() }
    }

    /// The entries, for persisting the index as one snapshot.
    pub fn entries(&self) -> (r: &Vec<IndexEntry>)
        ensures
            r@ == self.spec_entries(),
    {
        &self.entries
    }

    /// How many sources the index records.
    pub fn len(&self) -> (r: usize)
        ensures
            r == self.spec_entries().len(),
    {
        self.entries.len()
    }

    /// Does `path` need re-processing? True exactly when `path` is absent
    /// from the index or its current modification time is newer than the
    /// recorded indexed time.
    pub fn needs_reindex(&self, path: &str, current_mod: u64) -> (r: bool)
        ensures
            r == spec_needs_reindex(self.spec_get(path@), current_mod),
    {
        let n = self.entries.len();
        let mut i: usize = 0;
        proof {
            assert(self.entries@.skip(0) =~= self.entries@);
        }
        while i < n
            invariant
                i <= n,
                n == self.entries@.len(),
                spec_lookup(self.entries@, path@) == spec_lookup(
                    self.entries@.skip(i as int),
                    path@,
                ),
            decreases n - i,
        {
            if str_eq(self.entries[i].path.as_str(), path) {
                return current_mod > self.entries[i].last_indexed;
            }
            proof {
                assert(self.entries@.skip(i as int).drop_first() =~= self.entries@.skip(
                    i as int + 1,
                ));
            }
            i = i + 1;
        }
        true
    }
}

/// Is a source due for re-processing, given its recorded time (if any)
/// and its current modification time?
pub open spec fn spec_needs_reindex(recorded: Option<u64>, current_mod: u64) -> bool {
    recorded is None || current_mod > recorded.unwrap()
}

/// Records that `path` was indexed at `now`, inserting or overwriting its
/// entry; every other entry is untouched.
pub fn update_index(index: &mut Index, path: &str, now: u64)
    requires
        old(index).wf(),
    ensures
        final(index).wf(),
        final(index).spec_get(path@) == Some(now),
        forall|p: Seq<char>| p != path@ ==> final(index).spec_get(p) == old(index).spec_get(p),
{
    let n = index.entries.len();
    let mut i: usize = 0;
    let mut found: Option<usize> = None;
    while i < n
        invariant
            i <= n,
            n == index.entries@.len(),
            *index == *old(index),
            found is Some ==> {
                &&& found.unwrap() < n
                &&& index.entries@[found.unwrap() as int].path@ == path@
            },
            found is None ==> forall|j: int| 0 <= j < i ==> index.entries@[j].path@ != path@,
        decreases n - i,
    {
        if found.is_none() && str_eq(index.entries[i].path.as_str(), path) {
            found = Some(i);
        }
        i = i + 1;
    }
    let ghost pre = index.entries@;
    match found {
        Some(k) => {
            index.entries.remove(k);
            proof {
                let mid = index.entries@;
                assert forall|a: int, b: int|
                    0 <= a < b < mid.len() implies mid[a].path@ != mid[b].path@ by {
                    assert(mid[a] == if a < k { pre[a] } else { pre[a + 1] });
                    assert(mid[b] == if b < k { pre[b] } else { pre[b + 1] });
                }
                assert forall|j: int| 0 <= j < mid.len() implies mid[j].path@ != path@ by {
                    assert(mid[j] == if j < k { pre[j] } else { pre[j + 1] });
                }
            }
        },
        None => {
        },
    }
    let ghost mid = index.entries@;
    proof {
        assert forall|j: int| 0 <= j < mid.len() implies mid[j].path@ != path@ by {
            if found is None {
                assert(mid[j] == pre[j]);
            }
        }
        assert forall|a: int, b: int|
            0 <= a < b < mid.len() implies mid[a].path@ != mid[b].path@ by {
            if found is None {
                assert(mid[a] == pre[a]);
                assert(mid[b] == pre[b]);
            }
        }
    }
    let entry = IndexEntry { path: path.to_owned(), last_indexed: now };
    index.entries.push(entry);
    proof {
        lemma_lookup_absent(mid, path@);
        lemma_lookup_push(mid, entry, path@);
        assert(final(index).spec_get(path@) == Some(now));
        assert forall|p: Seq<char>| p != path@ implies final(index).spec_get(p) == old(
            index,
        ).spec_get(p) by {
            lemma_lookup_push(mid, entry, p);
            if found is Some {
                lemma_lookup_remove_other(pre, found.unwrap() as int, p);
            }
        }
        assert forall|a: int, b: int|
            0 <= a < b < mid.push(entry).len() implies mid.push(entry)[a].path@ != mid.push(
            entry,
        )[b].path@ by {
            if b < mid.len() {
                assert(mid.push(entry)[a] == mid[a]);
                assert(mid.push(entry)[b] == mid[b]);
            } else {
                assert(mid.push(entry)[a] == mid[a]);
                assert(mid.push(entry)[b] == entry);
            }
        }
    }
}

/// A mapping without a key answers `None` for it.
proof fn lemma_lookup_absent(s: Seq<IndexEntry>, p: Seq<char>)
    requires
        forall|j: int| 0 <= j < s.len() ==> s[j].path@ != p,
    ensures
        spec_lookup(s, p) is None,
    decreases s.len(),
{
    if s.len() > 0 {
        lemma_lookup_absent(s.drop_first(), p);
    }
}

/// Appending an entry changes only what an earlier entry did not already
/// answer: the appended entry is consulted last.
proof fn lemma_lookup_push(s: Seq<IndexEntry>, e: IndexEntry, p: Seq<char>)
    ensures
        spec_lookup(s.push(e), p) == if spec_lookup(s, p) is Some {
            spec_lookup(s, p)
        } else if e.path@ == p {
            Some(e.last_indexed)
        } else {
            None
        },
    decreases s.len(),
{
    if s.len() == 0 {
        assert(s.push(e)[0] == e);
        assert(s.push(e).drop_first() =~= Seq::<IndexEntry>::empty());
        assert(spec_lookup(Seq::<IndexEntry>::empty(), p) is None);
        assert(spec_lookup(s, p) is None);
        if e.path@ == p {
            assert(spec_lookup(s.push(e), p) == Some(e.last_indexed));
        } else {
            assert(spec_lookup(s.push(e), p) is None);
        }
    } else {
        lemma_lookup_push(s.drop_first(), e, p);
        assert(s.push(e)[0] == s[0]);
        assert(s.push(e).drop_first() =~= s.drop_first().push(e));
        if s[0].path@ == p {
            assert(spec_lookup(s.push(e), p) == Some(s[0].last_indexed));
            assert(spec_lookup(s, p) == Some(s[0].last_indexed));
        } else {
            assert(spec_lookup(s.push(e), p) == spec_lookup(s.drop_first().push(e), p));
            assert(spec_lookup(s, p) == spec_lookup(s.drop_first(), p));
        }
    }
}

/// Removing the entry at `i` does not change the answer for any key other
/// than that entry's own.
proof fn lemma_lookup_remove_other(s: Seq<IndexEntry>, i: int, p: Seq<char>)
    requires
        0 <= i < s.len(),
        p != s[i].path@,
    ensures
        spec_lookup(s.remove(i), p) == spec_lookup(s, p),
    decreases s.len(),
{
    if i == 0 {
        assert(s.remove(0) =~= s.drop_first());
    } else {
        if s[0].path@ == p {
        } else {
            lemma_lookup_remove_other(s.drop_first(), i - 1, p);
            assert(s.remove(i).drop_first() =~= s.drop_first().remove(i - 1));
        }
    }
}

/// Law: once a source is marked indexed, a modification time at or before
/// the recorded time never triggers re-processing.
pub proof fn lemma_marked_source_not_resubmitted(recorded: Option<u64>, current_mod: u64)
    requires
        recorded is Some,
        current_mod <= recorded.unwrap(),
    ensures
        !spec_needs_reindex(recorded, current_mod),
{
}

/// Law: a source the index has never seen is always submitted.
pub proof fn lemma_new_source_always_submitted(current_mod: u64)
    ensures
        spec_needs_reindex(None::<u64>, current_mod),
{
}

} // verus!
