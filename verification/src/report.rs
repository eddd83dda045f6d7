//! Integrity reports and the classification of their entries.
//!
//! A report lists, for one extension, the files the integrity check found
//! beyond the expected manifest. An entry whose `expected` value is the
//! empty string is a wholly unrecognized file and is classified as extra;
//! an entry with a non-empty `expected` value is a content mismatch and is
//! never classified as extra.

use vstd::prelude::*;

verus! {

/// One entry of a report's extra-files mapping: a relative path together
/// with the `expected` value the integrity check associated with it.
pub struct ExtraFileEntry {
    pub path: String,
    pub expected: String,
}

impl ExtraFileEntry {
    /// An explicit copy; the derived `Clone` would say nothing to the verifier.
    pub fn duplicate(&self) -> (r: ExtraFileEntry)
        ensures
            r == *self,
    {
        ExtraFileEntry { path: self.path.clone(), expected: self.expected.clone() }
    }
}

/// A non-empty integrity report for one extension: its extra-files mapping,
/// held as a sequence of entries with pairwise distinct paths.
pub struct IntegrityReport {
    pub extra_files: Vec<ExtraFileEntry>,
}

/// The entries' paths are pairwise distinct, as keys of a mapping are.
pub open spec fn paths_distinct(entries: Seq<ExtraFileEntry>) -> bool {
    forall|i: int, j: int|
        0 <= i < j < entries.len() ==> entries[i].path@ != entries[j].path@
}

/// The classified-extra paths of a sequence of entries, in order: exactly
/// the paths whose `expected` value is the empty string.
pub open spec fn extra_paths_of(entries: Seq<ExtraFileEntry>) -> Seq<Seq<char>>
    decreases entries.len(),
{
    if entries.len() == 0 {
        Seq::empty()
    } else {
        let rest = extra_paths_of(entries.drop_last());
        if entries.last().expected@.len() == 0 {
            rest.push(entries.last().path@)
        } else {
            rest
        }
    }
}

impl IntegrityReport {
    /// The report's well-formedness: a mapping's keys are unique.
    pub open spec fn wf(self) -> bool {
        paths_distinct(self.extra_files@)
    }

    /// The relative paths of this report's unrecognized files: those entries,
    /// and only those, whose `expected` value is the empty string.
    pub fn get_extra_files(&self) -> (r: Vec<String>)
        ensures
            r.deep_view() == extra_paths_of(self.extra_files@),
    {
        let mut r: Vec<String> = Vec::new();
        let n = self.extra_files.len();
        let mut i: usize = 0;
        while i < n
            invariant
                n == self.extra_files.len(),
                i <= n,
                r.deep_view() == extra_paths_of(self.extra_files@.take(i as int)),
            decreases n - i,
        {
            let entry = &self.extra_files[i];
            if entry.expected.as_str().unicode_len() == 0 {
                r.push(entry.path.clone());
            }
            proof {
                assert(self.extra_files@.take(i + 1 as int).drop_last()
                    =~= self.extra_files@.take(i as int));
                assert(self.extra_files@.take(i + 1 as int).last() == self.extra_files@[i as int]);
                if self.extra_files@[i as int].expected@.len() == 0 {
                    assert(r.deep_view()
                        =~= extra_paths_of(self.extra_files@.take(i as int)).push(
                            self.extra_files@[i as int].path@));
                }
            }
            i = i + 1;
        }
        proof {
            assert(self.extra_files@.take(n as int) =~= self.extra_files@);
        }
        r
    }
}

/// Some later entry carries the same path as the entry at `i`.
pub open spec fn has_later_dup(entries: Seq<ExtraFileEntry>, i: int) -> bool {
    exists|j: int| i < j < entries.len() && entries[j].path@ == entries[i].path@
}

/// Of the first `i` entries, those whose path does not recur later in
/// `entries`, in order: over the whole sequence the survivors are exactly
/// the last occurrence of each path, as a mapping built key by key would
/// keep them.
pub open spec fn dedup_upto(entries: Seq<ExtraFileEntry>, i: int) -> Seq<ExtraFileEntry>
    decreases i,
{
    if i <= 0 {
        Seq::empty()
    } else {
        let prev = dedup_upto(entries, i - 1);
        if has_later_dup(entries, i - 1) {
            prev
        } else {
            prev.push(entries[i - 1])
        }
    }
}

/// The whole sequence with earlier occurrences of a repeated path removed.
pub open spec fn dedup_keep_last(entries: Seq<ExtraFileEntry>) -> Seq<ExtraFileEntry> {
    dedup_upto(entries, entries.len() as int)
}

/// What normalization returns: nothing to report for an empty mapping,
/// otherwise the deduplicated entries.
pub open spec fn spec_normalized(entries: Seq<ExtraFileEntry>) -> Option<Seq<ExtraFileEntry>> {
    if entries.len() == 0 {
        None
    } else {
        Some(dedup_keep_last(entries))
    }
}

/// Every survivor of deduplication is an input entry whose path does not
/// recur later, and the survivors' paths are pairwise distinct.
pub proof fn lemma_dedup_upto_wf(entries: Seq<ExtraFileEntry>, i: int)
    requires
        0 <= i <= entries.len(),
    ensures
        forall|k: int|
            0 <= k < dedup_upto(entries, i).len() ==> exists|m: int|
                0 <= m < i && entries[m] == #[trigger] dedup_upto(entries, i)[k]
                    && !(#[trigger] has_later_dup(entries, m)),
        paths_distinct(dedup_upto(entries, i)),
    decreases i,
{
    if i > 0 {
        lemma_dedup_upto_wf(entries, i - 1);
        let prev = dedup_upto(entries, i - 1);
        let cur = dedup_upto(entries, i);
        if !has_later_dup(entries, i - 1) {
            assert forall|k: int| 0 <= k < cur.len() implies exists|m: int|
                0 <= m < i && entries[m] == #[trigger] cur[k]
                    && !(#[trigger] has_later_dup(entries, m)) by {
                if k < prev.len() {
                    let m = choose|m: int|
                        0 <= m < i - 1 && entries[m] == prev[k] && !has_later_dup(entries, m);
                    assert(0 <= m < i && entries[m] == cur[k] && !has_later_dup(entries, m));
                } else {
                    assert(entries[i - 1] == cur[k] && !has_later_dup(entries, i - 1));
                }
            }
            assert forall|k1: int, k2: int| 0 <= k1 < k2 < cur.len() implies cur[k1].path@
                != cur[k2].path@ by {
                if k2 < prev.len() {
                    assert(prev[k1].path@ != prev[k2].path@);
                } else {
                    let m = choose|m: int|
                        0 <= m < i - 1 && entries[m] == prev[k1] && !has_later_dup(entries, m);
                    if cur[k1].path@ == cur[k2].path@ {
                        assert(entries[i - 1].path@ == entries[m].path@);
                        assert(has_later_dup(entries, m));
                    }
                }
            }
        }
    }
}

impl IntegrityReport {
    /// Normalizes decoded extra-files entries into a report. An empty
    /// mapping means nothing to report and yields `None`; otherwise the
    /// entries are kept with mapping-key semantics: of several entries with
    /// one path the last wins, as in a structured mapping built key by key.
    pub fn from_entries(entries: Vec<ExtraFileEntry>) -> (r: Option<IntegrityReport>)
        ensures
            r is None <==> entries@.len() == 0,
            r is Some ==> spec_normalized(entries@) == Some((r->Some_0).extra_files@),
            r is Some ==> (r->Some_0).wf(),
    {
        let n = entries.len();
        if n == 0 {
            return None;
        }
        let mut out: Vec<ExtraFileEntry> = Vec::new();
        let mut i: usize = 0;
        while i < n
            invariant
                n == entries.len(),
                i <= n,
                out@ == dedup_upto(entries@, i as int),
            decreases n - i,
        {
            let mut found = false;
            let mut j: usize = i + 1;
            while j < n
                invariant
                    n == entries.len(),
                    i < j <= n,
                    found <==> exists|j0: int|
                        i < j0 < j && entries@[j0].path@ == entries@[i as int].path@,
                decreases n - j,
            {
                if entries[j].path == entries[i].path {
                    found = true;
                }
                j = j + 1;
            }
            proof {
                assert(found <==> has_later_dup(entries@, i as int));
            }
            if !found {
                out.push(entries[i].duplicate());
            }
            i = i + 1;
        }
        proof {
            lemma_dedup_upto_wf(entries@, n as int);
            assert(!has_later_dup(entries@, n - 1 as int));
            assert(dedup_upto(entries@, n as int).len() > 0);
        }
        Some(IntegrityReport { extra_files: out })
    }
}

/// The canonical empty result: the bytes of the empty structured listing
/// followed by a newline (`[`, `]`, line feed).
pub fn is_empty_sentinel(bytes: &Vec<u8>) -> (r: bool)
    ensures
        r <==> bytes@ == seq![91u8, 93u8, 10u8],
{
    let r = bytes.len() == 3 && bytes[0] == 91 && bytes[1] == 93 && bytes[2] == 10;
    proof {
        if r {
            assert(bytes@ =~= seq![91u8, 93u8, 10u8]);
        } else {
            if bytes@ == seq![91u8, 93u8, 10u8] {
                assert(bytes@.len() == 3);
                assert(bytes@[0] == 91u8 && bytes@[1] == 93u8 && bytes@[2] == 10u8);
            }
        }
    }
    r
}

/// With pairwise distinct entry paths, as a mapping's keys are, the
/// classified-extra paths are pairwise distinct as well: the candidate set
/// is deduplicated by construction.
pub proof fn lemma_classified_paths_distinct(entries: Seq<ExtraFileEntry>)
    requires
        paths_distinct(entries),
    ensures
        forall|i: int, j: int|
            0 <= i < j < extra_paths_of(entries).len() ==> extra_paths_of(entries)[i]
                != extra_paths_of(entries)[j],
    decreases entries.len(),
{
    if entries.len() > 0 {
        let prefix = entries.drop_last();
        assert(paths_distinct(prefix));
        lemma_classified_paths_distinct(prefix);
        lemma_classification_exact(prefix);
        if entries.last().expected@.len() == 0 {
            assert forall|i: int, j: int|
                0 <= i < j < extra_paths_of(entries).len() implies extra_paths_of(entries)[i]
                != extra_paths_of(entries)[j] by {
                if j == extra_paths_of(entries).len() - 1 {
                    if extra_paths_of(entries)[i] == entries.last().path@ {
                        assert(extra_paths_of(prefix).contains(entries.last().path@));
                        let m = choose|m: int|
                            0 <= m < prefix.len() && prefix[m].path@ == entries.last().path@
                                && prefix[m].expected@.len() == 0;
                        assert(entries[m].path@ == entries[entries.len() - 1].path@);
                    }
                } else {
                    assert(extra_paths_of(prefix)[i] != extra_paths_of(prefix)[j]);
                }
            }
        }
    }
}

/// Classification is exact: a path is in the classified-extra sequence of
/// `entries` if and only if some entry carries it with an empty `expected`
/// value. In particular no path whose every entry has a non-empty
/// `expected` value ever reaches the deletion candidates.
pub proof fn lemma_classification_exact(entries: Seq<ExtraFileEntry>)
    ensures
        forall|p: Seq<char>|
            extra_paths_of(entries).contains(p) <==> exists|i: int|
                0 <= i < entries.len() && entries[i].path@ == p
                    && entries[i].expected@.len() == 0,
    decreases entries.len(),
{
    if entries.len() > 0 {
        lemma_classification_exact(entries.drop_last());
        let prefix = entries.drop_last();
        assert forall|p: Seq<char>| extra_paths_of(entries).contains(p) implies exists|i: int|
            0 <= i < entries.len() && entries[i].path@ == p
                && entries[i].expected@.len() == 0 by {
            if entries.last().expected@.len() == 0 && p == entries.last().path@ {
                assert(entries[entries.len() - 1].path@ == p);
            } else {
                if extra_paths_of(prefix).contains(p) {
                    let i = choose|i: int|
                        0 <= i < prefix.len() && prefix[i].path@ == p
                            && prefix[i].expected@.len() == 0;
                    assert(entries[i].path@ == p && entries[i].expected@.len() == 0);
                } else {
                    if entries.last().expected@.len() == 0 {
                        assert(extra_paths_of(entries)
                            == extra_paths_of(prefix).push(entries.last().path@));
                        assert(p == entries.last().path@ || extra_paths_of(prefix).contains(p));
                    }
                }
            }
        }
        assert forall|p: Seq<char>|
            (exists|i: int|
                0 <= i < entries.len() && entries[i].path@ == p
                    && entries[i].expected@.len() == 0) implies extra_paths_of(
            entries,
        ).contains(p) by {
            let i = choose|i: int|
                0 <= i < entries.len() && entries[i].path@ == p
                    && entries[i].expected@.len() == 0;
            if i < entries.len() - 1 {
                assert(prefix[i].path@ == p && prefix[i].expected@.len() == 0);
                assert(extra_paths_of(prefix).contains(p));
                let k = choose|k: int|
                    0 <= k < extra_paths_of(prefix).len() && extra_paths_of(prefix)[k] == p;
                if entries.last().expected@.len() == 0 {
                    assert(extra_paths_of(entries)[k] == p);
                }
            } else {
                assert(extra_paths_of(entries).last() == p);
            }
        }
    }
}

} // verus!
