//! Reconciliation: turning audited reports into deletion candidates and
//! deciding, per candidate, whether deletion may proceed.
//!
//! The candidate set is an aggregation over independent extensions: each
//! extension's classified relative paths are joined onto its resolved
//! installation directory, and the per-extension results are flattened into
//! one collection. The decision on a single candidate depends only on what
//! the filesystem reported of it and on the dry-run mode.

use vstd::prelude::*;

use crate::paths::join_path;
use crate::paths::join_spec;
use crate::report::ExtraFileEntry;
use crate::report::IntegrityReport;
use crate::report::extra_paths_of;
use crate::report::spec_normalized;

verus! {

/// One extension's report together with its resolved installation directory.
pub struct ResolvedReport {
    pub base: String,
    pub report: IntegrityReport,
}

/// The absolute deletion candidates of one report: its classified-extra
/// relative paths, each joined onto the base directory, in order.
pub open spec fn resolved_of(base: Seq<char>, entries: Seq<ExtraFileEntry>) -> Seq<Seq<char>> {
    extra_paths_of(entries).map_values(|p: Seq<char>| join_spec(base, p))
}

/// The flattened candidates of a sequence of resolved reports, in order.
pub open spec fn all_resolved(items: Seq<ResolvedReport>) -> Seq<Seq<char>>
    decreases items.len(),
{
    if items.len() == 0 {
        Seq::empty()
    } else {
        all_resolved(items.drop_last()) + resolved_of(
            items.last().base@,
            items.last().report.extra_files@,
        )
    }
}

/// The deletion candidates of one report under its base directory.
pub fn resolved_files_for(base: &String, report: &IntegrityReport) -> (r: Vec<String>)
    ensures
        r.deep_view() == resolved_of(base@, report.extra_files@),
{
    let rels = report.get_extra_files();
    let mut r: Vec<String> = Vec::new();
    let n = rels.len();
    let mut i: usize = 0;
    while i < n
        invariant
            n == rels.len(),
            i <= n,
            r@.len() == i,
            rels.deep_view() == extra_paths_of(report.extra_files@),
            r.deep_view() =~~= resolved_of(base@, report.extra_files@).take(i as int),
        decreases n - i,
    {
        let joined = join_path(base, &rels[i]);
        let ghost prev = r.deep_view();
        r.push(joined);
        proof {
            assert(r@[i as int] == joined);
            assert(joined@ == join_spec(base@, rels@[i as int]@));
            assert(rels.deep_view()[i as int] == rels@[i as int]@);
            assert forall|k: int| 0 <= k < i + 1 implies r.deep_view()[k] == resolved_of(
                base@,
                report.extra_files@,
            ).take(i + 1 as int)[k] by {
                assert(resolved_of(base@, report.extra_files@)[k] == join_spec(
                    base@,
                    extra_paths_of(report.extra_files@)[k],
                ));
                if k < i {
                    assert(r.deep_view()[k] == prev[k]);
                    assert(prev[k] == resolved_of(base@, report.extra_files@).take(i as int)[k]);
                } else {
                    assert(r.deep_view()[k] == joined@);
                    assert(extra_paths_of(report.extra_files@)[k] == rels.deep_view()[k]);
                }
            }
            assert(r.deep_view() =~~= resolved_of(base@, report.extra_files@).take(i + 1 as int));
        }
        i = i + 1;
    }
    proof {
        assert(resolved_of(base@, report.extra_files@).take(n as int) =~= resolved_of(
            base@,
            report.extra_files@,
        ));
    }
    r
}

/// Flattens all extensions' deletion candidates into one collection.
pub fn collect_unexpected(items: &Vec<ResolvedReport>) -> (r: Vec<String>)
    ensures
        r.deep_view() == all_resolved(items@),
{
    let mut r: Vec<String> = Vec::new();
    let n = items.len();
    let mut i: usize = 0;
    while i < n
        invariant
            n == items.len(),
            i <= n,
            r.deep_view() =~= all_resolved(items@.take(i as int)),
        decreases n - i,
    {
        let item = &items[i];
        let mut files = resolved_files_for(&item.base, &item.report);
        proof {
            assert(items@.take(i + 1 as int).drop_last() =~= items@.take(i as int));
            assert(items@.take(i + 1 as int).last() == items@[i as int]);
        }
        r.append(&mut files);
        proof {
            assert(r.deep_view() =~= all_resolved(items@.take(i + 1 as int)));
        }
        i = i + 1;
    }
    proof {
        assert(items@.take(n as int) =~= items@);
    }
    r
}

/// What is done with one deletion candidate.
#[derive(Clone, Copy, Debug, PartialEq, Eq, Structural)]
pub enum CandidateAction {
    /// The candidate is not a plain regular file: the run must stop before
    /// any deletion is attempted.
    RejectUnsafe,
    /// The candidate passed the safety check; in dry-run mode nothing is
    /// deleted.
    ValidateOnly,
    /// The candidate passed the safety check and is to be deleted.
    Delete,
}

/// The decision on one candidate, from what the filesystem reported of it:
/// whether it is an existing regular file (with links followed), whether
/// the entry itself is a symbolic link, and whether this is a dry run.
pub open spec fn action_of(is_regular_file: bool, is_symlink: bool, dry_run: bool)
    -> CandidateAction {
    if !is_regular_file || is_symlink {
        CandidateAction::RejectUnsafe
    } else if dry_run {
        CandidateAction::ValidateOnly
    } else {
        CandidateAction::Delete
    }
}

/// Decides what to do with one deletion candidate. A missing entry, a
/// directory or any other non-regular file reports `is_regular_file` as
/// false and is rejected; a symbolic link is rejected even when it points
/// at a regular file.
pub fn candidate_action(is_regular_file: bool, is_symlink: bool, dry_run: bool)
    -> (r: CandidateAction)
    ensures
        r == action_of(is_regular_file, is_symlink, dry_run),
{
    if !is_regular_file || is_symlink {
        CandidateAction::RejectUnsafe
    } else if dry_run {
        CandidateAction::ValidateOnly
    } else {
        CandidateAction::Delete
    }
}

/// Safety invariant: a candidate that is missing, a directory or otherwise
/// not a regular file, or that is a symbolic link, is rejected as unsafe in
/// every mode; deletion is decided only for a plain regular file outside
/// dry-run mode.
pub proof fn lemma_unsafe_target_rejected(is_regular_file: bool, is_symlink: bool, dry_run: bool)
    ensures
        (!is_regular_file || is_symlink) ==> action_of(is_regular_file, is_symlink, dry_run)
            == CandidateAction::RejectUnsafe,
        action_of(is_regular_file, is_symlink, dry_run) == CandidateAction::Delete
            ==> is_regular_file && !is_symlink && !dry_run,
{
}

/// Dry-run reconciliation mutates nothing: no candidate is ever decided
/// for deletion, so a second dry run over the same reports sees the same
/// filesystem and, the candidate collection and the decisions being
/// functions of their inputs, decides identically.
pub proof fn lemma_dry_run_never_deletes(is_regular_file: bool, is_symlink: bool)
    ensures
        action_of(is_regular_file, is_symlink, true) != CandidateAction::Delete,
{
}

/// The two empty forms agree: an empty extra-files mapping normalizes to
/// nothing-to-report, and an empty mapping resolves to no candidates under
/// any base directory, exactly as the canonical empty sentinel, which is
/// never parsed at all.
pub proof fn lemma_empty_report_nothing(base: Seq<char>)
    ensures
        spec_normalized(Seq::<ExtraFileEntry>::empty()) is None,
        resolved_of(base, Seq::<ExtraFileEntry>::empty()) == Seq::<Seq<char>>::empty(),
{
    assert(resolved_of(base, Seq::<ExtraFileEntry>::empty())
        =~= Seq::<Seq<char>>::empty());
}

/// A path is a candidate of the aggregation if and only if it is a
/// candidate of some extension in it.
pub proof fn lemma_all_resolved_membership(items: Seq<ResolvedReport>)
    ensures
        forall|p: Seq<char>|
            all_resolved(items).contains(p) <==> exists|i: int|
                0 <= i < items.len() && resolved_of(
                    #[trigger] items[i].base@,
                    items[i].report.extra_files@,
                ).contains(p),
    decreases items.len(),
{
    if items.len() > 0 {
        let prefix = items.drop_last();
        let last = items.last();
        lemma_all_resolved_membership(prefix);
        assert forall|p: Seq<char>| all_resolved(items).contains(p) implies exists|i: int|
            0 <= i < items.len() && resolved_of(
                #[trigger] items[i].base@,
                items[i].report.extra_files@,
            ).contains(p) by {
            let k = choose|k: int|
                0 <= k < all_resolved(items).len() && all_resolved(items)[k] == p;
            if k < all_resolved(prefix).len() {
                assert(all_resolved(prefix).contains(p));
                let i = choose|i: int|
                    0 <= i < prefix.len() && resolved_of(
                        #[trigger] prefix[i].base@,
                        prefix[i].report.extra_files@,
                    ).contains(p);
                assert(items[i] == prefix[i]);
            } else {
                let j = k - all_resolved(prefix).len();
                assert(resolved_of(last.base@, last.report.extra_files@)[j] == p);
                assert(items[items.len() - 1] == last);
            }
        }
        assert forall|p: Seq<char>|
            (exists|i: int|
                0 <= i < items.len() && resolved_of(
                    #[trigger] items[i].base@,
                    items[i].report.extra_files@,
                ).contains(p)) implies all_resolved(items).contains(p) by {
            let i = choose|i: int|
                0 <= i < items.len() && resolved_of(
                    #[trigger] items[i].base@,
                    items[i].report.extra_files@,
                ).contains(p);
            let inner = resolved_of(items[i].base@, items[i].report.extra_files@);
            let j = choose|j: int| 0 <= j < inner.len() && inner[j] == p;
            if i < items.len() - 1 {
                assert(prefix[i] == items[i]);
                assert(all_resolved(prefix).contains(p));
                let k = choose|k: int|
                    0 <= k < all_resolved(prefix).len() && all_resolved(prefix)[k] == p;
                assert(all_resolved(items)[k] == p);
            } else {
                assert(all_resolved(items)[all_resolved(prefix).len() + j] == p);
            }
        }
    }
}

/// Determinism of aggregation: the set of deletion candidates does not
/// depend on the order in which extensions are processed. Two runs over
/// the same extensions, however interleaved, resolve the same set of files.
pub proof fn lemma_aggregation_order_independent(a: Seq<ResolvedReport>, b: Seq<ResolvedReport>)
    requires
        a.to_multiset() == b.to_multiset(),
    ensures
        all_resolved(a).to_set() == all_resolved(b).to_set(),
{
    broadcast use vstd::seq_lib::group_to_multiset_ensures;

    lemma_all_resolved_membership(a);
    lemma_all_resolved_membership(b);
    assert forall|p: Seq<char>| all_resolved(a).contains(p) implies all_resolved(
        b,
    ).contains(p) by {
        let i = choose|i: int|
            0 <= i < a.len() && resolved_of(
                #[trigger] a[i].base@,
                a[i].report.extra_files@,
            ).contains(p);
        assert(a.contains(a[i]));
        assert(b.to_multiset().count(a[i]) > 0);
        assert(b.contains(a[i]));
        let j = choose|j: int| 0 <= j < b.len() && b[j] == a[i];
        assert(resolved_of(b[j].base@, b[j].report.extra_files@).contains(p));
    }
    assert forall|p: Seq<char>| all_resolved(b).contains(p) implies all_resolved(
        a,
    ).contains(p) by {
        let i = choose|i: int|
            0 <= i < b.len() && resolved_of(
                #[trigger] b[i].base@,
                b[i].report.extra_files@,
            ).contains(p);
        assert(b.contains(b[i]));
        assert(a.to_multiset().count(b[i]) > 0);
        assert(a.contains(b[i]));
        let j = choose|j: int| 0 <= j < a.len() && a[j] == b[i];
        assert(resolved_of(a[j].base@, a[j].report.extra_files@).contains(p));
    }
    assert(all_resolved(a).to_set() =~= all_resolved(b).to_set());
}

} // verus!
