//! Auditing: turning per-extension integrity results into the audit result.
//!
//! Each installed extension yields, independently of the others, a decoded
//! extra-files mapping (empty when the check had nothing to report). The
//! auditor normalizes each mapping and retains exactly the extensions whose
//! report is non-empty.

use vstd::prelude::*;

use crate::report::ExtraFileEntry;
use crate::report::IntegrityReport;
use crate::report::dedup_keep_last;

verus! {

/// One entry of the audit result: an extension that the integrity check
/// found findings for, with its normalized report.
pub struct AuditedExtension {
    pub id: String,
    pub report: IntegrityReport,
}

/// The audited extensions reduced to plain values: each as its identifier
/// and its report's entries.
pub open spec fn audited_views(s: Seq<AuditedExtension>) -> Seq<(Seq<char>, Seq<ExtraFileEntry>)> {
    Seq::new(s.len(), |k: int| (s[k].id@, s[k].report.extra_files@))
}

/// What auditing yields on a sequence of per-extension results: the
/// extensions with a non-empty mapping, in order, each with its mapping
/// normalized; the rest are discarded.
pub open spec fn audit_view(results: Seq<(String, Vec<ExtraFileEntry>)>) -> Seq<
    (Seq<char>, Seq<ExtraFileEntry>),
>
    decreases results.len(),
{
    if results.len() == 0 {
        Seq::empty()
    } else {
        let rest = audit_view(results.drop_last());
        if results.last().1@.len() == 0 {
            rest
        } else {
            rest.push((results.last().0@, dedup_keep_last(results.last().1@)))
        }
    }
}

/// Copies a report's decoded entries.
fn copy_entries(entries: &Vec<ExtraFileEntry>) -> (r: Vec<ExtraFileEntry>)
    ensures
        r@ == entries@,
{
    let mut r: Vec<ExtraFileEntry> = Vec::new();
    let n = entries.len();
    let mut i: usize = 0;
    while i < n
        invariant
            n == entries.len(),
            i <= n,
            r@ =~= entries@.take(i as int),
        decreases n - i,
    {
        r.push(entries[i].duplicate());
        proof {
            assert(r@ =~= entries@.take(i + 1 as int));
        }
        i = i + 1;
    }
    proof {
        assert(entries@.take(n as int) =~= entries@);
    }
    r
}

/// Builds the audit result from per-extension results: each extension's
/// decoded extra-files mapping is normalized, extensions with nothing to
/// report are discarded, and the rest are retained in order with their
/// well-formed reports.
pub fn collect_audit(results: &Vec<(String, Vec<ExtraFileEntry>)>) -> (r: Vec<AuditedExtension>)
    ensures
        audited_views(r@) == audit_view(results@),
        forall|k: int| 0 <= k < r@.len() ==> (#[trigger] r@[k]).report.wf(),
{
    let mut r: Vec<AuditedExtension> = Vec::new();
    let n = results.len();
    let mut i: usize = 0;
    while i < n
        invariant
            n == results.len(),
            i <= n,
            audited_views(r@) =~= audit_view(results@.take(i as int)),
            forall|k: int| 0 <= k < r@.len() ==> (#[trigger] r@[k]).report.wf(),
        decreases n - i,
    {
        let item = &results[i];
        let entries = copy_entries(&item.1);
        proof {
            assert(results@.take(i + 1 as int).drop_last() =~= results@.take(i as int));
            assert(results@.take(i + 1 as int).last() == results@[i as int]);
        }
        match IntegrityReport::from_entries(entries) {
            Some(report) => {
                let audited = AuditedExtension { id: item.0.clone(), report };
                r.push(audited);
                proof {
                    assert(audited_views(r@) =~= audit_view(results@.take(i + 1 as int)));
                }
            },
            None => {
                proof {
                    assert(audited_views(r@) =~= audit_view(results@.take(i + 1 as int)));
                }
            },
        }
        i = i + 1;
    }
    proof {
        assert(results@.take(n as int) =~= results@);
    }
    r
}

} // verus!
