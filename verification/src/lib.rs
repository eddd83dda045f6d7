//! Audits installed extensions of a host application for unexpected files.
//!
//! The library holds the verified core of the audit pipeline: classifying
//! integrity reports, resolving file paths, aggregating deletion candidates,
//! and deciding whether a candidate may be deleted. Process invocation,
//! JSON decoding and filesystem access live outside the library and hand
//! it plain values.

mod audit;
mod config;
mod paths;
mod reconcile;
mod report;

pub use audit::AuditedExtension;
pub use audit::audit_view;
pub use audit::audited_views;
pub use audit::collect_audit;
pub use config::Config;
pub use config::check_integrity_args;
pub use config::get_extension_path_args;
pub use config::list_extensions_args;
pub use config::merge_extension_lists;
pub use paths::is_space_char;
pub use paths::join_path;
pub use paths::join_spec;
pub use paths::lemma_trimmed_len;
pub use paths::spec_is_space;
pub use paths::trim_end_spec;
pub use paths::trim_trailing_whitespace;
pub use paths::trimmed_len;
pub use reconcile::CandidateAction;
pub use reconcile::ResolvedReport;
pub use reconcile::action_of;
pub use reconcile::all_resolved;
pub use reconcile::candidate_action;
pub use reconcile::collect_unexpected;
pub use reconcile::lemma_aggregation_order_independent;
pub use reconcile::lemma_all_resolved_membership;
pub use reconcile::lemma_dry_run_never_deletes;
pub use reconcile::lemma_empty_report_nothing;
pub use reconcile::lemma_unsafe_target_rejected;
pub use reconcile::resolved_files_for;
pub use reconcile::resolved_of;
pub use report::ExtraFileEntry;
pub use report::IntegrityReport;
pub use report::dedup_keep_last;
pub use report::extra_paths_of;
pub use report::is_empty_sentinel;
pub use report::lemma_classification_exact;
pub use report::lemma_classified_paths_distinct;
pub use report::paths_distinct;
pub use report::spec_normalized;
