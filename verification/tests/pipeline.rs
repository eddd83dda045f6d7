use integrity_audit::candidate_action;
use integrity_audit::collect_audit;
use integrity_audit::collect_unexpected;
use integrity_audit::is_empty_sentinel;
use integrity_audit::join_path;
use integrity_audit::merge_extension_lists;
use integrity_audit::trim_trailing_whitespace;
use integrity_audit::CandidateAction;
use integrity_audit::Config;
use integrity_audit::ExtraFileEntry;
use integrity_audit::IntegrityReport;
use integrity_audit::ResolvedReport;

fn entry(path: &str, expected: &str) -> ExtraFileEntry {
    ExtraFileEntry { path: path.to_string(), expected: expected.to_string() }
}

fn report(entries: Vec<ExtraFileEntry>) -> IntegrityReport {
    IntegrityReport::from_entries(entries).expect("non-empty entries must yield a report")
}

#[test]
fn classifies_only_empty_expected() {
    let rep = report(vec![
        entry("evil.php", ""),
        entry("mismatch.php", "abcdef"),
        entry("other.js", ""),
    ]);
    let extras = rep.get_extra_files();
    assert_eq!(extras, vec!["evil.php".to_string(), "other.js".to_string()]);
}

#[test]
fn mismatched_entries_never_classified() {
    let rep = report(vec![entry("a.php", "0123"), entry("b.php", "beef")]);
    assert_eq!(rep.get_extra_files(), Vec::<String>::new());
}

#[test]
fn empty_entries_normalize_to_none() {
    assert!(IntegrityReport::from_entries(Vec::new()).is_none());
}

#[test]
fn sentinel_bytes_recognized() {
    assert!(is_empty_sentinel(&b"[]\n".to_vec()));
    assert!(!is_empty_sentinel(&b"[]".to_vec()));
    assert!(!is_empty_sentinel(&b"{}\n".to_vec()));
    assert!(!is_empty_sentinel(&Vec::new()));
}

#[test]
fn duplicate_paths_keep_last() {
    let rep = report(vec![entry("dup.php", "cafe"), entry("dup.php", ""), entry("one.php", "")]);
    assert_eq!(rep.get_extra_files(), vec!["dup.php".to_string(), "one.php".to_string()]);
    let rep2 = report(vec![entry("dup.php", ""), entry("dup.php", "cafe")]);
    assert_eq!(rep2.get_extra_files(), Vec::<String>::new());
}

#[test]
fn join_path_inserts_separator() {
    let joined = join_path(&"/apps/app1".to_string(), &"evil.php".to_string());
    assert_eq!(joined, "/apps/app1/evil.php");
}

#[test]
fn join_path_keeps_existing_separator() {
    let joined = join_path(&"/apps/".to_string(), &"x.php".to_string());
    assert_eq!(joined, "/apps/x.php");
}

#[test]
fn join_path_absolute_rhs_replaces_base() {
    let joined = join_path(&"/apps/app1".to_string(), &"/etc/passwd".to_string());
    assert_eq!(joined, "/etc/passwd");
}

#[test]
fn join_path_empty_base_keeps_relative() {
    let joined = join_path(&String::new(), &"file.php".to_string());
    assert_eq!(joined, "file.php");
}

#[test]
fn trims_trailing_whitespace_only() {
    assert_eq!(trim_trailing_whitespace(&"/apps/app1\n".to_string()), "/apps/app1");
    assert_eq!(trim_trailing_whitespace(&"  a b\t\r\n ".to_string()), "  a b");
    assert_eq!(trim_trailing_whitespace(&"\n\t ".to_string()), "");
    assert_eq!(trim_trailing_whitespace(&"plain".to_string()), "plain");
}

#[test]
fn trims_all_unicode_whitespace() {
    assert_eq!(trim_trailing_whitespace(&"/apps/app1\u{000B}".to_string()), "/apps/app1");
    assert_eq!(trim_trailing_whitespace(&"a\u{00A0}".to_string()), "a");
    assert_eq!(trim_trailing_whitespace(&"x\u{2028}\u{3000}\n".to_string()), "x");
    assert_eq!(trim_trailing_whitespace(&"keep\u{200B}".to_string()), "keep\u{200B}");
    assert_eq!(
        trim_trailing_whitespace(&"mid\u{00A0}dle \u{205F}".to_string()),
        "mid\u{00A0}dle"
    );
    let sample = "p \u{0085}\u{1680}\u{2000}\u{2009}\u{200A}\u{2029}\u{202F}".to_string();
    assert_eq!(trim_trailing_whitespace(&sample), "p");
    assert_eq!(trim_trailing_whitespace(&sample), sample.trim_end());
}

#[test]
fn config_command_defaults() {
    let config = Config::from_env_values(None, None, false);
    assert_eq!(config.occ_path, "occ");
    assert!(config.app_path_override.is_none());
    assert!(!config.dry_run);
    let config = Config::from_env_values(Some("/usr/bin/occ".to_string()), None, true);
    assert_eq!(config.occ_path, "/usr/bin/occ");
    assert!(config.dry_run);
}

#[test]
fn override_base_resolves_without_collaborator() {
    let config =
        Config::from_env_values(None, Some("/var/www/apps".to_string()), false);
    let resolved = config.override_base_for(&"app1".to_string());
    assert_eq!(resolved, Some("/var/www/apps/app1".to_string()));
    let config = Config::from_env_values(None, None, false);
    assert_eq!(config.override_base_for(&"app1".to_string()), None);
}

#[test]
fn collaborator_argument_lists() {
    assert_eq!(
        integrity_audit::list_extensions_args(),
        vec!["app:list".to_string(), "--output".to_string(), "json".to_string()]
    );
    assert_eq!(
        integrity_audit::check_integrity_args(&"app1".to_string()),
        vec![
            "integrity:check-app".to_string(),
            "--output".to_string(),
            "json".to_string(),
            "app1".to_string()
        ]
    );
    assert_eq!(
        integrity_audit::get_extension_path_args(&"app1".to_string()),
        vec!["app:getpath".to_string(), "app1".to_string()]
    );
}

#[test]
fn merges_enabled_then_disabled() {
    let merged = merge_extension_lists(
        vec!["app1".to_string(), "app2".to_string()],
        vec!["old".to_string()],
    );
    assert_eq!(merged, vec!["app1".to_string(), "app2".to_string(), "old".to_string()]);
}

#[test]
fn scenario_clean_listing_yields_nothing() {
    let merged = merge_extension_lists(vec!["app1".to_string()], Vec::new());
    assert_eq!(merged, vec!["app1".to_string()]);
    assert!(is_empty_sentinel(&b"[]\n".to_vec()));
    let audited = collect_audit(&vec![("app1".to_string(), Vec::new())]);
    assert!(audited.is_empty());
    let files = collect_unexpected(&Vec::new());
    assert!(files.is_empty());
}

#[test]
fn scenario_extra_file_deleted_once() {
    let audited = collect_audit(&vec![("app1".to_string(), vec![entry("evil.php", "")])]);
    assert_eq!(audited.len(), 1);
    assert_eq!(audited[0].id, "app1");
    let items: Vec<ResolvedReport> = audited
        .into_iter()
        .map(|a| ResolvedReport { base: "/apps/app1".to_string(), report: a.report })
        .collect();
    let files = collect_unexpected(&items);
    assert_eq!(files, vec!["/apps/app1/evil.php".to_string()]);
    assert_eq!(candidate_action(true, false, false), CandidateAction::Delete);
}

#[test]
fn scenario_mismatch_never_deleted() {
    let audited =
        collect_audit(&vec![("app1".to_string(), vec![entry("mismatch.php", "abcdef")])]);
    assert_eq!(audited.len(), 1);
    let items: Vec<ResolvedReport> = audited
        .into_iter()
        .map(|a| ResolvedReport { base: "/apps/app1".to_string(), report: a.report })
        .collect();
    let files = collect_unexpected(&items);
    assert!(files.is_empty());
}

#[test]
fn scenario_dry_run_validates_without_deleting() {
    let audited = collect_audit(&vec![("app1".to_string(), vec![entry("evil.php", "")])]);
    let items: Vec<ResolvedReport> = audited
        .into_iter()
        .map(|a| ResolvedReport { base: "/apps/app1".to_string(), report: a.report })
        .collect();
    let files = collect_unexpected(&items);
    assert_eq!(files, vec!["/apps/app1/evil.php".to_string()]);
    assert_eq!(candidate_action(true, false, true), CandidateAction::ValidateOnly);
}

#[test]
fn unsafe_targets_rejected_in_every_mode() {
    for dry_run in [false, true] {
        assert_eq!(candidate_action(false, false, dry_run), CandidateAction::RejectUnsafe);
        assert_eq!(candidate_action(false, true, dry_run), CandidateAction::RejectUnsafe);
        assert_eq!(candidate_action(true, true, dry_run), CandidateAction::RejectUnsafe);
    }
}

#[test]
fn dry_run_reconciliation_is_idempotent() {
    let build = || {
        let audited = collect_audit(&vec![
            ("app1".to_string(), vec![entry("evil.php", ""), entry("ok.php", "feed")]),
            ("app2".to_string(), Vec::new()),
        ]);
        let items: Vec<ResolvedReport> = audited
            .into_iter()
            .map(|a| ResolvedReport { base: format!("/apps/{}", a.id), report: a.report })
            .collect();
        collect_unexpected(&items)
    };
    let first = build();
    let second = build();
    assert_eq!(first, second);
    assert_eq!(first, vec!["/apps/app1/evil.php".to_string()]);
    assert_ne!(candidate_action(true, false, true), CandidateAction::Delete);
}

#[test]
fn aggregation_is_order_independent() {
    let one = || ("app1".to_string(), vec![entry("a.php", ""), entry("b.php", "")]);
    let two = || ("app2".to_string(), vec![entry("c.php", "")]);
    let forward = collect_audit(&vec![one(), two()]);
    let backward = collect_audit(&vec![two(), one()]);
    let resolve = |audited: Vec<integrity_audit::AuditedExtension>| -> Vec<String> {
        let items: Vec<ResolvedReport> = audited
            .into_iter()
            .map(|a| ResolvedReport { base: format!("/apps/{}", a.id), report: a.report })
            .collect();
        let mut files = collect_unexpected(&items);
        files.sort();
        files
    };
    assert_eq!(resolve(forward), resolve(backward));
}
