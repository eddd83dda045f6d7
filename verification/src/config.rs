//! Run configuration, built once at startup from plain environment values,
//! and the exact argument lists of the collaborator invocations.

use vstd::prelude::*;

use crate::paths::join_path;
use crate::paths::join_spec;

verus! {

/// The immutable configuration of one run.
pub struct Config {
    /// The command invoked for every collaborator call.
    pub occ_path: String,
    /// When set, the base directory that resolves every extension's
    /// installation directory without a collaborator call.
    pub app_path_override: Option<String>,
    /// When set, validation still runs but no file is deleted.
    pub dry_run: bool,
}

impl Config {
    /// Builds the configuration: the command name falls back to `occ`
    /// when no override is given; the other two values are taken as given.
    pub fn from_env_values(
        occ_path: Option<String>,
        app_path_override: Option<String>,
        dry_run: bool,
    ) -> (r: Config)
        ensures
            match occ_path {
                Some(p) => r.occ_path@ == p@,
                None => r.occ_path@ == "occ"@,
            },
            r.app_path_override == app_path_override,
            r.dry_run == dry_run,
    {
        let occ = match occ_path {
            Some(p) => p,
            None => String::from_str("occ"),
        };
        Config { occ_path: occ, app_path_override, dry_run }
    }

    /// The extension's installation directory when the override base is
    /// configured: the extension identifier joined onto the base, with no
    /// collaborator call. `None` when no override is configured, in which
    /// case the path-resolution collaborator decides.
    pub fn override_base_for(&self, extension_id: &String) -> (r: Option<String>)
        ensures
            match self.app_path_override {
                Some(base) => r is Some && r->Some_0@ == join_spec(base@, extension_id@),
                None => r is None,
            },
    {
        match &self.app_path_override {
            Some(base) => Some(join_path(base, extension_id)),
            None => None,
        }
    }
}

/// The arguments of the extension-listing invocation: a structured listing
/// is requested.
pub fn list_extensions_args() -> (r: Vec<String>)
    ensures
        r@.len() == 3,
        r@[0]@ == "app:list"@,
        r@[1]@ == "--output"@,
        r@[2]@ == "json"@,
{
    let mut r: Vec<String> = Vec::new();
    r.push(String::from_str("app:list"));
    r.push(String::from_str("--output"));
    r.push(String::from_str("json"));
    r
}

/// The arguments of the integrity-check invocation for one extension:
/// structured output is requested for that extension.
pub fn check_integrity_args(extension_id: &String) -> (r: Vec<String>)
    ensures
        r@.len() == 4,
        r@[0]@ == "integrity:check-app"@,
        r@[1]@ == "--output"@,
        r@[2]@ == "json"@,
        r@[3]@ == extension_id@,
{
    let mut r: Vec<String> = Vec::new();
    r.push(String::from_str("integrity:check-app"));
    r.push(String::from_str("--output"));
    r.push(String::from_str("json"));
    r.push(extension_id.clone());
    r
}

/// The arguments of the path-resolution invocation for one extension.
pub fn get_extension_path_args(extension_id: &String) -> (r: Vec<String>)
    ensures
        r@.len() == 2,
        r@[0]@ == "app:getpath"@,
        r@[1]@ == extension_id@,
{
    let mut r: Vec<String> = Vec::new();
    r.push(String::from_str("app:getpath"));
    r.push(extension_id.clone());
    r
}

/// Concatenates the enabled and disabled extension listings into the one
/// sequence of installed extensions, enabled first, order kept.
pub fn merge_extension_lists(enabled: Vec<String>, disabled: Vec<String>) -> (r: Vec<String>)
    ensures
        r@ == enabled@ + disabled@,
{
    let mut r = enabled;
    let mut rest = disabled;
    r.append(&mut rest);
    r
}

} // verus!
