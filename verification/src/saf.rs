//! Access to the ODK instances root, directly or through a simulated
//! Storage Access Framework.

use vstd::prelude::*;
use crate::config::Config;

verus! {

/// How the ODK instances are reached.
#[derive(Debug, Clone, Copy, PartialEq, Eq, Structural)]
pub enum SafAccess {
    /// SAF is not used.
    Disabled,
    /// SAF is used through the configured URI.
    Uri,
    /// SAF is simulated on the ODK reference path.
    Simulation,
}

/// How the configuration says the ODK instances are reached.
pub fn saf_access(config: &Config) -> (a: SafAccess)
    ensures
        !config.use_saf ==> a == SafAccess::Disabled,
        config.use_saf && config.saf_uri is Some ==> a == SafAccess::Uri,
        config.use_saf && config.saf_uri is None ==> a == SafAccess::Simulation,
{
    if !config.use_saf {
        SafAccess::Disabled
    } else if config.saf_uri.is_some() {
        SafAccess::Uri
    } else {
        SafAccess::Simulation
    }
}

/// Whether `path` starts with `base`, whole path components compared, as
/// `std::path::Path::starts_with` decides it.
pub uninterp spec fn path_starts_with(path: Seq<char>, base: Seq<char>) -> bool;

/// `std::path::Path::starts_with`. Trusted: the result is the one
/// `path_starts_with` names for the two paths.
#[verifier::external_body]
fn path_has_prefix(path: &str, base: &str) -> (b: bool)
    ensures
        b == path_starts_with(path@, base@),
{
    std::path::Path::new(path).starts_with(base)
}

/// Whether `path` lies under the ODK reference root.
pub fn is_under_odk_root(config: &Config, path: &str) -> (b: bool)
    ensures
        b == path_starts_with(path@, config.odk_reference_path@),
{
    path_has_prefix(path, config.odk_reference_path.as_str())
}

/// The ODK reference root.
pub fn odk_root(config: &Config) -> (root: &str)
    ensures
        root@ == config.odk_reference_path@,
{
    config.odk_reference_path.as_str()
}

} // verus!
