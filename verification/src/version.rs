//! Version information reported to the front end.
use vstd::prelude::*;
use crate::text::{eq_ignore_ascii_case, equals_ignoring_ascii_case};

verus! {

/// The application's version, product name and distribution channel.
pub struct AppVersion {
    pub version: String,
    pub name: String,
    pub distribution: String,
}

/// Whether the distribution setting names the AUR package (in any ASCII case).
pub open spec fn names_aur(value: Option<&str>) -> bool {
    match value {
        Some(v) => eq_ignore_ascii_case(v@, "aur"@),
        None => false,
    }
}

/// The distribution channel for the value of the distribution setting:
/// `"aur"` when it says so in any ASCII case, `"standalone"` otherwise.
pub fn resolve_distribution(value: Option<&str>) -> (r: &'static str)
    ensures
        r@ == (if names_aur(value) { "aur"@ } else { "standalone"@ }),
{
    match value {
        Some(v) => {
            if equals_ignoring_ascii_case(v, "aur") {
                "aur"
            } else {
                "standalone"
            }
        },
        None => "standalone",
    }
}

impl AppVersion {
    /// Assembles the version record: a missing version reads `"unknown"`, a
    /// missing product name reads `"CLI-Manager"`, and the distribution is
    /// resolved from the distribution setting.
    pub fn from_parts(
        version: Option<String>,
        product_name: Option<String>,
        distribution_setting: Option<&str>,
    ) -> (r: AppVersion)
        ensures
            r.version@ == (match version {
                Some(v) => v@,
                None => "unknown"@,
            }),
            r.name@ == (match product_name {
                Some(n) => n@,
                None => "CLI-Manager"@,
            }),
            r.distribution@ == (if names_aur(distribution_setting) {
                "aur"@
            } else {
                "standalone"@
            }),
    {
        let version = match version {
            Some(v) => v,
            None => String::from_str("unknown"),
        };
        let name = match product_name {
            Some(n) => n,
            None => String::from_str("CLI-Manager"),
        };
        let distribution = String::from_str(resolve_distribution(distribution_setting));
        AppVersion { version, name, distribution }
    }
}

} // verus!
