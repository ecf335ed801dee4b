//! Semantic-version syntax and matching, supplied by the `semver` crate.
//!
//! Whether a string is a well-formed version or requirement, and whether a
//! requirement admits a version, are functions of the characters alone; the
//! library names those results and trusts the `semver` crate to compute them.

use vstd::prelude::*;

verus! {

/// Whether `s` parses as a semantic version (`semver::Version::parse` succeeds).
pub uninterp spec fn semver_ok(s: Seq<char>) -> bool;

/// Whether `s` parses as a version requirement (`semver::VersionReq::parse` succeeds).
pub uninterp spec fn semver_req_ok(s: Seq<char>) -> bool;

/// Whether the requirement `req` admits the version `ver`
/// (`semver::VersionReq::matches` returns true).
pub uninterp spec fn semver_req_matches(req: Seq<char>, ver: Seq<char>) -> bool;

/// Relies on semver::Version::parse: success depends on the characters alone.
#[verifier::external_body]
pub(crate) fn version_parses(s: &str) -> (r: bool)
    ensures
        r == semver_ok(s@),
{
    semver::Version::parse(s).is_ok()
}

/// Relies on semver::VersionReq::parse: success depends on the characters alone.
#[verifier::external_body]
pub(crate) fn version_req_parses(s: &str) -> (r: bool)
    ensures
        r == semver_req_ok(s@),
{
    semver::VersionReq::parse(s).is_ok()
}

/// Relies on semver::VersionReq::matches: the verdict depends on the two
/// strings alone.
#[verifier::external_body]
pub(crate) fn version_req_matches(req: &str, ver: &str) -> (r: bool)
    requires
        semver_req_ok(req@),
        semver_ok(ver@),
    ensures
        r == semver_req_matches(req@, ver@),
{
    match (semver::VersionReq::parse(req), semver::Version::parse(ver)) {
        (Ok(rq), Ok(v)) => rq.matches(&v),
        _ => false,
    }
}

} // verus!
