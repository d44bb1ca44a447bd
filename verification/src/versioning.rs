//! Semantic-version facts obtained from the `semver` crate.
use vstd::prelude::*;

verus! {

/// Whether `semver::Version::parse` accepts the text.
pub uninterp spec fn semver_parses(text: Seq<char>) -> bool;

/// Whether `semver::VersionReq::parse` accepts the text.
pub uninterp spec fn semver_requirement_parses(text: Seq<char>) -> bool;

/// Whether the parsed requirement matches the parsed version.
pub uninterp spec fn semver_matches(requirement: Seq<char>, version: Seq<char>) -> bool;

/// Calls `semver::Version::parse`; the result says whether it succeeded.
#[verifier::external_body]
pub fn parses_as_version(text: &str) -> (r: bool)
    ensures
        r == semver_parses(text@),
{
    semver::Version::parse(text).is_ok()
}

/// Calls `semver::VersionReq::parse`; the result says whether it succeeded.
#[verifier::external_body]
pub fn parses_as_requirement(text: &str) -> (r: bool)
    ensures
        r == semver_requirement_parses(text@),
{
    semver::VersionReq::parse(text).is_ok()
}

/// Calls `semver::VersionReq::matches` on the two texts, each converted to
/// its `semver` type by that type's `parse`; both conversions succeed under
/// the `requires`.
#[verifier::external_body]
pub fn requirement_matches(requirement: &str, version: &str) -> (r: bool)
    requires
        semver_requirement_parses(requirement@),
        semver_parses(version@),
    ensures
        r == semver_matches(requirement@, version@),
{
    match (semver::VersionReq::parse(requirement), semver::Version::parse(version)) {
        (Ok(requirement), Ok(version)) => requirement.matches(&version),
        _ => false,
    }
}

} // verus!
