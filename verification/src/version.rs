//! The check of the host's version against the version this preprocessor
//! was built for, done by the `semver` crate.

use vstd::prelude::*;
use vstd::string::*;

verus! {

/// A version of the `semver` crate.
#[verifier::external_type_specification]
#[verifier::external_body]
pub struct ExVersion(semver::Version);

/// A version requirement of the `semver` crate.
#[verifier::external_type_specification]
#[verifier::external_body]
pub struct ExVersionReq(semver::VersionReq);

/// A version written out: what `to_string` returns for it.
pub uninterp spec fn version_text(version: semver::Version) -> Seq<char>;

/// A requirement written out: what `to_string` returns for it.
pub uninterp spec fn requirement_text(requirement: semver::VersionReq) -> Seq<char>;

/// The version that a text stands for, written out, where
/// `semver::Version::parse` accepts the text.
pub uninterp spec fn parsed_version(text: Seq<char>) -> Option<Seq<char>>;

/// The requirement that a text stands for, written out, where
/// `semver::VersionReq::parse` accepts the text.
pub uninterp spec fn parsed_requirement(text: Seq<char>) -> Option<Seq<char>>;

/// Whether the requirement admits the version: what
/// `semver::VersionReq::matches` returns for the two.
pub uninterp spec fn requirement_admits(requirement: Seq<char>, version: Seq<char>) -> bool;

/// Calls `semver::Version::parse`. The contract only names the result.
#[verifier::external_body]
fn parse_version(text: &str) -> (r: Option<semver::Version>)
    ensures
        match r {
            Some(v) => parsed_version(text@) == Some(version_text(v)),
            None => parsed_version(text@) is None,
        },
{
    semver::Version::parse(text).ok()
}

/// Calls `semver::VersionReq::parse`. The contract only names the result.
#[verifier::external_body]
fn parse_requirement(text: &str) -> (r: Option<semver::VersionReq>)
    ensures
        match r {
            Some(q) => parsed_requirement(text@) == Some(requirement_text(q)),
            None => parsed_requirement(text@) is None,
        },
{
    semver::VersionReq::parse(text).ok()
}

/// Calls `semver::VersionReq::matches`. The contract claims that the
/// answer depends only on what the two values are when written out.
#[verifier::external_body]
fn admits(requirement: &semver::VersionReq, version: &semver::Version) -> (r: bool)
    ensures
        r == requirement_admits(requirement_text(*requirement), version_text(*version)),
{
    requirement.matches(version)
}

/// A version text that could not be read.
#[derive(Clone, Copy, Debug, PartialEq, Eq)]
pub enum VersionError {
    /// The host's version is no version.
    Host,
    /// The version this preprocessor was built for is no requirement.
    Built,
}

/// Whether a host of version `host` is one that a preprocessor built for
/// version `built` can serve, `built` read as a requirement. Where it is
/// not, the caller warns and goes on.
pub fn check_version(built: &str, host: &str) -> (r: Result<bool, VersionError>)
    ensures
        match (parsed_version(host@), parsed_requirement(built@)) {
            (None, _) => r == Err::<bool, VersionError>(VersionError::Host),
            (Some(_), None) => r == Err::<bool, VersionError>(VersionError::Built),
            (Some(v), Some(q)) => r == Ok::<bool, VersionError>(requirement_admits(q, v)),
        },
{
    match parse_version(host) {
        None => Err(VersionError::Host),
        Some(v) => match parse_requirement(built) {
            None => Err(VersionError::Built),
            Some(q) => Ok(admits(&q, &v)),
        },
    }
}

/// The warning that names the preprocessor and both versions.
pub open spec fn version_warning_text(name: Seq<char>, built: Seq<char>, host: Seq<char>) -> Seq<
    char,
> {
    "warning: The "@ + name + " plugin was built against version "@ + built
        + " of mdbook, but we're being called from version "@ + host
}

/// The warning for a host that the version check does not admit.
pub fn version_warning(name: &str, built: &str, host: &str) -> (out: String)
    ensures
        out@ == version_warning_text(name@, built@, host@),
{
    let mut out = String::new();
    out.append("warning: The ");
    out.append(name);
    out.append(" plugin was built against version ");
    out.append(built);
    out.append(" of mdbook, but we're being called from version ");
    out.append(host);
    assert(out@ =~= version_warning_text(name@, built@, host@));
    out
}

} // verus!
