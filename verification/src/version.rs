//! The versions that the next release may carry, computed from the line of
//! configuration that names the current one.

use std::collections::BTreeMap;
use vstd::prelude::*;
use vstd::string::{StrSliceExecFns, StringExecFns};
use crate::decimal::{decimal, decimal_digits, parse_u32, parsed_u32};
use crate::text::{split_terminator, terminated_pieces};

verus! {

/// The error that `serde_yaml` reports. Nothing is known of what it holds.
#[verifier::external_type_specification]
#[verifier::external_body]
pub struct ExYamlError(serde_yaml::Error);

/// The longest first line, in characters, that is read as YAML. A line that
/// names a version is far shorter. The YAML reader descends once for every
/// level of nesting in the text, and every level takes a character or more,
/// so a line within this bound nests no deeper than the bound.
pub const MAX_LINE: usize = 256;

/// What `serde_yaml::from_str` makes of `text` when it is asked for a map
/// from strings to strings: the entries of that map in the order of their
/// keys, or `None` where it reports an error.
pub uninterp spec fn yaml_string_map(text: Seq<char>) -> Option<Seq<(Seq<char>, Seq<char>)>>;

/// Calls `serde_yaml::from_str` for a `BTreeMap<String, String>` and hands out
/// the map's entries as pairs, in the map's own order. The contract only
/// gives the outcome its name, `yaml_string_map`: the same text always has
/// the same outcome. The text must be short: the reader loads block
/// collections by recursion without a bound of its own, so on a text that
/// nests deeply enough it runs out of stack and does not return.
#[verifier::external_body]
fn parse_string_map(text: &str) -> (out: Result<Vec<(String, String)>, serde_yaml::Error>)
    requires
        text@.len() <= MAX_LINE,
    ensures
        match out {
            Ok(entries) => yaml_string_map(text@) == Some(entries.deep_view()),
            Err(_) => yaml_string_map(text@) is None,
        },
{
    match serde_yaml::from_str::<BTreeMap<String, String>>(text) {
        Ok(map) => Ok(map.into_iter().collect()),
        Err(error) => Err(error),
    }
}

/// Why no release versions could be computed.
#[derive(Clone, Copy, Debug, PartialEq, Eq, Structural)]
pub enum VersionError {
    /// The configuration could not be read.
    Unreadable,
    /// The first line is longer than `MAX_LINE` characters.
    LineTooLong,
    /// The line is not a YAML mapping from strings to strings.
    NotAMapping,
    /// The mapping has no entry for the library version.
    NoVersion,
    /// The version has no major component.
    NoMajor,
    /// The version has no minor component.
    NoMinor,
    /// The version has no patch component.
    NoPatch,
    /// One of the three components is not an unsigned number.
    NotANumber,
}

impl VersionError {
    /// What `message` says of the error.
    pub open spec fn text(self) -> Seq<char> {
        match self {
            VersionError::Unreadable => "The configuration could not be read"@,
            VersionError::LineTooLong => "The first line of the configuration is too long"@,
            VersionError::NotAMapping => "The configuration is not a mapping of strings"@,
            VersionError::NoVersion => "No version available"@,
            VersionError::NoMajor => "No major version"@,
            VersionError::NoMinor => "No minor version"@,
            VersionError::NoPatch => "No patch version"@,
            VersionError::NotANumber => "A version component is not a number"@,
        }
    }

    /// A sentence that describes the error.
    pub fn message(&self) -> (out: &'static str)
        ensures
            out@ == self.text(),
    {
        match self {
            VersionError::Unreadable => "The configuration could not be read",
            VersionError::LineTooLong => "The first line of the configuration is too long",
            VersionError::NotAMapping => "The configuration is not a mapping of strings",
            VersionError::NoVersion => "No version available",
            VersionError::NoMajor => "No major version",
            VersionError::NoMinor => "No minor version",
            VersionError::NoPatch => "No patch version",
            VersionError::NotANumber => "A version component is not a number",
        }
    }
}

/// The three versions that can follow the current one.
#[derive(Debug, PartialEq, Eq)]
pub struct ReleaseVersions {
    /// The version after a major release.
    pub major: String,
    /// The version after a minor release.
    pub minor: String,
    /// The version after a patch release.
    pub patch: String,
}

/// The three versions as sequences of characters.
pub struct ReleaseVersionsView {
    pub major: Seq<char>,
    pub minor: Seq<char>,
    pub patch: Seq<char>,
}

impl View for ReleaseVersions {
    type V = ReleaseVersionsView;

    open spec fn view(&self) -> ReleaseVersionsView {
        ReleaseVersionsView { major: self.major@, minor: self.minor@, patch: self.patch@ }
    }
}

/// An outcome with the versions, if any, taken by their view.
pub open spec fn outcome_view(outcome: Result<ReleaseVersions, VersionError>) -> Result<
    ReleaseVersionsView,
    VersionError,
> {
    match outcome {
        Ok(versions) => Ok(versions@),
        Err(error) => Err(error),
    }
}

/// The key under which the configuration names the current version.
pub open spec fn version_key() -> Seq<char> {
    "libraryVersion"@
}

/// The value of the first entry whose key is `key`.
pub open spec fn value_of(entries: Seq<(Seq<char>, Seq<char>)>, key: Seq<char>) -> Option<
    Seq<char>,
>
    decreases entries.len(),
{
    if entries.len() == 0 {
        None
    } else if entries[0].0 == key {
        Some(entries[0].1)
    } else {
        value_of(entries.drop_first(), key)
    }
}

/// The versions that follow `version`, which reads `MAJOR.MINOR.PATCH`: the
/// next major release is `(MAJOR+1).0.0`, the next minor release
/// `MAJOR.(MINOR+1).0`, the next patch release `MAJOR.MINOR.(PATCH+1)`.
/// The components that stay are kept as they were written. A missing
/// component is reported before one that is not a number.
pub open spec fn next_versions(version: Seq<char>) -> Result<ReleaseVersionsView, VersionError> {
    let parts = terminated_pieces(version, '.');
    if parts.len() < 1 {
        Err(VersionError::NoMajor)
    } else if parts.len() < 2 {
        Err(VersionError::NoMinor)
    } else if parts.len() < 3 {
        Err(VersionError::NoPatch)
    } else {
        match (parsed_u32(parts[0]), parsed_u32(parts[1]), parsed_u32(parts[2])) {
            (Some(major), Some(minor), Some(patch)) => Ok(
                ReleaseVersionsView {
                    major: decimal_digits((major + 1) as nat) + ".0.0"@,
                    minor: parts[0] + "."@ + decimal_digits((minor + 1) as nat) + ".0"@,
                    patch: parts[0] + "."@ + parts[1] + "."@ + decimal_digits((patch + 1) as nat),
                },
            ),
            _ => Err(VersionError::NotANumber),
        }
    }
}

/// The versions that follow the one that `entries` names.
pub open spec fn versions_of_entries(entries: Seq<(Seq<char>, Seq<char>)>) -> Result<
    ReleaseVersionsView,
    VersionError,
> {
    match value_of(entries, version_key()) {
        None => Err(VersionError::NoVersion),
        Some(version) => next_versions(version),
    }
}

/// The versions that follow the one named on the first line of the
/// configuration; `None` stands for a configuration that could not be read.
/// A line of more than `MAX_LINE` characters is rejected as it stands,
/// without being read as YAML.
pub open spec fn release_versions(first_line: Option<Seq<char>>) -> Result<
    ReleaseVersionsView,
    VersionError,
> {
    match first_line {
        None => Err(VersionError::Unreadable),
        Some(line) => if line.len() > MAX_LINE {
            Err(VersionError::LineTooLong)
        } else {
            match yaml_string_map(line) {
                None => Err(VersionError::NotAMapping),
                Some(entries) => versions_of_entries(entries),
            }
        },
    }
}

/// Looks `key` up among `entries`.
pub fn find_value<'a>(entries: &'a Vec<(String, String)>, key: &str) -> (out: Option<&'a String>)
    ensures
        match out {
            Some(value) => value_of(entries.deep_view(), key@) == Some(value@),
            None => value_of(entries.deep_view(), key@) is None,
        },
{
    let wanted = String::from_str(key);
    let mut i: usize = 0;
    proof {
        assert(entries.deep_view().skip(0) =~= entries.deep_view());
    }
    while i < entries.len()
        invariant
            i <= entries.len(),
            wanted@ == key@,
            value_of(entries.deep_view(), key@) == value_of(
                entries.deep_view().skip(i as int),
                key@,
            ),
        decreases entries.len() - i,
    {
        let ghost rest = entries.deep_view().skip(i as int);
        proof {
            assert(rest[0] == (entries@[i as int].0@, entries@[i as int].1@));
            assert(rest.drop_first() =~= entries.deep_view().skip(i + 1));
        }
        if entries[i].0 == wanted {
            return Some(&entries[i].1);
        }
        i += 1;
    }
    None
}

/// Computes the versions that follow `version`.
pub fn next_release_versions(version: &str) -> (out: Result<ReleaseVersions, VersionError>)
    ensures
        outcome_view(out) == next_versions(version@),
{
    let parts = split_terminator(version, '.');
    if parts.len() < 1 {
        return Err(VersionError::NoMajor);
    }
    if parts.len() < 2 {
        return Err(VersionError::NoMinor);
    }
    if parts.len() < 3 {
        return Err(VersionError::NoPatch);
    }
    let major = match parse_u32(parts[0].as_str()) {
        Some(n) => n,
        None => {
            return Err(VersionError::NotANumber);
        },
    };
    let minor = match parse_u32(parts[1].as_str()) {
        Some(n) => n,
        None => {
            return Err(VersionError::NotANumber);
        },
    };
    let patch = match parse_u32(parts[2].as_str()) {
        Some(n) => n,
        None => {
            return Err(VersionError::NotANumber);
        },
    };
    let mut next_major = decimal(major as u64 + 1);
    next_major.append(".0.0");
    let mut next_minor = parts[0].clone();
    next_minor.append(".");
    next_minor.append(decimal(minor as u64 + 1).as_str());
    next_minor.append(".0");
    let mut next_patch = parts[0].clone();
    next_patch.append(".");
    next_patch.append(parts[1].as_str());
    next_patch.append(".");
    next_patch.append(decimal(patch as u64 + 1).as_str());
    Ok(ReleaseVersions { major: next_major, minor: next_minor, patch: next_patch })
}

/// Computes the release versions from the entries of the configuration's
/// first line.
pub fn versions_from_entries(entries: &Vec<(String, String)>) -> (out: Result<
    ReleaseVersions,
    VersionError,
>)
    ensures
        outcome_view(out) == versions_of_entries(entries.deep_view()),
{
    match find_value(entries, "libraryVersion") {
        None => Err(VersionError::NoVersion),
        Some(version) => next_release_versions(version.as_str()),
    }
}

/// Computes the release versions from the first line of the configuration.
/// `None` stands for a configuration that could not be read. Whatever the
/// line holds, the outcome is a value: a line too long to be read safely is
/// an error like any other.
pub fn get_release_versions(first_line: Option<&str>) -> (out: Result<
    ReleaseVersions,
    VersionError,
>)
    ensures
        outcome_view(out) == release_versions(
            match first_line {
                Some(line) => Some(line@),
                None => None,
            },
        ),
{
    match first_line {
        None => Err(VersionError::Unreadable),
        Some(line) => if line.unicode_len() > MAX_LINE {
            Err(VersionError::LineTooLong)
        } else {
            match parse_string_map(line) {
                Err(_) => Err(VersionError::NotAMapping),
                Ok(entries) => versions_from_entries(&entries),
            }
        },
    }
}

} // verus!
