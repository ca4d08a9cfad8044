//! The data model: package identities, declared dependencies, and the two
//! dependency-kind vocabularies that the two metadata providers use.

use vstd::prelude::*;

verus! {

/// Classification of a declared dependency as the resolved-metadata provider
/// reports it. The provider's vocabulary is open-ended, so an unrecognised
/// classification is kept as `Unknown` rather than dropped.
#[derive(Clone, Copy, PartialEq, Eq, Structural, Debug)]
pub enum DependencyKind {
    Normal,
    Build,
    Development,
    Unknown,
}

/// Dependency classification in the report vocabulary, which is closed:
/// it has no variant for an unrecognised kind.
#[derive(Clone, Copy, PartialEq, Eq, Structural, Debug)]
pub enum GeigerDependencyKind {
    Normal,
    Build,
    Development,
}

/// A release number, held structurally so that contracts can speak of it:
/// the three numeric components, and the pre-release text (empty for a
/// final release). Requirement matching treats pre-release versions
/// specially, so the text must travel with the numbers.
#[derive(Clone, PartialEq, Eq, Debug)]
pub struct Version {
    pub major: u64,
    pub minor: u64,
    pub patch: u64,
    pub pre: String,
}

/// Opaque identity of one package instance as the resolved-metadata provider
/// prints it. The representation string carries name, version and provenance;
/// two instances of the same crate pulled from two sources have distinct
/// representations. Exact identity is equality of the representation.
#[derive(Clone, PartialEq, Eq, Debug)]
pub struct PackageId {
    pub repr: String,
}

impl PackageId {
    /// Exact identity of this package, for node deduplication.
    pub open spec fn key(self) -> Seq<char> {
        self.repr@
    }
}

/// Structural identity of a package in the report vocabulary: name, version
/// and provenance held as separate fields.
#[derive(Clone, PartialEq, Eq, Debug)]
pub struct GeigerPackageId {
    pub name: String,
    pub version: Version,
    pub source: String,
}

/// A declared requirement of one package on another: the target's name, a
/// version requirement (a predicate over versions, kept in its textual form),
/// the dependency kind, and an optional platform constraint expression
/// (`None` means the dependency applies on every platform).
#[derive(Clone, PartialEq, Eq, Debug)]
pub struct Dependency {
    pub name: String,
    pub req: String,
    pub kind: DependencyKind,
    pub target: Option<String>,
}

/// One resolved package: its exact identity, its structural fields, and its
/// declared dependencies.
#[derive(Clone, PartialEq, Eq, Debug)]
pub struct Package {
    pub id: PackageId,
    pub name: String,
    pub version: Version,
    pub source: String,
    pub dependencies: Vec<Dependency>,
}

/// What `to_cargo_geiger_dependency_kind` returns: the three recognised kinds
/// map across one to one, an unrecognised kind maps to nothing.
pub open spec fn spec_to_cargo_geiger_dependency_kind(kind: DependencyKind) -> Option<
    GeigerDependencyKind,
> {
    match kind {
        DependencyKind::Normal => Some(GeigerDependencyKind::Normal),
        DependencyKind::Build => Some(GeigerDependencyKind::Build),
        DependencyKind::Development => Some(GeigerDependencyKind::Development),
        DependencyKind::Unknown => None,
    }
}

impl DependencyKind {
    /// Translate a provider dependency kind into the report vocabulary.
    pub fn to_cargo_geiger_dependency_kind(&self) -> (r: Option<GeigerDependencyKind>)
        ensures
            r == spec_to_cargo_geiger_dependency_kind(*self),
    {
        match self {
            DependencyKind::Normal => Some(GeigerDependencyKind::Normal),
            DependencyKind::Build => Some(GeigerDependencyKind::Build),
            DependencyKind::Development => Some(GeigerDependencyKind::Development),
            DependencyKind::Unknown => None,
        }
    }
}

} // verus!
