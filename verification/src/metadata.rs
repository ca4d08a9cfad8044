//! The identity reconciler: structural lookup in the resolved-metadata
//! provider's catalog, reconciliation of declared dependencies with resolved
//! candidates while ignoring provenance, and translation into the report
//! vocabulary.

use vstd::prelude::*;
use crate::ident::{Dependency, GeigerPackageId, Package, PackageId, Version};

verus! {

/// Whether the version `major.minor.patch`, with the given pre-release
/// text, satisfies the textual version requirement `req`. Satisfaction is
/// decided by an outside semantic-version library; this name stands for its
/// verdict, a function of the requirement and the version alone.
pub uninterp spec fn req_matched(
    req: Seq<char>,
    major: u64,
    minor: u64,
    patch: u64,
    pre: Seq<char>,
) -> bool;

/// Relies on semver's `VersionReq::parse`, `Prerelease::new` and
/// `VersionReq::matches`, as re-exported by cargo_metadata: all depend on
/// their arguments alone. A requirement or a pre-release text that does not
/// parse matches nothing.
#[verifier::external_body]
pub(crate) fn req_allows_version(req: &str, version: &Version) -> (r: bool)
    ensures
        r == req_matched(req@, version.major, version.minor, version.patch, version.pre@),
{
    let pre = match cargo_metadata::semver::Prerelease::new(&version.pre) {
        Ok(p) => p,
        Err(_) => return false,
    };
    let build = cargo_metadata::semver::BuildMetadata::EMPTY;
    let (major, minor, patch) = (version.major, version.minor, version.patch);
    let full = cargo_metadata::semver::Version { major, minor, patch, pre, build };
    match cargo_metadata::semver::VersionReq::parse(req) {
        Ok(parsed) => parsed.matches(&full),
        Err(_) => false,
    }
}

/// Whether a declared dependency and a resolved package denote the same
/// logical package, ignoring provenance: the names are equal and the
/// package's version satisfies the declared requirement. The package's
/// identity and provenance play no part.
pub open spec fn dep_matches_package(dep: Dependency, p: Package) -> bool {
    dep.name@ == p.name@ && req_matched(
        dep.req@,
        p.version.major,
        p.version.minor,
        p.version.patch,
        p.version.pre@,
    )
}

/// Law: reconciliation ignores provenance. Two resolved packages that agree
/// on name and version reconcile with exactly the same declared
/// dependencies, whatever their identities and provenance tags.
pub proof fn lemma_matches_ignoring_source_ignores_provenance(
    dep: Dependency,
    p: Package,
    q: Package,
)
    requires
        p.name@ == q.name@,
        p.version == q.version,
    ensures
        dep_matches_package(dep, p) == dep_matches_package(dep, q),
{
}

/// The record that lookup by exact identity returns, starting the search at
/// position `i`: the first package whose identity representation equals the
/// key.
pub open spec fn lookup_from(packages: Seq<Package>, key: Seq<char>, i: int) -> Option<Package>
    decreases packages.len() - i,
{
    if i < 0 || i >= packages.len() {
        None
    } else if packages[i].id.repr@ == key {
        Some(packages[i])
    } else {
        lookup_from(packages, key, i + 1)
    }
}

/// Lookup by exact identity: the first package in the catalog whose identity
/// representation equals the key, if any.
pub open spec fn lookup_package(packages: Seq<Package>, key: Seq<char>) -> Option<Package> {
    lookup_from(packages, key, 0)
}

/// Structural resolution, starting at position `i`: the identity of the
/// first package that the declared dependency reconciles with.
pub open spec fn resolve_from(packages: Seq<Package>, dep: Dependency, i: int) -> Option<PackageId>
    decreases packages.len() - i,
{
    if i < 0 || i >= packages.len() {
        None
    } else if dep_matches_package(dep, packages[i]) {
        Some(packages[i].id)
    } else {
        resolve_from(packages, dep, i + 1)
    }
}

/// Structural resolution of a declared dependency: the identity of the first
/// package in the catalog with the declared name and a satisfying version.
pub open spec fn resolve_dep(packages: Seq<Package>, dep: Dependency) -> Option<PackageId> {
    resolve_from(packages, dep, 0)
}

/// Whether some identity in the sequence has the given representation.
pub open spec fn has_key(ids: Seq<PackageId>, key: Seq<char>) -> bool {
    exists|j: int| 0 <= j < ids.len() && ids[j].repr@ == key
}

/// The flattened not-replaced dependency identities of the first `i`
/// declared dependencies: each dependency resolved structurally, unresolved
/// ones omitted, and duplicate targets collapsed to one entry, first seen
/// first.
pub open spec fn dep_targets_upto(
    packages: Seq<Package>,
    deps: Seq<Dependency>,
    i: int,
) -> Seq<PackageId>
    decreases i,
{
    if i <= 0 {
        Seq::empty()
    } else {
        let prev = dep_targets_upto(packages, deps, i - 1);
        match resolve_dep(packages, deps[i - 1]) {
            Some(pid) => if has_key(prev, pid.repr@) {
                prev
            } else {
                prev.push(pid)
            },
            None => prev,
        }
    }
}

/// The flattened not-replaced dependency identities of a whole declaration
/// list.
pub open spec fn dep_targets(packages: Seq<Package>, deps: Seq<Dependency>) -> Seq<PackageId> {
    dep_targets_upto(packages, deps, deps.len() as int)
}

/// A copy of an identity, equal to the original.
pub(crate) fn clone_id(id: &PackageId) -> (r: PackageId)
    ensures
        r == *id,
{
    PackageId { repr: id.repr.clone() }
}

/// A copy of a version, equal to the original.
pub(crate) fn clone_version(v: &Version) -> (r: Version)
    ensures
        r == *v,
{
    Version { major: v.major, minor: v.minor, patch: v.patch, pre: v.pre.clone() }
}

/// A copy of a declared dependency, equal to the original.
pub(crate) fn clone_dependency(dep: &Dependency) -> (r: Dependency)
    ensures
        r == *dep,
{
    Dependency {
        name: dep.name.clone(),
        req: dep.req.clone(),
        kind: dep.kind,
        target: match &dep.target {
            Some(t) => Some(t.clone()),
            None => None,
        },
    }
}

/// Whether the list already holds an identity with this representation.
pub(crate) fn contains_id(ids: &Vec<PackageId>, id: &PackageId) -> (r: bool)
    ensures
        r == has_key(ids@, id.repr@),
{
    let n = ids.len();
    let mut i: usize = 0;
    while i < n
        invariant
            i <= n,
            n == ids@.len(),
            forall|j: int| 0 <= j < i ==> ids@[j].repr@ != id.repr@,
        decreases n - i,
    {
        if ids[i].repr == id.repr {
            return true;
        }
        i += 1;
    }
    false
}

/// The position of the first package whose exact identity equals the given
/// one, if any; the position returned is the one that `lookup_package`
/// speaks of.
pub(crate) fn find_package_index(packages: &Vec<Package>, package_id: &PackageId) -> (r: Option<
    usize,
>)
    ensures
        match r {
            Some(i) => i < packages@.len() && lookup_package(packages@, package_id.repr@)
                == Some(packages@[i as int]),
            None => lookup_package(packages@, package_id.repr@) is None,
        },
{
    let n = packages.len();
    let mut i: usize = 0;
    while i < n
        invariant
            i <= n,
            n == packages@.len(),
            lookup_package(packages@, package_id.repr@) == lookup_from(
                packages@,
                package_id.repr@,
                i as int,
            ),
        decreases n - i,
    {
        if packages[i].id.repr == package_id.repr {
            return Some(i);
        }
        i += 1;
    }
    None
}

/// The resolved-metadata provider's catalog: every package of the resolved
/// dependency tree.
#[derive(Clone, PartialEq, Eq, Debug)]
pub struct Metadata {
    pub packages: Vec<Package>,
}

/// Read access to the catalog's packages.
pub trait GetMetadataPackages {
    /// The packages this catalog holds, in stored order.
    spec fn spec_metadata_packages(&self) -> Seq<Package>;

    /// Hand out the catalog's packages, in stored order.
    fn get_metadata_packages(&self) -> (r: &Vec<Package>)
        ensures
            r@ == self.spec_metadata_packages(),
    ;
}

impl GetMetadataPackages for Metadata {
    open spec fn spec_metadata_packages(&self) -> Seq<Package> {
        self.packages@
    }

    fn get_metadata_packages(&self) -> (r: &Vec<Package>) {
        &self.packages
    }
}

impl Dependency {
    /// Resolve this declared dependency structurally: the identity of the
    /// first catalog package with the declared name and a version that
    /// satisfies the declared requirement.
    pub fn to_cargo_metadata_package_id(&self, metadata: &Metadata) -> (r: Option<PackageId>)
        ensures
            r == resolve_dep(metadata.packages@, *self),
    {
        let packages = &metadata.packages;
        let n = packages.len();
        let mut i: usize = 0;
        while i < n
            invariant
                i <= n,
                n == packages@.len(),
                resolve_dep(metadata.packages@, *self) == resolve_from(
                    metadata.packages@,
                    *self,
                    i as int,
                ),
                packages == &metadata.packages,
            decreases n - i,
        {
            let p = &packages[i];
            if self.name == p.name && req_allows_version(self.req.as_str(), &p.version) {
                return Some(clone_id(&p.id));
            }
            i += 1;
        }
        None
    }

    /// Decide whether this declared dependency and the candidate resolved
    /// identity denote the same logical package, ignoring provenance.
    /// Returns `None` when the candidate's name and version cannot be
    /// determined from the catalog at all; a caller treats that as "no
    /// match" rather than failing.
    pub fn matches_ignoring_source(&self, metadata: &Metadata, package_id: &PackageId) -> (r:
        Option<bool>)
        ensures
            match lookup_package(metadata.packages@, package_id.repr@) {
                Some(p) => r == Some(dep_matches_package(*self, p)),
                None => r is None,
            },
    {
        match find_package_index(&metadata.packages, package_id) {
            Some(i) => {
                let p = &metadata.packages[i];
                Some(self.name == p.name && req_allows_version(self.req.as_str(), &p.version))
            },
            None => None,
        }
    }
}

impl Metadata {
    /// The direct dependency identities of the given package after resolving
    /// away duplicate targets: one entry per distinct resolved identity,
    /// first seen first. Returns `None` when the package identity cannot be
    /// found in this catalog at all; the caller stops expanding that node.
    pub fn deps_not_replaced(&self, package_id: &PackageId) -> (r: Option<Vec<PackageId>>)
        ensures
            match lookup_package(self.packages@, package_id.repr@) {
                Some(p) => r matches Some(v) && v@ == dep_targets(self.packages@, p.dependencies@),
                None => r is None,
            },
    {
        let idx = match find_package_index(&self.packages, package_id) {
            Some(i) => i,
            None => {
                return None;
            },
        };
        let deps = &self.packages[idx].dependencies;
        let n = deps.len();
        let mut out: Vec<PackageId> = Vec::new();
        let mut i: usize = 0;
        while i < n
            invariant
                i <= n,
                n == deps@.len(),
                deps == &self.packages@[idx as int].dependencies,
                idx < self.packages@.len(),
                lookup_package(self.packages@, package_id.repr@) == Some(
                    self.packages@[idx as int],
                ),
                out@ == dep_targets_upto(self.packages@, deps@, i as int),
            decreases n - i,
        {
            match deps[i].to_cargo_metadata_package_id(self) {
                Some(pid) => {
                    if !contains_id(&out, &pid) {
                        out.push(pid);
                    }
                },
                None => {},
            }
            i += 1;
        }
        Some(out)
    }
}

impl PackageId {
    /// Translate this identity into the report vocabulary by structural
    /// lookup: the catalog package with this exact identity supplies name,
    /// version and provenance. Returns `None` when no such package exists;
    /// the caller logs and skips the affected package.
    pub fn to_cargo_geiger_package_id(&self, metadata: &Metadata) -> (r: Option<GeigerPackageId>)
        ensures
            match lookup_package(metadata.packages@, self.repr@) {
                Some(p) => r == Some(
                    GeigerPackageId { name: p.name, version: p.version, source: p.source },
                ),
                None => r is None,
            },
    {
        match find_package_index(&metadata.packages, self) {
            Some(i) => {
                let p = &metadata.packages[i];
                Some(
                    GeigerPackageId {
                        name: p.name.clone(),
                        version: clone_version(&p.version),
                        source: p.source.clone(),
                    },
                )
            },
            None => None,
        }
    }
}

} // verus!
