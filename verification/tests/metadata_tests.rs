use cargo_geiger::ident::{
    Dependency, DependencyKind, GeigerDependencyKind, Package, PackageId, Version,
};
use cargo_geiger::metadata::{GetMetadataPackages, Metadata};

fn version(major: u64, minor: u64, patch: u64) -> Version {
    Version { major, minor, patch, pre: String::new() }
}

fn package(id: &str, name: &str, v: Version, source: &str, dependencies: Vec<Dependency>) -> Package {
    Package {
        id: PackageId { repr: id.to_string() },
        name: name.to_string(),
        version: v,
        source: source.to_string(),
        dependencies,
    }
}

fn dependency(name: &str, req: &str, kind: DependencyKind) -> Dependency {
    Dependency { name: name.to_string(), req: req.to_string(), kind, target: None }
}

fn sample_metadata() -> Metadata {
    Metadata {
        packages: vec![
            package(
                "root 1.0.0 (path+file:///srv/root)",
                "root",
                version(1, 0, 0),
                "path+file:///srv/root",
                vec![dependency("alpha", "^1.0", DependencyKind::Normal)],
            ),
            package(
                "alpha 1.2.3 (registry+https://crates.example/index)",
                "alpha",
                version(1, 2, 3),
                "registry+https://crates.example/index",
                vec![
                    dependency("beta", "=0.4.1", DependencyKind::Development),
                    // a second declaration that resolves to the same target
                    dependency("beta", "0.4", DependencyKind::Build),
                ],
            ),
            package(
                "beta 0.4.1 (registry+https://crates.example/index)",
                "beta",
                version(0, 4, 1),
                "registry+https://crates.example/index",
                vec![],
            ),
        ],
    }
}

#[test]
fn matches_ignoring_source() {
    let metadata = sample_metadata();
    let dep = dependency("alpha", "^1.0", DependencyKind::Normal);

    // against the root's own identity: name does not match
    let root_id = PackageId { repr: "root 1.0.0 (path+file:///srv/root)".to_string() };
    assert_eq!(dep.matches_ignoring_source(&metadata, &root_id), Some(false));

    // against alpha's identity: name matches, 1.2.3 satisfies ^1.0
    let alpha_id = PackageId {
        repr: "alpha 1.2.3 (registry+https://crates.example/index)".to_string(),
    };
    assert_eq!(dep.matches_ignoring_source(&metadata, &alpha_id), Some(true));

    // an identity absent from the catalog cannot be determined at all
    let unknown = PackageId { repr: "missing 0.0.0 (registry+left)".to_string() };
    assert_eq!(dep.matches_ignoring_source(&metadata, &unknown), None);
}

#[test]
fn matches_ignoring_source_ignores_provenance() {
    // two catalogs that differ only in alpha's provenance reconcile alike
    let mut with_git = sample_metadata();
    with_git.packages[1].id = PackageId { repr: "alpha 1.2.3 (git+https://example/alpha)".to_string() };
    with_git.packages[1].source = "git+https://example/alpha".to_string();

    let dep = dependency("alpha", "^1.0", DependencyKind::Normal);
    let registry_id = PackageId {
        repr: "alpha 1.2.3 (registry+https://crates.example/index)".to_string(),
    };
    let git_id = PackageId { repr: "alpha 1.2.3 (git+https://example/alpha)".to_string() };

    assert_eq!(dep.matches_ignoring_source(&sample_metadata(), &registry_id), Some(true));
    assert_eq!(dep.matches_ignoring_source(&with_git, &git_id), Some(true));
}

#[test]
fn version_requirement_decides_match() {
    let metadata = sample_metadata();
    let alpha_id = PackageId {
        repr: "alpha 1.2.3 (registry+https://crates.example/index)".to_string(),
    };
    let too_new = dependency("alpha", "^2.0", DependencyKind::Normal);
    assert_eq!(too_new.matches_ignoring_source(&metadata, &alpha_id), Some(false));
    let exact = dependency("alpha", "=1.2.3", DependencyKind::Normal);
    assert_eq!(exact.matches_ignoring_source(&metadata, &alpha_id), Some(true));
}

#[test]
fn deps_not_replaced_test() {
    let metadata = sample_metadata();
    let alpha_id = PackageId {
        repr: "alpha 1.2.3 (registry+https://crates.example/index)".to_string(),
    };
    // both declarations of beta collapse to one target identity
    let targets = metadata.deps_not_replaced(&alpha_id).unwrap();
    assert_eq!(targets.len(), 1);
    assert_eq!(
        targets[0].repr,
        "beta 0.4.1 (registry+https://crates.example/index)".to_string()
    );

    // a leaf has no targets
    let beta_id = PackageId { repr: "beta 0.4.1 (registry+https://crates.example/index)".to_string() };
    assert_eq!(metadata.deps_not_replaced(&beta_id).unwrap().len(), 0);

    // an unknown identity is a hard lookup miss
    let unknown = PackageId { repr: "missing 0.0.0 (registry+left)".to_string() };
    assert!(metadata.deps_not_replaced(&unknown).is_none());
}

#[test]
fn to_cargo_metadata_package_id_resolves_first_match() {
    let metadata = sample_metadata();
    let dep = dependency("beta", "0.4", DependencyKind::Normal);
    let resolved = dep.to_cargo_metadata_package_id(&metadata).unwrap();
    assert_eq!(
        resolved.repr,
        "beta 0.4.1 (registry+https://crates.example/index)".to_string()
    );
    let unsatisfied = dependency("beta", "^1.0", DependencyKind::Normal);
    assert!(unsatisfied.to_cargo_metadata_package_id(&metadata).is_none());
}

#[test]
fn to_cargo_geiger_package_id_test() {
    let metadata = sample_metadata();
    let root_id = PackageId { repr: "root 1.0.0 (path+file:///srv/root)".to_string() };
    let geiger_id = root_id.to_cargo_geiger_package_id(&metadata).unwrap();
    assert_eq!(geiger_id.name, "root".to_string());
    assert_eq!(geiger_id.version.major, 1);
    assert_eq!(geiger_id.version.minor, 0);
    assert_eq!(geiger_id.version.patch, 0);
    assert_eq!(geiger_id.source, "path+file:///srv/root".to_string());

    let unknown = PackageId { repr: "missing 0.0.0 (registry+left)".to_string() };
    assert!(unknown.to_cargo_geiger_package_id(&metadata).is_none());
}

#[test]
fn to_cargo_geiger_dependency_kind() {
    assert_eq!(
        DependencyKind::Normal.to_cargo_geiger_dependency_kind(),
        Some(GeigerDependencyKind::Normal)
    );
    assert_eq!(
        DependencyKind::Build.to_cargo_geiger_dependency_kind(),
        Some(GeigerDependencyKind::Build)
    );
    assert_eq!(
        DependencyKind::Development.to_cargo_geiger_dependency_kind(),
        Some(GeigerDependencyKind::Development)
    );
    assert_eq!(DependencyKind::Unknown.to_cargo_geiger_dependency_kind(), None);
}

#[test]
fn get_metadata_packages_exposes_catalog() {
    let metadata = sample_metadata();
    let packages = metadata.get_metadata_packages();
    assert_eq!(packages.len(), 3);
    assert_eq!(packages[0].name, "root".to_string());
}

#[test]
fn pre_release_versions_match_only_matching_requirements() {
    let metadata = Metadata {
        packages: vec![package(
            "gamma 2.0.0-beta.2 (registry+https://crates.example/index)",
            "gamma",
            Version { major: 2, minor: 0, patch: 0, pre: "beta.2".to_string() },
            "registry+https://crates.example/index",
            vec![],
        )],
    };
    let gamma_id = PackageId {
        repr: "gamma 2.0.0-beta.2 (registry+https://crates.example/index)".to_string(),
    };
    // an ordinary requirement does not admit a pre-release
    let plain = dependency("gamma", "^2.0", DependencyKind::Normal);
    assert_eq!(plain.matches_ignoring_source(&metadata, &gamma_id), Some(false));
    // a requirement that names the pre-release does
    let pre = dependency("gamma", "^2.0.0-beta", DependencyKind::Normal);
    assert_eq!(pre.matches_ignoring_source(&metadata, &gamma_id), Some(true));
}
