use cargo_geiger::extra_deps::{build_graph_prerequisites, DepsArgs, ExtraDeps, TargetArgs};
use cargo_geiger::ident::DependencyKind;

#[test]
fn allows_matches_admission_table() {
    let kinds = [
        DependencyKind::Normal,
        DependencyKind::Build,
        DependencyKind::Development,
        DependencyKind::Unknown,
    ];
    for kind in kinds {
        assert!(ExtraDeps::All.allows(kind));
        assert!(!ExtraDeps::NoMore.allows(kind));
    }
    assert!(ExtraDeps::Build.allows(DependencyKind::Normal));
    assert!(ExtraDeps::Build.allows(DependencyKind::Build));
    assert!(!ExtraDeps::Build.allows(DependencyKind::Development));
    assert!(!ExtraDeps::Build.allows(DependencyKind::Unknown));
    assert!(ExtraDeps::Dev.allows(DependencyKind::Normal));
    assert!(ExtraDeps::Dev.allows(DependencyKind::Build));
    assert!(ExtraDeps::Dev.allows(DependencyKind::Development));
    assert!(!ExtraDeps::Dev.allows(DependencyKind::Unknown));
}

#[test]
fn admission_chain_is_strict() {
    let kinds = [
        DependencyKind::Normal,
        DependencyKind::Build,
        DependencyKind::Development,
        DependencyKind::Unknown,
    ];
    for kind in kinds {
        if ExtraDeps::NoMore.allows(kind) {
            assert!(ExtraDeps::Build.allows(kind));
        }
        if ExtraDeps::Build.allows(kind) {
            assert!(ExtraDeps::Dev.allows(kind));
        }
        if ExtraDeps::Dev.allows(kind) {
            assert!(ExtraDeps::All.allows(kind));
        }
    }
    assert!(ExtraDeps::Build.allows(DependencyKind::Normal) && !ExtraDeps::NoMore.allows(DependencyKind::Normal));
    assert!(ExtraDeps::Dev.allows(DependencyKind::Development) && !ExtraDeps::Build.allows(DependencyKind::Development));
    assert!(ExtraDeps::All.allows(DependencyKind::Unknown) && !ExtraDeps::Dev.allows(DependencyKind::Unknown));
}

#[test]
fn build_graph_prerequisites_extra_deps_test() {
    let cases = [
        (true, false, false, ExtraDeps::All),
        (false, true, false, ExtraDeps::NoMore),
        (false, false, true, ExtraDeps::Dev),
        (false, false, false, ExtraDeps::Build),
    ];
    for (all_deps, no_deps, dev_deps, expected) in cases {
        let deps_args = DepsArgs { all_deps, no_deps, dev_deps };
        let target_args = TargetArgs::default();
        let (extra_deps, _) = build_graph_prerequisites("config_host", &deps_args, &target_args);
        assert_eq!(extra_deps, expected);
    }
}

#[test]
fn build_graph_prerequisites_priority_order() {
    let deps_args = DepsArgs { all_deps: true, no_deps: true, dev_deps: true };
    let (extra_deps, _) = build_graph_prerequisites("h", &deps_args, &TargetArgs::default());
    assert_eq!(extra_deps, ExtraDeps::All);
    let deps_args = DepsArgs { all_deps: false, no_deps: true, dev_deps: true };
    let (extra_deps, _) = build_graph_prerequisites("h", &deps_args, &TargetArgs::default());
    assert_eq!(extra_deps, ExtraDeps::NoMore);
}

#[test]
fn build_graph_prerequisites_all_targets_test() {
    let host = "default_config_host";

    let target_args = TargetArgs { all_targets: true, target: None };
    let (_, target) = build_graph_prerequisites(host, &DepsArgs::default(), &target_args);
    assert_eq!(target, None);

    let target_args = TargetArgs { all_targets: false, target: None };
    let (_, target) = build_graph_prerequisites(host, &DepsArgs::default(), &target_args);
    assert_eq!(target, Some(String::from("default_config_host")));

    let target_args = TargetArgs {
        all_targets: false,
        target: Some(String::from("provided_config_host")),
    };
    let (_, target) = build_graph_prerequisites(host, &DepsArgs::default(), &target_args);
    assert_eq!(target, Some(String::from("provided_config_host")));
}
