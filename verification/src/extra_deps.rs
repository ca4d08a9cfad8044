//! The inclusion policy's dependency-kind axis, and the resolution of the
//! caller's flags into a policy mode and a target selection.

use vstd::prelude::*;
use crate::ident::DependencyKind;

verus! {

/// Which dependency kinds are admitted into the graph. Selection of a mode is
/// mutually exclusive; see `build_graph_prerequisites`.
#[derive(Clone, Copy, PartialEq, Eq, Structural, Debug)]
pub enum ExtraDeps {
    /// Every kind is admitted, recognised or not.
    All,
    /// Nothing beyond the root node itself is admitted.
    NoMore,
    /// Normal, build and development dependencies are admitted.
    Dev,
    /// Normal and build dependencies are admitted (the default).
    Build,
}

impl ExtraDeps {
    /// The admission table of the dependency-kind axis.
    pub open spec fn spec_allows(self, kind: DependencyKind) -> bool {
        match self {
            ExtraDeps::All => true,
            ExtraDeps::NoMore => false,
            ExtraDeps::Dev => kind == DependencyKind::Normal || kind == DependencyKind::Build
                || kind == DependencyKind::Development,
            ExtraDeps::Build => kind == DependencyKind::Normal || kind == DependencyKind::Build,
        }
    }

    /// Decide whether a dependency of the given kind is admitted under this
    /// policy mode.
    pub fn allows(&self, kind: DependencyKind) -> (r: bool)
        ensures
            r == self.spec_allows(kind),
    {
        match self {
            ExtraDeps::All => true,
            ExtraDeps::NoMore => false,
            ExtraDeps::Dev => match kind {
                DependencyKind::Unknown => false,
                _ => true,
            },
            ExtraDeps::Build => match kind {
                DependencyKind::Normal => true,
                DependencyKind::Build => true,
                _ => false,
            },
        }
    }
}

/// Law: the four policy modes form a strictly increasing admission chain,
/// `NoMore` admitting strictly less than `Build`, `Build` strictly less than
/// `Dev`, and `Dev` strictly less than `All`.
pub proof fn lemma_extra_deps_admission_chain()
    ensures
        forall|k: DependencyKind|
            ExtraDeps::NoMore.spec_allows(k) ==> ExtraDeps::Build.spec_allows(k),
        forall|k: DependencyKind| ExtraDeps::Build.spec_allows(k) ==> ExtraDeps::Dev.spec_allows(k),
        forall|k: DependencyKind| ExtraDeps::Dev.spec_allows(k) ==> ExtraDeps::All.spec_allows(k),
        exists|k: DependencyKind|
            !ExtraDeps::NoMore.spec_allows(k) && ExtraDeps::Build.spec_allows(k),
        exists|k: DependencyKind| !ExtraDeps::Build.spec_allows(k) && ExtraDeps::Dev.spec_allows(k),
        exists|k: DependencyKind| !ExtraDeps::Dev.spec_allows(k) && ExtraDeps::All.spec_allows(k),
{
    assert(!ExtraDeps::NoMore.spec_allows(DependencyKind::Normal) && ExtraDeps::Build.spec_allows(
        DependencyKind::Normal,
    ));
    assert(!ExtraDeps::Build.spec_allows(DependencyKind::Development)
        && ExtraDeps::Dev.spec_allows(DependencyKind::Development));
    assert(!ExtraDeps::Dev.spec_allows(DependencyKind::Unknown) && ExtraDeps::All.spec_allows(
        DependencyKind::Unknown,
    ));
}

/// The caller's flags on the dependency-kind axis.
#[derive(Clone, PartialEq, Eq, Structural, Debug)]
pub struct DepsArgs {
    pub all_deps: bool,
    pub no_deps: bool,
    pub dev_deps: bool,
}

impl Default for DepsArgs {
    /// All flags off, which resolves to the `Build` mode.
    fn default() -> (r: Self)
        ensures
            r == (DepsArgs { all_deps: false, no_deps: false, dev_deps: false }),
    {
        DepsArgs { all_deps: false, no_deps: false, dev_deps: false }
    }
}

/// The caller's flags on the platform axis: either every target is admitted,
/// or one target triple is selected (explicitly, or later defaulted to the
/// host's own triple).
#[derive(Clone, PartialEq, Eq, Debug)]
pub struct TargetArgs {
    pub all_targets: bool,
    pub target: Option<String>,
}

impl Default for TargetArgs {
    /// All-targets mode off and no explicit triple, which resolves to the
    /// host's own triple.
    fn default() -> (r: Self)
        ensures
            r.all_targets == false,
            r.target is None,
    {
        TargetArgs { all_targets: false, target: None }
    }
}

/// The policy mode that a flag set resolves to: the first set flag wins, in
/// the order `All`, `NoMore`, `Dev`; with no flag set the mode is `Build`.
pub open spec fn spec_extra_deps_of_args(deps_args: DepsArgs) -> ExtraDeps {
    if deps_args.all_deps {
        ExtraDeps::All
    } else if deps_args.no_deps {
        ExtraDeps::NoMore
    } else if deps_args.dev_deps {
        ExtraDeps::Dev
    } else {
        ExtraDeps::Build
    }
}

/// Resolve the caller's flags into a policy mode and a target selection.
/// `None` for the target means every target is admitted; otherwise the
/// explicitly requested triple is used, and the host's own triple where none
/// was requested.
pub fn build_graph_prerequisites(
    config_host: &str,
    deps_args: &DepsArgs,
    target_args: &TargetArgs,
) -> (r: (ExtraDeps, Option<String>))
    ensures
        r.0 == spec_extra_deps_of_args(*deps_args),
        target_args.all_targets ==> r.1 is None,
        !target_args.all_targets ==> match target_args.target {
            Some(t) => r.1 matches Some(chosen) && chosen@ == t@,
            None => r.1 matches Some(chosen) && chosen@ == config_host@,
        },
{
    let extra_deps = if deps_args.all_deps {
        ExtraDeps::All
    } else if deps_args.no_deps {
        ExtraDeps::NoMore
    } else if deps_args.dev_deps {
        ExtraDeps::Dev
    } else {
        ExtraDeps::Build
    };

    let target = if target_args.all_targets {
        None
    } else {
        match &target_args.target {
            Some(t) => Some(t.clone()),
            None => Some(config_host.to_owned()),
        }
    };

    (extra_deps, target)
}

} // verus!
