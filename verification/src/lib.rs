//! Core of a dependency auditing tool: a policy-filtered dependency-graph
//! builder, a reconciler for package identities that two metadata providers
//! spell differently, and the bookkeeping behind a build-invocation
//! interceptor that records which source files each compile command names.

pub mod custom_executor;
pub mod extra_deps;
pub mod graph;
pub mod ident;
pub mod metadata;
