use cargo_geiger::custom_executor::{
    CustomExecutor, CustomExecutorError, CustomExecutorInnerContext,
};

fn executor() -> CustomExecutor {
    CustomExecutor { cwd: "/work".to_string() }
}

fn args(list: &[&str]) -> Vec<String> {
    list.iter().map(|s| s.to_string()).collect()
}

#[test]
fn plan_extracts_out_dir_cwd_and_sources() {
    let executor = executor();
    let command = args(&[
        "rustc",
        "--crate-name",
        "demo",
        "src/lib.rs",
        "--out-dir",
        "/work/target/debug/deps",
        "build.RS",
        "README.md",
    ]);
    let plan = executor.plan_invocation(&command, &None).unwrap();
    assert_eq!(plan.out_dir, "/work/target/debug/deps".to_string());
    assert_eq!(plan.cwd, "/work".to_string());
    assert_eq!(
        plan.rs_file_args,
        vec!["src/lib.rs".to_string(), "build.RS".to_string()]
    );
}

#[test]
fn plan_prefers_the_command_own_working_directory() {
    let executor = executor();
    let command = args(&["rustc", "--out-dir", "out", "main.rs"]);
    let plan = executor
        .plan_invocation(&command, &Some("/elsewhere".to_string()))
        .unwrap();
    assert_eq!(plan.cwd, "/elsewhere".to_string());
}

#[test]
fn missing_out_dir_flag_is_fatal_and_names_the_command() {
    let executor = executor();
    let command = args(&["rustc", "--crate-name", "demo", "src/lib.rs"]);
    let mut context = CustomExecutorInnerContext::default();
    match executor.plan_invocation(&command, &None) {
        Err(CustomExecutorError::OutDirKeyMissing(message)) => {
            assert_eq!(message, "rustc --crate-name demo src/lib.rs".to_string());
        }
        other => panic!("expected a missing-out-dir error, got {:?}", other.is_ok()),
    }
    // nothing was recorded for the failed invocation
    assert!(context.rs_file_args.is_empty());
    assert!(context.out_dir_args.is_empty());
    context.insert_out_dir("later".to_string());
    assert_eq!(context.out_dir_args.len(), 1);
}

#[test]
fn out_dir_flag_without_value_is_fatal() {
    let executor = executor();
    let command = args(&["rustc", "lib.rs", "--out-dir"]);
    match executor.plan_invocation(&command, &None) {
        Err(CustomExecutorError::OutDirValueMissing(message)) => {
            assert_eq!(message, "rustc lib.rs --out-dir".to_string());
        }
        _ => panic!("expected a missing-out-dir-value error"),
    }
}

#[test]
fn concurrent_invocations_accumulate_into_sets() {
    // two invocations, each with one distinct source file, share one output
    // directory; the order the records land in does not matter
    let mut context = CustomExecutorInnerContext::default();
    context.record(
        &vec!["/work/src/a.rs".to_string()],
        "/work/target/debug/deps".to_string(),
    );
    context.record(
        &vec!["/work/src/b.rs".to_string()],
        "/work/target/debug/deps".to_string(),
    );

    let mut reversed = CustomExecutorInnerContext::default();
    reversed.record(
        &vec!["/work/src/b.rs".to_string()],
        "/work/target/debug/deps".to_string(),
    );
    reversed.record(
        &vec!["/work/src/a.rs".to_string()],
        "/work/target/debug/deps".to_string(),
    );

    for ctx in [&context, &reversed] {
        let mut files = ctx.rs_file_args.clone();
        files.sort();
        assert_eq!(
            files,
            vec!["/work/src/a.rs".to_string(), "/work/src/b.rs".to_string()]
        );
        assert_eq!(ctx.out_dir_args, vec!["/work/target/debug/deps".to_string()]);
    }
}

#[test]
fn repeated_paths_are_not_duplicated() {
    let mut context = CustomExecutorInnerContext::default();
    context.insert_rs_file("/work/src/a.rs".to_string());
    context.insert_rs_file("/work/src/a.rs".to_string());
    context.insert_out_dir("/out".to_string());
    context.insert_out_dir("/out".to_string());
    assert_eq!(context.rs_file_args, vec!["/work/src/a.rs".to_string()]);
    assert_eq!(context.out_dir_args, vec!["/out".to_string()]);
}

#[test]
fn force_rebuild_reports_every_unit_out_of_date() {
    assert!(executor().force_rebuild());
}
