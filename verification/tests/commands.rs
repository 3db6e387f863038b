use ai_memory::reset::{
    begin_reset, refusal_message, sibling_processes, would_remove, ProcessEntry, ResetError,
    ResetMode, ResetState, SubdirAction, BIN_NAME, DRY_RUN_NOTE, SUBDIR_COUNT,
};
use ai_memory::watch::{store_context, WatchStep};

fn row(pid: u32, is_thread: bool) -> ProcessEntry {
    ProcessEntry { pid, is_thread }
}

#[test]
fn siblings_are_other_process_leaders() {
    let table = [row(7, false), row(8, true), row(3, false), row(9, false), row(3, true)];
    assert_eq!(sibling_processes(&table, 7), vec![3, 9]);
    assert_eq!(sibling_processes(&table, 1), vec![7, 3, 9]);
    assert!(sibling_processes(&[row(7, false), row(8, true)], 7).is_empty());
    assert_eq!(BIN_NAME, "ai-memory");
}

#[test]
fn a_reset_is_refused_while_siblings_run() {
    for confirm in [false, true] {
        assert_eq!(
            begin_reset::<String>(&[12, 3400, 0], confirm),
            Err("refusing to reset: 3 other ai-memory process(es) running (pids: [12, 3400, 0]). \
                 Stop them first, then re-run."
                .to_string())
        );
    }
    let pids: Vec<u32> = vec![4_294_967_295];
    assert_eq!(
        refusal_message(&pids),
        format!(
            "refusing to reset: {} other ai-memory process(es) running (pids: {:?}). Stop them \
             first, then re-run.",
            pids.len(),
            pids
        )
    );
}

fn run(
    confirm: bool,
    existing: [bool; 3],
    failing: Option<&'static str>,
) -> (Vec<(&'static str, SubdirAction)>, ResetState<String>) {
    let mut state: ResetState<String> = begin_reset(&[], confirm).unwrap();
    let mut out = Vec::new();
    while let Some(name) = state.subdir() {
        let action = state.step(existing[out.len()]);
        out.push((name, action));
        state.record(if failing == Some(name) {
            Err(format!("cannot remove {name}"))
        } else {
            Ok(())
        });
    }
    (out, state)
}

#[test]
fn a_dry_run_only_reports_and_ends_in_an_error() {
    let (actions, state) = run(false, [true, false, true], None);
    assert_eq!(
        actions,
        vec![
            ("wiki", SubdirAction::Report),
            ("db", SubdirAction::Leave),
            ("raw", SubdirAction::Report),
        ]
    );
    assert_eq!(state.mode, ResetMode::DryRun);
    assert_eq!(state.next, SUBDIR_COUNT);
    assert_eq!(state.outcome(), Err(ResetError::Unconfirmed(DRY_RUN_NOTE)));
    assert_eq!(would_remove("/data/wiki"), "would remove /data/wiki");
    assert_eq!(DRY_RUN_NOTE, "(dry-run; pass --confirm to wipe)");
}

#[test]
fn a_confirmed_run_recreates_what_exists() {
    let (actions, state) = run(true, [true, true, false], None);
    assert_eq!(
        actions,
        vec![
            ("wiki", SubdirAction::Recreate),
            ("db", SubdirAction::Recreate),
            ("raw", SubdirAction::Leave),
        ]
    );
    assert_eq!(state.next, SUBDIR_COUNT);
    assert_eq!(state.outcome(), Ok(()));
}

#[test]
fn a_failed_removal_ends_the_run_and_leaves_the_rest_alone() {
    let (actions, mut state) = run(true, [true, true, true], Some("db"));
    assert_eq!(
        actions,
        vec![
            ("wiki", SubdirAction::Recreate),
            ("db", SubdirAction::Recreate),
        ]
    );
    assert_eq!(state.next, 1);
    state.record(Ok(()));
    assert_eq!(state.next, 1);
    assert_eq!(state.subdir(), None);
    assert_eq!(state.step(true), SubdirAction::Leave);
    assert_eq!(
        state.outcome(),
        Err(ResetError::Failed("cannot remove db".to_string()))
    );
}

#[test]
fn watch_steps_follow_in_order() {
    let order = [
        WatchStep::OpenStore,
        WatchStep::EnsureWorkspace,
        WatchStep::EnsureProject,
        WatchStep::OpenWiki,
        WatchStep::StartWatcher,
        WatchStep::AwaitInterrupt,
        WatchStep::Shutdown,
        WatchStep::Done,
    ];
    for pair in order.windows(2) {
        assert_eq!(pair[0].after(true), pair[1]);
        assert_eq!(pair[0].after(false), WatchStep::Failed);
    }
    for ok in [false, true] {
        assert_eq!(WatchStep::Done.after(ok), WatchStep::Done);
        assert_eq!(WatchStep::Failed.after(ok), WatchStep::Failed);
    }
    assert_eq!(store_context("/data"), "opening store at /data");
}
