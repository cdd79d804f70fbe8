use freshgit::classifier::Classifier;
use freshgit::executor::{Action, Executor, Job, Verdict};
use freshgit::supervisor::git_clone;
use freshgit::work::{Credentials, ExecutionMode, ProcessOutcome, SkipReason, WorkItem};

fn credentials() -> Credentials {
    Credentials {
        username: "git".to_string(),
        password: "pass".to_string(),
        ssh_askpass_program: "pass".to_string(),
    }
}

fn clones(n: usize) -> Vec<WorkItem> {
    (0..n)
        .map(|i| WorkItem::Clone {
            remote_locator: format!("https://example.com/o/r{}.git", i),
            destination_path: format!("/srv/o/r{}", i),
        })
        .collect()
}

fn fetches(n: usize) -> Vec<WorkItem> {
    (0..n).map(|i| WorkItem::Fetch { local_checkout_path: format!("/srv/o/r{}", i) }).collect()
}

fn executor(items: Vec<WorkItem>, mode: ExecutionMode) -> Executor {
    Executor::new(items, mode, credentials(), Classifier::standard()).unwrap()
}

fn live(executor: &Executor) -> usize {
    (0..executor.len())
        .filter(|&i| matches!(executor.job(i), Some(Job::Spawning) | Some(Job::Running(_))))
        .count()
}

/// Takes up items until the executor waits; answers every probe of a clone
/// with "absent" and starts the subprocess as process `100 + index`.
fn fill(executor: &mut Executor, started: &mut Vec<usize>) -> Action {
    loop {
        match executor.next_action() {
            Action::Probe { index } => match executor.on_probed(index, false) {
                Verdict::Spawn(_) => {
                    executor.on_spawned(index, 100 + index as u32);
                    started.push(index);
                }
                other => panic!("{:?}", other),
            },
            other => return other,
        }
    }
}

#[test]
fn a_mode_without_room_gives_no_executor() {
    let made = Executor::new(clones(2), ExecutionMode::Bounded(0), credentials(), Classifier::standard());
    assert!(made.is_none());
    assert!(Executor::new(clones(2), ExecutionMode::Bounded(1), credentials(), Classifier::standard()).is_some());
    assert!(Executor::new(clones(2), ExecutionMode::Sequential, credentials(), Classifier::standard()).is_some());
}

#[test]
fn capacity_goes_by_the_mode() {
    assert_eq!(ExecutionMode::Sequential.capacity(), 1);
    assert_eq!(ExecutionMode::Bounded(7).capacity(), 7);
    assert_eq!(ExecutionMode::from_async(true), ExecutionMode::Bounded(32));
    assert_eq!(ExecutionMode::from_async(false), ExecutionMode::Sequential);
    assert_eq!(executor(clones(1), ExecutionMode::Bounded(7)).capacity(), 7);
    assert_eq!(executor(clones(1), ExecutionMode::Sequential).capacity(), 1);
}

#[test]
fn a_new_executor_has_every_item_queued() {
    let e = executor(clones(3), ExecutionMode::Bounded(2));
    assert_eq!(e.len(), 3);
    for i in 0..3 {
        assert_eq!(e.job(i), Some(&Job::Queued));
        assert_eq!(e.outcome(i), None);
        assert_eq!(e.item(i), Some(&clones(3)[i]));
    }
    assert_eq!(e.job(3), None);
    assert_eq!(e.item(3), None);
    assert_eq!(e.in_progress(), 0);
}

#[test]
fn an_empty_batch_is_over_at_once() {
    let mut e = executor(Vec::new(), ExecutionMode::Bounded(4));
    assert_eq!(e.next_action(), Action::Done);
    assert_eq!(e.next_action(), Action::Done);
}

#[test]
fn never_more_subprocesses_live_than_the_pool_has_room_for() {
    let k = 3;
    let n = 8;
    let mut e = executor(clones(n), ExecutionMode::Bounded(k));
    let mut started = Vec::new();
    let mut ended = 0;
    loop {
        let action = fill(&mut e, &mut started);
        assert!(live(&e) <= k);
        assert!(e.in_progress() <= k);
        if action == Action::Done {
            break;
        }
        assert_eq!(action, Action::Wait);
        assert_eq!(live(&e), k.min(n - ended));
        // the subprocess that was started last exits first
        let index = started.pop().unwrap();
        e.on_exit(index);
        ended += 1;
        assert!(live(&e) < k);
    }
    assert_eq!(ended, n);
    for i in 0..n {
        assert_eq!(e.outcome(i), Some(&ProcessOutcome::Completed));
    }
}

#[test]
fn a_freed_place_is_filled_by_the_next_item() {
    let mut e = executor(clones(4), ExecutionMode::Bounded(2));
    let mut started = Vec::new();
    assert_eq!(fill(&mut e, &mut started), Action::Wait);
    assert_eq!(started, vec![0, 1]);
    e.on_exit(0);
    assert_eq!(e.next_action(), Action::Probe { index: 2 });
}

#[test]
fn in_sequential_mode_an_item_waits_for_the_one_before_it() {
    let n = 4;
    let mut e = executor(clones(n), ExecutionMode::Sequential);
    for i in 0..n {
        assert_eq!(e.next_action(), Action::Probe { index: i });
        // while item i is probed, spawned or running, nothing else is taken up
        assert_eq!(e.next_action(), Action::Wait);
        assert!(matches!(e.on_probed(i, false), Verdict::Spawn(_)));
        assert_eq!(e.next_action(), Action::Wait);
        e.on_spawned(i, 500 + i as u32);
        assert_eq!(e.next_action(), Action::Wait);
        assert_eq!(e.on_line(i, "Receiving objects"), None);
        assert_eq!(e.next_action(), Action::Wait);
        for later in i + 1..n {
            assert_eq!(e.job(later), Some(&Job::Queued));
        }
        for earlier in 0..i {
            assert!(matches!(e.job(earlier), Some(Job::Done(_))));
        }
        e.on_exit(i);
    }
    assert_eq!(e.next_action(), Action::Done);
}

#[test]
fn in_sequential_mode_a_killed_subprocess_holds_its_place_until_it_exits() {
    let mut e = executor(clones(2), ExecutionMode::Sequential);
    assert_eq!(e.next_action(), Action::Probe { index: 0 });
    assert!(matches!(e.on_probed(0, false), Verdict::Spawn(_)));
    e.on_spawned(0, 77);
    assert_eq!(e.on_line(0, "fatal: Authentication failed"), Some(77));
    assert_eq!(e.next_action(), Action::Wait);
    assert_eq!(e.on_line(0, "error: more"), None);
    assert_eq!(e.next_action(), Action::Wait);
    e.on_exit(0);
    assert_eq!(e.outcome(0), Some(&ProcessOutcome::Failed("fatal".to_string())));
    assert_eq!(e.next_action(), Action::Probe { index: 1 });
}

#[test]
fn a_clone_whose_destination_is_present_is_skipped_without_subprocess() {
    let mut e = executor(clones(3), ExecutionMode::Bounded(2));
    let mut spawned = 0;
    loop {
        match e.next_action() {
            Action::Probe { index } => match e.on_probed(index, true) {
                Verdict::Skip => {}
                Verdict::Spawn(_) => spawned += 1,
                Verdict::Ignore => panic!("probe was asked for"),
            },
            Action::Wait => panic!("nothing runs"),
            Action::Done => break,
        }
    }
    assert_eq!(spawned, 0);
    for i in 0..3 {
        assert_eq!(e.outcome(i), Some(&ProcessOutcome::Skipped(SkipReason::AlreadyPresent)));
    }
}

#[test]
fn a_clone_whose_destination_is_absent_is_started_with_its_invocation() {
    let mut e = executor(clones(1), ExecutionMode::Sequential);
    assert_eq!(e.next_action(), Action::Probe { index: 0 });
    assert_eq!(
        e.on_probed(0, false),
        Verdict::Spawn(git_clone("https://example.com/o/r0.git", "/srv/o/r0", &credentials()))
    );
    assert_eq!(e.job(0), Some(&Job::Spawning));
}

#[test]
fn a_fetch_runs_where_its_checkout_is_present() {
    let mut e = executor(fetches(2), ExecutionMode::Bounded(2));
    assert_eq!(e.next_action(), Action::Probe { index: 0 });
    assert!(matches!(e.on_probed(0, true), Verdict::Spawn(_)));
    assert_eq!(e.next_action(), Action::Probe { index: 1 });
    assert_eq!(e.on_probed(1, false), Verdict::Skip);
    assert_eq!(e.outcome(1), Some(&ProcessOutcome::Skipped(SkipReason::MissingCheckout)));
    assert_eq!(e.in_progress(), 1);
}

#[test]
fn a_failure_of_one_item_leaves_the_others_alone() {
    let mut e = executor(clones(3), ExecutionMode::Bounded(3));
    let mut started = Vec::new();
    assert_eq!(fill(&mut e, &mut started), Action::Wait);
    assert_eq!(e.on_line(1, "remote: access denied"), Some(101));
    assert_eq!(e.on_line(0, "Receiving objects"), None);
    assert_eq!(e.on_line(2, "Resolving deltas"), None);
    e.on_exit(1);
    e.on_exit(0);
    assert_eq!(e.next_action(), Action::Wait);
    e.on_exit(2);
    assert_eq!(e.next_action(), Action::Done);
    assert_eq!(e.outcome(0), Some(&ProcessOutcome::Completed));
    assert_eq!(e.outcome(1), Some(&ProcessOutcome::Failed("denied".to_string())));
    assert_eq!(e.outcome(2), Some(&ProcessOutcome::Completed));
}

#[test]
fn the_run_is_over_only_when_every_item_has_ended() {
    let mut e = executor(clones(2), ExecutionMode::Bounded(2));
    let mut started = Vec::new();
    assert_eq!(fill(&mut e, &mut started), Action::Wait);
    e.on_exit(0);
    assert_eq!(e.next_action(), Action::Wait);
    e.on_exit(1);
    assert_eq!(e.next_action(), Action::Done);
}

#[test]
fn what_was_not_called_for_changes_nothing() {
    let mut e = executor(clones(2), ExecutionMode::Bounded(2));
    assert_eq!(e.on_probed(0, false), Verdict::Ignore);
    assert_eq!(e.on_probed(9, false), Verdict::Ignore);
    e.on_spawned(0, 1);
    e.on_spawned(9, 1);
    assert_eq!(e.on_line(0, "fatal: x"), None);
    assert_eq!(e.on_line(9, "fatal: x"), None);
    e.on_exit(0);
    e.on_exit(9);
    assert_eq!(e.job(0), Some(&Job::Queued));
    assert_eq!(e.job(1), Some(&Job::Queued));
    assert_eq!(e.in_progress(), 0);
    assert_eq!(e.next_action(), Action::Probe { index: 0 });
    e.on_spawned(0, 1);
    assert_eq!(e.job(0), Some(&Job::Probing));
    e.on_exit(0);
    assert_eq!(e.job(0), Some(&Job::Probing));
    assert!(matches!(e.on_probed(0, false), Verdict::Spawn(_)));
    assert_eq!(e.on_probed(0, false), Verdict::Ignore);
    assert_eq!(e.on_line(0, "fatal: x"), None);
    e.on_exit(0);
    assert_eq!(e.job(0), Some(&Job::Spawning));
}

#[test]
fn an_item_that_has_ended_stays_as_it_ended() {
    let mut e = executor(clones(1), ExecutionMode::Sequential);
    assert_eq!(e.next_action(), Action::Probe { index: 0 });
    assert_eq!(e.on_probed(0, true), Verdict::Skip);
    e.on_spawned(0, 5);
    assert_eq!(e.on_line(0, "fatal: x"), None);
    e.on_exit(0);
    assert_eq!(e.on_probed(0, false), Verdict::Ignore);
    assert_eq!(e.outcome(0), Some(&ProcessOutcome::Skipped(SkipReason::AlreadyPresent)));
    assert_eq!(e.next_action(), Action::Done);
}

#[test]
fn the_probed_path_goes_by_the_kind_of_the_item() {
    assert_eq!(clones(1)[0].probed_path(), "/srv/o/r0");
    assert_eq!(fetches(1)[0].probed_path(), "/srv/o/r0");
}
