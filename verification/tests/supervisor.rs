use freshgit::classifier::Classifier;
use freshgit::supervisor::{
    git_clone, git_fetch, invocation_for, supervise, Invocation, Phase, Supervisor,
};
use freshgit::work::{Credentials, ProcessOutcome, WorkItem};

fn credentials() -> Credentials {
    Credentials {
        username: "alice".to_string(),
        password: "secret".to_string(),
        ssh_askpass_program: "/usr/bin/askpass".to_string(),
    }
}

fn envs() -> Vec<(String, String)> {
    vec![
        ("GIT_USERNAME".to_string(), "alice".to_string()),
        ("GIT_PASSWORD".to_string(), "secret".to_string()),
        ("SSH_ASKPASS".to_string(), "/usr/bin/askpass".to_string()),
        ("GIT_ASKPASS".to_string(), "/usr/bin/askpass".to_string()),
    ]
}

fn lines(texts: &[&str]) -> Vec<String> {
    texts.iter().map(|t| t.to_string()).collect()
}

#[test]
fn authentication_failure_kills_the_tracked_process_before_the_stream_ends() {
    let output = lines(&[
        "Cloning into 'repo'...",
        "fatal: Authentication failed",
        "one more line",
        "and another",
    ]);
    let (outcome, killed_at) = supervise(4242, &output, &Classifier::standard());
    assert_eq!(outcome, ProcessOutcome::Failed("fatal".to_string()));
    assert_eq!(killed_at, Some(1));
    assert!(killed_at.unwrap() < output.len());
}

#[test]
fn the_kill_names_the_process_that_was_spawned() {
    let standard = Classifier::standard();
    let mut supervisor = Supervisor::spawned(4242);
    assert_eq!(supervisor.pid(), 4242);
    assert_eq!(supervisor.on_line("Cloning into 'repo'...", &standard), None);
    assert_eq!(supervisor.on_line("fatal: Authentication failed", &standard), Some(4242));
}

#[test]
fn the_kill_is_ordered_once() {
    let standard = Classifier::standard();
    let mut supervisor = Supervisor::spawned(7);
    assert_eq!(supervisor.on_line("error: first", &standard), Some(7));
    assert_eq!(supervisor.on_line("error: second", &standard), None);
    assert_eq!(supervisor.on_line("fatal: third", &standard), None);
    supervisor.on_exit();
    assert_eq!(supervisor.report(), Some(ProcessOutcome::Failed("error".to_string())));
}

#[test]
fn the_first_failing_line_gives_the_marker() {
    let output = lines(&["ok", "request denied: fatal", "error: later"]);
    let (outcome, killed_at) = supervise(1, &output, &Classifier::standard());
    assert_eq!(outcome, ProcessOutcome::Failed("denied".to_string()));
    assert_eq!(killed_at, Some(1));
}

#[test]
fn an_exit_without_failing_line_is_completion() {
    let output = lines(&["Cloning into 'repo'...", "Receiving objects: 100%", "done."]);
    let (outcome, killed_at) = supervise(1, &output, &Classifier::standard());
    assert_eq!(outcome, ProcessOutcome::Completed);
    assert_eq!(killed_at, None);
}

#[test]
fn an_exit_without_any_output_is_completion() {
    let (outcome, killed_at) = supervise(1, &Vec::new(), &Classifier::standard());
    assert_eq!(outcome, ProcessOutcome::Completed);
    assert_eq!(killed_at, None);
}

#[test]
fn the_phases_follow_the_life_of_the_subprocess() {
    let standard = Classifier::standard();
    let mut supervisor = Supervisor::spawned(9);
    assert_eq!(supervisor.phase(), Phase::Spawned);
    supervisor.on_line("working", &standard);
    assert_eq!(supervisor.phase(), Phase::Streaming);
    supervisor.on_line("still working", &standard);
    assert_eq!(supervisor.phase(), Phase::Streaming);
    supervisor.on_line("fatal: no", &standard);
    assert_eq!(supervisor.phase(), Phase::Killed);
    supervisor.on_line("drained", &standard);
    assert_eq!(supervisor.phase(), Phase::Killed);
    supervisor.on_exit();
    assert_eq!(supervisor.phase(), Phase::Killed);
    assert_eq!(supervisor.report(), Some(ProcessOutcome::Failed("fatal".to_string())));
    assert_eq!(supervisor.phase(), Phase::Reported);
    assert_eq!(supervisor.conclude(), ProcessOutcome::Failed("fatal".to_string()));
}

#[test]
fn a_quiet_subprocess_is_reported_as_completed() {
    let standard = Classifier::standard();
    let mut supervisor = Supervisor::spawned(9);
    assert_eq!(supervisor.report(), None);
    assert_eq!(supervisor.phase(), Phase::Spawned);
    supervisor.on_exit();
    assert_eq!(supervisor.phase(), Phase::Completed);
    assert_eq!(supervisor.on_line("fatal: too late", &standard), None);
    assert_eq!(supervisor.phase(), Phase::Completed);
    assert_eq!(supervisor.report(), Some(ProcessOutcome::Completed));
    assert_eq!(supervisor.phase(), Phase::Reported);
    assert_eq!(supervisor.report(), None);
    supervisor.on_exit();
    assert_eq!(supervisor.phase(), Phase::Reported);
    assert_eq!(supervisor.conclude(), ProcessOutcome::Completed);
}

#[test]
fn a_report_before_the_exit_of_a_running_subprocess_gives_nothing() {
    let standard = Classifier::standard();
    let mut supervisor = Supervisor::spawned(9);
    supervisor.on_line("working", &standard);
    assert_eq!(supervisor.report(), None);
    assert_eq!(supervisor.phase(), Phase::Streaming);
}

#[test]
fn a_kill_can_be_reported_before_the_exit() {
    let standard = Classifier::standard();
    let mut supervisor = Supervisor::spawned(9);
    assert_eq!(supervisor.on_line("Permission denied", &standard), Some(9));
    assert_eq!(supervisor.report(), Some(ProcessOutcome::Failed("denied".to_string())));
    assert_eq!(supervisor.phase(), Phase::Reported);
}

#[test]
fn an_outcome_is_copied_as_it_is() {
    for outcome in [
        ProcessOutcome::Completed,
        ProcessOutcome::Failed("fatal".to_string()),
        ProcessOutcome::Skipped(freshgit::work::SkipReason::AlreadyPresent),
    ] {
        assert_eq!(outcome.duplicate(), outcome);
    }
}

#[test]
fn a_replaced_vocabulary_decides_the_kill() {
    let custom = Classifier::new(&lines(&["timeout"]));
    let output = lines(&["fatal: ignored here", "connect: timeout"]);
    let (outcome, killed_at) = supervise(3, &output, &custom);
    assert_eq!(outcome, ProcessOutcome::Failed("timeout".to_string()));
    assert_eq!(killed_at, Some(1));
}

#[test]
fn a_clone_is_invoked_with_locator_and_destination() {
    let invocation = git_clone("https://example.com/o/r.git", "/srv/o/r", &credentials());
    assert_eq!(
        invocation,
        Invocation {
            program: "git".to_string(),
            args: lines(&["clone", "--recursive", "https://example.com/o/r.git", "/srv/o/r"]),
            envs: envs(),
            working_dir: None,
        }
    );
}

#[test]
fn a_fetch_is_invoked_in_the_parent_of_the_checkout() {
    let invocation = git_fetch("/srv/src/repo", &credentials());
    assert_eq!(
        invocation,
        Invocation {
            program: "git".to_string(),
            args: lines(&["fetch", "--all", "--tags", "--auto-gc"]),
            envs: envs(),
            working_dir: Some("/srv/src".to_string()),
        }
    );
}

#[test]
fn empty_credentials_are_handed_on_as_they_are() {
    let empty = Credentials {
        username: String::new(),
        password: String::new(),
        ssh_askpass_program: String::new(),
    };
    let invocation = git_fetch("a/b", &empty);
    assert_eq!(
        invocation.envs,
        vec![
            ("GIT_USERNAME".to_string(), String::new()),
            ("GIT_PASSWORD".to_string(), String::new()),
            ("SSH_ASKPASS".to_string(), String::new()),
            ("GIT_ASKPASS".to_string(), String::new()),
        ]
    );
    assert_eq!(invocation.working_dir, Some("a".to_string()));
}

#[test]
fn the_invocation_goes_by_the_kind_of_the_item() {
    let clone = WorkItem::Clone {
        remote_locator: "https://example.com/o/r.git".to_string(),
        destination_path: "/srv/o/r".to_string(),
    };
    assert_eq!(
        invocation_for(&clone, &credentials()),
        git_clone("https://example.com/o/r.git", "/srv/o/r", &credentials())
    );
    let fetch = WorkItem::Fetch { local_checkout_path: "/srv/o/r".to_string() };
    assert_eq!(invocation_for(&fetch, &credentials()), git_fetch("/srv/o/r", &credentials()));
}

#[test]
fn a_fetch_into_a_checkout_without_parent_runs_in_the_callers_directory() {
    assert_eq!(git_fetch("repo", &credentials()).working_dir, None);
    assert_eq!(git_fetch("", &credentials()).working_dir, None);
    assert_eq!(git_fetch("/repo", &credentials()).working_dir, Some("/".to_string()));
    assert_eq!(git_fetch("a/repo", &credentials()).working_dir, Some("a".to_string()));
}
