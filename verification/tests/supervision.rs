use std::collections::HashSet;

use butler::graph::generate_graph;
use butler::process::{SignalFailure, Termination, TerminationAction, TerminationReport};
use butler::protocol::{Action, ExitStatus, Notice, Report, WatcherEnd};
use butler::supervisor::Supervisor;
use butler::types::{CommandSpec, ServiceSchema, State};

fn service(name: &str, dependencies: &[&str], patterns: &[&str]) -> ServiceSchema {
    ServiceSchema {
        name: name.to_owned(),
        command: CommandSpec::Args(vec!["dummy".to_owned()]),
        run_as_shell: false,
        color: None,
        dependencies: Some(dependencies.iter().map(|name| (*name).to_owned()).collect()),
        watchlist: Some(patterns.iter().map(|pattern| (*pattern).to_owned()).collect()),
    }
}

fn supervisor(services: &[ServiceSchema]) -> Supervisor {
    let graph = generate_graph(services).ok().unwrap();
    Supervisor::new(graph).ok().unwrap().0
}

fn ended(success: bool) -> Report {
    let code = if success { 0 } else { 1 };
    Report::Polled(Ok(Some(ExitStatus {
        success,
        text: format!("exit status: {code}"),
    })))
}

fn resumed() -> Report {
    Report::Resumed { stop: false }
}

fn stop() -> Report {
    Report::Resumed { stop: true }
}

fn changed(nodes: &[usize]) -> Report {
    let affected: HashSet<usize> = nodes.iter().copied().collect();
    Report::Changed(affected)
}

fn seen(notices: Vec<Notice>) -> Vec<String> {
    notices
        .into_iter()
        .map(|notice| match notice {
            Notice::Service { name, color: _, message } => format!("{name}: {message}"),
            Notice::Warn(message) => format!("warn: {message}"),
            Notice::Error(message) => format!("error: {message}"),
        })
        .collect()
}

/// Hold the next action against its debug text, then report what came of it.
fn step(supervisor: &mut Supervisor, action: &str, report: Report) -> Vec<String> {
    assert_eq!(format!("{:?}", supervisor.action()), action);
    seen(supervisor.handle(report))
}

fn state(supervisor: &Supervisor, index: usize) -> State {
    supervisor.graph().nodes[index].state
}

fn run_prerequisite(supervisor: &mut Supervisor, index: usize, name: &str) {
    assert!(step(supervisor, "Resume", resumed()).is_empty());
    assert_eq!(state(supervisor, index), State::Ready);
    assert_eq!(
        step(supervisor, &format!("Spawn({index})"), Report::Spawned(Ok(()))),
        vec![format!("{name}: started prerequisite")]
    );
    assert_eq!(state(supervisor, index), State::Running);
    assert!(step(supervisor, "Resume", resumed()).is_empty());
    assert!(step(supervisor, &format!("Poll({index})"), Report::Polled(Ok(None))).is_empty());
    assert!(step(supervisor, "Pause", resumed()).is_empty());
    assert!(step(supervisor, &format!("Poll({index})"), ended(true)).is_empty());
    assert_eq!(
        step(supervisor, &format!("Terminate({index})"), Report::Terminated(Ok(()))),
        vec![format!("{name}: prerequisite completed")]
    );
    assert_eq!(state(supervisor, index), State::Succeeded);
}

fn launch(supervisor: &mut Supervisor, index: usize, name: &str) {
    assert!(step(supervisor, "Resume", resumed()).is_empty());
    assert_eq!(state(supervisor, index), State::Ready);
    assert_eq!(
        step(supervisor, &format!("Spawn({index})"), Report::Spawned(Ok(()))),
        vec![format!("{name}: started")]
    );
    assert_eq!(state(supervisor, index), State::Running);
}

#[test]
fn prerequisites_run_before_services_in_order() {
    let mut s = supervisor(&[
        service("leaf", &["middle"], &[]),
        service("middle", &["base"], &[]),
        service("base", &[], &[]),
    ]);
    run_prerequisite(&mut s, 2, "base");
    run_prerequisite(&mut s, 1, "middle");
    launch(&mut s, 0, "leaf");
    assert!(step(&mut s, "Resume", resumed()).is_empty());
    assert!(step(&mut s, "Poll(0)", ended(true)).is_empty());
    assert_eq!(
        step(&mut s, "Terminate(0)", Report::Terminated(Ok(()))),
        vec!["leaf: exited (exit status: 0)".to_owned()]
    );
    assert_eq!(state(&s, 0), State::Succeeded);
    assert_eq!(format!("{:?}", s.action()), "Finish(Ok(()))");
}

#[test]
fn a_failed_prerequisite_ends_startup() {
    let services = [service("leaf", &["base"], &[]), service("base", &[], &[])];
    let mut s = supervisor(&services);
    step(&mut s, "Resume", resumed());
    step(&mut s, "Spawn(1)", Report::Spawned(Ok(())));
    step(&mut s, "Resume", resumed());
    step(&mut s, "Poll(1)", ended(false));
    assert!(step(&mut s, "Terminate(1)", Report::Terminated(Ok(()))).is_empty());
    assert_eq!(state(&s, 1), State::Failed);
    assert_eq!(
        format!("{:?}", s.action()),
        "Finish(Err(\"prerequisite base exited unsuccessfully (exit status: 1)\"))"
    );

    let mut s = supervisor(&services);
    step(&mut s, "Resume", resumed());
    assert!(step(&mut s, "Spawn(1)", Report::Spawned(Err("no".to_owned()))).is_empty());
    assert_eq!(state(&s, 1), State::Failed);
    assert_eq!(format!("{:?}", s.action()), "Finish(Err(\"no\"))");

    let mut s = supervisor(&services);
    step(&mut s, "Resume", resumed());
    step(&mut s, "Spawn(1)", Report::Spawned(Ok(())));
    step(&mut s, "Resume", resumed());
    step(&mut s, "Poll(1)", Report::Polled(Err("gone".to_owned())));
    assert_eq!(
        format!("{:?}", s.action()),
        "Finish(Err(\"failed to check prerequisite base: gone\"))"
    );

    let mut s = supervisor(&services);
    step(&mut s, "Resume", resumed());
    step(&mut s, "Spawn(1)", Report::Spawned(Ok(())));
    step(&mut s, "Resume", resumed());
    step(&mut s, "Poll(1)", ended(true));
    step(&mut s, "Terminate(1)", Report::Terminated(Err("denied".to_owned())));
    assert_eq!(format!("{:?}", s.action()), "Finish(Err(\"denied\"))");
}

#[test]
fn a_request_to_stop_ends_startup() {
    let services = [service("leaf", &["base"], &[]), service("base", &[], &[])];
    let mut s = supervisor(&services);
    assert!(step(&mut s, "Resume", stop()).is_empty());
    assert_eq!(format!("{:?}", s.action()), "Finish(Ok(()))");
    assert_eq!(state(&s, 1), State::Pending);

    let mut s = supervisor(&services);
    step(&mut s, "Resume", resumed());
    step(&mut s, "Spawn(1)", Report::Spawned(Ok(())));
    assert!(step(&mut s, "Resume", stop()).is_empty());
    assert!(step(&mut s, "Terminate(1)", Report::Terminated(Ok(()))).is_empty());
    assert_eq!(format!("{:?}", s.action()), "Finish(Ok(()))");

    let mut s = supervisor(&services);
    step(&mut s, "Resume", resumed());
    step(&mut s, "Spawn(1)", Report::Spawned(Ok(())));
    step(&mut s, "Resume", stop());
    step(&mut s, "Terminate(1)", Report::Terminated(Err("denied".to_owned())));
    assert_eq!(format!("{:?}", s.action()), "Finish(Err(\"denied\"))");
}

#[test]
fn services_are_polled_and_stopped() {
    let mut s = supervisor(&[service("a", &[], &[]), service("b", &[], &[]), service("c", &[], &[])]);
    launch(&mut s, 0, "a");
    step(&mut s, "Resume", resumed());
    assert_eq!(
        step(&mut s, "Spawn(1)", Report::Spawned(Err("no such program".to_owned()))),
        vec!["error: no such program".to_owned()]
    );
    assert_eq!(state(&s, 1), State::Failed);
    launch(&mut s, 2, "c");
    step(&mut s, "Resume", resumed());
    assert_eq!(
        step(&mut s, "Poll(0)", Report::Polled(Err("lost".to_owned()))),
        vec!["error: failed to poll service 0: lost".to_owned()]
    );
    step(&mut s, "Poll(2)", ended(false));
    assert_eq!(
        step(&mut s, "Terminate(2)", Report::Terminated(Err("denied".to_owned()))),
        vec![
            "warn: failed to stop descendants of service 2: denied".to_owned(),
            "c: exited (exit status: 1)".to_owned()
        ]
    );
    assert_eq!(state(&s, 2), State::Failed);
    assert!(step(&mut s, "Pause", resumed()).is_empty());
    assert!(step(&mut s, "Poll(0)", Report::Polled(Ok(None))).is_empty());
    assert!(step(&mut s, "Pause", stop()).is_empty());
    assert_eq!(
        step(&mut s, "Terminate(0)", Report::Terminated(Err("denied".to_owned()))),
        vec!["warn: failed to stop service 0: denied".to_owned()]
    );
    assert_eq!(state(&s, 0), State::Pending);
    assert_eq!(format!("{:?}", s.action()), "Finish(Ok(()))");
}

#[test]
fn a_request_to_stop_ends_a_launch() {
    let mut s = supervisor(&[service("a", &[], &[]), service("b", &[], &[])]);
    launch(&mut s, 0, "a");
    assert!(step(&mut s, "Resume", stop()).is_empty());
    assert!(step(&mut s, "Resume", stop()).is_empty());
    assert!(step(&mut s, "Terminate(0)", Report::Terminated(Ok(()))).is_empty());
    assert_eq!(format!("{:?}", s.action()), "Finish(Ok(()))");
    assert_eq!(state(&s, 1), State::Pending);
}

fn watching() -> Supervisor {
    let mut s = supervisor(&[
        service("base", &[], &[]),
        service("a", &["base"], &["a/.*"]),
        service("b", &[], &[]),
    ]);
    run_prerequisite(&mut s, 0, "base");
    assert!(step(&mut s, "StartWatcher", Report::WatcherStarted(Ok(()))).is_empty());
    launch(&mut s, 1, "a");
    launch(&mut s, 2, "b");
    step(&mut s, "Resume", resumed());
    step(&mut s, "Poll(1)", Report::Polled(Ok(None)));
    step(&mut s, "Poll(2)", Report::Polled(Ok(None)));
    s
}

#[test]
fn a_change_reruns_prerequisites_and_restarts_the_service() {
    let mut s = watching();
    assert!(step(&mut s, "AwaitChanges", changed(&[1])).is_empty());
    run_prerequisite(&mut s, 0, "base");
    assert!(step(&mut s, "Resume", resumed()).is_empty());
    assert!(step(&mut s, "Terminate(1)", Report::Terminated(Ok(()))).is_empty());
    assert_eq!(
        step(&mut s, "Spawn(1)", Report::Spawned(Ok(()))),
        vec!["a: started".to_owned()]
    );
    assert_eq!(state(&s, 2), State::Running);
    step(&mut s, "Resume", resumed());
    step(&mut s, "Poll(2)", Report::Polled(Ok(None)));
    step(&mut s, "Poll(1)", Report::Polled(Ok(None)));
    assert!(step(&mut s, "AwaitChanges", Report::Quiet).is_empty());
    assert!(step(&mut s, "Resume", stop()).is_empty());
    step(&mut s, "Terminate(2)", Report::Terminated(Ok(())));
    step(&mut s, "Terminate(1)", Report::Terminated(Ok(())));
    assert!(step(&mut s, "JoinWatcher", Report::WatcherJoined(WatcherEnd::Clean)).is_empty());
    assert_eq!(format!("{:?}", s.action()), "Finish(Ok(()))");
}

#[test]
fn a_failed_rerun_leaves_the_services_running() {
    let mut s = watching();
    step(&mut s, "AwaitChanges", changed(&[1]));
    step(&mut s, "Resume", resumed());
    step(&mut s, "Spawn(0)", Report::Spawned(Ok(())));
    step(&mut s, "Resume", resumed());
    step(&mut s, "Poll(0)", ended(false));
    assert_eq!(
        step(&mut s, "Terminate(0)", Report::Terminated(Ok(()))),
        vec![
            "error: watch-triggered prerequisite run failed: \
             prerequisite base exited unsuccessfully (exit status: 1)"
                .to_owned()
        ]
    );
    step(&mut s, "Resume", resumed());
    step(&mut s, "Poll(1)", Report::Polled(Ok(None)));
    step(&mut s, "Poll(2)", Report::Polled(Ok(None)));
    assert_eq!(format!("{:?}", s.action()), "AwaitChanges");
    assert_eq!(state(&s, 1), State::Running);
}

#[test]
fn a_service_that_cannot_be_stopped_is_not_restarted() {
    let mut s = watching();
    step(&mut s, "AwaitChanges", changed(&[2]));
    step(&mut s, "Resume", resumed());
    assert_eq!(
        step(&mut s, "Terminate(2)", Report::Terminated(Err("denied".to_owned()))),
        vec!["error: failed to stop service before restart: denied".to_owned()]
    );
    step(&mut s, "Resume", resumed());
    step(&mut s, "Poll(1)", Report::Polled(Ok(None)));
    assert_eq!(format!("{:?}", s.action()), "AwaitChanges");
}

#[test]
fn a_request_to_stop_ends_a_rerun() {
    let mut s = watching();
    step(&mut s, "AwaitChanges", changed(&[1]));
    step(&mut s, "Resume", stop());
    step(&mut s, "Terminate(1)", Report::Terminated(Ok(())));
    step(&mut s, "Terminate(2)", Report::Terminated(Ok(())));
    assert_eq!(
        step(
            &mut s,
            "JoinWatcher",
            Report::WatcherJoined(WatcherEnd::Failed("lost".to_owned()))
        ),
        vec!["error: Watchexec stopped: lost".to_owned()]
    );
    assert_eq!(format!("{:?}", s.action()), "Finish(Ok(()))");
}

#[test]
fn a_closed_channel_stops_everything() {
    let mut s = watching();
    assert!(step(&mut s, "AwaitChanges", changed(&[])).is_empty());
    step(&mut s, "Resume", resumed());
    step(&mut s, "Poll(1)", Report::Polled(Ok(None)));
    step(&mut s, "Poll(2)", Report::Polled(Ok(None)));
    assert_eq!(
        step(&mut s, "AwaitChanges", Report::Closed),
        vec!["error: Watchexec event channel closed".to_owned()]
    );
    step(&mut s, "Terminate(1)", Report::Terminated(Ok(())));
    step(&mut s, "Terminate(2)", Report::Terminated(Ok(())));
    assert_eq!(
        step(
            &mut s,
            "JoinWatcher",
            Report::WatcherJoined(WatcherEnd::Panicked("Any { .. }".to_owned()))
        ),
        vec!["error: Watchexec thread panicked: Any { .. }".to_owned()]
    );
    assert_eq!(format!("{:?}", s.action()), "Finish(Ok(()))");
}

#[test]
fn a_watcher_that_cannot_start_ends_startup() {
    let mut s = supervisor(&[service("a", &[], &["a"])]);
    step(&mut s, "StartWatcher", Report::WatcherStarted(Err("no".to_owned())));
    assert_eq!(format!("{:?}", s.action()), "Finish(Err(\"no\"))");
}

#[test]
fn unasked_reports_change_nothing() {
    let mut s = watching();
    let reports = [
        resumed(),
        Report::Spawned(Ok(())),
        ended(true),
        Report::Terminated(Ok(())),
        Report::WatcherStarted(Ok(())),
        Report::WatcherJoined(WatcherEnd::Clean),
    ];
    for report in reports {
        assert!(step(&mut s, "AwaitChanges", report).is_empty());
    }
    assert_eq!(state(&s, 1), State::Running);
    let mut done = supervisor(&[]);
    assert!(step(&mut done, "Resume", resumed()).is_empty());
    for report in [stop(), changed(&[0]), Report::Closed] {
        assert!(step(&mut done, "Finish(Ok(()))", report).is_empty());
    }
}

#[test]
fn colors_go_with_the_messages_of_a_service() {
    let mut colored = service("a", &[], &[]);
    colored.color = Some("#74ACDF".to_owned());
    let mut s = supervisor(&[colored]);
    step(&mut s, "Resume", resumed());
    let notices = s.handle(Report::Spawned(Ok(())));
    assert_eq!(notices.len(), 1);
    let Notice::Service { name, color, message } = &notices[0] else {
        panic!("a message of the service was expected");
    };
    assert_eq!(name, "a");
    assert_eq!(color.as_deref(), Some("#74ACDF"));
    assert_eq!(message, "started");
}

#[test]
fn bad_graphs_are_not_supervised() {
    let cyclic = generate_graph(&[service("a", &["a"], &["["])]).ok().unwrap();
    assert_eq!(
        Supervisor::new(cyclic).err(),
        Some("dependency cycle: a".to_owned())
    );
    let unwatchable = generate_graph(&[service("a", &[], &["["])]).ok().unwrap();
    let error = regex::Regex::new("^(?:[)$").unwrap_err();
    assert_eq!(
        Supervisor::new(unwatchable).err(),
        Some(format!("invalid watch pattern for a: {error}"))
    );
    let watched = generate_graph(&[service("base", &[], &["["]), service("a", &["base"], &["x"])]);
    let (_, targets) = Supervisor::new(watched.ok().unwrap()).ok().unwrap();
    assert_eq!(targets.len(), 1);
    assert_eq!(targets[0].node_index, 1);
}

fn walk(groups: bool, reports: Vec<(&str, TerminationReport)>) -> String {
    let mut termination = Termination::new(groups);
    for (action, report) in reports {
        assert_eq!(format!("{:?}", termination.action()), action);
        termination.handle(report);
    }
    format!("{:?}", termination.action())
}

#[test]
fn a_process_group_is_killed_then_waited_for() {
    let reports = vec![
        ("Signal", TerminationReport::Signalled(Ok(()))),
        ("Check", TerminationReport::Checked(Ok(false))),
        ("Wait", TerminationReport::Waited(Ok(()))),
        ("Drain", TerminationReport::Drained),
    ];
    assert_eq!(walk(true, reports), "Finish(Ok(()))");
    let gone = vec![
        ("Signal", TerminationReport::Signalled(Err(SignalFailure::Gone))),
        ("Check", TerminationReport::Checked(Ok(true))),
        ("Drain", TerminationReport::Drained),
    ];
    assert_eq!(walk(true, gone), "Finish(Ok(()))");
}

#[test]
fn a_lone_process_is_killed_when_it_has_not_ended() {
    let reports = vec![
        ("Check", TerminationReport::Checked(Ok(false))),
        ("Kill", TerminationReport::Killed(Ok(()))),
        ("Wait", TerminationReport::Waited(Ok(()))),
        ("Drain", TerminationReport::Drained),
    ];
    assert_eq!(walk(false, reports), "Finish(Ok(()))");
    let ended = vec![
        ("Check", TerminationReport::Checked(Ok(true))),
        ("Drain", TerminationReport::Drained),
    ];
    assert_eq!(walk(false, ended), "Finish(Ok(()))");
}

#[test]
fn a_step_that_fails_ends_the_stopping() {
    let e = || "e".to_owned();
    let failed = "Finish(Err(\"e\"))";
    let signal = vec![(
        "Signal",
        TerminationReport::Signalled(Err(SignalFailure::Failed(e()))),
    )];
    assert_eq!(walk(true, signal), failed);
    let check = vec![("Check", TerminationReport::Checked(Err(e())))];
    assert_eq!(walk(false, check), failed);
    let kill = vec![
        ("Check", TerminationReport::Checked(Ok(false))),
        ("Kill", TerminationReport::Killed(Err(e()))),
    ];
    assert_eq!(walk(false, kill), failed);
    let wait = vec![
        ("Signal", TerminationReport::Signalled(Ok(()))),
        ("Check", TerminationReport::Checked(Ok(false))),
        ("Wait", TerminationReport::Waited(Err(e()))),
    ];
    assert_eq!(walk(true, wait), failed);
    let unasked = vec![
        ("Signal", TerminationReport::Drained),
        ("Signal", TerminationReport::Waited(Ok(()))),
        ("Signal", TerminationReport::Checked(Ok(true))),
    ];
    assert_eq!(walk(true, unasked), "Signal");
    assert!(matches!(
        Termination::new(true).action(),
        TerminationAction::Signal
    ));
}
