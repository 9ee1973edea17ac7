use moonshine::bus::{found, job_event, killed, no_such_unit, BusReply, JobEvent};
use moonshine::initialization::{Initialization, Outcome, Step};
use moonshine::launcher::{
    assembled_launcher, launcher_path, launcher_script, located, prepare_xwayland, runtime_executable, xwayland_arguments,
    xwayland_launcher, ErrorKind,
};
use moonshine::processes::{cgroup_path, parse_populated, populated, EventsFile};
use moonshine::session::{creation, Creation, Duty, Lifecycle, News, SessionShutdownReason};
use moonshine::termination::{Action, Phase, Reply, ShutdownPolicy, Termination};
use moonshine::time::{Duration, Instant};
use moonshine::units::{
    gate_properties, guardian_properties, slice_properties, PropertyValue, UnitNames,
};

fn at(secs: u128) -> Instant {
    Instant { nanos: secs * 1_000_000_000 }
}

#[test]
fn missing_runtime_executable_identifies_the_dependency() {
    let name = "moonshine-test-missing-runtime-executable";
    let error = runtime_executable(name).unwrap_err();
    assert_eq!(error.kind(), ErrorKind::NotFound);
    assert!(error.message().contains(name));
    assert!(error.message().contains("PATH"));
}

#[test]
fn cgroup_events_requires_an_explicit_population_value() {
    assert_eq!(parse_populated("populated 1\nfrozen 0\n"), Ok(true));
    assert_eq!(parse_populated("frozen 0\npopulated 0\n"), Ok(false));
    assert!(parse_populated("frozen 0\n").is_err());
    assert!(parse_populated("populated invalid\n").is_err());
}

#[test]
fn cgroup_paths_cannot_resolve_to_the_root_or_escape_it() {
    assert!(cgroup_path("/").is_err());
    assert!(cgroup_path("/../system.slice").is_err());
    assert!(cgroup_path("system.slice").is_err());
    assert_eq!(
        cgroup_path("/user.slice/example.slice").unwrap(),
        "/sys/fs/cgroup/user.slice/example.slice"
    );
}

#[test]
fn cgroup_paths_keep_harmless_segments() {
    assert_eq!(cgroup_path("/a/./b//c/").unwrap(), "/sys/fs/cgroup/a/./b//c/");
    assert!(cgroup_path("").is_err());
    assert!(cgroup_path("//a").is_err());
    assert!(cgroup_path("/./a").is_err());
    assert!(cgroup_path("/a/..").is_err());
    assert_eq!(cgroup_path("/a/...").unwrap(), "/sys/fs/cgroup/a/...");
}

#[test]
fn population_lines_end_as_text_lines_do() {
    assert_eq!(parse_populated("populated 1"), Ok(true));
    assert_eq!(parse_populated("populated 1\r\n"), Ok(true));
    assert!(parse_populated("populated 1\r").is_err());
    assert!(parse_populated(" populated 1\n").is_err());
    assert!(parse_populated("populated 2\npopulated 0\n").is_err());
    assert!(parse_populated("").is_err());
}

#[test]
fn a_missing_group_is_empty() {
    assert_eq!(populated(EventsFile::NoGroup), Ok(false));
    assert_eq!(populated(EventsFile::Missing), Ok(false));
    assert_eq!(populated(EventsFile::Unreadable), Err(()));
    assert_eq!(populated(EventsFile::Contents("populated 1\n")), Ok(true));
    assert_eq!(populated(EventsFile::Contents("")), Err(()));
}

#[test]
fn runtime_programs_are_found_by_name() {
    let shell = runtime_executable("sh").unwrap();
    assert!(shell.ends_with("/sh"));
    assert_eq!(runtime_executable(&shell).unwrap(), shell, "an absolute path stands for itself");
    let missing = runtime_executable("./moonshine-test-missing/sh").unwrap_err();
    assert_eq!(missing.message(), "./moonshine-test-missing/sh was not found in PATH");
    assert_eq!(located("sh", Some("/bin/sh".to_string())).unwrap(), "/bin/sh");
    let error = located("Xwayland", None).unwrap_err();
    assert_eq!(error.message(), "Xwayland was not found in PATH");
}

#[test]
fn unit_names_carry_the_session_number() {
    let names = UnitNames::for_id("0123");
    assert_eq!(names.slice, "moonshine-session-0123.slice");
    assert_eq!(names.gate, "moonshine-gate-0123.service");
    assert_eq!(names.application, "moonshine-app-0123.service");
    assert_eq!(names.xwayland, "moonshine-xwayland-0123.scope");
    assert_eq!(names.guardian, "moonshine-guardian-0123.service");
}

#[test]
fn new_sessions_get_names_of_their_own() {
    let first = UnitNames::new();
    let second = UnitNames::new();
    assert_ne!(first.slice, second.slice);
    let id = &first.slice["moonshine-session-".len()..first.slice.len() - ".slice".len()];
    assert_eq!(id.len(), 32);
    assert!(id.chars().all(|c| matches!(c, '0'..='9' | 'a'..='f')));
    assert_eq!(id.as_bytes()[12], b'4');
    assert!(matches!(id.as_bytes()[16], b'8' | b'9' | b'a' | b'b'));
    assert_eq!(first.gate, format!("moonshine-gate-{id}.service"));
}

#[test]
fn xwayland_runs_in_its_own_scope() {
    let names = UnitNames::for_id("7");
    let words = xwayland_arguments("/bin/systemd-run", &names, "/bin/Xwayland");
    assert_eq!(
        words,
        [
            "/bin/systemd-run",
            "--user",
            "--scope",
            "--quiet",
            "--no-ask-password",
            "--collect",
            "--expand-environment=no",
            "--unit=moonshine-xwayland-7.scope",
            "--slice=moonshine-session-7.slice",
            "--property=Requisite=moonshine-gate-7.service",
            "--property=After=moonshine-gate-7.service",
            "--property=KillMode=control-group",
            "--property=TimeoutStopSec=2s",
            "--property=SendSIGKILL=yes",
            "--",
            "/bin/Xwayland",
        ]
    );
}

#[test]
fn xwayland_launcher_quotes_its_command() {
    let names = UnitNames::for_id("7");
    let script =
        xwayland_launcher("/bin/sh", "/bin/systemd-run", &names, "/opt/fake Xwayland's").unwrap();
    let lines: Vec<&str> = script.lines().collect();
    assert_eq!(lines.len(), 2);
    assert_eq!(lines[0], "#!/bin/sh");
    assert!(lines[1].starts_with("exec /bin/systemd-run --user --scope --quiet"));
    assert!(lines[1].ends_with(" \"/opt/fake Xwayland's\" \"$@\""));
    let command = &lines[1]["exec ".len()..lines[1].len() - " \"$@\"".len()];
    let words = xwayland_arguments("/bin/systemd-run", &names, "/opt/fake Xwayland's");
    assert_eq!(shlex::split(command).unwrap(), words);
}

#[test]
fn a_nul_character_cannot_be_quoted() {
    let names = UnitNames::for_id("7");
    let error = xwayland_launcher("/bin/sh", "/bin/run", &names, "a\0b").unwrap_err();
    assert_eq!(error.kind(), ErrorKind::Other);
    assert_eq!(error.message(), "cannot shell-quote string containing nul byte");
    assert!(xwayland_launcher("/bin/s\0h", "/bin/run", &names, "ab").is_ok());
}

#[test]
fn the_first_program_that_is_missing_is_named() {
    let names = UnitNames::for_id("7");
    let some = |path: &str| Some(path.to_owned());
    let missing = |xwayland, shell, runner| {
        let error = assembled_launcher(&names, xwayland, shell, runner).unwrap_err();
        assert_eq!(error.kind(), ErrorKind::NotFound);
        error.message().to_owned()
    };
    assert_eq!(missing(None, None, None), "Xwayland was not found in PATH");
    assert_eq!(missing(some("/x"), None, None), "sh was not found in PATH");
    assert_eq!(missing(some("/x"), some("/sh"), None), "systemd-run was not found in PATH");
    assert_eq!(
        assembled_launcher(&names, some("/x"), some("/sh"), some("/run")).unwrap(),
        xwayland_launcher("/sh", "/run", &names, "/x").unwrap()
    );
    let error = assembled_launcher(&names, some("/x\0"), some("/sh"), some("/run")).unwrap_err();
    assert_eq!(error.kind(), ErrorKind::Other);
}

#[test]
fn the_machines_launcher_names_what_is_missing() {
    let names = UnitNames::for_id("7");
    match prepare_xwayland(&names) {
        Ok(script) => {
            let mut lines = script.lines();
            assert!(lines.next().unwrap().ends_with("sh"));
            let command = lines.next().unwrap();
            assert!(command.starts_with("exec ") && command.contains("systemd-run"));
            assert!(command.contains("Xwayland") && command.ends_with(" \"$@\""));
        }
        Err(error) => {
            assert_eq!(error.kind(), ErrorKind::NotFound);
            assert!(error.message().ends_with(" was not found in PATH"));
        }
    }
}

#[test]
fn a_script_hands_its_arguments_on() {
    assert_eq!(launcher_script("/bin/sh", "a b"), "#!/bin/sh\nexec a b \"$@\"\n");
}

#[test]
fn the_launcher_comes_first_in_the_search_path() {
    assert_eq!(launcher_path(b"/tmp/x", b"/bin:/usr/bin").unwrap(), b"/tmp/x:/bin:/usr/bin");
    assert_eq!(launcher_path(b"/tmp/x", b"").unwrap(), b"/tmp/x:");
    assert!(launcher_path(b"/tmp/a:b", b"/bin").is_err());
}

#[test]
fn units_are_bound_to_each_other() {
    let guardian = guardian_properties("/bin/cat");
    let names: Vec<&str> = guardian.iter().map(|p| p.name.as_str()).collect();
    assert_eq!(
        names,
        [
            "Description",
            "Type",
            "Slice",
            "ExecStart",
            "StandardInputFileDescriptor",
            "StandardOutput",
            "StandardError",
            "CollectMode",
        ]
    );
    assert!(matches!(&guardian[1].value, PropertyValue::Text(t) if t == "exec"));
    assert!(matches!(&guardian[3].value, PropertyValue::Commands(c)
        if c.len() == 1 && c[0].path == "/bin/cat" && c[0].arguments == ["/bin/cat"] && !c[0].ignore_failure));
    assert!(matches!(&guardian[4].value, PropertyValue::LivenessPipe));
    let slice = slice_properties("g.service");
    assert_eq!(slice.len(), 3);
    assert!(matches!(&slice[1].value, PropertyValue::Names(n) if n == &["g.service"]));
    assert_eq!(slice[2].name, "After");
    let gate = gate_properties("s.slice", "/bin/true");
    assert_eq!(gate.len(), 7);
    assert_eq!(gate[2].name, "RemainAfterExit");
    assert!(matches!(&gate[2].value, PropertyValue::Flag(true)));
    assert!(matches!(&gate[3].value, PropertyValue::Text(t) if t == "s.slice"));
    assert!(matches!(&gate[6].value, PropertyValue::Names(n) if n == &["s.slice"]));
}

#[test]
fn an_absent_unit_is_no_failure() {
    let absent = "org.freedesktop.systemd1.NoSuchUnit";
    assert!(no_such_unit(absent));
    assert!(!no_such_unit("org.freedesktop.systemd1.NoSuchUnits"));
    assert_eq!(found(BusReply::Object("/job/1".to_string())), Ok(Some("/job/1".to_string())));
    assert_eq!(found(BusReply::MethodError(absent.to_string())), Ok(None));
    assert_eq!(found(BusReply::MethodError("other".to_string())), Err(()));
    assert_eq!(found(BusReply::Failed), Err(()));
    assert_eq!(killed(&BusReply::Object(String::new())), Ok(()));
    assert_eq!(killed(&BusReply::MethodError(absent.to_string())), Ok(()));
    assert_eq!(killed(&BusReply::MethodError("other".to_string())), Err(()));
    assert_eq!(killed(&BusReply::Failed), Err(()));
}

#[test]
fn only_its_own_removal_ends_the_wait_for_a_job() {
    assert_eq!(job_event("/job/1", JobEvent::Removed { job: "/job/2", result: "done" }), None);
    assert_eq!(
        job_event("/job/1", JobEvent::Removed { job: "/job/1", result: "done" }),
        Some(Ok(()))
    );
    assert_eq!(
        job_event("/job/1", JobEvent::Removed { job: "/job/1", result: "timeout" }),
        Some(Err(()))
    );
    assert_eq!(job_event("/job/1", JobEvent::Unreadable), Some(Err(())));
    assert_eq!(job_event("/job/1", JobEvent::Ended), Some(Err(())));
    assert_eq!(job_event("/job/1", JobEvent::TimedOut), Some(Err(())));
}

#[test]
fn units_are_created_in_order() {
    let mut init = Initialization::new(UnitNames::for_id("5"));
    assert!(matches!(init.step(Outcome::Done), Step::Locate { program: "cat" }));
    match init.step(Outcome::Located(Some("/bin/cat".to_string()))) {
        Step::Start { unit, properties } => {
            assert_eq!(unit, "moonshine-guardian-5.service");
            assert_eq!(properties.len(), 8);
        }
        _ => panic!("the guardian comes first"),
    }
    match init.step(Outcome::Done) {
        Step::Start { unit, properties } => {
            assert_eq!(unit, "moonshine-session-5.slice");
            assert_eq!(properties.len(), 3);
        }
        _ => panic!("the slice comes second"),
    }
    match init.step(Outcome::Done) {
        Step::Find { unit } => assert_eq!(unit, "moonshine-session-5.slice"),
        _ => panic!("the slice is looked for"),
    }
    assert!(matches!(init.step(Outcome::Found(true)), Step::ReadControlGroup));
    assert_eq!(init.cgroup(), None);
    let located = init.step(Outcome::ControlGroup("/user.slice/s".to_string()));
    assert!(matches!(located, Step::Locate { program: "true" }));
    assert_eq!(init.cgroup(), Some("/sys/fs/cgroup/user.slice/s"));
    match init.step(Outcome::Located(Some("/bin/true".to_string()))) {
        Step::Start { unit, properties } => {
            assert_eq!(unit, "moonshine-gate-5.service");
            assert_eq!(properties.len(), 7);
        }
        _ => panic!("the launch gate comes last"),
    }
    assert!(matches!(init.step(Outcome::Done), Step::Ready));
    assert!(matches!(init.step(Outcome::Failed), Step::Ready));
}

#[test]
fn a_failed_creation_stays_failed() {
    let mut init = Initialization::new(UnitNames::for_id("5"));
    assert!(matches!(init.step(Outcome::Failed), Step::Failed));
    assert!(matches!(init.step(Outcome::Done), Step::Failed));
    let mut init = Initialization::new(UnitNames::for_id("5"));
    init.step(Outcome::Done);
    assert!(matches!(init.step(Outcome::Located(None)), Step::Failed));
    let mut init = Initialization::new(UnitNames::for_id("5"));
    init.step(Outcome::Done);
    init.step(Outcome::Located(Some("/bin/cat".to_string())));
    init.step(Outcome::Done);
    init.step(Outcome::Done);
    init.step(Outcome::Found(true));
    assert!(matches!(init.step(Outcome::ControlGroup("/..".to_string())), Step::Failed));
    assert_eq!(init.cgroup(), None);
}

fn run(policy: ShutdownPolicy, replies: &[(Reply, u128)]) -> (Vec<Action>, Termination) {
    let mut end = Termination::new(policy);
    let mut actions = vec![end.action()];
    for (reply, now) in replies {
        end.step(*reply, at(*now));
        actions.push(end.action());
    }
    (actions, end)
}

#[test]
fn the_grace_period_is_eight_seconds_and_force_five() {
    let policy = ShutdownPolicy::default();
    assert_eq!(policy.grace, Duration::from_secs(8));
    assert_eq!(policy.force, Duration::from_secs(5));
}

#[test]
fn a_graceful_end_kills_nothing() {
    let (actions, _) = run(
        ShutdownPolicy::default(),
        &[
            (Reply::Done, 0),
            (Reply::Done, 0),
            (Reply::Queued { job: true }, 1),
            (Reply::Done, 2),
            (Reply::Populated(true), 2),
            (Reply::Done, 3),
            (Reply::Populated(false), 3),
            (Reply::Populated(false), 3),
            (Reply::Queued { job: true }, 4),
            (Reply::Done, 4),
            (Reply::Populated(false), 4),
            (Reply::Done, 4),
            (Reply::Done, 4),
            (Reply::Queued { job: true }, 4),
            (Reply::Done, 4),
        ],
    );
    let grace = at(9);
    let force = at(9);
    assert_eq!(
        actions,
        [
            Action::AwaitX11Release,
            Action::WatchJobs,
            Action::StopSlice,
            Action::AwaitJob { until: grace },
            Action::ReadPopulation { until: Some(grace) },
            Action::Sleep { until: grace },
            Action::ReadPopulation { until: Some(grace) },
            Action::ReadPopulation { until: None },
            Action::StopSlice,
            Action::AwaitJobOrPoll { until: force },
            Action::ReadPopulation { until: Some(force) },
            Action::CloseLease,
            Action::WatchJobs,
            Action::StopGuardian,
            Action::AwaitGuardianJob,
            Action::Finish { success: true },
        ]
    );
}

#[test]
fn stubborn_processes_are_killed_after_the_grace_period() {
    let policy = ShutdownPolicy { grace: Duration::from_secs(1), force: Duration::from_secs(5) };
    let (actions, _) = run(
        policy,
        &[
            (Reply::Done, 0),
            (Reply::Done, 0),
            (Reply::Queued { job: false }, 10),
            (Reply::Populated(true), 10),
            (Reply::TimedOut, 11),
            (Reply::Done, 11),
            (Reply::Queued { job: true }, 12),
            (Reply::Polled, 12),
            (Reply::Populated(true), 12),
            (Reply::Done, 12),
            (Reply::Done, 13),
            (Reply::Populated(true), 13),
            (Reply::Done, 13),
            (Reply::Done, 13),
            (Reply::Populated(false), 13),
        ],
    );
    let grace = at(11);
    let force = at(17);
    assert_eq!(
        actions[3..],
        [
            Action::ReadPopulation { until: Some(grace) },
            Action::Sleep { until: grace },
            Action::KillSlice { until: None },
            Action::StopSlice,
            Action::AwaitJobOrPoll { until: force },
            Action::ReadPopulation { until: Some(force) },
            Action::KillSlice { until: Some(force) },
            Action::AwaitJobOrPoll { until: force },
            Action::ReadPopulation { until: Some(force) },
            Action::KillSlice { until: Some(force) },
            Action::Sleep { until: force },
            Action::ReadPopulation { until: Some(force) },
            Action::CloseLease,
        ]
    );
}

#[test]
fn process_end_waits_for_the_compositor() {
    let (actions, end) = run(ShutdownPolicy::default(), &[(Reply::TimedOut, 5)]);
    assert_eq!(actions, [Action::AwaitX11Release, Action::CloseLease]);
    assert_eq!(end.phase, Phase::CloseLease { ended: false });
}

#[test]
fn a_failed_cleanup_still_closes_the_lease() {
    let (actions, _) = run(
        ShutdownPolicy::default(),
        &[
            (Reply::Done, 0),
            (Reply::Failed, 0),
            (Reply::Failed, 0),
            (Reply::Done, 0),
            (Reply::Queued { job: false }, 0),
        ],
    );
    assert_eq!(
        actions,
        [
            Action::AwaitX11Release,
            Action::WatchJobs,
            Action::CloseLease,
            Action::WatchJobs,
            Action::StopGuardian,
            Action::Finish { success: false },
        ]
    );
}

#[test]
fn a_slice_that_stays_populated_is_a_failure() {
    let (actions, _) = run(
        ShutdownPolicy::default(),
        &[
            (Reply::Done, 0),
            (Reply::Done, 0),
            (Reply::Queued { job: false }, 0),
            (Reply::Failed, 0),
            (Reply::Done, 0),
            (Reply::Queued { job: false }, 0),
            (Reply::TimedOut, 5),
            (Reply::Done, 5),
            (Reply::Done, 5),
            (Reply::Queued { job: false }, 5),
        ],
    );
    assert_eq!(actions[actions.len() - 1], Action::Finish { success: false });
}

#[test]
fn the_first_reason_for_an_end_stands() {
    let mut life = Lifecycle::new();
    assert!(!life.is_stopping());
    assert!(life.request_stop(SessionShutdownReason::ManagerShutdown));
    assert!(!life.request_stop(SessionShutdownReason::UserStopped));
    assert_eq!(life.requested, Some(SessionShutdownReason::ManagerShutdown));
    assert!(life.is_stopping());
}

#[test]
fn a_compositor_starts_once_and_not_during_teardown() {
    let mut life = Lifecycle::new();
    assert!(life.is_x11_released());
    life.release_x11();
    assert_eq!(life.x11_released, None);
    assert!(life.begin_compositor().is_ok());
    assert!(life.begin_compositor().is_err());
    assert!(!life.is_x11_released());
    life.release_x11();
    assert!(life.is_x11_released());
    assert!(life.begin_compositor().is_err());
    let mut ending = Lifecycle::new();
    ending.begin_stopping();
    assert!(ending.begin_compositor().is_err(), "a compositor started during teardown");
}

#[test]
fn the_supervisor_cleans_up_after_a_failed_launch() {
    for (success, accepted) in [(false, true), (true, false), (false, false)] {
        let mut duty = Duty::Initialize;
        duty.step(News::Initialized { success, accepted });
        assert_eq!(duty, Duty::Terminate { reason: SessionShutdownReason::UserStopped });
    }
}

#[test]
fn the_supervisor_ends_a_session_for_whichever_reason_comes_first() {
    let reasons = [
        (
            News::Requested(Some(SessionShutdownReason::ManagerShutdown)),
            SessionShutdownReason::ManagerShutdown,
        ),
        (News::Requested(None), SessionShutdownReason::UserStopped),
        (
            News::SessionStopped(SessionShutdownReason::VideoPacketHandlerStopped),
            SessionShutdownReason::VideoPacketHandlerStopped,
        ),
        (News::ServerShutdown, SessionShutdownReason::ManagerShutdown),
    ];
    for (news, reason) in reasons {
        let mut duty = Duty::Initialize;
        duty.step(News::Initialized { success: true, accepted: true });
        assert_eq!(duty, Duty::AwaitStop);
        duty.step(news);
        assert_eq!(duty, Duty::Terminate { reason });
        duty.step(News::ServerShutdown);
        assert_eq!(duty, Duty::Terminate { reason });
        duty.step(News::Terminated { success: true });
        assert_eq!(duty, Duty::Conclude { reason, success: true, shut_down_server: false });
    }
}

#[test]
fn a_failed_cleanup_shuts_down_the_server() {
    let reason = SessionShutdownReason::UserStopped;
    let mut duty = Duty::Terminate { reason };
    duty.step(News::Terminated { success: false });
    assert_eq!(duty, Duty::Conclude { reason, success: false, shut_down_server: true });
}

#[test]
fn a_session_is_owned_only_once_its_units_exist() {
    assert_eq!(creation(Some(Ok(()))), Creation::Owned);
    assert_eq!(creation(Some(Err(()))), Creation::FailedAfterCleanup);
    assert_eq!(creation(None), Creation::Failed);
}
