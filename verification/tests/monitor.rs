use lithos::command::Command;
use lithos::executors::{Child, Target, UnidentifiedChild, Unit};
use lithos::monitor::{Action, AddError, Event, Executor, Monitor, MonitorResult};

fn child(name: &str, config: &str) -> Unit {
    Unit::Daemon(Child {
        name: name.to_string(),
        global_file: "/etc/lithos.yaml".to_string(),
        child_config_serialized: config.to_string(),
        state_dir: "/run/lithos/state".to_string(),
        root_binary: "/usr/bin/lithos_knot".to_string(),
        term: None,
        rust_log: None,
        rust_backtrace: None,
    })
}

fn target(name: &str) -> Unit {
    Unit::Command(Target {
        name: name.to_string(),
        executable: "/bin/true".to_string(),
        user_id: 1000,
        mount_dir: "/run/lithos/mnt".to_string(),
        workdir: "/".to_string(),
        term: Some("xterm".to_string()),
        environ: vec![("A".to_string(), "1".to_string())],
        arguments: vec!["-v".to_string()],
        args: vec!["x".to_string()],
    })
}

fn outcast() -> Unit {
    Unit::Unidentified(UnidentifiedChild { name: None, state_dir: "/run/lithos/state".to_string() })
}

fn start_names(actions: &[Action]) -> Vec<String> {
    let mut names = Vec::new();
    for a in actions {
        if let Action::Start { name, .. } = a {
            names.push(name.clone());
        }
    }
    names
}

#[test]
fn new_monitor_has_nothing() {
    let mon: Monitor<Unit> = Monitor::new("lithos-tree".to_string());
    assert_eq!(mon.name(), "lithos-tree");
    assert!(!mon.has("web.0"));
    assert!(!mon.knows("web.0"));
    assert_eq!(mon.deadline(), None);
    assert_eq!(mon.count(), 0);
    assert!(!mon.is_shutting_down());
    assert!(!mon.tracks(1));
}

#[test]
fn has_reflects_the_registered_set() {
    let mut mon: Monitor<Unit> = Monitor::new("t".to_string());
    for name in ["web.0", "web.1", "db.0"] {
        assert_eq!(mon.add(name.to_string(), child(name, "{}"), 1, None), Ok(()));
    }
    assert!(mon.has("web.0"));
    assert!(mon.has("web.1"));
    assert!(mon.has("db.0"));
    assert!(!mon.has("db.1"));
    assert!(!mon.has("web"));
    assert!(!mon.has(""));
    assert_eq!(mon.count(), 3);
}

#[test]
fn add_refuses_what_it_must() {
    let mut mon: Monitor<Unit> = Monitor::new("t".to_string());
    assert_eq!(mon.add("a.0".to_string(), child("a.0", "{}"), 1, Some((10, 100))), Ok(()));
    assert_eq!(
        mon.add("a.0".to_string(), child("a.0", "{}"), 1, None),
        Err(AddError::Duplicate)
    );
    assert_eq!(
        mon.add("a.1".to_string(), child("a.1", "{}"), 1, Some((10, 100))),
        Err(AddError::PidInUse)
    );
    assert_eq!(mon.add("x.0".to_string(), outcast(), 1, None), Err(AddError::NotSpawnable));
    assert!(!mon.has("a.1"));
    assert!(!mon.has("x.0"));
    mon.step(&Event::Terminate(15), 100);
    assert_eq!(
        mon.add("b.0".to_string(), child("b.0", "{}"), 1, None),
        Err(AddError::ShuttingDown)
    );
    assert!(!mon.has("b.0"));
}

#[test]
fn pending_instance_is_started_by_the_timer() {
    let mut mon: Monitor<Unit> = Monitor::new("t".to_string());
    mon.add("web.0".to_string(), child("web.0", "{\"a\":1}"), 1, None).unwrap();
    assert_eq!(mon.deadline(), Some(0));
    assert_eq!(mon.next_start_of("web.0"), Some(0));
    assert_eq!(mon.pid_of("web.0"), None);
    let step = mon.step(&Event::Timeout, 1000);
    assert_eq!(step.result, None);
    assert_eq!(step.actions.len(), 1);
    match &step.actions[0] {
        Action::Start { name, prepare, command } => {
            assert_eq!(name, "web.0");
            assert_eq!(prepare.as_deref(), Some("/run/lithos/state/web.0"));
            assert_eq!(command.executable, "/usr/bin/lithos_knot");
            assert_eq!(
                command.arguments,
                vec![
                    "--name",
                    "web.0",
                    "--global-config",
                    "/etc/lithos.yaml",
                    "--config",
                    "{\"a\":1}"
                ]
            );
            assert_eq!(command.environment, vec![("TERM".to_string(), "dumb".to_string())]);
            assert!(command.keep_sigmask);
            assert!(!command.container);
        }
        other => panic!("unexpected action {:?}", other),
    }
    // the entry stays queued until the outcome is known
    assert_eq!(mon.next_start_of("web.0"), Some(0));
    let step = mon.step(&Event::Started("web.0".to_string(), 4242), 1001);
    assert_eq!(step.actions, vec![]);
    assert_eq!(step.result, None);
    assert_eq!(mon.pid_of("web.0"), Some(4242));
    assert!(mon.tracks(4242));
    assert_eq!(mon.next_start_of("web.0"), None);
    assert_eq!(mon.deadline(), None);
    assert!(mon.has("web.0"));
}

#[test]
fn timer_starts_only_what_is_due_in_queue_order() {
    let mut mon: Monitor<Unit> = Monitor::new("t".to_string());
    mon.add("a.0".to_string(), child("a.0", "{}"), 10, None).unwrap();
    mon.add("b.0".to_string(), child("b.0", "{}"), 5, None).unwrap();
    mon.add("c.0".to_string(), child("c.0", "{}"), 1, None).unwrap();
    mon.step(&Event::Failed("a.0".to_string()), 100); // due at 110
    mon.step(&Event::Failed("b.0".to_string()), 100); // due at 105
    assert_eq!(mon.deadline(), Some(0));
    assert_eq!(start_names(&mon.step(&Event::Timeout, 50).actions), vec!["c.0"]);
    assert_eq!(start_names(&mon.step(&Event::Timeout, 105).actions), vec!["c.0", "b.0"]);
    assert_eq!(start_names(&mon.step(&Event::Timeout, 109).actions), vec!["c.0", "b.0"]);
    assert_eq!(start_names(&mon.step(&Event::Timeout, 110).actions), vec!["c.0", "b.0", "a.0"]);
    assert_eq!(start_names(&mon.step(&Event::Timeout, -1).actions), Vec::<String>::new());
}

#[test]
fn equal_times_keep_insertion_order() {
    let mut mon: Monitor<Unit> = Monitor::new("t".to_string());
    for name in ["z.0", "a.0", "m.0"] {
        mon.add(name.to_string(), child(name, "{}"), 1, None).unwrap();
    }
    assert_eq!(start_names(&mon.step(&Event::Timeout, 0).actions), vec!["z.0", "a.0", "m.0"]);
}

#[test]
fn failed_start_is_rescheduled_and_never_dropped() {
    let mut mon: Monitor<Unit> = Monitor::new("t".to_string());
    mon.add("web.0".to_string(), child("web.0", "{}"), 7, None).unwrap();
    let mut now = 100;
    for _ in 0..5 {
        let step = mon.step(&Event::Timeout, now);
        assert_eq!(start_names(&step.actions), vec!["web.0"]);
        let step = mon.step(&Event::Failed("web.0".to_string()), now);
        assert_eq!(step.actions, vec![]);
        assert_eq!(step.result, None);
        assert_eq!(mon.next_start_of("web.0"), Some(now + 7));
        assert_eq!(mon.deadline(), Some(now + 7));
        assert!(mon.has("web.0"));
        assert_eq!(mon.pid_of("web.0"), None);
        assert_eq!(start_names(&mon.step(&Event::Timeout, now + 6).actions), Vec::<String>::new());
        now += 7;
    }
}

#[test]
fn exit_is_rescheduled_from_the_last_start() {
    let mut mon: Monitor<Unit> = Monitor::new("t".to_string());
    mon.add("web.0".to_string(), child("web.0", "{}"), 30, Some((77, 1000))).unwrap();
    assert_eq!(mon.deadline(), None);
    let step = mon.step(&Event::Child(77, 0), 1010);
    assert_eq!(step.actions, vec![]);
    assert_eq!(step.result, None);
    assert_eq!(mon.pid_of("web.0"), None);
    assert!(!mon.tracks(77));
    assert_eq!(mon.next_start_of("web.0"), Some(1030));
    // long after the timeout the next attempt is immediate
    assert_eq!(start_names(&mon.step(&Event::Timeout, 5000).actions), vec!["web.0"]);
}

#[test]
fn backoff_stops_at_the_last_moment() {
    let mut mon: Monitor<Unit> = Monitor::new("t".to_string());
    mon.add("web.0".to_string(), child("web.0", "{}"), 10, None).unwrap();
    mon.step(&Event::Failed("web.0".to_string()), i64::MAX - 3);
    assert_eq!(mon.next_start_of("web.0"), Some(i64::MAX));
}

#[test]
fn unknown_child_is_reported_and_ignored() {
    let mut mon: Monitor<Unit> = Monitor::new("t".to_string());
    mon.add("web.0".to_string(), child("web.0", "{}"), 1, Some((5, 0))).unwrap();
    let step = mon.step(&Event::Child(6, 9), 10);
    assert_eq!(step.actions, vec![Action::Unknown { pid: 6, status: 9 }]);
    assert_eq!(step.result, None);
    assert_eq!(mon.pid_of("web.0"), Some(5));
}

#[test]
fn start_outcomes_for_others_change_nothing() {
    let mut mon: Monitor<Unit> = Monitor::new("t".to_string());
    mon.add("web.0".to_string(), child("web.0", "{}"), 1, Some((5, 0))).unwrap();
    mon.add("web.1".to_string(), child("web.1", "{}"), 1, None).unwrap();
    // not in the table
    assert_eq!(mon.step(&Event::Started("nope.0".to_string(), 9), 10).actions, vec![]);
    assert!(!mon.tracks(9));
    // already running
    mon.step(&Event::Started("web.0".to_string(), 9), 10);
    assert_eq!(mon.pid_of("web.0"), Some(5));
    mon.step(&Event::Failed("web.0".to_string()), 10);
    assert_eq!(mon.next_start_of("web.0"), None);
    // a pid that the table holds already counts as a failed start
    mon.step(&Event::Started("web.1".to_string(), 5), 10);
    assert_eq!(mon.pid_of("web.1"), None);
    assert_eq!(mon.pid_of("web.0"), Some(5));
    assert_eq!(mon.next_start_of("web.1"), Some(11));
}

#[test]
fn reboot_when_permitted_touches_nothing() {
    let mut mon: Monitor<Unit> = Monitor::new("t".to_string());
    mon.add("web.0".to_string(), child("web.0", "{}"), 1, Some((5, 0))).unwrap();
    mon.add("web.1".to_string(), child("web.1", "{}"), 1, None).unwrap();
    mon.allow_reboot();
    let step = mon.step(&Event::Reboot(3), 10);
    assert_eq!(step.result, Some(MonitorResult::Reboot));
    assert_eq!(step.actions, vec![]);
    assert_eq!(mon.pid_of("web.0"), Some(5));
    assert_eq!(mon.next_start_of("web.1"), Some(0));
    assert!(mon.has("web.0") && mon.has("web.1"));
    assert!(!mon.is_shutting_down());
}

#[test]
fn reboot_when_not_permitted_is_a_terminate() {
    let mut mon: Monitor<Unit> = Monitor::new("t".to_string());
    mon.add("web.0".to_string(), child("web.0", "{}"), 1, Some((5, 0))).unwrap();
    let step = mon.step(&Event::Reboot(3), 10);
    assert_eq!(step.result, None);
    assert_eq!(step.actions, vec![Action::Kill { pid: 5, signal: 3 }]);
    assert!(mon.is_shutting_down());
}

#[test]
fn terminate_forwards_and_waits_for_every_child() {
    let mut mon: Monitor<Unit> = Monitor::new("t".to_string());
    mon.add("web.0".to_string(), child("web.0", "{}"), 1, Some((5, 0))).unwrap();
    mon.add("web.1".to_string(), child("web.1", "{}"), 1, None).unwrap();
    mon.add("web.2".to_string(), child("web.2", "{}"), 1, Some((7, 0))).unwrap();
    let step = mon.step(&Event::Terminate(15), 10);
    assert_eq!(step.result, None);
    assert_eq!(
        step.actions,
        vec![
            Action::Kill { pid: 5, signal: 15 },
            Action::Kill { pid: 7, signal: 15 },
            Action::Finish {
                name: "web.1".to_string(),
                remove_dir: Some("/run/lithos/state/web.1".to_string())
            },
        ]
    );
    assert!(mon.is_shutting_down());
    assert_eq!(mon.deadline(), None);
    assert!(!mon.has("web.1"));
    assert!(mon.knows("web.1"));
    // no further starts
    assert_eq!(mon.step(&Event::Timeout, 11).actions, vec![]);
    // a second signal goes to those that are left
    let step = mon.step(&Event::Terminate(2), 12);
    assert_eq!(
        step.actions,
        vec![Action::Kill { pid: 5, signal: 2 }, Action::Kill { pid: 7, signal: 2 }]
    );
    let step = mon.step(&Event::Child(99, 0), 13);
    assert_eq!(step.actions, vec![Action::Unknown { pid: 99, status: 0 }]);
    assert_eq!(step.result, None);
    let step = mon.step(&Event::Child(5, 0), 13);
    assert_eq!(
        step.actions,
        vec![Action::Finish {
            name: "web.0".to_string(),
            remove_dir: Some("/run/lithos/state/web.0".to_string())
        }]
    );
    assert_eq!(step.result, None);
    let step = mon.step(&Event::Terminate(9), 14);
    assert_eq!(step.actions, vec![Action::Kill { pid: 7, signal: 9 }]);
    let step = mon.step(&Event::Child(7, 0), 15);
    assert_eq!(step.result, Some(MonitorResult::Killed));
    assert_eq!(mon.count(), 0);
}

#[test]
fn terminate_with_nothing_running_ends_at_once() {
    let mut mon: Monitor<Unit> = Monitor::new("t".to_string());
    let step = mon.step(&Event::Terminate(15), 0);
    assert_eq!(step.result, Some(MonitorResult::Killed));
    assert_eq!(step.actions, vec![]);
    let mut mon: Monitor<Unit> = Monitor::new("t".to_string());
    mon.add("web.0".to_string(), child("web.0", "{}"), 1, None).unwrap();
    let step = mon.step(&Event::Terminate(15), 0);
    assert_eq!(step.result, Some(MonitorResult::Killed));
    assert_eq!(step.actions.len(), 1);
}

#[test]
fn reboot_during_shutdown_still_reboots() {
    let mut mon: Monitor<Unit> = Monitor::new("t".to_string());
    mon.add("web.0".to_string(), child("web.0", "{}"), 1, Some((5, 0))).unwrap();
    mon.allow_reboot();
    mon.step(&Event::Terminate(15), 10);
    let step = mon.step(&Event::Reboot(3), 11);
    assert_eq!(step.result, Some(MonitorResult::Reboot));
    assert_eq!(step.actions, vec![]);
    assert_eq!(mon.pid_of("web.0"), Some(5));
}

#[test]
fn command_is_not_started_again() {
    let mut mon: Monitor<Unit> = Monitor::new("cmd".to_string());
    mon.add("job.cmd".to_string(), target("job.cmd"), 0, None).unwrap();
    let step = mon.step(&Event::Timeout, 5);
    match &step.actions[..] {
        [Action::Start { name, prepare, command }] => {
            assert_eq!(name, "job.cmd");
            assert_eq!(*prepare, None);
            assert_eq!(command.arguments, vec!["-v", "x"]);
            assert_eq!(command.user_id, Some(1000));
            assert_eq!(command.chroot.as_deref(), Some("/run/lithos/mnt"));
            assert_eq!(command.workdir.as_deref(), Some("/"));
            assert_eq!(
                command.environment,
                vec![
                    ("TERM".to_string(), "xterm".to_string()),
                    ("A".to_string(), "1".to_string()),
                    ("LITHOS_COMMAND".to_string(), "job.cmd".to_string()),
                ]
            );
        }
        other => panic!("unexpected actions {:?}", other),
    }
    mon.step(&Event::Started("job.cmd".to_string(), 50), 5);
    let step = mon.step(&Event::Child(50, 0), 6);
    assert_eq!(
        step.actions,
        vec![Action::Finish { name: "job.cmd".to_string(), remove_dir: None }]
    );
    assert_eq!(step.result, Some(MonitorResult::Killed));
    assert!(!mon.has("job.cmd"));
    assert_eq!(mon.deadline(), None);
}

#[test]
fn stray_is_cleaned_up_after_its_exit() {
    let mut mon: Monitor<Unit> = Monitor::new("t".to_string());
    mon.add_stray(
        31,
        "old.0".to_string(),
        Unit::Unidentified(UnidentifiedChild {
            name: Some("old.0".to_string()),
            state_dir: "/s".to_string(),
        }),
    );
    assert!(mon.tracks(31));
    assert!(mon.stray_named("old.0"));
    assert!(!mon.has("old.0"));
    let step = mon.step(&Event::Child(31, 1), 3);
    assert_eq!(
        step.actions,
        vec![Action::Stray {
            pid: 31,
            name: "old.0".to_string(),
            remove_dir: Some("/s/old.0".to_string())
        }]
    );
    assert!(!mon.tracks(31));
    assert!(!mon.stray_named("old.0"));
    let step = mon.step(&Event::Child(31, 1), 4);
    assert_eq!(step.actions, vec![Action::Unknown { pid: 31, status: 1 }]);
}

#[test]
fn run_stops_at_the_event_that_ends_it() {
    let mut mon: Monitor<Unit> = Monitor::new("t".to_string());
    mon.add("web.0".to_string(), child("web.0", "{}"), 1, None).unwrap();
    mon.allow_reboot();
    let events = vec![
        (10, Event::Timeout),
        (10, Event::Started("web.0".to_string(), 8)),
        (20, Event::Reboot(3)),
        (30, Event::Terminate(15)),
    ];
    let run = mon.run(&events);
    assert_eq!(run.result, Some(MonitorResult::Reboot));
    assert_eq!(run.consumed, 3);
    assert_eq!(start_names(&run.actions), vec!["web.0"]);
    assert_eq!(run.actions.len(), 1);
    assert_eq!(mon.pid_of("web.0"), Some(8));
    assert!(!mon.is_shutting_down());
}

#[test]
fn run_to_killed() {
    let mut mon: Monitor<Unit> = Monitor::new("t".to_string());
    mon.add("web.0".to_string(), child("web.0", "{}"), 1, Some((8, 0))).unwrap();
    let events = vec![(1, Event::Child(8, 0)), (2, Event::Terminate(15))];
    let run = mon.run(&events);
    assert_eq!(run.result, Some(MonitorResult::Killed));
    assert_eq!(run.consumed, 2);
    assert_eq!(
        run.actions,
        vec![Action::Finish {
            name: "web.0".to_string(),
            remove_dir: Some("/run/lithos/state/web.0".to_string())
        }]
    );
    let run = mon.run(&vec![]);
    assert_eq!(run.result, None);
    assert_eq!(run.consumed, 0);
}

#[test]
fn executors_answer_for_themselves() {
    let c = child("web.0", "{}");
    assert!(c.can_spawn());
    let f = c.finish();
    assert_eq!(f.remove_dir.as_deref(), Some("/run/lithos/state/web.0"));
    assert!(!f.suppress_restart);
    let u = Unit::Unidentified(UnidentifiedChild {
        name: Some("gone.3".to_string()),
        state_dir: "/s".to_string(),
    });
    assert!(!u.can_spawn());
    assert_eq!(u.prepare(), None);
    let f = u.finish();
    assert_eq!(f.remove_dir.as_deref(), Some("/s/gone.3"));
    assert!(f.suppress_restart);
    assert_eq!(outcast().finish().remove_dir, None);
    let t = target("job.cmd");
    assert!(t.can_spawn());
    assert!(t.finish().suppress_restart);
    assert_eq!(t.finish().remove_dir, None);
}

#[test]
fn child_inherits_the_switches() {
    let c = Child {
        name: "web.0".to_string(),
        global_file: "/g".to_string(),
        child_config_serialized: "{}".to_string(),
        state_dir: "/s".to_string(),
        root_binary: "/b/lithos_knot".to_string(),
        term: Some("vt100".to_string()),
        rust_log: Some("debug".to_string()),
        rust_backtrace: Some("1".to_string()),
    };
    let cmd: Command = c.command();
    assert_eq!(
        cmd.environment,
        vec![
            ("TERM".to_string(), "vt100".to_string()),
            ("RUST_LOG".to_string(), "debug".to_string()),
            ("RUST_BACKTRACE".to_string(), "1".to_string()),
        ]
    );
    assert_eq!(cmd.name, "web.0");
    assert_eq!(c.duplicate(), c);
}
