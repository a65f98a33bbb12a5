use lithos::executors::Unit;
use lithos::identity::RecoveredIdentity;
use lithos::monitor::{Action, Event, Monitor, MonitorResult};
use lithos::tree::{
    expand, global_cleanup, global_init, instance_name, is_config_file, place, reconcile,
    teardown, CleanupAction, DesiredInstance, Group, Plan, SetupAction, Settings, Sighting,
    SIGTERM,
};
use lithos::tree_config::TreeConfig;

const C: &str = "{\"instances\":2,\"image\":\"web.4a20772b\",\"config\":\"/config/web.yaml\",\"kind\":\"Daemon\"}";
const C1: &str = "{\"instances\":1,\"image\":\"web.00000001\",\"config\":\"/config/web.yaml\",\"kind\":\"Daemon\"}";
const C2: &str = "{\"instances\":1,\"image\":\"web.00000002\",\"config\":\"/config/web.yaml\",\"kind\":\"Daemon\"}";

fn settings() -> Settings {
    Settings {
        global_file: "/etc/lithos.yaml".to_string(),
        state_dir: "/run/lithos/state".to_string(),
        root_binary: "/usr/bin/lithos_knot".to_string(),
        term: Some("linux".to_string()),
        rust_log: None,
        rust_backtrace: None,
    }
}

fn web(instances: usize, config: &str) -> Vec<DesiredInstance> {
    expand(
        &settings(),
        &vec![Group {
            name: "web".to_string(),
            instances,
            config: config.to_string(),
            restart_timeout: 1,
        }],
    )
}

fn seen(pid: i32, name: &str, config: &str) -> Sighting {
    Sighting {
        pid,
        identity: RecoveredIdentity::Identified {
            name: name.to_string(),
            config: config.to_string(),
        },
    }
}

fn pass(
    mon: &mut Monitor<Unit>,
    desired: &Vec<DesiredInstance>,
    sightings: &Vec<Sighting>,
    dirs: &[&str],
    now: i64,
) -> Plan {
    let dirs: Vec<String> = dirs.iter().map(|d| d.to_string()).collect();
    reconcile(mon, desired, sightings, &dirs, now, &settings().state_dir)
}

fn start_names(actions: &[Action]) -> Vec<String> {
    let mut names = Vec::new();
    for a in actions {
        if let Action::Start { name, .. } = a {
            names.push(name.clone());
        }
    }
    names
}

#[test]
fn expand_names_every_instance() {
    let desired = expand(
        &settings(),
        &vec![
            Group { name: "web".to_string(), instances: 3, config: "A".to_string(), restart_timeout: 1 },
            Group { name: "idle".to_string(), instances: 0, config: "B".to_string(), restart_timeout: 2 },
            Group { name: "db-1".to_string(), instances: 1, config: "C".to_string(), restart_timeout: 9 },
        ],
    );
    let names: Vec<&str> = desired.iter().map(|d| d.child.name.as_str()).collect();
    assert_eq!(names, vec!["web.0", "web.1", "web.2", "db-1.0"]);
    assert_eq!(desired[2].child.child_config_serialized, "A");
    assert_eq!(desired[3].child.child_config_serialized, "C");
    assert_eq!(desired[3].restart_timeout, 9);
    assert_eq!(desired[0].child.global_file, "/etc/lithos.yaml");
    assert_eq!(desired[0].child.state_dir, "/run/lithos/state");
    assert_eq!(desired[0].child.root_binary, "/usr/bin/lithos_knot");
    assert_eq!(desired[0].child.term.as_deref(), Some("linux"));
    assert_eq!(expand(&settings(), &vec![]), vec![]);
}

#[test]
fn instance_names_are_group_dot_index() {
    assert_eq!(instance_name("web", 0), "web.0");
    assert_eq!(instance_name("web", 10), "web.10");
    assert_eq!(instance_name("a_b-c", 18446744073709551615), "a_b-c.18446744073709551615");
}

#[test]
fn config_files_end_in_yaml() {
    assert_eq!(is_config_file("web.yaml"), Some("web".to_string()));
    assert_eq!(is_config_file("my.app.yaml"), Some("my.app".to_string()));
    assert_eq!(is_config_file(".yaml"), None);
    assert_eq!(is_config_file("web.yml"), None);
    assert_eq!(is_config_file("web.yaml.old"), None);
    assert_eq!(is_config_file("yaml"), None);
    assert_eq!(is_config_file(""), None);
    assert_eq!(is_config_file("x.yaml"), Some("x".to_string()));
}

#[test]
fn running_instances_with_todays_config_are_adopted_quietly() {
    let mut mon: Monitor<Unit> = Monitor::new("lithos-tree".to_string());
    let desired = web(2, C);
    let live = vec![seen(100, "web.0", C), seen(101, "web.1", C)];
    let plan = pass(&mut mon, &desired, &live, &["web.0", "web.1"], 5000);
    assert_eq!(plan.kills, Vec::<i32>::new());
    assert_eq!(plan.dangling, Vec::<String>::new());
    assert_eq!(mon.pid_of("web.0"), Some(100));
    assert_eq!(mon.pid_of("web.1"), Some(101));
    assert!(mon.tracks(100) && mon.tracks(101));
    assert_eq!(mon.deadline(), None);
    assert_eq!(mon.count(), 2);
    assert_eq!(mon.step(&Event::Timeout, 5000).actions, vec![]);
}

#[test]
fn same_document_in_other_words_is_no_drift() {
    let mut mon: Monitor<Unit> = Monitor::new("lithos-tree".to_string());
    let desired = web(1, "{\"a\": 1, \"b\": [true, null]}");
    let live = vec![seen(100, "web.0", " { \"b\":[true,null],\n\"a\":1 }")];
    let plan = pass(&mut mon, &desired, &live, &[], 0);
    assert_eq!(plan.kills, Vec::<i32>::new());
    assert_eq!(mon.pid_of("web.0"), Some(100));
}

#[test]
fn missing_instances_are_scheduled_and_started() {
    let mut mon: Monitor<Unit> = Monitor::new("lithos-tree".to_string());
    let desired = web(3, C);
    let plan = pass(&mut mon, &desired, &vec![], &[], 5000);
    assert_eq!(plan.kills, Vec::<i32>::new());
    assert_eq!(mon.count(), 3);
    assert_eq!(mon.deadline(), Some(0));
    let step = mon.step(&Event::Timeout, 5000);
    assert_eq!(start_names(&step.actions), vec!["web.0", "web.1", "web.2"]);
    for (i, name) in ["web.0", "web.1", "web.2"].iter().enumerate() {
        mon.step(&Event::Started(name.to_string(), 200 + i as i32), 5000);
    }
    for (i, name) in ["web.0", "web.1", "web.2"].iter().enumerate() {
        assert_eq!(mon.pid_of(name), Some(200 + i as i32));
        assert!(mon.tracks(200 + i as i32));
        assert_eq!(mon.next_start_of(name), None);
    }
    assert_eq!(mon.deadline(), None);
}

#[test]
fn stale_config_is_adopted_signalled_and_restarted_with_todays() {
    let mut mon: Monitor<Unit> = Monitor::new("lithos-tree".to_string());
    let desired = web(1, C2);
    let live = vec![seen(100, "web.0", C1)];
    let plan = pass(&mut mon, &desired, &live, &["web.0"], 5000);
    assert_eq!(plan.kills, vec![100]);
    assert_eq!(plan.signal, SIGTERM);
    assert_eq!(plan.dangling, Vec::<String>::new());
    assert_eq!(mon.pid_of("web.0"), Some(100));
    assert_eq!(mon.deadline(), None);
    let step = mon.step(&Event::Child(100, 15), 5003);
    assert_eq!(step.actions, vec![]);
    assert_eq!(mon.next_start_of("web.0"), Some(5001));
    let step = mon.step(&Event::Timeout, 5003);
    match &step.actions[..] {
        [Action::Start { name, command, .. }] => {
            assert_eq!(name, "web.0");
            assert_eq!(command.arguments[5], C2);
        }
        other => panic!("unexpected actions {:?}", other),
    }
}

#[test]
fn unidentified_process_is_signalled_and_never_tracked_in_the_table() {
    let mut mon: Monitor<Unit> = Monitor::new("lithos-tree".to_string());
    let desired = web(1, C);
    let live = vec![Sighting { pid: 300, identity: RecoveredIdentity::Unidentified }];
    let plan = pass(&mut mon, &desired, &live, &[], 5000);
    assert_eq!(plan.kills, vec![300]);
    assert_eq!(mon.count(), 1);
    assert_eq!(mon.pid_of("web.0"), None);
    assert!(mon.tracks(300));
    let step = mon.step(&Event::Child(300, 0), 5001);
    assert_eq!(
        step.actions,
        vec![Action::Stray { pid: 300, name: String::new(), remove_dir: None }]
    );
    assert_eq!(step.result, None);
    assert_eq!(mon.count(), 1);
    assert_eq!(mon.next_start_of("web.0"), Some(0));
}

#[test]
fn instance_of_no_group_keeps_its_directory_until_it_has_exited() {
    let mut mon: Monitor<Unit> = Monitor::new("lithos-tree".to_string());
    let desired = web(1, C);
    let live = vec![seen(400, "old.0", C), seen(401, "web.5", C)];
    let plan = pass(&mut mon, &desired, &live, &["old.0", "web.5", "web.0", "junk"], 5000);
    assert_eq!(plan.kills, vec![400, 401]);
    assert_eq!(plan.dangling, vec!["junk"]);
    assert!(!mon.has("old.0"));
    assert!(!mon.has("web.5"));
    assert!(mon.has("web.0"));
    let step = mon.step(&Event::Child(401, 0), 5001);
    assert_eq!(
        step.actions,
        vec![Action::Stray {
            pid: 401,
            name: "web.5".to_string(),
            remove_dir: Some("/run/lithos/state/web.5".to_string())
        }]
    );
    // never started again
    assert_eq!(start_names(&mon.step(&Event::Timeout, 9999).actions), vec!["web.0"]);
}

#[test]
fn second_claimant_of_a_name_is_a_stray_without_a_directory() {
    let mut mon: Monitor<Unit> = Monitor::new("lithos-tree".to_string());
    let desired = web(1, C);
    let live = vec![seen(100, "web.0", C), seen(101, "web.0", C)];
    let plan = pass(&mut mon, &desired, &live, &["web.0"], 5000);
    assert_eq!(plan.kills, vec![101]);
    assert_eq!(plan.dangling, Vec::<String>::new());
    assert_eq!(mon.pid_of("web.0"), Some(100));
    let step = mon.step(&Event::Child(101, 0), 5001);
    assert_eq!(
        step.actions,
        vec![Action::Stray { pid: 101, name: "web.0".to_string(), remove_dir: None }]
    );
    assert_eq!(mon.pid_of("web.0"), Some(100));
}

#[test]
fn dangling_directories_are_those_of_nobody() {
    let mut mon: Monitor<Unit> = Monitor::new("lithos-tree".to_string());
    let desired = web(2, C);
    let live = vec![seen(100, "web.1", C)];
    let plan = pass(&mut mon, &desired, &live, &["web.0", "web.1", "web.2", ".cmd.x.1", "web.1"], 0);
    // web.0 is registered in this very pass, to be started: its directory stays
    assert_eq!(plan.dangling, vec!["web.2", ".cmd.x.1"]);
    assert_eq!(plan.kills, Vec::<i32>::new());
}

#[test]
fn a_second_pass_changes_nothing() {
    let mut mon: Monitor<Unit> = Monitor::new("lithos-tree".to_string());
    let desired = web(3, C2);
    let live = vec![
        seen(100, "web.0", C2),
        seen(101, "web.1", C1),
        seen(102, "gone.0", C1),
        Sighting { pid: 103, identity: RecoveredIdentity::Unidentified },
    ];
    let first = pass(&mut mon, &desired, &live, &["web.0", "x"], 5000);
    assert_eq!(first.kills, vec![101, 102, 103]);
    assert_eq!(first.dangling, vec!["x"]);
    let pids: Vec<Option<i32>> =
        ["web.0", "web.1", "web.2"].iter().map(|n| mon.pid_of(n)).collect();
    let second = pass(&mut mon, &desired, &live, &["web.0", "x"], 6000);
    assert_eq!(second.kills, Vec::<i32>::new());
    assert_eq!(second.dangling, vec!["x"]);
    assert_eq!(mon.count(), 3);
    let again: Vec<Option<i32>> =
        ["web.0", "web.1", "web.2"].iter().map(|n| mon.pid_of(n)).collect();
    assert_eq!(pids, again);
    assert_eq!(pids, vec![Some(100), Some(101), None]);
    assert_eq!(mon.next_start_of("web.2"), Some(0));
    // the start times of the first pass stand
    mon.step(&Event::Child(100, 0), 7000);
    assert_eq!(mon.next_start_of("web.0"), Some(5001));
}

#[test]
fn reboot_then_fresh_pass_adopts_the_children() {
    let mut mon: Monitor<Unit> = Monitor::new("lithos-tree".to_string());
    let desired = web(2, C);
    pass(&mut mon, &desired, &vec![], &[], 10);
    mon.allow_reboot();
    mon.step(&Event::Timeout, 10);
    mon.step(&Event::Started("web.0".to_string(), 100), 10);
    mon.step(&Event::Started("web.1".to_string(), 101), 10);
    let step = mon.step(&Event::Reboot(3), 20);
    assert_eq!(step.result, Some(MonitorResult::Reboot));
    assert_eq!(step.actions, vec![]);
    // the next image of the supervisor finds its children
    let mut next: Monitor<Unit> = Monitor::new("lithos-tree".to_string());
    let live = vec![seen(100, "web.0", C), seen(101, "web.1", C)];
    let plan = pass(&mut next, &desired, &live, &["web.0", "web.1"], 21);
    assert_eq!(plan.kills, Vec::<i32>::new());
    assert_eq!(plan.dangling, Vec::<String>::new());
    assert_eq!(next.pid_of("web.0"), Some(100));
    assert_eq!(next.pid_of("web.1"), Some(101));
    assert_eq!(next.deadline(), None);
}

#[test]
fn sigterm_is_fifteen() {
    assert_eq!(SIGTERM, 15);
}

fn cfg() -> TreeConfig {
    TreeConfig {
        config_dir: "/etc/lithos/current".to_string(),
        state_dir: "/run/lithos/state".to_string(),
        mount_dir: "/run/lithos/mnt".to_string(),
        devfs_dir: "/var/lib/lithos/dev".to_string(),
        readonly_paths: vec![],
        writable_paths: vec![],
        devices: "/dev".to_string(),
        min_port: 1024,
        max_port: 29999,
    }
}

#[test]
fn setup_mounts_only_what_is_missing() {
    let s = || SetupAction::CreateDir("/run/lithos/state".to_string());
    let m = || SetupAction::CreateDir("/run/lithos/mnt".to_string());
    let b = || SetupAction::BindMount("/run/lithos/mnt".to_string());
    let p = || SetupAction::MakePrivate("/run/lithos/mnt".to_string());
    assert_eq!(global_init(&cfg(), &vec![]), vec![s(), m(), b(), p()]);
    assert_eq!(global_init(&cfg(), &vec![false]), vec![s(), m(), p()]);
    assert_eq!(global_init(&cfg(), &vec![true]), vec![s(), m()]);
    assert_eq!(global_init(&cfg(), &vec![false, true, false]), vec![s(), m()]);
    assert_eq!(global_init(&cfg(), &vec![false, false]), vec![s(), m(), p()]);
}

#[test]
fn cleanup_follows_killed_only() {
    let all = vec![
        CleanupAction::Unmount("/run/lithos/mnt".to_string()),
        CleanupAction::RemoveDir("/run/lithos/mnt".to_string()),
        CleanupAction::RemoveTree("/run/lithos/state".to_string()),
    ];
    assert_eq!(global_cleanup(&cfg()), all);
    assert_eq!(teardown(&cfg(), MonitorResult::Killed), all);
    assert_eq!(teardown(&cfg(), MonitorResult::Reboot), vec![]);
}

#[test]
fn place_decides_by_the_drift_it_is_told() {
    let desired = web(2, C);
    let dir = settings().state_dir;
    let mut mon: Monitor<Unit> = Monitor::new("t".to_string());
    assert!(!place(&mut mon, &desired, &seen(100, "web.0", C), 7, &dir, false));
    assert!(place(&mut mon, &desired, &seen(101, "web.1", C), 7, &dir, true));
    assert_eq!(mon.pid_of("web.0"), Some(100));
    assert_eq!(mon.pid_of("web.1"), Some(101));
    // tracked already: left alone, whatever the drift
    assert!(!place(&mut mon, &desired, &seen(101, "web.1", C), 8, &dir, true));
    // not to run: told to end, whatever the drift
    assert!(place(&mut mon, &desired, &seen(102, "web.2", C), 8, &dir, false));
    assert!(place(
        &mut mon,
        &desired,
        &Sighting { pid: 103, identity: RecoveredIdentity::Unidentified },
        8,
        &dir,
        false
    ));
    assert!(!mon.has("web.2"));
    assert!(mon.stray_named("web.2"));
    assert!(mon.tracks(102) && mon.tracks(103));
    assert_eq!(mon.count(), 2);
}
