use lithos::ascii::{
    byte_unit, column_width, pad_left, pad_right, right_column, table_text, text_column, ByteUnit,
};
use lithos::check::{
    check_group, check_id, check_ports, check_user, validate_substitutions,
    validate_variable_types, IdFault, VariableProblem,
};
use lithos::child_config::{ChildConfig, ChildKind};
use lithos::cmd::{check_command_name, command_dir, command_name, is_command};
use lithos::container_config::{
    all_known_in, contains_text, is_space, parse_port, var_list, ContainerConfig, ContainerKind,
    Host, HostsFile, InstantiateError, ResolvConf, TcpPort, Variable, VariableFault, Variables,
    DEFAULT_KILL_TIMEOUT,
};
use lithos::id_map::IdMap;
use lithos::sandbox_config::{Range, SandboxConfig};

fn s(x: &str) -> String {
    x.to_string()
}

fn sandbox() -> SandboxConfig {
    SandboxConfig {
        config_file: None,
        image_dir: s("/images"),
        image_dir_levels: 1,
        used_images_list: None,
        log_file: None,
        log_level: None,
        readonly_paths: vec![],
        writable_paths: vec![],
        allow_users: vec![Range::new(1, 1000)],
        allow_groups: vec![Range::new(100, 200)],
        allow_tcp_ports: vec![Range::new(8000, 8999), Range::new(80, 80)],
        additional_hosts: vec![],
        uid_map: vec![],
        gid_map: vec![],
        auto_clean: true,
    }
}

fn port() -> TcpPort {
    TcpPort { host: Host(s("0.0.0.0")), fd: 3, reuse_addr: true, reuse_port: false, listen_backlog: 128 }
}

fn config() -> ContainerConfig {
    ContainerConfig {
        kind: ContainerKind::Daemon,
        variables: vec![],
        volumes: vec![],
        user_id: 1,
        group_id: 100,
        restart_timeout: 1,
        kill_timeout: DEFAULT_KILL_TIMEOUT,
        memory_limit: 0x7fffffffffffffff,
        fileno_limit: 1024,
        cpu_shares: 1024,
        executable: s("/bin/web"),
        arguments: vec![],
        environ: vec![],
        workdir: s("/"),
        resolv_conf: ResolvConf { copy_from_host: true },
        hosts_file: HostsFile { copy_from_host: true, localhost: None, public_hostname: None },
        uid_map: vec![],
        gid_map: vec![],
        stdout_stderr_file: None,
        interactive: false,
        restart_process_only: false,
        tcp_ports: vec![],
    }
}

#[test]
fn white_space_is_what_unicode_says() {
    for c in [' ', '\t', '\n', '\r', '\u{b}', '\u{c}', '\u{85}', '\u{a0}', '\u{1680}', '\u{2000}',
        '\u{200a}', '\u{2028}', '\u{2029}', '\u{202f}', '\u{205f}', '\u{3000}']
    {
        assert!(is_space(c), "{:?}", c);
        assert!(c.is_whitespace());
    }
    for c in ['a', '\0', '\u{8}', '\u{e}', '\u{200b}', '\u{1f}', '_', '\u{feff}'] {
        assert!(!is_space(c), "{:?}", c);
        assert!(!c.is_whitespace());
    }
}

#[test]
fn variables_are_listed_as_written() {
    assert_eq!(var_list(""), Vec::<String>::new());
    assert_eq!(var_list("@{x}"), vec!["@{x"]);
    assert_eq!(var_list("a @{ x } b @{y\t}@{"), vec!["@{ x", "@{y"]);
    assert_eq!(var_list("@{}"), vec!["@{"]);
    assert_eq!(var_list("@{ unclosed"), Vec::<String>::new());
    assert_eq!(var_list("}@{a}"), vec!["@{a"]);
    assert_eq!(var_list("@@{a}}"), vec!["@{a"]);
}

#[test]
fn ports_are_numbers_up_to_65535() {
    assert_eq!(parse_port("80"), Some(80));
    assert_eq!(parse_port("+80"), Some(80));
    assert_eq!(parse_port("0"), Some(0));
    assert_eq!(parse_port("65535"), Some(65535));
    assert_eq!(parse_port("65536"), None);
    assert_eq!(parse_port(""), None);
    assert_eq!(parse_port("8o"), None);
    assert_eq!(parse_port(" 80"), None);
    assert_eq!(parse_port("-1"), None);
}

#[test]
fn values_have_to_suit_their_variables() {
    let sb = sandbox();
    assert_eq!(Variable::TcpPort.validate("8080", &sb), Ok(()));
    assert_eq!(Variable::TcpPort.validate("80", &sb), Ok(()));
    assert_eq!(Variable::TcpPort.validate("81", &sb), Err(VariableFault::PortNotAllowed(81)));
    assert_eq!(Variable::TcpPort.validate("0", &sb), Err(VariableFault::PortNotAllowed(0)));
    assert_eq!(Variable::TcpPort.validate("http", &sb), Err(VariableFault::InvalidTcpPort));
    assert_eq!(Variable::TcpPort.validate("70000", &sb), Err(VariableFault::InvalidTcpPort));
    assert_eq!(Variable::TcpPort.validate("", &sb), Err(VariableFault::InvalidTcpPort));
    assert_eq!(Variable::Name.validate("my-app_2", &sb), Ok(()));
    assert_eq!(Variable::Name.validate("", &sb), Ok(()));
    assert_eq!(Variable::Name.validate("my app", &sb), Err(VariableFault::BadName));
    assert_eq!(Variable::Name.validate("a.b", &sb), Err(VariableFault::BadName));
    assert_eq!(Variable::Name.validate("é", &sb), Err(VariableFault::BadName));
    let choice = Variable::Choice(vec![s("blue"), s("green")]);
    assert_eq!(choice.validate("green", &sb), Ok(()));
    assert_eq!(choice.validate("red", &sb), Err(VariableFault::NotAChoice));
    assert_eq!(choice.validate("", &sb), Err(VariableFault::NotAChoice));
    assert_eq!(Variable::Choice(vec![]).validate("x", &sb), Err(VariableFault::NotAChoice));
}

#[test]
fn lookup_prefers_what_the_user_set() {
    let user = vec![(s("@{a"), s("1")), (s("lithos:name"), s("mine")), (s("@{a"), s("2"))];
    let vars = Variables { user_vars: &user, lithos_name: "web.0", lithos_config_filename: "/c.yaml" };
    assert_eq!(vars.lookup("@{a"), Some(s("1")));
    assert_eq!(vars.lookup("lithos:name"), Some(s("mine")));
    assert_eq!(vars.lookup("lithos:config_filename"), Some(s("/c.yaml")));
    assert_eq!(vars.lookup("a"), None);
    let none = vec![];
    let vars = Variables { user_vars: &none, lithos_name: "web.0", lithos_config_filename: "/c.yaml" };
    assert_eq!(vars.lookup("lithos:name"), Some(s("web.0")));
    assert_eq!(vars.lookup(""), None);
    assert!(all_known_in(&vars, "no variables"));
    assert!(!all_known_in(&vars, "@{x}"));
    assert_eq!(vars.resolve("a@{x}b"), "ab");
}

#[test]
fn instantiate_fills_in_and_keeps_the_rest() {
    let user = vec![(s("@{port"), s("8080")), (s("@{who"), s("world"))];
    let vars = Variables { user_vars: &user, lithos_name: "web.0", lithos_config_filename: "/c.yaml" };
    let mut c = config();
    c.arguments = vec![s("--greet=@{who}"), s("plain"), s("@{who}@{who  }!")];
    c.environ = vec![(s("PORT"), s("@{port}")), (s("@{who}"), s("x"))];
    c.tcp_ports = vec![(s("@{port}"), port()), (s("80"), port())];
    c.uid_map = vec![IdMap { inside: 0, outside: 1000, count: 10 }];
    let i = c.instantiate(&vars).ok().unwrap();
    assert_eq!(i.arguments, vec!["--greet=world", "plain", "worldworld!"]);
    assert_eq!(i.environ, vec![(s("PORT"), s("8080")), (s("@{who}"), s("x"))]);
    let ports: Vec<u16> = i.tcp_ports.iter().map(|p| p.0).collect();
    assert_eq!(ports, vec![8080, 80]);
    assert_eq!(i.tcp_ports[0].1.fd, 3);
    assert_eq!(i.executable, "/bin/web");
    assert_eq!(i.user_id, 1);
    assert_eq!(i.kill_timeout, 5);
    assert_eq!(i.map_uid(3), Some(1003));
    assert_eq!(i.map_uid(10), None);
    assert_eq!(i.map_gid(0), None);
}

#[test]
fn instantiate_names_everything_that_is_wrong() {
    let user = vec![(s("@{port"), s("http"))];
    let vars = Variables { user_vars: &user, lithos_name: "web.0", lithos_config_filename: "/c.yaml" };
    let mut c = config();
    c.arguments = vec![s("@{a} @{b} @{a}")];
    c.environ = vec![(s("K"), s("@{b}@{c}"))];
    c.tcp_ports = vec![
        (s("@{port}"), port()),
        (s("@{d}"), port()),
        (s("99999"), port()),
        (s("@{port}"), port()),
        (s("443"), port()),
    ];
    assert_eq!(
        c.instantiate(&vars).err().unwrap(),
        vec![
            InstantiateError::UnknownVariable(s("@{a")),
            InstantiateError::UnknownVariable(s("@{b")),
            InstantiateError::UnknownVariable(s("@{c")),
            InstantiateError::UnknownVariable(s("@{d")),
            InstantiateError::BadPort(s("@{port}")),
            InstantiateError::BadPort(s("@{d}")),
            InstantiateError::BadPort(s("99999")),
        ]
    );
    let mut c = config();
    c.tcp_ports = vec![(s(""), port())];
    assert_eq!(c.instantiate(&vars).err().unwrap(), vec![InstantiateError::BadPort(s(""))]);
    assert!(config().instantiate(&vars).is_ok());
}

#[test]
fn contains_text_is_membership() {
    let list = vec![s("a"), s("b")];
    assert!(contains_text(&list, "a"));
    assert!(contains_text(&list, "b"));
    assert!(!contains_text(&list, "c"));
    assert!(!contains_text(&vec![], ""));
}

#[test]
fn ids_have_to_be_allowed_and_mapped() {
    let none: Vec<IdMap> = vec![];
    let map = vec![IdMap { inside: 0, outside: 5000, count: 100 }];
    let allowed = vec![Range::new(1, 1000)];
    assert_eq!(check_id(&none, &none, &allowed, 5), vec![]);
    assert_eq!(check_id(&none, &none, &allowed, 0), vec![IdFault::NotAllowed]);
    assert_eq!(check_id(&none, &map, &allowed, 5), vec![]);
    assert_eq!(check_id(&none, &map, &allowed, 500), vec![IdFault::NotMapped]);
    assert_eq!(
        check_id(&none, &map, &allowed, 5000),
        vec![IdFault::NotMapped, IdFault::NotAllowed]
    );
    assert_eq!(check_id(&map, &none, &allowed, 5), vec![]);
    assert_eq!(check_id(&map, &none, &allowed, 0), vec![]);
    assert_eq!(check_id(&map, &none, &allowed, 100), vec![IdFault::NotInOwnMap]);
    assert_eq!(check_id(&map, &map, &allowed, 5), vec![IdFault::BothMap]);
    assert_eq!(
        check_id(&map, &map, &allowed, 100),
        vec![IdFault::NotInOwnMap, IdFault::BothMap]
    );
    let mut c = config();
    assert_eq!(check_user(&c, &sandbox()), vec![]);
    assert_eq!(check_group(&c, &sandbox()), vec![]);
    c.user_id = 0;
    c.group_id = 99;
    assert_eq!(check_user(&c, &sandbox()), vec![IdFault::NotAllowed]);
    assert_eq!(check_group(&c, &sandbox()), vec![IdFault::NotAllowed]);
}

#[test]
fn ports_have_to_be_allowed() {
    let user = vec![];
    let vars = Variables { user_vars: &user, lithos_name: "n", lithos_config_filename: "f" };
    let mut c = config();
    c.tcp_ports =
        vec![(s("8080"), port()), (s("22"), port()), (s("80"), port()), (s("9000"), port())];
    let i = c.instantiate(&vars).ok().unwrap();
    assert_eq!(check_ports(&i, &sandbox()), vec![22, 9000]);
    let i = config().instantiate(&vars).ok().unwrap();
    assert_eq!(check_ports(&i, &sandbox()), Vec::<u16>::new());
}

#[test]
fn used_variables_have_to_be_declared() {
    let mut c = config();
    c.variables = vec![(s("@{port"), Variable::TcpPort)];
    c.tcp_ports = vec![(s("@{port}"), port()), (s("@{p2}"), port())];
    c.environ = vec![(s("A"), s("@{x} @{port} @{x}"))];
    c.arguments = vec![s("@{y}"), s("none")];
    assert_eq!(validate_substitutions(&c), vec!["@{p2", "@{x", "@{x", "@{y"]);
    assert_eq!(validate_substitutions(&config()), Vec::<String>::new());
}

#[test]
fn declared_variables_need_suitable_values() {
    let mut c = config();
    c.variables = vec![
        (s("port"), Variable::TcpPort),
        (s("name"), Variable::Name),
        (s("color"), Variable::Choice(vec![s("red")])),
        (s("other"), Variable::Name),
    ];
    let child = ChildConfig {
        instances: 1,
        image: s("web.1"),
        config: s("/c.yaml"),
        variables: vec![(s("port"), s("81")), (s("color"), s("red")), (s("other"), s("a b"))],
        kind: ChildKind::Daemon,
    };
    assert_eq!(
        validate_variable_types(&c, &child, &sandbox()),
        vec![
            VariableProblem { name: s("port"), fault: Some(VariableFault::PortNotAllowed(81)) },
            VariableProblem { name: s("name"), fault: None },
            VariableProblem { name: s("other"), fault: Some(VariableFault::BadName) },
        ]
    );
    assert!(child.is_supervised());
    assert!(!is_command(&child));
    let cmd = ChildConfig { kind: ChildKind::Command, ..child };
    assert!(!cmd.is_supervised());
    assert!(is_command(&cmd));
}

#[test]
fn command_names() {
    for ok in ["ab", "a.b", "0-", "web_1.cmd", "A9"] {
        assert!(check_command_name(ok), "{:?}", ok);
    }
    for bad in ["", "a", ".a", "-ab", "_ab", "a b", "a/b", "é1", "ab!"] {
        assert!(!check_command_name(bad), "{:?}", bad);
    }
    assert_eq!(command_name("job"), "job.cmd");
    assert_eq!(command_dir("job", 4242), ".cmd.job.4242");
    assert_eq!(command_dir("a.b", 0), ".cmd.a.b.0");
}

#[test]
fn cells_are_padded_to_the_width_of_their_column() {
    assert_eq!(pad_right("ab", 5), "ab   ");
    assert_eq!(pad_right("abcdef", 5), "abcdef");
    assert_eq!(pad_right("", 0), "");
    assert_eq!(pad_left("ab", 5), "   ab");
    assert_eq!(pad_left("abcdef", 5), "abcdef");
    assert_eq!(pad_left("é", 3), "  é");
    assert_eq!(column_width(&vec![]), 3);
    assert_eq!(column_width(&vec![s("a"), s("abcde"), s("ab")]), 5);
    assert_eq!(column_width(&vec![s("ab")]), 3);
    assert_eq!(
        text_column("NAME", &vec![s("a"), s("bcdef")]),
        vec!["NAME ", "a    ", "bcdef"]
    );
    assert_eq!(text_column("N", &vec![]), vec!["N  "]);
    assert_eq!(right_column("PID", &vec![s("1"), s("4242")]), vec![" PID", "   1", "4242"]);
}

#[test]
fn sizes_are_shown_in_the_unit_of_the_largest() {
    assert_eq!(byte_unit(&vec![]), ByteUnit::B);
    assert_eq!(byte_unit(&vec![1, 10240]), ByteUnit::B);
    assert_eq!(byte_unit(&vec![10241, 5]), ByteUnit::KiB);
    assert_eq!(byte_unit(&vec![10485760]), ByteUnit::KiB);
    assert_eq!(byte_unit(&vec![10485761]), ByteUnit::MiB);
    assert_eq!(byte_unit(&vec![10737418240]), ByteUnit::MiB);
    assert_eq!(byte_unit(&vec![10737418241]), ByteUnit::GiB);
    assert_eq!(byte_unit(&vec![0, 0]), ByteUnit::GiB);
    assert_eq!(ByteUnit::B.divisor(), 1);
    assert_eq!(ByteUnit::KiB.divisor(), 1024);
    assert_eq!(ByteUnit::MiB.divisor(), 1048576);
    assert_eq!(ByteUnit::GiB.divisor(), 1073741824);
    assert_eq!(ByteUnit::KiB.label(), "kiB");
    assert_eq!(ByteUnit::B.label(), "B");
    assert_eq!(ByteUnit::MiB.label(), "MiB");
    assert_eq!(ByteUnit::GiB.label(), "GiB");
}

#[test]
fn a_table_ends_where_a_column_ends() {
    let col = |cells: &[&str]| cells.iter().map(|c| s(c)).collect::<Vec<String>>();
    assert_eq!(
        table_text(&vec![col(&["A", "1", "2"]), col(&["B", "x", "y"])]),
        "A B \n1 x \n2 y \n"
    );
    assert_eq!(table_text(&vec![col(&["A", "1", "2"]), col(&["B", "x"])]), "A B \n1 x \n2 ");
    assert_eq!(table_text(&vec![col(&["A"]), col(&[])]), "A ");
    assert_eq!(table_text(&vec![col(&[])]), "");
    assert_eq!(table_text(&vec![col(&["only"])]), "only \n");
}
