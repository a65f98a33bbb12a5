use lithos::command::Command;

fn pair(k: &str, v: &str) -> (String, String) {
    (k.to_string(), v.to_string())
}

#[test]
fn new_command_is_bare() {
    let c = Command::new("web.0".to_string(), "/bin/web".to_string());
    assert_eq!(
        c,
        Command {
            name: "web.0".to_string(),
            executable: "/bin/web".to_string(),
            arguments: vec![],
            environment: vec![],
            workdir: None,
            chroot: None,
            user_id: None,
            keep_sigmask: false,
            container: false,
        }
    );
    assert_eq!(c.argv(), vec!["/bin/web"]);
    assert_eq!(c.cmdline(), "/bin/web\0");
}

#[test]
fn builders_set_one_thing_each() {
    let mut c = Command::new("n".to_string(), "/x".to_string());
    c.keep_sigmask();
    assert!(c.keep_sigmask && !c.container);
    c.container(true);
    assert!(c.container);
    c.container(false);
    assert!(!c.container);
    c.set_user_id(33);
    assert_eq!(c.user_id, Some(33));
    c.chroot("/mnt");
    assert_eq!(c.chroot.as_deref(), Some("/mnt"));
    c.set_workdir("/srv");
    assert_eq!(c.workdir.as_deref(), Some("/srv"));
    assert_eq!(c.arguments, Vec::<String>::new());
    assert_eq!(c.environment, vec![]);
}

#[test]
fn arguments_keep_their_order() {
    let mut c = Command::new("n".to_string(), "/x".to_string());
    c.arg("a");
    c.args(&vec!["b".to_string(), "".to_string(), "c d".to_string()]);
    c.args(&vec![]);
    c.arg("e");
    assert_eq!(c.arguments, vec!["a", "b", "", "c d", "e"]);
    assert_eq!(c.argv(), vec!["/x", "a", "b", "", "c d", "e"]);
    assert_eq!(c.cmdline(), "/x\0a\0b\0\0c d\0e\0");
}

#[test]
fn a_variable_is_set_once() {
    let mut c = Command::new("n".to_string(), "/x".to_string());
    c.set_env("A", "1");
    c.set_env("B", "2");
    c.set_env("A", "3");
    assert_eq!(c.environment, vec![pair("A", "3"), pair("B", "2")]);
    c.update_env(&vec![pair("C", "4"), pair("B", "5"), pair("C", "6")]);
    assert_eq!(c.environment, vec![pair("A", "3"), pair("B", "5"), pair("C", "6")]);
    c.update_env(&vec![]);
    assert_eq!(c.environment.len(), 3);
}
