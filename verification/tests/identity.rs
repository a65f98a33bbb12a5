use lithos::executors::Child;
use lithos::identity::{
    child_entry, classify, is_child, is_word, parent_pid, parse_name, parse_pid, read_args,
    recover_identity, RecoveredIdentity,
};
use lithos::json::{config_drift, documents_differ, is_json};
use lithos::monitor::Executor;

const G: &str = "/etc/lithos.yaml";

fn cmdline(args: &[&str]) -> String {
    let mut s = String::new();
    for a in args {
        s.push_str(a);
        s.push('\0');
    }
    s
}

fn knot(name: &str, config: &str) -> String {
    cmdline(&["/usr/bin/lithos_knot", "--name", name, "--global-config", G, "--config", config])
}

fn identified(name: &str, config: &str) -> RecoveredIdentity {
    RecoveredIdentity::Identified { name: name.to_string(), config: config.to_string() }
}

#[test]
fn names_follow_the_grammar() {
    assert_eq!(parse_name("web.0"), Some(("web".to_string(), "0".to_string())));
    assert_eq!(parse_name("my-app_2.17"), Some(("my-app_2".to_string(), "17".to_string())));
    assert_eq!(parse_name("a.007"), Some(("a".to_string(), "007".to_string())));
    assert_eq!(parse_name("9.9"), Some(("9".to_string(), "9".to_string())));
    for bad in [
        "", "web", "web.", ".0", "web.x", "web.0x", "web.-1", "web.0.1", "we b.0", "web. 0",
        "web.0 ", "wéb.0", "web.٣", "a/b.0", ".", "..", "web..0",
    ] {
        assert_eq!(parse_name(bad), None, "{:?}", bad);
    }
}

#[test]
fn word_characters() {
    for c in ['a', 'z', 'A', 'Z', '0', '9', '_', '-'] {
        assert!(is_word(c));
    }
    for c in ['.', ' ', '/', 'é', '\0', '@', '['] {
        assert!(!is_word(c));
    }
}

#[test]
fn arguments_as_the_supervisor_lays_them_out() {
    assert_eq!(
        read_args(&knot("web.0", "{}"), "lithos_knot", G),
        Some(("web.0".to_string(), "{}".to_string()))
    );
    assert_eq!(
        recover_identity(&knot("web.0", "{\"a\":[1,2]}"), "lithos_knot", G),
        identified("web.0", "{\"a\":[1,2]}")
    );
    // the program may be called by any path
    assert_eq!(
        recover_identity(
            &cmdline(&["lithos_knot", "--name", "w.1", "--global-config", G, "--config", "1"]),
            "lithos_knot",
            G
        ),
        identified("w.1", "1")
    );
}

#[test]
fn arguments_that_do_not_fit_are_unidentified() {
    let u = RecoveredIdentity::Unidentified;
    let r = |c: &str| recover_identity(c, "lithos_knot", G);
    assert_eq!(r(""), u);
    assert_eq!(r("/sbin/init\0"), u);
    assert_eq!(r(&cmdline(&["/bin/sh", "-c", "sleep 1"])), u);
    // another program
    assert_eq!(
        r(&cmdline(&["/usr/bin/knot", "--name", "web.0", "--global-config", G, "--config", "{}"])),
        u
    );
    // a flag out of place
    assert_eq!(
        r(&cmdline(&["lithos_knot", "--name", "web.0", "--config", "{}", "--global-config", G])),
        u
    );
    assert_eq!(
        r(&cmdline(&["lithos_knot", "-name", "web.0", "--global-config", G, "--config", "{}"])),
        u
    );
    // another supervisor's configuration
    assert_eq!(
        r(&cmdline(&["lithos_knot", "--name", "web.0", "--global-config", "/x", "--config", "{}"])),
        u
    );
    // something behind the configuration
    assert_eq!(
        r(&cmdline(&[
            "lithos_knot", "--name", "web.0", "--global-config", G, "--config", "{}", "more"
        ])),
        u
    );
    // no NUL behind the last argument
    let mut cut = knot("web.0", "{}");
    cut.pop();
    assert_eq!(r(&cut), u);
    // too few
    assert_eq!(r(&cmdline(&["lithos_knot", "--name", "web.0", "--global-config", G])), u);
}

#[test]
fn a_name_out_of_the_grammar_is_unidentified_whatever_else_holds() {
    for bad in ["web", "web.x", "web.1.2", "", "w eb.0", ".5"] {
        assert_eq!(
            recover_identity(&knot(bad, "{}"), "lithos_knot", G),
            RecoveredIdentity::Unidentified,
            "{:?}",
            bad
        );
        // the arguments themselves are in order
        assert_eq!(
            read_args(&knot(bad, "{}"), "lithos_knot", G),
            Some((bad.to_string(), "{}".to_string()))
        );
    }
}

#[test]
fn a_configuration_that_is_no_json_is_unidentified() {
    for bad in ["", "{", "{a:1}", "[1,]", "nul", "{} {}"] {
        assert_eq!(
            recover_identity(&knot("web.0", bad), "lithos_knot", G),
            RecoveredIdentity::Unidentified,
            "{:?}",
            bad
        );
    }
}

#[test]
fn what_a_child_is_started_with_says_who_it_is() {
    let c = Child {
        name: "web.3".to_string(),
        global_file: G.to_string(),
        child_config_serialized: "{\"k\":\"v\"}".to_string(),
        state_dir: "/s".to_string(),
        root_binary: "/opt/lithos/bin/lithos_knot".to_string(),
        term: None,
        rust_log: None,
        rust_backtrace: None,
    };
    let cmd = c.command();
    assert_eq!(
        cmd.cmdline(),
        "/opt/lithos/bin/lithos_knot\0--name\0web.3\0--global-config\0/etc/lithos.yaml\0--config\0{\"k\":\"v\"}\0"
    );
    assert_eq!(
        recover_identity(&cmd.cmdline(), "lithos_knot", G),
        identified("web.3", "{\"k\":\"v\"}")
    );
}

#[test]
fn json_documents() {
    assert!(is_json("{}"));
    assert!(is_json(" [1, 2.5, \"x\", null, true] "));
    assert!(is_json("0"));
    assert!(!is_json(""));
    assert!(!is_json("{"));
    assert!(!is_json("{'a': 1}"));
}

#[test]
fn drift_is_a_difference_of_documents() {
    assert!(!config_drift("{}", "{}"));
    assert!(!config_drift("{\"a\":1,\"b\":2}", "{ \"b\" : 2, \"a\" : 1 }"));
    assert!(config_drift("{\"a\":1}", "{\"a\":2}"));
    assert!(config_drift("{\"a\":1}", "{\"a\":1,\"b\":null}"));
    assert!(config_drift("[1,2]", "[2,1]"));
    assert!(config_drift("1", "1.0"));
    assert!(config_drift("{\"a\":\"1\"}", "{\"a\":1}"));
    // a text that is no document differs from every document, not from itself
    assert!(config_drift("{", "{}"));
    assert!(config_drift("{}", "{"));
    assert!(!config_drift("{", "{"));
    assert!(!config_drift("{", "nonsense"));
}

#[test]
fn parent_is_the_fourth_field_of_stat() {
    assert_eq!(parent_pid("4242 (lithos_knot) S 17 4242 4242 0 -1 4194560 "), Some(17));
    assert_eq!(parent_pid("1 (systemd) S 0 1 1 0 -1\n"), Some(0));
    assert_eq!(parent_pid("9 (a b c) R 2147483647 \n"), Some(2147483647));
    assert_eq!(parent_pid("9  (x)\t\tR   8\t"), Some(8));
    assert_eq!(parent_pid("9 () R 8 "), Some(8));
    // the name ends at the first bracket
    assert_eq!(parent_pid("9 (a) b) R 8 "), None);
    for bad in [
        "", "9", "9 (x) R 8", "x (x) R 8 ", "9(x) R 8 ", "9 x R 8 ", "9 (x R 8 ", "9 (x)R 8 ",
        "9 (x) R8 ", "9 (x) R x ", "9 (x) R -8 ", "9 (x) R 2147483648 ", " 9 (x) R 8 ",
        "9 (x)  8 ",
    ] {
        assert_eq!(parent_pid(bad), None, "{:?}", bad);
    }
}

#[test]
fn children_are_told_by_their_parent() {
    assert!(is_child("4242 (lithos_knot) S 17 4242 ", 17));
    assert!(!is_child("4242 (lithos_knot) S 17 4242 ", 18));
    assert!(!is_child("garbage", 17));
    assert!(!is_child("", 0));
}

#[test]
fn pids_are_digits() {
    assert_eq!(parse_pid("1"), Some(1));
    assert_eq!(parse_pid("0042"), Some(42));
    assert_eq!(parse_pid("2147483647"), Some(2147483647));
    assert_eq!(parse_pid("2147483648"), None);
    assert_eq!(parse_pid("99999999999999999999999"), None);
    assert_eq!(parse_pid(""), None);
    assert_eq!(parse_pid("self"), None);
    assert_eq!(parse_pid("-1"), None);
    assert_eq!(parse_pid("+1"), None);
    assert_eq!(parse_pid("12 "), None);
}

#[test]
fn entries_of_the_process_table() {
    assert_eq!(child_entry("4242", "4242 (x) S 17 ", 17), Some(4242));
    assert_eq!(child_entry("4242", "4242 (x) S 17 ", 1), None);
    assert_eq!(child_entry("cpuinfo", "4242 (x) S 17 ", 17), None);
    assert_eq!(child_entry("4242", "", 17), None);
}

#[test]
fn documents_differ_as_values() {
    let doc = |text: &str| serde_json::from_str::<serde_json::Value>(text).ok();
    assert!(!documents_differ(&None, &None));
    assert!(documents_differ(&doc("{}"), &None));
    assert!(documents_differ(&None, &doc("{}")));
    assert!(!documents_differ(&doc("{\"a\": [1, 2]}"), &doc("{\"a\":[1,2]}")));
    assert!(documents_differ(&doc("{\"a\": [1, 2]}"), &doc("{\"a\":[1,2,3]}")));
    assert!(documents_differ(&doc("0"), &doc("null")));
    assert_eq!(doc("{"), None);
}

#[test]
fn classify_needs_a_name_and_a_document() {
    let s = |x: &str| x.to_string();
    assert_eq!(classify(s("web.0"), s("{}"), true), identified("web.0", "{}"));
    assert_eq!(classify(s("web.0"), s("{"), false), RecoveredIdentity::Unidentified);
    assert_eq!(classify(s("web"), s("{}"), true), RecoveredIdentity::Unidentified);
    assert_eq!(classify(s(""), s(""), false), RecoveredIdentity::Unidentified);
}
