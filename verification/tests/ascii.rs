use lithos::ascii::{Printer, TreeNode};

fn write_tree(node: &TreeNode) -> String {
    let mut buf = String::with_capacity(100);
    node.print(&mut buf);
    buf
}

#[test]
fn test_one_node() {
    assert_eq!(write_tree(&TreeNode {
        head: "parent".to_string(),
        children: vec!()
    }), String::from("\
parent\n\
        "));
}

#[test]
fn test_many_nodes() {
    assert_eq!(write_tree(&TreeNode {
        head: "parent".to_string(),
        children: vec!(TreeNode {
            head: "child1".to_string(),
            children: vec!(TreeNode {
                head: "subchild".to_string(),
                children: vec!(),
            }),
        }, TreeNode {
            head: "child2".to_string(),
            children: vec!(TreeNode {
                head: "subchild".to_string(),
                children: vec!(),
            }),
        })
    }), String::from("\
parent
  ├─child1
  │   └─subchild
  └─child2
      └─subchild\n\
        "));
}

#[test]
fn print_appends_to_what_is_there() {
    let mut buf = String::from("# ");
    TreeNode { head: "x".to_string(), children: vec![] }.print(&mut buf);
    assert_eq!(buf, "# x\n");
}

#[test]
fn three_children_share_the_bar() {
    let leaf = |s: &str| TreeNode { head: s.to_string(), children: vec![] };
    let tree = TreeNode {
        head: "r".to_string(),
        children: vec![
            TreeNode { head: "a".to_string(), children: vec![leaf("a1"), leaf("a2")] },
            leaf("b"),
            leaf("c"),
        ],
    };
    assert_eq!(
        write_tree(&tree),
        "r\n  ├─a\n  │   ├─a1\n  │   └─a2\n  ├─b\n  └─c\n"
    );
}

#[test]
fn plain_printer_joins_words_with_blanks() {
    let p = Printer::plain_factory().new();
    let line = p.norm("pid").red(12).blue("up").green("ok").unwrap();
    assert_eq!(line, "pid 12 up ok");
}

#[test]
fn color_printer_wraps_words() {
    let p = Printer::color_factory().new();
    let line = p.norm("a").red("b").unwrap();
    assert_eq!(line, "a \x1b[31m\x1b[1mb\x1b[0m\x1b[22m");
    let line = Printer::color_factory().new().blue(1).green(2).unwrap();
    assert_eq!(
        line,
        "\x1b[34m\x1b[1m1\x1b[0m\x1b[22m \x1b[32m\x1b[1m2\x1b[0m\x1b[22m"
    );
}

#[test]
fn empty_printer_unwraps_to_nothing() {
    assert_eq!(Printer::plain_factory().new().unwrap(), "");
    assert_eq!(Printer::color_factory().new().unwrap(), "");
}

#[test]
fn map_hands_the_printer_over() {
    let line = Printer::plain_factory()
        .new()
        .norm("x")
        .map(|p| p.norm("y"))
        .unwrap();
    assert_eq!(line, "x y");
}
