use ox_browser::snapshot::{format_ax_tree, AxNodeData};

fn node(id: &str, parent: Option<&str>, role: Option<&str>, name: Option<&str>, children: &[&str]) -> AxNodeData {
    AxNodeData {
        node_id: id.into(),
        parent_id: parent.map(String::from),
        ignored: false,
        role: role.map(String::from),
        name: name.map(String::from),
        child_ids: children.iter().map(|c| c.to_string()).collect(),
    }
}

#[test]
fn formats_indented_roles_and_names() {
    let mut ignored = node("3", Some("1"), Some("generic"), None, &["4"]);
    ignored.ignored = true;
    let nodes = vec![
        node("2", Some("1"), Some("heading"), Some("Title"), &[]),
        node("1", None, Some("RootWebArea"), Some("Page"), &["2", "3", "missing"]),
        ignored,
        node("4", Some("3"), Some("link"), Some(""), &["5"]),
        node("5", Some("4"), None, None, &["6"]),
        node("6", Some("5"), Some("generic"), None, &["7"]),
        node("7", Some("6"), Some("StaticText"), Some("Go"), &[]),
    ];
    assert_eq!(
        format_ax_tree(&nodes),
        "- RootWebArea \"Page\"\n  - heading \"Title\"\n  - link\n    - unknown\n      - StaticText \"Go\"\n"
    );
}

#[test]
fn deep_filler_nodes_pass_their_children_through() {
    let nodes = vec![
        node("a", None, Some("main"), None, &["b"]),
        node("b", Some("a"), Some("list"), None, &["c"]),
        node("c", Some("b"), Some("listitem"), None, &["d"]),
        node("d", Some("c"), Some("none"), None, &["e"]),
        node("e", Some("d"), Some("button"), Some("OK"), &[]),
    ];
    assert_eq!(
        format_ax_tree(&nodes),
        "- main\n  - list\n    - listitem\n      - button \"OK\"\n"
    );
}

#[test]
fn first_node_is_root_without_parentless_node() {
    let nodes = vec![node("x", Some("y"), Some("text"), Some("T"), &[]), node("y", Some("x"), Some("main"), None, &[])];
    assert_eq!(format_ax_tree(&nodes), "- text \"T\"\n");
}

#[test]
fn cyclic_child_links_are_cut_off() {
    let nodes = vec![node("a", None, Some("x"), None, &["b"]), node("b", Some("a"), Some("y"), None, &["a"])];
    assert_eq!(format_ax_tree(&nodes), "- x\n  - y\n");
}
