use remote_archive::{build_subtree, build_tree, path_components, TreeNode};

fn child<'a>(t: &'a TreeNode, name: &str) -> &'a TreeNode {
    t.children().iter().find(|c| c.name() == name).unwrap()
}

#[test]
fn paths_share_directories() {
    let t = build_tree(vec!["a.txt".to_string(), "b/".to_string(), "b/c.txt".to_string(), "b/d/e".to_string()]);
    assert_eq!(t.name(), "/");
    let names: Vec<&str> = t.children().iter().map(|c| c.name()).collect();
    assert_eq!(names, vec!["a.txt", "b"]);
    let b = child(&t, "b");
    let under_b: Vec<&str> = b.children().iter().map(|c| c.name()).collect();
    assert_eq!(under_b, vec!["c.txt", "d"]);
    assert_eq!(child(b, "d").children()[0].name(), "e");
    assert!(child(&t, "a.txt").children().is_empty());
}

#[test]
fn empty_components_end_a_path() {
    assert_eq!(path_components("a//b"), vec!["a".to_string()]);
    assert_eq!(path_components("/x"), Vec::<String>::new());
    assert_eq!(path_components("dir/sub/file"), vec!["dir", "sub", "file"]);
    let t = build_tree(vec!["/abs".to_string(), "".to_string()]);
    assert!(t.children().is_empty());
}

#[test]
fn repeated_paths_make_one_node() {
    let t = build_tree(vec!["x/y".to_string(), "x/y".to_string(), "x".to_string()]);
    assert_eq!(t.children().len(), 1);
    assert_eq!(t.children()[0].children().len(), 1);
}

#[test]
fn first_appearance_order_is_kept() {
    let t = build_tree(vec!["z/1".to_string(), "a".to_string(), "z/0".to_string(), "m".to_string()]);
    let names: Vec<&str> = t.children().iter().map(|c| c.name()).collect();
    assert_eq!(names, vec!["z", "a", "m"]);
    let under_z: Vec<&str> = t.children()[0].children().iter().map(|c| c.name()).collect();
    assert_eq!(under_z, vec!["1", "0"]);
}

#[test]
fn empty_component_leaves_node_unchanged() {
    let t = build_tree(vec!["a".to_string()]);
    let t = build_subtree(t, &vec!["".to_string(), "x".to_string()], 0);
    assert_eq!(t.children().len(), 1);
    assert!(t.children()[0].children().is_empty());
    let t = build_subtree(t, &vec!["a".to_string(), "".to_string(), "y".to_string()], 0);
    assert!(t.children()[0].children().is_empty());
    let t = build_subtree(t, &vec!["b".to_string(), "c".to_string()], 0);
    let names: Vec<&str> = t.children().iter().map(|c| c.name()).collect();
    assert_eq!(names, vec!["a", "b"]);
    assert_eq!(t.children()[1].children()[0].name(), "c");
}

#[test]
fn three_entry_tree_is_exact() {
    let t = build_tree(vec!["a.txt".to_string(), "b/".to_string(), "b/c.txt".to_string()]);
    let names: Vec<&str> = t.children().iter().map(|c| c.name()).collect();
    assert_eq!(names, vec!["a.txt", "b"]);
    assert!(t.children()[0].children().is_empty());
    assert_eq!(t.children()[1].children().len(), 1);
    assert_eq!(t.children()[1].children()[0].name(), "c.txt");
    assert!(t.children()[1].children()[0].children().is_empty());
}
