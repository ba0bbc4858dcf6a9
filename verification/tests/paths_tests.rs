use solidoak::paths::{
    are_siblings, dir_from, dir_path, file_name, is_hidden_name, is_parent_path, name_le_opt, new_project_parts, parent,
    sort_by_names, sort_paths, str_le, visible_name,
};

fn s(x: &str) -> String {
    x.to_string()
}

#[test]
fn str_le_orders_by_characters() {
    assert!(str_le("abc", "abd"));
    assert!(!str_le("abd", "abc"));
    assert!(str_le("ab", "abc"));
    assert!(!str_le("abc", "ab"));
    assert!(str_le("", ""));
    assert!(str_le("Zeta", "alpha"));
    assert!(str_le("same", "same"));
}

#[test]
fn missing_names_come_first() {
    assert!(name_le_opt(&None, &Some(s("a"))));
    assert!(!name_le_opt(&Some(s("a")), &None));
    assert!(name_le_opt(&None, &None));
    assert!(name_le_opt(&Some(s("a")), &Some(s("b"))));
}

#[test]
fn file_name_and_parent_follow_std() {
    assert_eq!(file_name("/home/u/proj/main.rs"), Some(s("main.rs")));
    assert_eq!(file_name("/"), None);
    assert_eq!(file_name("a/.."), None);
    assert_eq!(parent("/home/u/proj"), Some(s("/home/u")));
    assert_eq!(parent("/"), None);
}

#[test]
fn hidden_names_start_with_a_dot() {
    assert!(is_hidden_name(".git"));
    assert!(!is_hidden_name("src"));
    assert!(!is_hidden_name(""));
    assert_eq!(visible_name("/p/.git"), None);
    assert_eq!(visible_name("/p/src"), Some(s("src")));
}

#[test]
fn parent_path_needs_a_separator() {
    assert!(is_parent_path(&s("/a/b"), &s("/a/b/c")));
    assert!(is_parent_path(&s("/a/b/"), &s("/a/b/c")));
    assert!(!is_parent_path(&s("/a/b"), &s("/a/bc")));
    assert!(!is_parent_path(&s("/a/b"), &s("/a/b")));
    assert!(!is_parent_path(&s("/a/b/c"), &s("/a/b")));
    assert!(!is_parent_path(&s(""), &s("/a")));
}

#[test]
fn siblings_share_a_parent() {
    assert!(are_siblings(&s("/a/x"), &s("/a/y")));
    assert!(!are_siblings(&s("/a/x"), &s("/b/y")));
    assert!(are_siblings(&s("/"), &s("/")));
    assert!(are_siblings(&s(""), &s("")));
    assert!(are_siblings(&s("x"), &s("y")));
    assert!(are_siblings(&s("src/main.rs"), &s("src/lib.rs")));
    assert!(!are_siblings(&s("a/.."), &s("a/b")));
    assert!(are_siblings(&s("a/.."), &s("a/..")));
    assert_eq!(dir_path(&s("/")), "/");
    assert_eq!(dir_path(&s("")), ".");
    assert_eq!(dir_path(&s("x")), ".");
    assert_eq!(dir_path(&s("/a/b")), "/a");
    assert_eq!(dir_from(&s("q"), Some(s("q")), Some(s(""))), ".");
    assert_eq!(dir_from(&s("/r"), None, None), "/r");
}

#[test]
fn sort_paths_orders_by_file_name() {
    let v = vec![s("/z/b.rs"), s("/a/c.rs"), s("/"), s("/m/a.rs")];
    assert_eq!(sort_paths(&v), vec![s("/"), s("/m/a.rs"), s("/z/b.rs"), s("/a/c.rs")]);
    let empty: Vec<String> = Vec::new();
    assert!(sort_paths(&empty).is_empty());
}

#[test]
fn new_project_splits_name_and_folder() {
    assert_eq!(new_project_parts("/home/u/hello"), Some((s("hello"), s("/home/u"))));
    assert_eq!(new_project_parts("/"), None);
}

#[test]
fn equal_names_keep_their_order() {
    let v = vec![s("/b/x.rs"), s("/a/x.rs"), s("/c/a.rs"), s("/d/x.rs")];
    assert_eq!(sort_paths(&v), vec![s("/c/a.rs"), s("/b/x.rs"), s("/a/x.rs"), s("/d/x.rs")]);
    let e = vec![(s("2"), Some(s("k"))), (s("1"), None), (s("3"), Some(s("k"))), (s("0"), Some(s("a")))];
    assert_eq!(
        sort_by_names(e),
        vec![(s("1"), None), (s("0"), Some(s("a"))), (s("2"), Some(s("k"))), (s("3"), Some(s("k")))]
    );
}
