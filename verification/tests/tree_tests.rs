use solidoak::commands::{close_buffer_command, delete_file_command, easy_mode_command, edit_command, move_command};
use solidoak::launch::{editor_args, is_no_window_flag};
use solidoak::pathset::PathSet;
use solidoak::state::{add_expansion, save_project, set_selection, State};
use solidoak::tree::{node_marks, plan_rows, sort_string_paths, update_project_buttons};

fn s(x: &str) -> String {
    x.to_string()
}

#[test]
fn projects_sorted_by_folder_name() {
    let set = PathSet::from_vec(&vec![s("/z/beta"), s("/a/gamma"), s("/m/alpha")]);
    assert_eq!(sort_string_paths(&set), vec![s("/m/alpha"), s("/z/beta"), s("/a/gamma")]);
}

#[test]
fn button_states() {
    let mut st = State::new(12);
    save_project(&mut st, &s("/p"));
    let b = update_project_buttons(&st, None, false);
    assert!(!b.rename && !b.remove);
    let b = update_project_buttons(&st, Some(&s("/p/a.rs")), false);
    assert!(b.rename && b.remove);
    let b = update_project_buttons(&st, Some(&s("/p/src")), true);
    assert!(!b.rename && !b.remove);
    let b = update_project_buttons(&st, Some(&s("/p")), true);
    assert!(!b.rename && b.remove);
}

#[test]
fn node_marks_follow_state() {
    let mut st = State::new(12);
    add_expansion(&mut st, s("/p/src"));
    set_selection(&mut st, &s("/p/src/main.rs"));
    let m = node_marks(&st, &s("/p/src"));
    assert!(m.expand && !m.select);
    let m = node_marks(&st, &s("/p/src/main.rs"));
    assert!(!m.expand && m.select);
}

#[test]
fn editor_arguments() {
    let (nw, args) = editor_args(&vec![s("soak"), s("a.rs")], Some(s("/h/.soakrc")));
    assert!(!nw);
    assert_eq!(args, vec![s("soak"), s("a.rs"), s("-u"), s("/h/.soakrc")]);
    let (nw, args) = editor_args(&vec![s("soak"), s("-nw"), s("a.rs"), s("-nw")], Some(s("/h/.soakrc")));
    assert!(nw);
    assert_eq!(args, vec![s("soak"), s("a.rs"), s("-u"), s("/h/.soakrc")]);
    let (nw, args) = editor_args(&vec![s("soak")], None);
    assert!(!nw);
    assert_eq!(args, vec![s("soak")]);
    assert!(is_no_window_flag(&s("-nw")));
    assert!(!is_no_window_flag(&s("-n")));
}

#[test]
fn command_strings() {
    assert_eq!(edit_command(&s("/p/a.rs")), "e /p/a.rs");
    assert_eq!(move_command(&s("/p/b.rs")), "Move /p/b.rs");
    assert_eq!(close_buffer_command(), "bd");
    assert_eq!(delete_file_command(&s("/p/c.rs")), "e /p/c.rs | call delete(expand('%')) | bdelete!");
    assert_eq!(easy_mode_command(true), "set im");
    assert_eq!(easy_mode_command(false), "set noim");
}

#[test]
fn walk_opens_only_rows_under_expanded_rows() {
    let mut st = State::new(12);
    add_expansion(&mut st, s("/p"));
    add_expansion(&mut st, s("/p/src/bin"));
    add_expansion(&mut st, s("/p/src/bin/x"));
    set_selection(&mut st, &s("/p/src/bin/x"));
    let rows = vec![
        (s("/p"), None),
        (s("/p/src"), Some(0)),
        (s("/p/src/bin"), Some(1)),
        (s("/p/src/bin/x"), Some(2)),
        (s("/p/a.rs"), Some(0)),
        (s("/q"), Some(7)),
    ];
    let marks = plan_rows(&st, &rows);
    let flags: Vec<(bool, bool)> = marks.iter().map(|m| (m.expand, m.select)).collect();
    assert_eq!(
        flags,
        vec![(true, false), (false, false), (false, false), (false, false), (false, false), (false, false)]
    );
    add_expansion(&mut st, s("/p/src"));
    let marks = plan_rows(&st, &rows);
    let flags: Vec<(bool, bool)> = marks.iter().map(|m| (m.expand, m.select)).collect();
    assert_eq!(
        flags,
        vec![(true, false), (true, false), (true, false), (true, true), (false, false), (false, false)]
    );
}
