use solidoak::pathset::PathSet;
use solidoak::state::{
    add_expansion, decrease_font_size, get_prefs, get_project_path, increase_font_size, load_prefs,
    remove_expansion, remove_expansions_for_path, remove_item, remove_prompt, rename_file, save_project,
    prefs_from_fields, set_easy_mode, set_selection, Prefs, State,
};

fn s(x: &str) -> String {
    x.to_string()
}

fn sorted(mut v: Vec<String>) -> Vec<String> {
    v.sort();
    v
}

#[test]
fn path_set_behaves_as_a_set() {
    let mut set = PathSet::new();
    assert!(set.insert(s("/a")));
    assert!(!set.insert(s("/a")));
    assert!(set.insert(s("/b")));
    assert!(set.contains(&s("/a")));
    assert!(set.remove(&s("/a")));
    assert!(!set.remove(&s("/a")));
    assert!(!set.contains(&s("/a")));
    assert_eq!(set.to_vec(), vec![s("/b")]);
    let from = PathSet::from_vec(&vec![s("/x"), s("/y"), s("/x")]);
    assert_eq!(sorted(from.to_vec()), vec![s("/x"), s("/y")]);
}

#[test]
fn saving_a_project_adds_it_once() {
    let mut st = State::new(12);
    save_project(&mut st, &s("/p"));
    save_project(&mut st, &s("/p"));
    assert_eq!(st.projects.to_vec(), vec![s("/p")]);
    assert!(st.easy_mode);
    assert_eq!(st.font_size, 12);
}

#[test]
fn collapsing_forgets_the_folder_and_below() {
    let mut st = State::new(12);
    add_expansion(&mut st, s("/p"));
    add_expansion(&mut st, s("/p/src"));
    add_expansion(&mut st, s("/p/src/bin"));
    add_expansion(&mut st, s("/pq"));
    add_expansion(&mut st, s("/old"));
    remove_expansion(&mut st, &s("/p/src"), &vec![s("/old")]);
    assert_eq!(sorted(st.expansions.to_vec()), vec![s("/p"), s("/pq")]);
    remove_expansions_for_path(&mut st, &s("/p"), &vec![]);
    assert_eq!(st.expansions.to_vec(), vec![s("/pq")]);
}

#[test]
fn removing_a_project_closes_it() {
    let mut st = State::new(12);
    save_project(&mut st, &s("/p"));
    add_expansion(&mut st, s("/p/src"));
    add_expansion(&mut st, s("/q"));
    assert_eq!(remove_prompt(&st, &s("/p")), "Remove this project? It WILL NOT be deleted from the disk.");
    let cmd = remove_item(&mut st, &s("/p"), &vec![]);
    assert_eq!(cmd, "bd");
    assert!(st.projects.to_vec().is_empty());
    assert_eq!(st.expansions.to_vec(), vec![s("/q")]);
}

#[test]
fn removing_a_file_deletes_it() {
    let mut st = State::new(12);
    save_project(&mut st, &s("/p"));
    add_expansion(&mut st, s("/p/src"));
    assert_eq!(remove_prompt(&st, &s("/p/a.rs")), "Remove this file? It WILL be deleted from the disk.");
    let cmd = remove_item(&mut st, &s("/p/a.rs"), &vec![]);
    assert_eq!(cmd, "e /p/a.rs | call delete(expand('%')) | bdelete!");
    assert_eq!(st.projects.to_vec(), vec![s("/p")]);
    assert_eq!(st.expansions.to_vec(), vec![s("/p/src")]);
}

#[test]
fn selection_commands() {
    let mut st = State::new(12);
    assert_eq!(set_selection(&mut st, &s("/p/main.rs")), "e /p/main.rs");
    assert_eq!(st.selection, Some(s("/p/main.rs")));
    assert_eq!(rename_file(&mut st, &s("/p/lib.rs")), "Move /p/lib.rs");
    assert_eq!(st.selection, Some(s("/p/lib.rs")));
}

#[test]
fn easy_mode_commands() {
    let mut st = State::new(12);
    assert_eq!(set_easy_mode(&mut st, false), "set noim");
    assert!(!st.easy_mode);
    assert_eq!(set_easy_mode(&mut st, true), "set im");
    assert!(st.easy_mode);
}

#[test]
fn font_size_stays_within_bounds() {
    let mut st = State::new(11);
    assert!(!decrease_font_size(&mut st, 11));
    assert_eq!(st.font_size, 11);
    assert!(increase_font_size(&mut st, 12));
    assert_eq!(st.font_size, 12);
    assert!(!increase_font_size(&mut st, 12));
    assert!(decrease_font_size(&mut st, 11));
    assert_eq!(st.font_size, 11);
}

#[test]
fn prefs_round_trip() {
    let mut st = State::new(14);
    save_project(&mut st, &s("/p"));
    save_project(&mut st, &s("/q"));
    add_expansion(&mut st, s("/p/src"));
    set_selection(&mut st, &s("/p/src/main.rs"));
    set_easy_mode(&mut st, false);
    let prefs = get_prefs(&st);
    let mut other = State::new(9);
    load_prefs(&mut other, Some(prefs));
    assert_eq!(sorted(other.projects.to_vec()), vec![s("/p"), s("/q")]);
    assert_eq!(other.expansions.to_vec(), vec![s("/p/src")]);
    assert_eq!(other.selection, Some(s("/p/src/main.rs")));
    assert!(!other.easy_mode);
    assert_eq!(other.font_size, 14);
}

#[test]
fn loading_nothing_keeps_the_state() {
    let mut st = State::new(10);
    save_project(&mut st, &s("/p"));
    load_prefs(&mut st, None);
    assert_eq!(st.projects.to_vec(), vec![s("/p")]);
    assert_eq!(st.font_size, 10);
}

#[test]
fn loading_prefs_drops_repeated_paths() {
    let mut st = State::new(10);
    let prefs = Prefs {
        projects: vec![s("/a"), s("/a")],
        expansions: vec![],
        selection: None,
        easy_mode: true,
        font_size: 13,
    };
    load_prefs(&mut st, Some(prefs));
    assert_eq!(st.projects.to_vec(), vec![s("/a")]);
    assert_eq!(st.font_size, 13);
}

#[test]
fn project_of_a_file() {
    let mut st = State::new(12);
    save_project(&mut st, &s("/p"));
    save_project(&mut st, &s("/q"));
    assert_eq!(get_project_path(&st, &s("/p/src/main.rs")), Some(s("/p")));
    assert_eq!(get_project_path(&st, &s("/q")), Some(s("/q")));
    assert_eq!(get_project_path(&st, &s("/pq/a.rs")), None);
}

#[test]
fn starts_in_easy_mode() {
    let st = State::new(12);
    assert!(st.easy_mode);
    assert!(st.projects.to_vec().is_empty());
    assert!(st.expansions.to_vec().is_empty());
    assert_eq!(st.selection, None);
    assert_eq!(solidoak::commands::easy_mode_command(st.easy_mode), "set im");
}

#[test]
fn missing_prefs_fields_take_defaults() {
    let p = prefs_from_fields(vec![s("/a")], vec![], None, None, None, 12);
    assert!(p.easy_mode);
    assert_eq!(p.font_size, 12);
    assert_eq!(p.projects, vec![s("/a")]);
    let p = prefs_from_fields(vec![], vec![s("/e")], Some(s("/x")), Some(false), Some(20), 12);
    assert!(!p.easy_mode);
    assert_eq!(p.font_size, 20);
    assert_eq!(p.selection, Some(s("/x")));
    assert_eq!(p.expansions, vec![s("/e")]);
}
