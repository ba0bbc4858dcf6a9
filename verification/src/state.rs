//! What the IDE remembers between runs: the open projects, the expanded
//! folders of the project tree, the selected file, the editor's easy mode
//! and its font size; and the operations of the project pane on it.

use vstd::prelude::*;
use crate::commands::{
    close_buffer_command, delete_file_command, delete_file_command_of, easy_mode_command, easy_mode_command_of,
    edit_command, edit_command_of, move_command, move_command_of,
};
use crate::paths::{is_below, is_parent_path, views};
use crate::pathset::PathSet;

verus! {

/// The remembered state of the IDE.
pub struct State {
    /// The root folders of the open projects.
    pub projects: PathSet,
    /// The folders that are expanded in the project tree.
    pub expansions: PathSet,
    /// The file open in the editor.
    pub selection: Option<String>,
    /// Whether the editor is locked in insert mode.
    pub easy_mode: bool,
    /// The font size of the editor and the build terminals.
    pub font_size: i32,
}

/// The form in which the state is saved: plain lists.
pub struct Prefs {
    pub projects: Vec<String>,
    pub expansions: Vec<String>,
    pub selection: Option<String>,
    pub easy_mode: bool,
    pub font_size: i32,
}

/// The selection as characters.
pub open spec fn selection_view(sel: Option<String>) -> Option<Seq<char>> {
    match sel {
        Some(s) => Some(s@),
        None => None,
    }
}

/// `prefs` lists exactly what `state` holds, each path once.
pub open spec fn saves(state: State, prefs: Prefs) -> bool {
    &&& views(prefs.projects@).to_set() == state.projects@
    &&& views(prefs.projects@).no_duplicates()
    &&& views(prefs.expansions@).to_set() == state.expansions@
    &&& views(prefs.expansions@).no_duplicates()
    &&& selection_view(prefs.selection) == selection_view(state.selection)
    &&& prefs.easy_mode == state.easy_mode
    &&& prefs.font_size == state.font_size
}

/// `after` is `before` with the saved `prefs` read into it, where there
/// were any.
pub open spec fn loads(before: State, prefs: Option<Prefs>, after: State) -> bool {
    match prefs {
        None => same_state(before, after),
        Some(p) => {
            &&& after.projects@ == views(p.projects@).to_set()
            &&& after.expansions@ == views(p.expansions@).to_set()
            &&& selection_view(after.selection) == selection_view(p.selection)
            &&& after.easy_mode == p.easy_mode
            &&& after.font_size == p.font_size
        },
    }
}

/// The two states hold the same things.
pub open spec fn same_state(a: State, b: State) -> bool {
    &&& a.projects@ == b.projects@
    &&& a.expansions@ == b.expansions@
    &&& selection_view(a.selection) == selection_view(b.selection)
    &&& a.easy_mode == b.easy_mode
    &&& a.font_size == b.font_size
}

/// An expansion survives the removal of `path` when it still exists, is
/// not `path` and does not lie below it.
pub open spec fn keeps_expansion(e: Seq<char>, path: Seq<char>, gone: Set<Seq<char>>) -> bool {
    !gone.contains(e) && e != path && !is_below(path, e)
}

/// The expansions that survive the removal of `path`.
pub open spec fn expansions_after_removal(
    expansions: Set<Seq<char>>,
    path: Seq<char>,
    gone: Set<Seq<char>>,
) -> Set<Seq<char>> {
    expansions.filter(|e: Seq<char>| keeps_expansion(e, path, gone))
}

impl State {
    /// A state with no projects, no expansions and no selection, in easy
    /// mode, with the given font size.
    pub fn new(font_size: i32) -> (s: State)
        ensures
            s.projects@ == Set::<Seq<char>>::empty(),
            s.expansions@ == Set::<Seq<char>>::empty(),
            s.selection is None,
            s.easy_mode,
            s.font_size == font_size,
    {
        State {
            projects: PathSet::new(),
            expansions: PathSet::new(),
            selection: None,
            easy_mode: true,
            font_size,
        }
    }
}

/// Whether `list` holds a string equal to `path`.
pub fn list_contains(list: &Vec<String>, path: &String) -> (r: bool)
    ensures
        r == views(list@).contains(path@),
{
    let n = list.len();
    for i in 0..n
        invariant
            n == list.len(),
            forall|k: int| 0 <= k < i ==> list[k]@ != path@,
    {
        if list[i] == *path {
            assert(views(list@)[i as int] == path@);
            return true;
        }
    }
    proof {
        if views(list@).contains(path@) {
            let k = choose|k: int| 0 <= k < views(list@).len() && views(list@)[k] == path@;
            assert(list[k]@ == path@);
        }
    }
    false
}

/// The saved form of `state`.
pub fn get_prefs(state: &State) -> (prefs: Prefs)
    ensures
        saves(*state, prefs),
{
    let selection = match &state.selection {
        Some(s) => Some(s.clone()),
        None => None,
    };
    Prefs {
        projects: state.projects.to_vec(),
        expansions: state.expansions.to_vec(),
        selection,
        easy_mode: state.easy_mode,
        font_size: state.font_size,
    }
}

/// The saved preferences from the fields a prefs file holds: easy mode is
/// on where the file does not say, and the font has `default_font_size`
/// where the file gives no size.
pub fn prefs_from_fields(
    projects: Vec<String>,
    expansions: Vec<String>,
    selection: Option<String>,
    easy_mode: Option<bool>,
    font_size: Option<i32>,
    default_font_size: i32,
) -> (prefs: Prefs)
    ensures
        prefs.projects == projects,
        prefs.expansions == expansions,
        prefs.selection == selection,
        prefs.easy_mode == (match easy_mode {
            Some(b) => b,
            None => true,
        }),
        prefs.font_size == (match font_size {
            Some(f) => f,
            None => default_font_size,
        }),
{
    Prefs {
        projects,
        expansions,
        selection,
        easy_mode: match easy_mode {
            Some(b) => b,
            None => true,
        },
        font_size: match font_size {
            Some(f) => f,
            None => default_font_size,
        },
    }
}

/// Reads the saved `prefs`, where there were any, into `state`: the
/// projects and expansions become the sets of the listed paths.
pub fn load_prefs(state: &mut State, prefs: Option<Prefs>)
    ensures
        loads(*old(state), prefs, *final(state)),
{
    match prefs {
        Some(p) => {
            state.projects = PathSet::from_vec(&p.projects);
            state.expansions = PathSet::from_vec(&p.expansions);
            state.selection = p.selection;
            state.easy_mode = p.easy_mode;
            state.font_size = p.font_size;
        },
        None => {},
    }
}

/// Saving a state and reading what was saved gives the same state back.
pub proof fn lemma_prefs_round_trip(state: State, prefs: Prefs, before: State, after: State)
    requires
        saves(state, prefs),
        loads(before, Some(prefs), after),
    ensures
        same_state(state, after),
{
}

/// Adds `path_str` to the open projects.
pub fn save_project(state: &mut State, path_str: &String)
    ensures
        final(state).projects@ == old(state).projects@.insert(path_str@),
        final(state).expansions@ == old(state).expansions@,
        final(state).selection == old(state).selection,
        final(state).easy_mode == old(state).easy_mode,
        final(state).font_size == old(state).font_size,
{
    state.projects.insert(path_str.clone());
}

/// Forgets the expansions of `path_str` and of every folder below it, and
/// those whose folders no longer exist on the disk (`gone`).
pub fn remove_expansions_for_path(state: &mut State, path_str: &String, gone: &Vec<String>)
    ensures
        final(state).expansions@ == expansions_after_removal(
            old(state).expansions@,
            path_str@,
            views(gone@).to_set(),
        ),
        final(state).projects@ == old(state).projects@,
        final(state).selection == old(state).selection,
        final(state).easy_mode == old(state).easy_mode,
        final(state).font_size == old(state).font_size,
{
    let ghost gone_set = views(gone@).to_set();
    let ghost start = state.expansions@;
    let list = state.expansions.to_vec();
    let n = list.len();
    for i in 0..n
        invariant
            n == list.len(),
            views(list@).to_set() == start,
            gone_set == views(gone@).to_set(),
            state.expansions@ == start.filter(
                |e: Seq<char>|
                    !(views(list@).take(i as int).contains(e) && !keeps_expansion(e, path_str@, gone_set)),
            ),
            state.projects@ == old(state).projects@,
            state.selection == old(state).selection,
            state.easy_mode == old(state).easy_mode,
            state.font_size == old(state).font_size,
    {
        let e = &list[i];
        let drop = list_contains(gone, e) || *e == *path_str || is_parent_path(path_str, e);
        if drop {
            state.expansions.remove(e);
        }
        proof {
            let before = views(list@).take(i as int);
            let after = views(list@).take(i + 1);
            assert(after =~= before.push(e@));
            assert(drop == !keeps_expansion(e@, path_str@, gone_set));
            assert(state.expansions@ =~= start.filter(
                |x: Seq<char>| !(after.contains(x) && !keeps_expansion(x, path_str@, gone_set)),
            )) by {
                assert forall|x: Seq<char>| #[trigger] after.contains(x) <==> (before.contains(x) || x == e@) by {
                    if after.contains(x) {
                        let k = choose|k: int| 0 <= k < after.len() && after[k] == x;
                        if k < i {
                            assert(before[k] == x);
                        }
                    }
                    if before.contains(x) {
                        let k = choose|k: int| 0 <= k < before.len() && before[k] == x;
                        assert(after[k] == x);
                    }
                    if x == e@ {
                        assert(after[i as int] == x);
                    }
                }
            }
        }
    }
    proof {
        assert(views(list@).take(n as int) =~= views(list@));
        assert(state.expansions@ =~= expansions_after_removal(start, path_str@, gone_set));
    }
}


/// Remembers that the folder `path_str` is expanded in the project tree.
pub fn add_expansion(state: &mut State, path_str: String)
    ensures
        final(state).expansions@ == old(state).expansions@.insert(path_str@),
        final(state).projects@ == old(state).projects@,
        final(state).selection == old(state).selection,
        final(state).easy_mode == old(state).easy_mode,
        final(state).font_size == old(state).font_size,
{
    state.expansions.insert(path_str);
}

/// Forgets that the folder `path_str` is expanded, together with every
/// folder below it and the folders that no longer exist (`gone`).
pub fn remove_expansion(state: &mut State, path_str: &String, gone: &Vec<String>)
    ensures
        final(state).expansions@ == expansions_after_removal(
            old(state).expansions@,
            path_str@,
            views(gone@).to_set(),
        ),
        final(state).projects@ == old(state).projects@,
        final(state).selection == old(state).selection,
        final(state).easy_mode == old(state).easy_mode,
        final(state).font_size == old(state).font_size,
{
    remove_expansions_for_path(state, path_str, gone);
}

/// Collapsing a folder after expanding it leaves it, and everything below
/// it, collapsed; expansions elsewhere that still exist are kept.
pub proof fn lemma_collapse_after_expand(
    start: Set<Seq<char>>,
    path: Seq<char>,
    gone: Set<Seq<char>>,
    other: Seq<char>,
)
    ensures
        !expansions_after_removal(start.insert(path), path, gone).contains(path),
        start.contains(other) && !gone.contains(other) && other != path && !is_below(path, other)
            ==> expansions_after_removal(start.insert(path), path, gone).contains(other),
        forall|e: Seq<char>| #[trigger]
            expansions_after_removal(start.insert(path), path, gone).contains(e) ==> !is_below(path, e),
{
}

/// Collapsing a folder keeps every expansion that still exists, is not the
/// folder and does not start with the folder's whole path; it forgets the
/// folder, those that are gone, and every folder past a separator after it.
pub proof fn lemma_removal_keeps_unrelated(
    expansions: Set<Seq<char>>,
    path: Seq<char>,
    gone: Set<Seq<char>>,
    e: Seq<char>,
    rest: Seq<char>,
)
    ensures
        expansions.contains(e) && !gone.contains(e) && e != path && !(e.len() > path.len()
            && e.subrange(0, path.len() as int) == path) ==> expansions_after_removal(expansions, path, gone).contains(e),
        !expansions_after_removal(expansions, path, gone).contains(path),
        gone.contains(e) ==> !expansions_after_removal(expansions, path, gone).contains(e),
        path.len() > 0 ==> !expansions_after_removal(expansions, path, gone).contains(path + seq!['/'] + rest),
{
    crate::paths::lemma_below_extends(path, e);
    if path.len() > 0 {
        crate::paths::lemma_below_past_separator(path, rest);
    }
}

/// Opens `path_str` in the editor and remembers it as the selection;
/// returns the command for the editor.
pub fn set_selection(state: &mut State, path_str: &String) -> (cmd: String)
    ensures
        selection_view(final(state).selection) == Some(path_str@),
        cmd@ == edit_command_of(path_str@),
        final(state).projects@ == old(state).projects@,
        final(state).expansions@ == old(state).expansions@,
        final(state).easy_mode == old(state).easy_mode,
        final(state).font_size == old(state).font_size,
{
    state.selection = Some(path_str.clone());
    edit_command(path_str)
}

/// Moves the file in the editor to `new_path`, which becomes the
/// selection; returns the command for the editor.
pub fn rename_file(state: &mut State, new_path: &String) -> (cmd: String)
    ensures
        selection_view(final(state).selection) == Some(new_path@),
        cmd@ == move_command_of(new_path@),
        final(state).projects@ == old(state).projects@,
        final(state).expansions@ == old(state).expansions@,
        final(state).easy_mode == old(state).easy_mode,
        final(state).font_size == old(state).font_size,
{
    state.selection = Some(new_path.clone());
    move_command(new_path)
}

/// The question asked before `path_str` is removed.
pub fn remove_prompt(state: &State, path_str: &String) -> (text: String)
    ensures
        text@ == (if state.projects@.contains(path_str@) {
            "Remove this project? It WILL NOT be deleted from the disk."@
        } else {
            "Remove this file? It WILL be deleted from the disk."@
        }),
{
    if state.projects.contains(path_str) {
        String::from_str("Remove this project? It WILL NOT be deleted from the disk.")
    } else {
        String::from_str("Remove this file? It WILL be deleted from the disk.")
    }
}

/// Removes the selected `path_str`, once confirmed. A project is closed:
/// it leaves the projects, its expansions (and those that are `gone`) are
/// forgotten, and the editor closes its buffer. Any other file is opened
/// in the editor, deleted from the disk and its buffer closed.
pub fn remove_item(state: &mut State, path_str: &String, gone: &Vec<String>) -> (cmd: String)
    ensures
        old(state).projects@.contains(path_str@) ==> {
            &&& final(state).projects@ == old(state).projects@.remove(path_str@)
            &&& final(state).expansions@ == expansions_after_removal(
                old(state).expansions@,
                path_str@,
                views(gone@).to_set(),
            )
            &&& cmd@ == "bd"@
        },
        !old(state).projects@.contains(path_str@) ==> {
            &&& final(state).projects@ == old(state).projects@
            &&& final(state).expansions@ == old(state).expansions@
            &&& cmd@ == delete_file_command_of(path_str@)
        },
        final(state).selection == old(state).selection,
        final(state).easy_mode == old(state).easy_mode,
        final(state).font_size == old(state).font_size,
{
    if state.projects.contains(path_str) {
        state.projects.remove(path_str);
        remove_expansions_for_path(state, path_str, gone);
        close_buffer_command()
    } else {
        delete_file_command(path_str)
    }
}

/// Turns easy mode on or off; returns the command for the editor.
pub fn set_easy_mode(state: &mut State, on: bool) -> (cmd: String)
    ensures
        final(state).easy_mode == on,
        cmd@ == easy_mode_command_of(on),
        final(state).projects@ == old(state).projects@,
        final(state).expansions@ == old(state).expansions@,
        final(state).selection == old(state).selection,
        final(state).font_size == old(state).font_size,
{
    state.easy_mode = on;
    easy_mode_command(on)
}

/// Makes the font one size smaller, unless it is at `min_size` or below;
/// returns whether it changed.
pub fn decrease_font_size(state: &mut State, min_size: i32) -> (changed: bool)
    ensures
        changed == (old(state).font_size > min_size),
        final(state).font_size == font_step_down(old(state).font_size as int, min_size as int),
        final(state).projects@ == old(state).projects@,
        final(state).expansions@ == old(state).expansions@,
        final(state).selection == old(state).selection,
        final(state).easy_mode == old(state).easy_mode,
{
    if state.font_size > min_size {
        state.font_size = state.font_size - 1;
        true
    } else {
        false
    }
}

/// Makes the font one size larger, unless it is at `max_size` or above;
/// returns whether it changed.
pub fn increase_font_size(state: &mut State, max_size: i32) -> (changed: bool)
    ensures
        changed == (old(state).font_size < max_size),
        final(state).font_size == font_step_up(old(state).font_size as int, max_size as int),
        final(state).projects@ == old(state).projects@,
        final(state).expansions@ == old(state).expansions@,
        final(state).selection == old(state).selection,
        final(state).easy_mode == old(state).easy_mode,
{
    if state.font_size < max_size {
        state.font_size = state.font_size + 1;
        true
    } else {
        false
    }
}

/// The font size after one step down with the floor `min_size`.
pub open spec fn font_step_down(size: int, min_size: int) -> int {
    if size > min_size { size - 1 } else { size }
}

/// The font size after one step up with the ceiling `max_size`.
pub open spec fn font_step_up(size: int, max_size: int) -> int {
    if size < max_size { size + 1 } else { size }
}

/// A font size between the two bounds stays between them, whichever way it
/// is stepped; and a step up that changed the size is undone by a step down.
pub proof fn lemma_font_size_bounds(size: int, min_size: int, max_size: int)
    requires
        min_size <= size <= max_size,
    ensures
        min_size <= font_step_down(size, min_size) <= max_size,
        min_size <= font_step_up(size, max_size) <= max_size,
        size < max_size ==> font_step_down(font_step_up(size, max_size), min_size) == size,
        size > min_size ==> font_step_up(font_step_down(size, min_size), max_size) == size,
{
}

/// The open project that holds `path`: one that is `path` itself or a
/// folder above it.
pub open spec fn holds_path(project: Seq<char>, path: Seq<char>) -> bool {
    project == path || is_below(project, path)
}

/// An open project that holds `path`, if there is one.
pub fn get_project_path(state: &State, path: &String) -> (project: Option<String>)
    ensures
        match project {
            Some(p) => state.projects@.contains(p@) && holds_path(p@, path@),
            None => forall|p: Seq<char>| #[trigger] state.projects@.contains(p) ==> !holds_path(p, path@),
        },
{
    let list = state.projects.to_vec();
    let n = list.len();
    for i in 0..n
        invariant
            n == list.len(),
            views(list@).to_set() == state.projects@,
            forall|k: int| 0 <= k < i ==> !holds_path(#[trigger] views(list@)[k], path@),
    {
        let p = &list[i];
        if *p == *path || is_parent_path(p, path) {
            assert(views(list@)[i as int] == p@);
            return Some(p.clone());
        }
        assert(views(list@)[i as int] == p@);
    }
    proof {
        assert forall|p: Seq<char>| #[trigger] state.projects@.contains(p) implies !holds_path(p, path@) by {
            let k = choose|k: int| 0 <= k < views(list@).len() && views(list@)[k] == p;
        }
    }
    None
}

} // verus!
