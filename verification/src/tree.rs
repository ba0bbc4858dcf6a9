//! The project pane: the order of its tree, the rows it selects and
//! expands, and which of its buttons can be clicked.

use vstd::prelude::*;
use crate::paths::{sort_paths, sorted_by_name, views};
use crate::pathset::PathSet;
use crate::state::{State, selection_view};

verus! {

/// The open projects in the order in which the tree lists them: by folder
/// name.
pub fn sort_string_paths(paths: &PathSet) -> (sorted: Vec<String>)
    ensures
        views(sorted@).to_set() == paths@,
        views(sorted@).no_duplicates(),
        sorted_by_name(views(sorted@)),
{
    broadcast use vstd::seq_lib::group_to_multiset_ensures;

    let list = paths.to_vec();
    let sorted = sort_paths(&list);
    proof {
        let a = views(list@);
        let b = views(sorted@);
        assert forall|x: Seq<char>| #[trigger] b.contains(x) == a.contains(x) by {
            assert(b.to_multiset().count(x) == a.to_multiset().count(x));
        }
        assert(b.to_set() =~= a.to_set());
        a.lemma_multiset_has_no_duplicates();
        assert forall|x: Seq<char>| b.to_multiset().contains(x) implies b.to_multiset().count(x) == 1 by {
            assert(a.to_multiset().contains(x));
        }
        b.lemma_multiset_has_no_duplicates_conv();
    }
    sorted
}

/// Whether the rename and remove buttons can be clicked.
pub struct ButtonStates {
    pub rename: bool,
    pub remove: bool,
}

/// With a file selected, it can be renamed and removed; a folder can be
/// removed only where it is an open project; with nothing selected neither
/// button works.
pub fn update_project_buttons(state: &State, selected: Option<&String>, selected_is_dir: bool) -> (b: ButtonStates)
    ensures
        match selected {
            Some(p) => {
                &&& b.rename == !selected_is_dir
                &&& b.remove == (!selected_is_dir || state.projects@.contains(p@))
            },
            None => !b.rename && !b.remove,
        },
{
    match selected {
        Some(p) => {
            let is_project = state.projects.contains(p);
            ButtonStates { rename: !selected_is_dir, remove: !selected_is_dir || is_project }
        },
        None => ButtonStates { rename: false, remove: false },
    }
}

/// What the tree does with one of its rows.
pub struct NodeMarks {
    /// The row holds the selected file: the cursor goes there.
    pub select: bool,
    /// The row is an expanded folder: it is opened and its children looked at.
    pub expand: bool,
}

/// What the tree does with the row of `path`.
pub fn node_marks(state: &State, path: &String) -> (m: NodeMarks)
    ensures
        m.select == (selection_view(state.selection) == Some(path@)),
        m.expand == state.expansions@.contains(path@),
{
    let select = match &state.selection {
        Some(s) => *s == *path,
        None => false,
    };
    NodeMarks { select, expand: state.expansions.contains(path) }
}

/// Row `i` of the tree is reached by the walk that opens expanded rows: it
/// is a top row, or its parent comes before it, is reached and is expanded.
pub open spec fn reached(expansions: Set<Seq<char>>, rows: Seq<(String, Option<usize>)>, i: int) -> bool
    decreases i,
{
    if i < 0 || i >= rows.len() {
        false
    } else {
        match rows[i].1 {
            None => true,
            Some(p) => (p as int) < i && reached(expansions, rows, p as int) && expansions.contains(
                rows[p as int].0@,
            ),
        }
    }
}

/// The walk reaches every top row; it reaches another row only through its
/// parent row, which comes before it, is reached and is expanded; and a
/// row under a reached, expanded parent that comes before it is reached.
pub proof fn lemma_reached_through_expanded_parents(
    expansions: Set<Seq<char>>,
    rows: Seq<(String, Option<usize>)>,
    i: int,
)
    requires
        0 <= i < rows.len(),
    ensures
        rows[i].1 is None ==> reached(expansions, rows, i),
        rows[i].1 matches Some(p) ==> (reached(expansions, rows, i) ==> {
            &&& (p as int) < i
            &&& reached(expansions, rows, p as int)
            &&& expansions.contains(rows[p as int].0@)
        }),
        rows[i].1 matches Some(p) ==> (!expansions.contains(rows[p as int].0@) ==> !reached(expansions, rows, i)),
        rows[i].1 matches Some(p) ==> ((p as int) < i && reached(expansions, rows, p as int)
            && expansions.contains(rows[p as int].0@) ==> reached(expansions, rows, i)),
{
}

/// What the walk does with each row of the tree, given each row's path and
/// the position of its parent row (`None` for a top row). The walk looks
/// only at rows under expanded rows: it opens the expanded ones and puts
/// the cursor on the selected file.
pub fn plan_rows(state: &State, rows: &Vec<(String, Option<usize>)>) -> (marks: Vec<NodeMarks>)
    ensures
        marks.len() == rows.len(),
        forall|i: int|
            #![trigger marks@[i]]
            0 <= i < rows.len() ==> {
                &&& marks@[i].select == (reached(state.expansions@, rows@, i) && selection_view(state.selection)
                    == Some(rows@[i].0@))
                &&& marks@[i].expand == (reached(state.expansions@, rows@, i) && state.expansions@.contains(
                    rows@[i].0@,
                ))
            },
{
    let mut marks: Vec<NodeMarks> = Vec::new();
    let mut reach: Vec<bool> = Vec::new();
    let n = rows.len();
    for i in 0..n
        invariant
            n == rows.len(),
            reach.len() == i,
            marks.len() == i,
            forall|j: int| #![trigger reach@[j]] 0 <= j < i ==> reach@[j] == reached(state.expansions@, rows@, j),
            forall|j: int|
                #![trigger marks@[j]]
                0 <= j < i ==> {
                    &&& marks@[j].select == (reached(state.expansions@, rows@, j) && selection_view(
                        state.selection,
                    ) == Some(rows@[j].0@))
                    &&& marks@[j].expand == (reached(state.expansions@, rows@, j)
                        && state.expansions@.contains(rows@[j].0@))
                },
    {
        let r = match rows[i].1 {
            None => true,
            Some(p) => p < i && reach[p] && state.expansions.contains(&rows[p].0),
        };
        assert(r == reached(state.expansions@, rows@, i as int));
        let m = node_marks(state, &rows[i].0);
        reach.push(r);
        marks.push(NodeMarks { select: r && m.select, expand: r && m.expand });
    }
    marks
}

} // verus!
