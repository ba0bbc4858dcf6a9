//! Keyboard shortcuts: which button a key pressed with the meta modifier
//! clicks.

use vstd::prelude::*;
use crate::paths::opt_view;
use crate::strmap::StrMap;

verus! {

/// The buttons that a shortcut can click.
#[derive(Clone, Copy, Debug, PartialEq, Eq, Hash)]
pub enum Action {
    NewProject,
    Import,
    Rename,
    Remove,
    Run,
    Build,
    Test,
    Clean,
    Stop,
    Save,
    Undo,
    Redo,
    FontDec,
    FontInc,
    Close,
}

/// The key configured for each button, by its key name, where one is.
pub struct KeySettings {
    pub new_project: Option<String>,
    pub import: Option<String>,
    pub rename: Option<String>,
    pub remove: Option<String>,
    pub run: Option<String>,
    pub build: Option<String>,
    pub test: Option<String>,
    pub clean: Option<String>,
    pub stop: Option<String>,
    pub save: Option<String>,
    pub undo: Option<String>,
    pub redo: Option<String>,
    pub font_dec: Option<String>,
    pub font_inc: Option<String>,
    pub close: Option<String>,
}

/// The configured keys in the order in which they are registered.
pub open spec fn bindings_of(k: KeySettings) -> Seq<(Option<Seq<char>>, Action)> {
    seq![
        (opt_view(k.new_project), Action::NewProject),
        (opt_view(k.import), Action::Import),
        (opt_view(k.rename), Action::Rename),
        (opt_view(k.remove), Action::Remove),
        (opt_view(k.run), Action::Run),
        (opt_view(k.build), Action::Build),
        (opt_view(k.test), Action::Test),
        (opt_view(k.clean), Action::Clean),
        (opt_view(k.stop), Action::Stop),
        (opt_view(k.save), Action::Save),
        (opt_view(k.undo), Action::Undo),
        (opt_view(k.redo), Action::Redo),
        (opt_view(k.font_dec), Action::FontDec),
        (opt_view(k.font_inc), Action::FontInc),
        (opt_view(k.close), Action::Close),
    ]
}

/// The map that registering `b` in order builds: a later binding of a key
/// replaces an earlier one.
pub open spec fn shortcut_map(b: Seq<(Option<Seq<char>>, Action)>) -> Map<Seq<char>, Action>
    decreases b.len(),
{
    if b.len() == 0 {
        Map::empty()
    } else {
        let rest = shortcut_map(b.drop_last());
        match b.last().0 {
            Some(key) => rest.insert(key, b.last().1),
            None => rest,
        }
    }
}

/// A key is bound exactly when some binding names it.
pub proof fn lemma_bound_iff_named(b: Seq<(Option<Seq<char>>, Action)>, key: Seq<char>)
    ensures
        shortcut_map(b).contains_key(key) <==> exists|j: int| 0 <= j < b.len() && #[trigger] b[j].0 == Some(key),
    decreases b.len(),
{
    if b.len() > 0 {
        let rest = b.drop_last();
        let last = b.len() - 1;
        lemma_bound_iff_named(rest, key);
        if b[last].0 == Some(key) {
            assert(shortcut_map(b).contains_key(key));
        } else {
            assert(shortcut_map(b).contains_key(key) == shortcut_map(rest).contains_key(key));
            if shortcut_map(rest).contains_key(key) {
                let j = choose|j: int| 0 <= j < rest.len() && #[trigger] rest[j].0 == Some(key);
                assert(b[j].0 == Some(key));
            }
            if exists|j: int| 0 <= j < b.len() && #[trigger] b[j].0 == Some(key) {
                let j = choose|j: int| 0 <= j < b.len() && #[trigger] b[j].0 == Some(key);
                assert(rest[j].0 == Some(key));
            }
        }
    }
}

/// A key is bound to the action of the last binding that names it: a later
/// binding of the same key replaces an earlier one.
pub proof fn lemma_last_binding_wins(b: Seq<(Option<Seq<char>>, Action)>, key: Seq<char>, j: int)
    requires
        0 <= j < b.len(),
        b[j].0 == Some(key),
        forall|l: int| j < l < b.len() ==> #[trigger] b[l].0 != Some(key),
    ensures
        shortcut_map(b).contains_key(key),
        shortcut_map(b)[key] == b[j].1,
    decreases b.len(),
{
    let rest = b.drop_last();
    let last = b.len() - 1;
    if j < last {
        assert(b[last].0 != Some(key));
        assert(rest[j] == b[j]);
        assert forall|l: int| j < l < rest.len() implies #[trigger] rest[l].0 != Some(key) by {
            assert(rest[l] == b[l]);
        }
        lemma_last_binding_wins(rest, key, j);
    }
}

/// `o` is the key name `k`.
pub open spec fn binds(o: Option<String>, k: Seq<char>) -> bool {
    o matches Some(x) && x@ == k
}

/// Each configured key clicks its own button, unless a button registered
/// after it has the same key; a key that no button has clicks nothing.
pub proof fn lemma_each_key_clicks_its_button(keys: KeySettings, k: Seq<char>)
    ensures
        binds(keys.new_project, k)
            && !binds(keys.import, k)
            && !binds(keys.rename, k)
            && !binds(keys.remove, k)
            && !binds(keys.run, k)
            && !binds(keys.build, k)
            && !binds(keys.test, k)
            && !binds(keys.clean, k)
            && !binds(keys.stop, k)
            && !binds(keys.save, k)
            && !binds(keys.undo, k)
            && !binds(keys.redo, k)
            && !binds(keys.font_dec, k)
            && !binds(keys.font_inc, k)
            && !binds(keys.close, k)
            ==> shortcut_map(bindings_of(keys)).contains_key(k) && shortcut_map(bindings_of(keys))[k] == Action::NewProject,
        binds(keys.import, k)
            && !binds(keys.rename, k)
            && !binds(keys.remove, k)
            && !binds(keys.run, k)
            && !binds(keys.build, k)
            && !binds(keys.test, k)
            && !binds(keys.clean, k)
            && !binds(keys.stop, k)
            && !binds(keys.save, k)
            && !binds(keys.undo, k)
            && !binds(keys.redo, k)
            && !binds(keys.font_dec, k)
            && !binds(keys.font_inc, k)
            && !binds(keys.close, k)
            ==> shortcut_map(bindings_of(keys)).contains_key(k) && shortcut_map(bindings_of(keys))[k] == Action::Import,
        binds(keys.rename, k)
            && !binds(keys.remove, k)
            && !binds(keys.run, k)
            && !binds(keys.build, k)
            && !binds(keys.test, k)
            && !binds(keys.clean, k)
            && !binds(keys.stop, k)
            && !binds(keys.save, k)
            && !binds(keys.undo, k)
            && !binds(keys.redo, k)
            && !binds(keys.font_dec, k)
            && !binds(keys.font_inc, k)
            && !binds(keys.close, k)
            ==> shortcut_map(bindings_of(keys)).contains_key(k) && shortcut_map(bindings_of(keys))[k] == Action::Rename,
        binds(keys.remove, k)
            && !binds(keys.run, k)
            && !binds(keys.build, k)
            && !binds(keys.test, k)
            && !binds(keys.clean, k)
            && !binds(keys.stop, k)
            && !binds(keys.save, k)
            && !binds(keys.undo, k)
            && !binds(keys.redo, k)
            && !binds(keys.font_dec, k)
            && !binds(keys.font_inc, k)
            && !binds(keys.close, k)
            ==> shortcut_map(bindings_of(keys)).contains_key(k) && shortcut_map(bindings_of(keys))[k] == Action::Remove,
        binds(keys.run, k)
            && !binds(keys.build, k)
            && !binds(keys.test, k)
            && !binds(keys.clean, k)
            && !binds(keys.stop, k)
            && !binds(keys.save, k)
            && !binds(keys.undo, k)
            && !binds(keys.redo, k)
            && !binds(keys.font_dec, k)
            && !binds(keys.font_inc, k)
            && !binds(keys.close, k)
            ==> shortcut_map(bindings_of(keys)).contains_key(k) && shortcut_map(bindings_of(keys))[k] == Action::Run,
        binds(keys.build, k)
            && !binds(keys.test, k)
            && !binds(keys.clean, k)
            && !binds(keys.stop, k)
            && !binds(keys.save, k)
            && !binds(keys.undo, k)
            && !binds(keys.redo, k)
            && !binds(keys.font_dec, k)
            && !binds(keys.font_inc, k)
            && !binds(keys.close, k)
            ==> shortcut_map(bindings_of(keys)).contains_key(k) && shortcut_map(bindings_of(keys))[k] == Action::Build,
        binds(keys.test, k)
            && !binds(keys.clean, k)
            && !binds(keys.stop, k)
            && !binds(keys.save, k)
            && !binds(keys.undo, k)
            && !binds(keys.redo, k)
            && !binds(keys.font_dec, k)
            && !binds(keys.font_inc, k)
            && !binds(keys.close, k)
            ==> shortcut_map(bindings_of(keys)).contains_key(k) && shortcut_map(bindings_of(keys))[k] == Action::Test,
        binds(keys.clean, k)
            && !binds(keys.stop, k)
            && !binds(keys.save, k)
            && !binds(keys.undo, k)
            && !binds(keys.redo, k)
            && !binds(keys.font_dec, k)
            && !binds(keys.font_inc, k)
            && !binds(keys.close, k)
            ==> shortcut_map(bindings_of(keys)).contains_key(k) && shortcut_map(bindings_of(keys))[k] == Action::Clean,
        binds(keys.stop, k)
            && !binds(keys.save, k)
            && !binds(keys.undo, k)
            && !binds(keys.redo, k)
            && !binds(keys.font_dec, k)
            && !binds(keys.font_inc, k)
            && !binds(keys.close, k)
            ==> shortcut_map(bindings_of(keys)).contains_key(k) && shortcut_map(bindings_of(keys))[k] == Action::Stop,
        binds(keys.save, k)
            && !binds(keys.undo, k)
            && !binds(keys.redo, k)
            && !binds(keys.font_dec, k)
            && !binds(keys.font_inc, k)
            && !binds(keys.close, k)
            ==> shortcut_map(bindings_of(keys)).contains_key(k) && shortcut_map(bindings_of(keys))[k] == Action::Save,
        binds(keys.undo, k)
            && !binds(keys.redo, k)
            && !binds(keys.font_dec, k)
            && !binds(keys.font_inc, k)
            && !binds(keys.close, k)
            ==> shortcut_map(bindings_of(keys)).contains_key(k) && shortcut_map(bindings_of(keys))[k] == Action::Undo,
        binds(keys.redo, k) && !binds(keys.font_dec, k) && !binds(keys.font_inc, k) && !binds(keys.close, k)
            ==> shortcut_map(bindings_of(keys)).contains_key(k) && shortcut_map(bindings_of(keys))[k] == Action::Redo,
        binds(keys.font_dec, k) && !binds(keys.font_inc, k) && !binds(keys.close, k)
            ==> shortcut_map(bindings_of(keys)).contains_key(k) && shortcut_map(bindings_of(keys))[k] == Action::FontDec,
        binds(keys.font_inc, k) && !binds(keys.close, k)
            ==> shortcut_map(bindings_of(keys)).contains_key(k) && shortcut_map(bindings_of(keys))[k] == Action::FontInc,
        binds(keys.close, k)
            ==> shortcut_map(bindings_of(keys)).contains_key(k) && shortcut_map(bindings_of(keys))[k] == Action::Close,
        !(binds(keys.new_project, k) || binds(keys.import, k) || binds(keys.rename, k) || binds(keys.remove, k) || binds(keys.run, k) || binds(keys.build, k) || binds(keys.test, k) || binds(keys.clean, k) || binds(keys.stop, k) || binds(keys.save, k) || binds(keys.undo, k) || binds(keys.redo, k) || binds(keys.font_dec, k) || binds(keys.font_inc, k) || binds(keys.close, k)) ==> !shortcut_map(bindings_of(keys)).contains_key(k),
{
    let b = bindings_of(keys);
    let m = shortcut_map(b);
    assert(b.len() == 15);
    if binds(keys.new_project, k)
        && !binds(keys.import, k)
        && !binds(keys.rename, k)
        && !binds(keys.remove, k)
        && !binds(keys.run, k)
        && !binds(keys.build, k)
        && !binds(keys.test, k)
        && !binds(keys.clean, k)
        && !binds(keys.stop, k)
        && !binds(keys.save, k)
        && !binds(keys.undo, k)
        && !binds(keys.redo, k)
        && !binds(keys.font_dec, k)
        && !binds(keys.font_inc, k)
        && !binds(keys.close, k) {
        assert(b[0].0 == Some(k));
        assert forall|l: int| 0 < l < b.len() implies #[trigger] b[l].0 != Some(k) by {}
        lemma_last_binding_wins(b, k, 0);
    }
    if binds(keys.import, k)
        && !binds(keys.rename, k)
        && !binds(keys.remove, k)
        && !binds(keys.run, k)
        && !binds(keys.build, k)
        && !binds(keys.test, k)
        && !binds(keys.clean, k)
        && !binds(keys.stop, k)
        && !binds(keys.save, k)
        && !binds(keys.undo, k)
        && !binds(keys.redo, k)
        && !binds(keys.font_dec, k)
        && !binds(keys.font_inc, k)
        && !binds(keys.close, k) {
        assert(b[1].0 == Some(k));
        assert forall|l: int| 1 < l < b.len() implies #[trigger] b[l].0 != Some(k) by {}
        lemma_last_binding_wins(b, k, 1);
    }
    if binds(keys.rename, k)
        && !binds(keys.remove, k)
        && !binds(keys.run, k)
        && !binds(keys.build, k)
        && !binds(keys.test, k)
        && !binds(keys.clean, k)
        && !binds(keys.stop, k)
        && !binds(keys.save, k)
        && !binds(keys.undo, k)
        && !binds(keys.redo, k)
        && !binds(keys.font_dec, k)
        && !binds(keys.font_inc, k)
        && !binds(keys.close, k) {
        assert(b[2].0 == Some(k));
        assert forall|l: int| 2 < l < b.len() implies #[trigger] b[l].0 != Some(k) by {}
        lemma_last_binding_wins(b, k, 2);
    }
    if binds(keys.remove, k)
        && !binds(keys.run, k)
        && !binds(keys.build, k)
        && !binds(keys.test, k)
        && !binds(keys.clean, k)
        && !binds(keys.stop, k)
        && !binds(keys.save, k)
        && !binds(keys.undo, k)
        && !binds(keys.redo, k)
        && !binds(keys.font_dec, k)
        && !binds(keys.font_inc, k)
        && !binds(keys.close, k) {
        assert(b[3].0 == Some(k));
        assert forall|l: int| 3 < l < b.len() implies #[trigger] b[l].0 != Some(k) by {}
        lemma_last_binding_wins(b, k, 3);
    }
    if binds(keys.run, k)
        && !binds(keys.build, k)
        && !binds(keys.test, k)
        && !binds(keys.clean, k)
        && !binds(keys.stop, k)
        && !binds(keys.save, k)
        && !binds(keys.undo, k)
        && !binds(keys.redo, k)
        && !binds(keys.font_dec, k)
        && !binds(keys.font_inc, k)
        && !binds(keys.close, k) {
        assert(b[4].0 == Some(k));
        assert forall|l: int| 4 < l < b.len() implies #[trigger] b[l].0 != Some(k) by {}
        lemma_last_binding_wins(b, k, 4);
    }
    if binds(keys.build, k)
        && !binds(keys.test, k)
        && !binds(keys.clean, k)
        && !binds(keys.stop, k)
        && !binds(keys.save, k)
        && !binds(keys.undo, k)
        && !binds(keys.redo, k)
        && !binds(keys.font_dec, k)
        && !binds(keys.font_inc, k)
        && !binds(keys.close, k) {
        assert(b[5].0 == Some(k));
        assert forall|l: int| 5 < l < b.len() implies #[trigger] b[l].0 != Some(k) by {}
        lemma_last_binding_wins(b, k, 5);
    }
    if binds(keys.test, k)
        && !binds(keys.clean, k)
        && !binds(keys.stop, k)
        && !binds(keys.save, k)
        && !binds(keys.undo, k)
        && !binds(keys.redo, k)
        && !binds(keys.font_dec, k)
        && !binds(keys.font_inc, k)
        && !binds(keys.close, k) {
        assert(b[6].0 == Some(k));
        assert forall|l: int| 6 < l < b.len() implies #[trigger] b[l].0 != Some(k) by {}
        lemma_last_binding_wins(b, k, 6);
    }
    if binds(keys.clean, k)
        && !binds(keys.stop, k)
        && !binds(keys.save, k)
        && !binds(keys.undo, k)
        && !binds(keys.redo, k)
        && !binds(keys.font_dec, k)
        && !binds(keys.font_inc, k)
        && !binds(keys.close, k) {
        assert(b[7].0 == Some(k));
        assert forall|l: int| 7 < l < b.len() implies #[trigger] b[l].0 != Some(k) by {}
        lemma_last_binding_wins(b, k, 7);
    }
    if binds(keys.stop, k)
        && !binds(keys.save, k)
        && !binds(keys.undo, k)
        && !binds(keys.redo, k)
        && !binds(keys.font_dec, k)
        && !binds(keys.font_inc, k)
        && !binds(keys.close, k) {
        assert(b[8].0 == Some(k));
        assert forall|l: int| 8 < l < b.len() implies #[trigger] b[l].0 != Some(k) by {}
        lemma_last_binding_wins(b, k, 8);
    }
    if binds(keys.save, k)
        && !binds(keys.undo, k)
        && !binds(keys.redo, k)
        && !binds(keys.font_dec, k)
        && !binds(keys.font_inc, k)
        && !binds(keys.close, k) {
        assert(b[9].0 == Some(k));
        assert forall|l: int| 9 < l < b.len() implies #[trigger] b[l].0 != Some(k) by {}
        lemma_last_binding_wins(b, k, 9);
    }
    if binds(keys.undo, k)
        && !binds(keys.redo, k)
        && !binds(keys.font_dec, k)
        && !binds(keys.font_inc, k)
        && !binds(keys.close, k) {
        assert(b[10].0 == Some(k));
        assert forall|l: int| 10 < l < b.len() implies #[trigger] b[l].0 != Some(k) by {}
        lemma_last_binding_wins(b, k, 10);
    }
    if binds(keys.redo, k) && !binds(keys.font_dec, k) && !binds(keys.font_inc, k) && !binds(keys.close, k) {
        assert(b[11].0 == Some(k));
        assert forall|l: int| 11 < l < b.len() implies #[trigger] b[l].0 != Some(k) by {}
        lemma_last_binding_wins(b, k, 11);
    }
    if binds(keys.font_dec, k) && !binds(keys.font_inc, k) && !binds(keys.close, k) {
        assert(b[12].0 == Some(k));
        assert forall|l: int| 12 < l < b.len() implies #[trigger] b[l].0 != Some(k) by {}
        lemma_last_binding_wins(b, k, 12);
    }
    if binds(keys.font_inc, k) && !binds(keys.close, k) {
        assert(b[13].0 == Some(k));
        assert forall|l: int| 13 < l < b.len() implies #[trigger] b[l].0 != Some(k) by {}
        lemma_last_binding_wins(b, k, 13);
    }
    if binds(keys.close, k) {
        assert(b[14].0 == Some(k));
        assert forall|l: int| 14 < l < b.len() implies #[trigger] b[l].0 != Some(k) by {}
        lemma_last_binding_wins(b, k, 14);
    }
    lemma_bound_iff_named(b, k);
    if !(binds(keys.new_project, k) || binds(keys.import, k) || binds(keys.rename, k) || binds(keys.remove, k) || binds(keys.run, k) || binds(keys.build, k) || binds(keys.test, k) || binds(keys.clean, k) || binds(keys.stop, k) || binds(keys.save, k) || binds(keys.undo, k) || binds(keys.redo, k) || binds(keys.font_dec, k) || binds(keys.font_inc, k) || binds(keys.close, k)) {
        assert forall|j: int| 0 <= j < b.len() implies #[trigger] b[j].0 != Some(k) by {}
    }
}

/// The shortcuts: key names and the buttons they click.
pub struct Shortcuts {
    map: StrMap<Action>,
}

impl View for Shortcuts {
    type V = Map<Seq<char>, Action>;

    closed spec fn view(&self) -> Map<Seq<char>, Action> {
        self.map@
    }
}

/// A copy of an optional string.
fn copy_opt(o: &Option<String>) -> (r: Option<String>)
    ensures
        opt_view(r) == opt_view(*o),
{
    match o {
        Some(s) => Some(s.clone()),
        None => None,
    }
}

/// Whether the modifier state holds every modifier bit of `meta`.
pub open spec fn has_meta(modifiers: u32, meta: u32) -> bool {
    modifiers & meta == meta
}

impl Shortcuts {
    /// Registers the configured keys in order: new project, import, rename,
    /// remove, run, build, test, clean, stop, save, undo, redo, font down,
    /// font up, close.
    pub fn from_settings(keys: &KeySettings) -> (s: Shortcuts)
        ensures
            s@ == shortcut_map(bindings_of(*keys)),
    {
        let list: Vec<(Option<String>, Action)> = vec![
            (copy_opt(&keys.new_project), Action::NewProject),
            (copy_opt(&keys.import), Action::Import),
            (copy_opt(&keys.rename), Action::Rename),
            (copy_opt(&keys.remove), Action::Remove),
            (copy_opt(&keys.run), Action::Run),
            (copy_opt(&keys.build), Action::Build),
            (copy_opt(&keys.test), Action::Test),
            (copy_opt(&keys.clean), Action::Clean),
            (copy_opt(&keys.stop), Action::Stop),
            (copy_opt(&keys.save), Action::Save),
            (copy_opt(&keys.undo), Action::Undo),
            (copy_opt(&keys.redo), Action::Redo),
            (copy_opt(&keys.font_dec), Action::FontDec),
            (copy_opt(&keys.font_inc), Action::FontInc),
            (copy_opt(&keys.close), Action::Close),
        ];
        let ghost b = bindings_of(*keys);
        assert(list.len() == b.len());
        assert(forall|i: int| 0 <= i < b.len() ==> #[trigger] b[i] == (opt_view(list@[i].0), list@[i].1));
        let mut map: StrMap<Action> = StrMap::new();
        let n = list.len();
        assert(b.take(0) =~= Seq::<(Option<Seq<char>>, Action)>::empty());
        for i in 0..n
            invariant
                n == list.len(),
                n == b.len(),
                forall|j: int| 0 <= j < b.len() ==> #[trigger] b[j] == (opt_view(list@[j].0), list@[j].1),
                map@ == shortcut_map(b.take(i as int)),
        {
            assert(b.take(i + 1).drop_last() =~= b.take(i as int));
            assert(b.take(i + 1).last() == b[i as int]);
            match &list[i].0 {
                Some(k) => map.insert(k.clone(), list[i].1),
                None => {},
            }
        }
        assert(b.take(n as int) =~= b);
        Shortcuts { map }
    }

    /// The button that a key press clicks: the one bound to the key's name,
    /// where the meta modifier is held.
    pub fn lookup(&self, modifiers: u32, meta: u32, key_name: Option<&String>) -> (action: Option<Action>)
        ensures
            action == (match key_name {
                Some(k) => if has_meta(modifiers, meta) && self@.contains_key(k@) {
                    Some(self@[k@])
                } else {
                    None::<Action>
                },
                None => None::<Action>,
            }),
    {
        if modifiers & meta != meta {
            return None;
        }
        match key_name {
            Some(k) => self.map.get(k),
            None => None,
        }
    }

    /// The key name bound to each button that has one, for its tooltip.
    pub fn key_names(&self) -> (names: Vec<(String, Action)>)
        ensures
            forall|i: int|
                0 <= i < names.len() ==> #[trigger] self@.contains_key(names@[i].0@) && self@[names@[i].0@]
                    == names@[i].1,
            forall|k: Seq<char>|
                #[trigger] self@.contains_key(k) ==> exists|i: int| 0 <= i < names.len() && names@[i].0@ == k,
    {
        let keys = self.map.keys();
        let mut names: Vec<(String, Action)> = Vec::new();
        let n = keys.len();
        for i in 0..n
            invariant
                n == keys.len(),
                crate::paths::views(keys@).to_set() == self@.dom(),
                names.len() == i,
                forall|j: int|
                    #![trigger names@[j]]
                    0 <= j < i ==> {
                        &&& names@[j].0@ == keys@[j]@
                        &&& self@.contains_key(names@[j].0@)
                        &&& self@[names@[j].0@] == names@[j].1
                    },
        {
            let k = &keys[i];
            assert(crate::paths::views(keys@)[i as int] == k@);
            assert(crate::paths::views(keys@).to_set().contains(k@));
            match self.map.get(k) {
                Some(a) => names.push((k.clone(), a)),
                None => {},
            }
        }
        proof {
            assert forall|k: Seq<char>| #[trigger] self@.contains_key(k) implies exists|i: int|
                0 <= i < names.len() && names@[i].0@ == k by {
                assert(crate::paths::views(keys@).to_set().contains(k));
                let j = choose|j: int| 0 <= j < crate::paths::views(keys@).len() && crate::paths::views(keys@)[j] == k;
                assert(names@[j].0@ == keys@[j]@);
            }
        }
        names
    }
}

} // verus!
