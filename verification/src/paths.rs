//! Path strings: ordering by file name, hidden names, ancestry and siblings.

use vstd::prelude::*;

verus! {

/// Lexicographic order on character sequences, each character compared by
/// its code point (the order in which `str` compares its UTF-8 bytes).
pub open spec fn chars_le(a: Seq<char>, b: Seq<char>) -> bool
    decreases a.len(),
{
    if a.len() == 0 {
        true
    } else if b.len() == 0 {
        false
    } else if a[0] as u32 != b[0] as u32 {
        (a[0] as u32) < (b[0] as u32)
    } else {
        chars_le(a.drop_first(), b.drop_first())
    }
}

/// Order on optional names: a missing name comes first.
pub open spec fn name_le(a: Option<Seq<char>>, b: Option<Seq<char>>) -> bool {
    match a {
        None => true,
        Some(x) => match b {
            None => false,
            Some(y) => chars_le(x, y),
        },
    }
}

/// Any two sequences are ordered one way or the other.
pub proof fn lemma_chars_le_total(a: Seq<char>, b: Seq<char>)
    ensures
        chars_le(a, b) || chars_le(b, a),
    decreases a.len(),
{
    if a.len() > 0 && b.len() > 0 && a[0] as u32 == b[0] as u32 {
        lemma_chars_le_total(a.drop_first(), b.drop_first());
    }
}

/// The order is transitive.
pub proof fn lemma_chars_le_transitive(a: Seq<char>, b: Seq<char>, c: Seq<char>)
    requires
        chars_le(a, b),
        chars_le(b, c),
    ensures
        chars_le(a, c),
    decreases a.len(),
{
    if a.len() > 0 && b.len() > 0 && c.len() > 0 && a[0] as u32 == b[0] as u32 && b[0] as u32 == c[0] as u32 {
        lemma_chars_le_transitive(a.drop_first(), b.drop_first(), c.drop_first());
    }
}

/// Every sequence is ordered before itself.
pub proof fn lemma_chars_le_reflexive(a: Seq<char>)
    ensures
        chars_le(a, a),
    decreases a.len(),
{
    if a.len() > 0 {
        lemma_chars_le_reflexive(a.drop_first());
    }
}

/// `name_le` is a total preorder.
pub proof fn lemma_name_le_total(a: Option<Seq<char>>, b: Option<Seq<char>>)
    ensures
        name_le(a, b) || name_le(b, a),
{
    if a is Some && b is Some {
        lemma_chars_le_total(a->0, b->0);
    }
}

/// `name_le` is transitive.
pub proof fn lemma_name_le_transitive(a: Option<Seq<char>>, b: Option<Seq<char>>, c: Option<Seq<char>>)
    requires
        name_le(a, b),
        name_le(b, c),
    ensures
        name_le(a, c),
{
    if a is Some && b is Some && c is Some {
        lemma_chars_le_transitive(a->0, b->0, c->0);
    }
}

/// Compares two strings character by character.
pub fn str_le(a: &str, b: &str) -> (r: bool)
    ensures
        r == chars_le(a@, b@),
{
    let la = a.unicode_len();
    let lb = b.unicode_len();
    let mut i: usize = 0;
    assert(a@.skip(0) =~= a@);
    assert(b@.skip(0) =~= b@);
    while i < la && i < lb
        invariant
            la == a@.len(),
            lb == b@.len(),
            i <= la,
            i <= lb,
            chars_le(a@, b@) == chars_le(a@.skip(i as int), b@.skip(i as int)),
        decreases la - i,
    {
        let ca = a.get_char(i);
        let cb = b.get_char(i);
        let (ua, ub) = (ca as u32, cb as u32);
        if ua != ub {
            return ua < ub;
        }
        assert(a@.skip(i as int).drop_first() =~= a@.skip(i + 1));
        assert(b@.skip(i as int).drop_first() =~= b@.skip(i + 1));
        i = i + 1;
    }
    i == la
}

/// The last component of `path`, as `std::path::Path::file_name` finds it.
pub uninterp spec fn file_name_of(path: Seq<char>) -> Option<Seq<char>>;

/// The path without its last component, as `std::path::Path::parent`
/// finds it.
pub uninterp spec fn parent_of(path: Seq<char>) -> Option<Seq<char>>;

/// The view of an optional string.
pub open spec fn opt_view(o: Option<String>) -> Option<Seq<char>> {
    match o {
        Some(s) => Some(s@),
        None => None,
    }
}

/// Calls `std::path::Path::file_name` on `path` and hands its result back
/// as a `String`. The contract claims only that the result is the function
/// `file_name_of` of the path's characters: std computes it from the
/// string alone.
#[verifier::external_body]
fn path_file_name(path: &str) -> (name: Option<String>)
    ensures
        opt_view(name) == file_name_of(path@),
{
    match std::path::Path::new(path).file_name() {
        Some(n) => match n.to_str() {
            Some(t) => Some(t.to_string()),
            None => None,
        },
        None => None,
    }
}

/// Calls `std::path::Path::parent` on `path` and hands its result back as a
/// `String`. The contract claims only that the result is the function
/// `parent_of` of the path's characters: std computes it from the string
/// alone.
#[verifier::external_body]
fn path_parent(path: &str) -> (parent: Option<String>)
    ensures
        opt_view(parent) == parent_of(path@),
{
    match std::path::Path::new(path).parent() {
        Some(p) => match p.to_str() {
            Some(t) => Some(t.to_string()),
            None => None,
        },
        None => None,
    }
}

/// The file name of `path`.
pub fn file_name(path: &str) -> (name: Option<String>)
    ensures
        opt_view(name) == file_name_of(path@),
{
    path_file_name(path)
}

/// The folder that holds `path`.
pub fn parent(path: &str) -> (dir: Option<String>)
    ensures
        opt_view(dir) == parent_of(path@),
{
    path_parent(path)
}

/// The name of a new project at `path` and the folder in which it is
/// created, where the path has both.
pub fn new_project_parts(path: &str) -> (parts: Option<(String, String)>)
    ensures
        match parts {
            Some((name, dir)) => file_name_of(path@) == Some(name@) && parent_of(path@) == Some(dir@),
            None => file_name_of(path@) is None || parent_of(path@) is None,
        },
{
    match path_file_name(path) {
        Some(name) => match path_parent(path) {
            Some(dir) => Some((name, dir)),
            None => None,
        },
        None => None,
    }
}

/// A name that starts with a dot is hidden from the project tree.
pub open spec fn is_hidden(name: Seq<char>) -> bool {
    name.len() > 0 && name[0] == '.'
}

/// A name is hidden exactly when it starts with a dot: one that starts with
/// any other character, or is empty, is shown, whatever follows.
pub proof fn lemma_hidden_by_first_char(first: char, rest: Seq<char>)
    ensures
        is_hidden(seq![first] + rest) == (first == '.'),
        !is_hidden(Seq::<char>::empty()),
{
    assert((seq![first] + rest)[0] == first);
}

/// A path whose file name does not start with a dot is shown under that
/// name; one whose file name does is not shown.
pub proof fn lemma_shown_unless_dot(path: Seq<char>, first: char, rest: Seq<char>)
    requires
        file_name_of(path) == Some(seq![first] + rest),
    ensures
        first != '.' ==> shown_name(path) == Some(seq![first] + rest),
        first == '.' ==> shown_name(path) is None,
{
    lemma_hidden_by_first_char(first, rest);
}

/// Whether `name` starts with a dot.
pub fn is_hidden_name(name: &str) -> (r: bool)
    ensures
        r == is_hidden(name@),
{
    let n = name.unicode_len();
    n > 0 && name.get_char(0) == '.'
}

/// The name under which `path` is shown in the project tree: its file name,
/// where it has one and it is not hidden.
pub open spec fn shown_name(path: Seq<char>) -> Option<Seq<char>> {
    match file_name_of(path) {
        Some(n) => if is_hidden(n) { None } else { Some(n) },
        None => None,
    }
}

/// The name under which a row is shown, given its file name: none where
/// the name is hidden.
pub fn shown(name: Option<String>) -> (r: Option<String>)
    ensures
        opt_view(r) == (match opt_view(name) {
            Some(n) => if is_hidden(n) { None } else { Some(n) },
            None => None,
        }),
{
    match name {
        Some(n) => {
            if is_hidden_name(n.as_str()) {
                None
            } else {
                Some(n)
            }
        },
        None => None,
    }
}

/// The name under which `path` is shown in the project tree, or `None`
/// where the tree leaves it (and everything under it) out.
pub fn visible_name(path: &str) -> (name: Option<String>)
    ensures
        opt_view(name) == shown_name(path@),
{
    shown(path_file_name(path))
}

/// `child` lies strictly below the folder `parent`: it starts with
/// `parent` and goes on past a separator.
pub open spec fn is_below(parent: Seq<char>, child: Seq<char>) -> bool {
    &&& 0 < parent.len() < child.len()
    &&& child.subrange(0, parent.len() as int) == parent
    &&& (child[parent.len() as int] == '/' || parent.last() == '/')
}

/// A path below a folder starts with the folder's whole path and is
/// longer; a folder is not below itself.
pub proof fn lemma_below_extends(parent: Seq<char>, child: Seq<char>)
    ensures
        is_below(parent, child) ==> child.len() > parent.len() && child.subrange(0, parent.len() as int)
            == parent,
        !is_below(parent, parent),
{
}

/// Whatever lies past a separator after a folder's path lies below the
/// folder.
pub proof fn lemma_below_past_separator(parent: Seq<char>, rest: Seq<char>)
    requires
        parent.len() > 0,
    ensures
        is_below(parent, parent + seq!['/'] + rest),
{
    let c = parent + seq!['/'] + rest;
    assert(c.subrange(0, parent.len() as int) =~= parent);
    assert(c[parent.len() as int] == '/');
}

/// A path whose character after the folder's path is no separator, below a
/// folder that does not end in one, does not lie below it.
pub proof fn lemma_not_below_without_separator(parent: Seq<char>, child: Seq<char>)
    requires
        parent.len() > 0,
        parent.last() != '/',
        child.len() > parent.len(),
        child[parent.len() as int] != '/',
    ensures
        !is_below(parent, child),
{
}

/// What lies below a folder below another folder lies below that one too.
pub proof fn lemma_below_transitive(a: Seq<char>, b: Seq<char>, c: Seq<char>)
    requires
        is_below(a, b),
        is_below(b, c),
    ensures
        is_below(a, c),
{
    assert(c.subrange(0, a.len() as int) =~= b.subrange(0, a.len() as int));
    assert(c[a.len() as int] == b[a.len() as int]);
}

/// Whether `child_str` lies strictly below the folder `parent_str`.
pub fn is_parent_path(parent_str: &String, child_str: &String) -> (r: bool)
    ensures
        r == is_below(parent_str@, child_str@),
{
    let p = parent_str.as_str();
    let c = child_str.as_str();
    let lp = p.unicode_len();
    let lc = c.unicode_len();
    if lp == 0 || lp >= lc {
        return false;
    }
    let mut i: usize = 0;
    while i < lp
        invariant
            p@ == parent_str@,
            c@ == child_str@,
            lp == p@.len(),
            lc == c@.len(),
            lp < lc,
            i <= lp,
            forall|k: int| 0 <= k < i ==> c@[k] == p@[k],
        decreases lp - i,
    {
        let pc = p.get_char(i);
        let cc = c.get_char(i);
        if pc != cc {
            assert(c@.subrange(0, lp as int)[i as int] != p@[i as int]);
            assert(c@.subrange(0, lp as int) != p@);
            return false;
        }
        i = i + 1;
    }
    assert(c@.subrange(0, lp as int) =~= p@);
    c.get_char(lp) == '/' || p.get_char(lp - 1) == '/'
}

/// The folder that holds a path, from its file name and parent as std
/// finds them: the parent, or `.` where the parent is empty; a path with no
/// file name (a root, or one that ends in `..`) is its own folder, and the
/// empty path lies in `.`.
pub open spec fn dir_of(path: Seq<char>, name: Option<Seq<char>>, parent: Option<Seq<char>>) -> Seq<char> {
    match name {
        None => if path.len() == 0 { seq!['.'] } else { path },
        Some(_) => match parent {
            Some(d) => if d.len() == 0 { seq!['.'] } else { d },
            None => seq!['.'],
        },
    }
}

/// The folder that holds `path`.
pub open spec fn dir_path_of(path: Seq<char>) -> Seq<char> {
    dir_of(path, file_name_of(path), parent_of(path))
}

/// Two paths are siblings when they lie in the same folder.
pub open spec fn siblings(path1: Seq<char>, path2: Seq<char>) -> bool {
    dir_path_of(path1) == dir_path_of(path2)
}

/// The folder of `path`, given its file name and its parent.
pub fn dir_from(path: &String, name: Option<String>, parent: Option<String>) -> (dir: String)
    ensures
        dir@ == dir_of(path@, opt_view(name), opt_view(parent)),
{
    proof {
        reveal_strlit(".");
        assert("."@ =~= seq!['.']);
    }
    match name {
        None => {
            if path.as_str().unicode_len() == 0 {
                String::from_str(".")
            } else {
                path.clone()
            }
        },
        Some(_) => match parent {
            Some(d) => {
                if d.as_str().unicode_len() == 0 {
                    String::from_str(".")
                } else {
                    d
                }
            },
            None => String::from_str("."),
        },
    }
}

/// The folder that holds `path`.
pub fn dir_path(path: &String) -> (dir: String)
    ensures
        dir@ == dir_path_of(path@),
{
    dir_from(path, path_file_name(path.as_str()), path_parent(path.as_str()))
}

/// Whether the two paths lie in the same folder.
pub fn are_siblings(path1: &String, path2: &String) -> (r: bool)
    ensures
        r == siblings(path1@, path2@),
{
    dir_path(path1) == dir_path(path2)
}

/// Being siblings is an equivalence: every path is its own sibling, the
/// relation goes both ways, and siblings of siblings are siblings.
pub proof fn lemma_siblings_equivalence(a: Seq<char>, b: Seq<char>, c: Seq<char>)
    ensures
        siblings(a, a),
        siblings(a, b) == siblings(b, a),
        siblings(a, b) && siblings(b, c) ==> siblings(a, c),
{
}

/// Compares two optional names as `Option<&str>` compares them.
pub fn name_le_opt(a: &Option<String>, b: &Option<String>) -> (r: bool)
    ensures
        r == name_le(opt_view(*a), opt_view(*b)),
{
    match a {
        None => true,
        Some(x) => match b {
            None => false,
            Some(y) => str_le(x.as_str(), y.as_str()),
        },
    }
}

/// The characters of each string in `s`.
pub open spec fn views(s: Seq<String>) -> Seq<Seq<char>> {
    s.map_values(|x: String| x@)
}

/// Paths ordered by their file names.
pub open spec fn sorted_by_name(s: Seq<Seq<char>>) -> bool {
    forall|i: int, j: int|
        0 <= i < j < s.len() ==> name_le(file_name_of(#[trigger] s[i]), file_name_of(#[trigger] s[j]))
}

/// A path with its name, as characters.
pub open spec fn entry_view(e: (String, Option<String>)) -> (Seq<char>, Option<Seq<char>>) {
    (e.0@, opt_view(e.1))
}

/// Each entry as characters.
pub open spec fn entry_views(s: Seq<(String, Option<String>)>) -> Seq<(Seq<char>, Option<Seq<char>>)> {
    s.map_values(|e: (String, Option<String>)| entry_view(e))
}

/// Entries ordered by their names.
pub open spec fn sorted_by_second(s: Seq<(Seq<char>, Option<Seq<char>>)>) -> bool {
    forall|i: int, j: int| 0 <= i < j < s.len() ==> name_le((#[trigger] s[i]).1, (#[trigger] s[j]).1)
}

/// Inserting an entry after those whose names come no later, and before
/// those whose names come no earlier, keeps the sequence sorted.
proof fn lemma_insert_sorted(s: Seq<(Seq<char>, Option<Seq<char>>)>, pos: int, x: (Seq<char>, Option<Seq<char>>))
    requires
        0 <= pos <= s.len(),
        sorted_by_second(s),
        forall|k: int| 0 <= k < pos ==> name_le((#[trigger] s[k]).1, x.1),
        forall|k: int| pos <= k < s.len() ==> name_le(x.1, (#[trigger] s[k]).1),
    ensures
        sorted_by_second(s.insert(pos, x)),
{
    let t = s.insert(pos, x);
    assert forall|i: int, j: int| 0 <= i < j < t.len() implies name_le((#[trigger] t[i]).1, (#[trigger] t[j]).1) by {
        if j == pos {
            assert(t[i] == s[i]);
        } else if i == pos {
            assert(t[j] == s[j - 1]);
        } else if j < pos {
            assert(t[i] == s[i] && t[j] == s[j]);
        } else if i < pos {
            assert(t[i] == s[i] && t[j] == s[j - 1]);
        } else {
            assert(t[i] == s[i - 1] && t[j] == s[j - 1]);
        }
    }
}

/// Sequences with the same elements keep the same elements under a map.
pub proof fn lemma_map_same_multiset<A, B>(s: Seq<A>, t: Seq<A>, f: spec_fn(A) -> B)
    requires
        s.to_multiset() == t.to_multiset(),
    ensures
        s.map_values(f).to_multiset() == t.map_values(f).to_multiset(),
    decreases s.len(),
{
    broadcast use vstd::seq_lib::group_to_multiset_ensures;
    broadcast use vstd::multiset::group_multiset_axioms;

    if s.len() == 0 {
        assert(s.to_multiset().len() == 0);
        assert(t.to_multiset().len() == t.len());
        assert(s.map_values(f) =~= t.map_values(f));
    } else {
        let x = s.last();
        let s1 = s.drop_last();
        assert(s1.push(x) =~= s);
        assert(t.to_multiset().count(x) > 0);
        assert(t.contains(x));
        let k = choose|k: int| 0 <= k < t.len() && t[k] == x;
        let t1 = t.remove(k);
        vstd::seq_lib::to_multiset_remove(t, k);
        assert(s1.to_multiset() =~= s.to_multiset().remove(x));
        lemma_map_same_multiset(s1, t1, f);
        assert(s.map_values(f) =~= s1.map_values(f).push(f(x)));
        let tm = t.map_values(f);
        assert(tm.remove(k) =~= t1.map_values(f));
        vstd::seq_lib::to_multiset_remove(tm, k);
        assert(tm[k] == f(x));
        assert(tm.to_multiset().count(f(x)) > 0) by {
            assert(tm.contains(f(x)));
        }
        assert(tm.to_multiset() =~= tm.remove(k).to_multiset().insert(f(x)));
    }
}

/// Two names that compare equal, each ordered before the other.
pub open spec fn same_name(a: Option<Seq<char>>, b: Option<Seq<char>>) -> bool {
    name_le(a, b) && name_le(b, a)
}

/// The entries whose names compare equal to `n`, in their order.
pub open spec fn name_class(s: Seq<(Seq<char>, Option<Seq<char>>)>, n: Option<Seq<char>>) -> Seq<(Seq<char>, Option<Seq<char>>)> {
    s.filter(|e: (Seq<char>, Option<Seq<char>>)| same_name(e.1, n))
}

/// The paths whose file names compare equal to `n`, in their order.
pub open spec fn name_group(s: Seq<Seq<char>>, n: Option<Seq<char>>) -> Seq<Seq<char>> {
    s.filter(|q: Seq<char>| same_name(file_name_of(q), n))
}

/// A sequence none of whose elements passes the filter filters to nothing.
proof fn lemma_filter_none<A>(s: Seq<A>, p: spec_fn(A) -> bool)
    requires
        forall|k: int| 0 <= k < s.len() ==> !p(#[trigger] s[k]),
    ensures
        s.filter(p) =~= Seq::<A>::empty(),
{
    broadcast use vstd::seq_lib::group_filter_ensures;

    if s.filter(p).len() > 0 {
        let x = s.filter(p)[0];
        assert(s.filter(p).contains(x));
        assert(p(s.filter(p)[0]));
        s.lemma_filter_contains_rev(p, x);
        let k = choose|k: int| 0 <= k < s.len() && s[k] == x;
        assert(!p(s[k]));
    }
}

/// Filtering after an insertion: the inserted element comes first in the
/// filtered sequence where nothing before it passes the filter.
proof fn lemma_filter_insert<A>(s: Seq<A>, pos: int, x: A, p: spec_fn(A) -> bool)
    requires
        0 <= pos <= s.len(),
        p(x) ==> forall|k: int| 0 <= k < pos ==> !p(#[trigger] s[k]),
    ensures
        s.insert(pos, x).filter(p) == (if p(x) { seq![x] + s.filter(p) } else { s.filter(p) }),
{
    broadcast use vstd::seq_lib::group_seq_lib_default;

    let a = s.take(pos);
    let b = s.skip(pos);
    assert(s =~= a + b);
    assert(s.insert(pos, x) =~= a + (seq![x] + b));
    assert(seq![x] =~= Seq::<A>::empty().push(x));
    Seq::<A>::empty().lemma_filter_push(x, p);
    lemma_filter_none(Seq::<A>::empty(), p);
    if p(x) {
        assert forall|k: int| 0 <= k < a.len() implies !p(#[trigger] a[k]) by {
            assert(a[k] == s[k]);
        }
        lemma_filter_none(a, p);
        assert(s.filter(p) =~= b.filter(p));
        assert(s.insert(pos, x).filter(p) =~= seq![x] + b.filter(p));
    } else {
        assert(s.insert(pos, x).filter(p) =~= a.filter(p) + b.filter(p));
    }
}

/// Filtering a mapped sequence is mapping the filtered one.
proof fn lemma_filter_map<A, B>(s: Seq<A>, f: spec_fn(A) -> B, p: spec_fn(B) -> bool, q: spec_fn(A) -> bool)
    requires
        forall|x: A| #[trigger] q(x) == p(f(x)),
    ensures
        s.map_values(f).filter(p) == s.filter(q).map_values(f),
    decreases s.len(),
{
    if s.len() == 0 {
        assert(s.map_values(f) =~= Seq::<B>::empty());
        assert(s =~= Seq::<A>::empty());
        lemma_filter_none(Seq::<B>::empty(), p);
        lemma_filter_none(Seq::<A>::empty(), q);
        assert(s.filter(q).map_values(f) =~= Seq::<B>::empty());
    } else {
        let t = s.drop_last();
        let x = s.last();
        assert(t.push(x) =~= s);
        lemma_filter_map(t, f, p, q);
        t.lemma_push_map_commute(f, x);
        t.map_values(f).lemma_filter_push(f(x), p);
        t.lemma_filter_push(x, q);
        if q(x) {
            t.filter(q).lemma_push_map_commute(f, x);
        }
    }
}

/// `entries`, each a path with its file name, ordered by their names.
pub fn sort_by_names(entries: Vec<(String, Option<String>)>) -> (sorted: Vec<(String, Option<String>)>)
    ensures
        entry_views(sorted@).to_multiset() == entry_views(entries@).to_multiset(),
        sorted_by_second(entry_views(sorted@)),
        forall|n: Option<Seq<char>>|
            #[trigger] name_class(entry_views(sorted@), n) == name_class(entry_views(entries@), n),
{
    broadcast use vstd::seq_lib::group_to_multiset_ensures;

    let mut res: Vec<(String, Option<String>)> = Vec::new();
    let mut rest = entries;
    let ghost all = entry_views(rest@);
    let n = rest.len();
    assert(entry_views(res@) =~= all.take(0));
    // Entries are taken from the back, so that each is inserted after the
    // ones with equal names that follow it in the input.
    while rest.len() > 0
        invariant
            n == all.len(),
            rest.len() <= n,
            entry_views(rest@) == all.take(rest.len() as int),
            sorted_by_second(entry_views(res@)),
            entry_views(res@).to_multiset() == all.skip(rest.len() as int).to_multiset(),
            forall|n: Option<Seq<char>>|
                #[trigger] name_class(entry_views(res@), n) == name_class(all.skip(rest.len() as int), n),
        decreases rest.len(),
    {
        let e = rest.pop().unwrap();
        let ghost r = rest.len() as int;
        proof {
            assert(all.take(r + 1) =~= all.take(r).push(entry_view(e)));
            assert(entry_views(rest@) =~= all.take(r));
        }
        let mut pos: usize = 0;
        while pos < res.len() && !name_le_opt(&e.1, &res[pos].1)
            invariant
                pos <= res.len(),
                forall|k: int| 0 <= k < pos ==> !name_le(opt_view(e.1), (#[trigger] entry_views(res@)[k]).1),
            decreases res.len() - pos,
        {
            assert(entry_views(res@)[pos as int] == entry_view(res[pos as int]));
            pos = pos + 1;
        }
        let ghost s = entry_views(res@);
        proof {
            assert forall|k: int| 0 <= k < pos implies name_le((#[trigger] s[k]).1, entry_view(e).1) by {
                lemma_name_le_total(s[k].1, entry_view(e).1);
            }
            assert forall|k: int| pos <= k < s.len() implies name_le(entry_view(e).1, (#[trigger] s[k]).1) by {
                assert(s[pos as int] == entry_view(res[pos as int]));
                if k > pos {
                    lemma_name_le_transitive(entry_view(e).1, s[pos as int].1, s[k].1);
                }
            }
            lemma_insert_sorted(s, pos as int, entry_view(e));
        }
        res.insert(pos, e);
        proof {
            let t = s.insert(pos as int, entry_view(e));
            assert(entry_views(res@) =~= t);
            vstd::seq_lib::to_multiset_insert(s, pos as int, entry_view(e));
            assert(all[r] == all.take(r + 1)[r]);
            assert(all.skip(r) =~= seq![entry_view(e)] + all.skip(r + 1));
            vstd::seq_lib::lemma_seq_union_to_multiset_commutative(seq![entry_view(e)], all.skip(r + 1));
            vstd::seq_lib::to_multiset_build(all.skip(r + 1), entry_view(e));
            assert forall|n: Option<Seq<char>>|
                #[trigger] name_class(entry_views(res@), n) == name_class(all.skip(r), n) by {
                let x = entry_view(e);
                let p = |y: (Seq<char>, Option<Seq<char>>)| same_name(y.1, n);
                assert forall|k: int| 0 <= k < pos && p(x) implies !p(#[trigger] s[k]) by {
                    if same_name(s[k].1, n) {
                        lemma_name_le_transitive(x.1, n, s[k].1);
                    }
                }
                lemma_filter_insert(s, pos as int, x, p);
                assert(name_class(s, n) == name_class(all.skip(r + 1), n));
                Seq::filter_distributes_over_add(seq![x], all.skip(r + 1), p);
                assert(seq![x] =~= Seq::<(Seq<char>, Option<Seq<char>>)>::empty().push(x));
                Seq::<(Seq<char>, Option<Seq<char>>)>::empty().lemma_filter_push(x, p);
                lemma_filter_none(Seq::<(Seq<char>, Option<Seq<char>>)>::empty(), p);
                if p(x) {
                    assert(seq![x].filter(p) =~= seq![x]);
                } else {
                    assert(seq![x].filter(p) =~= Seq::<(Seq<char>, Option<Seq<char>>)>::empty());
                    assert(Seq::<(Seq<char>, Option<Seq<char>>)>::empty() + all.skip(r + 1).filter(p) =~= all.skip(r + 1).filter(p));
                }
            }
            assert(all.skip(r + 1) + seq![entry_view(e)] =~= all.skip(r + 1).push(entry_view(e)));
        }
    }
    assert(all.skip(0) =~= all);
    res
}

/// A path with its file name.
pub open spec fn with_name(p: Seq<char>) -> (Seq<char>, Option<Seq<char>>) {
    (p, file_name_of(p))
}

/// `paths` ordered by file name, as the project tree lists the children of
/// a folder.
pub fn sort_paths(paths: &Vec<String>) -> (sorted: Vec<String>)
    ensures
        views(sorted@).to_multiset() == views(paths@).to_multiset(),
        sorted_by_name(views(sorted@)),
        forall|n: Option<Seq<char>>| #[trigger] name_group(views(sorted@), n) == name_group(views(paths@), n),
{
    broadcast use vstd::seq_lib::group_to_multiset_ensures;

    let ghost g = |p: Seq<char>| with_name(p);
    let ghost fst = |e: (Seq<char>, Option<Seq<char>>)| e.0;
    let mut entries: Vec<(String, Option<String>)> = Vec::new();
    let n = paths.len();
    for i in 0..n
        invariant
            n == paths.len(),
            g == (|p: Seq<char>| with_name(p)),
            entry_views(entries@) == views(paths@).take(i as int).map_values(g),
    {
        let p = paths[i].clone();
        let name = path_file_name(p.as_str());
        let ghost before = entries@;
        entries.push((p, name));
        proof {
            assert(entry_views(entries@) =~= entry_views(before).push(with_name(paths[i as int]@)));
            assert(views(paths@).take(i + 1) =~= views(paths@).take(i as int).push(paths[i as int]@));
            assert(views(paths@).take(i + 1).map_values(g) =~= views(paths@).take(i as int).map_values(g).push(
                g(paths[i as int]@),
            ));
        }
    }
    assert(views(paths@).take(n as int) =~= views(paths@));
    let sorted_entries = sort_by_names(entries);
    let mut out: Vec<String> = Vec::new();
    let m = sorted_entries.len();
    let ghost es = entry_views(sorted_entries@);
    for i in 0..m
        invariant
            m == sorted_entries.len(),
            es == entry_views(sorted_entries@),
            fst == (|e: (Seq<char>, Option<Seq<char>>)| e.0),
            views(out@) == es.take(i as int).map_values(fst),
    {
        let ghost before = out@;
        out.push(sorted_entries[i].0.clone());
        proof {
            assert(views(out@) =~= views(before).push(sorted_entries[i as int].0@));
            assert(es.take(i + 1) =~= es.take(i as int).push(es[i as int]));
            assert(es.take(i + 1).map_values(fst) =~= es.take(i as int).map_values(fst).push(fst(es[i as int])));
        }
    }
    proof {
        let named = views(paths@).map_values(g);
        assert(es.take(m as int) =~= es);
        lemma_map_same_multiset(es, named, fst);
        assert(named.map_values(fst) =~= views(paths@));
        assert forall|k: int| 0 <= k < es.len() implies (#[trigger] es[k]).1 == file_name_of(es[k].0) by {
            assert(es.contains(es[k]));
            assert(es.to_multiset().count(es[k]) > 0);
            assert(named.contains(es[k]));
            let j = choose|j: int| 0 <= j < named.len() && named[j] == es[k];
        }
        assert forall|i: int, j: int| 0 <= i < j < views(out@).len() implies name_le(
            file_name_of(#[trigger] views(out@)[i]),
            file_name_of(#[trigger] views(out@)[j]),
        ) by {
            assert(views(out@)[i] == es[i].0);
            assert(views(out@)[j] == es[j].0);
        }
        let o = views(out@);
        let v = views(paths@);
        assert(es =~= o.map_values(g)) by {
            assert forall|k: int| 0 <= k < es.len() implies es[k] == g(o[k]) by {
                assert(o[k] == es[k].0);
            }
        }
        assert forall|n: Option<Seq<char>>| #[trigger] name_group(o, n) == name_group(v, n) by {
            let pc = |q: Seq<char>| same_name(file_name_of(q), n);
            let ec = |e: (Seq<char>, Option<Seq<char>>)| same_name(e.1, n);
            lemma_filter_map(o, g, ec, pc);
            lemma_filter_map(v, g, ec, pc);
            assert(name_class(es, n) == es.filter(ec));
            assert(name_class(named, n) == named.filter(ec));
            let a = o.filter(pc);
            let b = v.filter(pc);
            assert(a.map_values(g) == b.map_values(g));
            assert(a.map_values(g).map_values(fst) =~= a);
            assert(b.map_values(g).map_values(fst) =~= b);
            assert(name_group(o, n) == a);
            assert(name_group(v, n) == b);
        }
    }
    out
}

} // verus!
