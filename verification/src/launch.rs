//! The command line with which the editor is started.

use vstd::prelude::*;
use crate::events::str_eq;
use crate::paths::views;

verus! {

/// The flag that starts the editor in the console, without a window.
pub open spec fn no_window_flag() -> Seq<char> {
    seq!['-', 'n', 'w']
}

/// The arguments with the option that loads the configuration file.
pub open spec fn with_config(args: Seq<Seq<char>>, config: Option<Seq<char>>) -> Seq<Seq<char>> {
    match config {
        Some(c) => args + seq![seq!['-', 'u'], c],
        None => args,
    }
}

/// The arguments of the editor: those of the program, then `-u` and the
/// configuration file where it has a path; without the no-window flag,
/// where it was given.
pub open spec fn editor_args_of(args: Seq<Seq<char>>, config: Option<Seq<char>>) -> Seq<Seq<char>> {
    if args.contains(no_window_flag()) {
        with_config(args, config).filter(|a: Seq<char>| a != no_window_flag())
    } else {
        with_config(args, config)
    }
}

/// Without the no-window flag the editor gets the program's arguments
/// followed by `-u` and the configuration file, or just the arguments where
/// there is no configuration file. With the flag, it gets the arguments
/// without any copy of the flag, then `-u` and the file (unless the file's
/// path is the flag itself); the flag is never passed on.
pub proof fn lemma_editor_args_shape(args: Seq<Seq<char>>, config: Seq<char>)
    ensures
        !args.contains(no_window_flag()) ==> editor_args_of(args, Some(config)) == args + seq![
            seq!['-', 'u'],
            config,
        ],
        !args.contains(no_window_flag()) ==> editor_args_of(args, None) == args,
        args.contains(no_window_flag()) && config != no_window_flag() ==> editor_args_of(args, Some(config))
            == args.filter(|a: Seq<char>| a != no_window_flag()) + seq![seq!['-', 'u'], config],
        args.contains(no_window_flag()) ==> !editor_args_of(args, Some(config)).contains(no_window_flag()),
        args.contains(no_window_flag()) ==> !editor_args_of(args, None).contains(no_window_flag()),
{
    broadcast use vstd::seq_lib::group_seq_lib_default;

    let keep = |a: Seq<char>| a != no_window_flag();
    let tail = seq![seq!['-', 'u'], config];
    if args.contains(no_window_flag()) {
        Seq::filter_distributes_over_add(args, tail, keep);
        assert(seq!['-', 'u'] != no_window_flag()) by {
            assert(seq!['-', 'u'].len() != no_window_flag().len());
        }
        if config != no_window_flag() {
            assert(tail =~= Seq::<Seq<char>>::empty().push(seq!['-', 'u']).push(config));
            Seq::<Seq<char>>::empty().lemma_filter_push(seq!['-', 'u'], keep);
            Seq::<Seq<char>>::empty().push(seq!['-', 'u']).lemma_filter_push(config, keep);
            assert(Seq::<Seq<char>>::empty().filter(keep) =~= Seq::<Seq<char>>::empty()) by {
                reveal(Seq::filter);
            }
            assert(tail.filter(keep) =~= tail);
        }
        let r = editor_args_of(args, Some(config));
        if r.contains(no_window_flag()) {
            let j = choose|j: int| 0 <= j < r.len() && r[j] == no_window_flag();
            assert(keep(r[j]));
        }
        let r2 = editor_args_of(args, None);
        if r2.contains(no_window_flag()) {
            let j = choose|j: int| 0 <= j < r2.len() && r2[j] == no_window_flag();
            assert(keep(r2[j]));
        }
    }
}

/// Whether `arg` is the no-window flag.
pub fn is_no_window_flag(arg: &String) -> (r: bool)
    ensures
        r == (arg@ == no_window_flag()),
{
    proof {
        reveal_strlit("-nw");
        assert("-nw"@ =~= no_window_flag());
    }
    str_eq(arg.as_str(), "-nw")
}

/// Whether the program runs without a window, and the arguments with which
/// it starts the editor.
pub fn editor_args(args: &Vec<String>, config: Option<String>) -> (r: (bool, Vec<String>))
    ensures
        r.0 == views(args@).contains(no_window_flag()),
        views(r.1@) == editor_args_of(views(args@), crate::paths::opt_view(config)),
{
    let mut all: Vec<String> = Vec::new();
    let mut no_window = false;
    let n = args.len();
    for i in 0..n
        invariant
            n == args.len(),
            views(all@) == views(args@).take(i as int),
            no_window == views(args@).take(i as int).contains(no_window_flag()),
    {
        let a = args[i].clone();
        let flag = is_no_window_flag(&a);
        proof {
            let t = views(args@).take(i as int);
            assert(views(args@).take(i + 1) =~= t.push(a@));
            assert(t.push(a@).contains(no_window_flag()) == (t.contains(no_window_flag()) || a@ == no_window_flag())) by {
                if t.push(a@).contains(no_window_flag()) {
                    let j = choose|j: int| 0 <= j < t.len() + 1 && t.push(a@)[j] == no_window_flag();
                    if j < t.len() {
                        assert(t[j] == no_window_flag());
                    }
                }
                if t.contains(no_window_flag()) {
                    let j = choose|j: int| 0 <= j < t.len() && t[j] == no_window_flag();
                    assert(t.push(a@)[j] == no_window_flag());
                }
                if a@ == no_window_flag() {
                    assert(t.push(a@)[t.len() as int] == no_window_flag());
                }
            }
        }
        let ghost before = all@;
        all.push(a);
        assert(views(all@) =~= views(before).push(a@));
        no_window = no_window || flag;
    }
    assert(views(args@).take(n as int) =~= views(args@));
    match config {
        Some(c) => {
            let ghost before = views(all@);
            let u = String::from_str("-u");
            proof {
                reveal_strlit("-u");
                assert("-u"@ =~= seq!['-', 'u']);
            }
            let ghost uv = u@;
            let ghost cv = c@;
            all.push(u);
            all.push(c);
            assert(views(all@) =~= before + seq![uv, cv]);
            assert(seq![uv, cv] =~= seq![seq!['-', 'u'], cv]);
        },
        None => {},
    }
    if !no_window {
        return (false, all);
    }
    let ghost full = views(all@);
    let ghost keep = |a: Seq<char>| a != no_window_flag();
    let mut out: Vec<String> = Vec::new();
    let m = all.len();
    assert(full.take(0) =~= Seq::<Seq<char>>::empty());
    for j in 0..m
        invariant
            m == all.len(),
            full == views(all@),
            keep == (|a: Seq<char>| a != no_window_flag()),
            views(out@) == full.take(j as int).filter(keep),
    {
        let a = all[j].clone();
        proof {
            assert(full.take(j + 1) =~= full.take(j as int).push(a@));
            full.take(j as int).lemma_filter_push(a@, keep);
        }
        if !is_no_window_flag(&a) {
            let ghost before = out@;
            out.push(a);
            assert(views(out@) =~= views(before).push(a@));
        }
    }
    assert(full.take(m as int) =~= full);
    (true, out)
}

} // verus!
