//! The notifications that the editor sends back, and what the IDE makes of
//! them.

use vstd::prelude::*;
use crate::state::{State, selection_view};

verus! {

/// A value of a message from the editor, as far as the IDE reads it.
pub enum RpcValue {
    Str(String),
    Array(Vec<RpcValue>),
    Other,
}

/// What a message from the editor announces.
pub enum Event {
    /// The editor entered the buffer of this file.
    BufEnter(String),
    /// The editor is quitting.
    VimLeave,
    /// Anything else.
    Other,
}

/// The characters of a string value.
pub open spec fn str_of(v: RpcValue) -> Option<Seq<char>> {
    match v {
        RpcValue::Str(s) => Some(s@),
        _ => None,
    }
}

/// The name of the notification: the string at position 1.
pub open spec fn event_name(msg: Seq<RpcValue>) -> Option<Seq<char>> {
    if msg.len() > 1 {
        str_of(msg[1])
    } else {
        None
    }
}

/// The first argument of the notification: the first value of the array
/// at position 2, where it is a string.
pub open spec fn first_arg(msg: Seq<RpcValue>) -> Option<Seq<char>> {
    if msg.len() > 2 {
        match msg[2] {
            RpcValue::Array(args) => if args.len() > 0 {
                str_of(args@[0])
            } else {
                None
            },
            _ => None,
        }
    } else {
        None
    }
}

/// Whether two strings hold the same characters.
pub fn str_eq(a: &str, b: &str) -> (r: bool)
    ensures
        r == (a@ == b@),
{
    let la = a.unicode_len();
    let lb = b.unicode_len();
    if la != lb {
        return false;
    }
    let mut i: usize = 0;
    while i < la
        invariant
            la == a@.len(),
            lb == b@.len(),
            la == lb,
            i <= la,
            forall|k: int| 0 <= k < i ==> a@[k] == b@[k],
        decreases la - i,
    {
        let ca = a.get_char(i);
        let cb = b.get_char(i);
        if ca != cb {
            return false;
        }
        i = i + 1;
    }
    assert(a@ =~= b@);
    true
}

/// The string at position `i` of `values`, if it is one.
fn str_at(values: &Vec<RpcValue>, i: usize) -> (s: Option<&String>)
    ensures
        match s {
            Some(t) => i < values.len() && str_of(values@[i as int]) == Some(t@),
            None => i >= values.len() || str_of(values@[i as int]) is None,
        },
{
    if i < values.len() {
        match &values[i] {
            RpcValue::Str(s) => Some(s),
            _ => None,
        }
    } else {
        None
    }
}

/// Reads a notification from the editor: `bufenter` with the path of the
/// file, or `vimleave`.
pub fn decode_event(msg: &Vec<RpcValue>) -> (ev: Event)
    ensures
        match ev {
            Event::BufEnter(p) => event_name(msg@) == Some("bufenter"@) && first_arg(msg@) == Some(p@),
            Event::VimLeave => event_name(msg@) == Some("vimleave"@),
            Event::Other => {
                &&& !(event_name(msg@) == Some("bufenter"@) && first_arg(msg@) is Some)
                &&& event_name(msg@) != Some("vimleave"@)
            },
        },
{
    proof {
        reveal_strlit("bufenter");
        reveal_strlit("vimleave");
        assert("bufenter"@[0] != "vimleave"@[0]);
    }
    match str_at(msg, 1) {
        None => Event::Other,
        Some(name) => {
            if str_eq(name.as_str(), "bufenter") {
                if msg.len() > 2 {
                    match &msg[2] {
                        RpcValue::Array(args) => match str_at(args, 0) {
                            Some(path) => {
                                assert(msg@[2] == RpcValue::Array(*args));
                                assert(first_arg(msg@) == str_of(args@[0]));
                                Event::BufEnter(path.clone())
                            },
                            None => Event::Other,
                        },
                        _ => Event::Other,
                    }
                } else {
                    Event::Other
                }
            } else if str_eq(name.as_str(), "vimleave") {
                Event::VimLeave
            } else {
                Event::Other
            }
        },
    }
}

/// What the IDE does after a message from the editor.
pub struct EventOutcome {
    /// The editor is quitting: the IDE quits too.
    pub quit: bool,
    /// The state changed and is saved.
    pub save_prefs: bool,
    /// The builders and the project tree are brought up to date, as after
    /// every message.
    pub refresh: bool,
}

/// Acts on a notification: entering a buffer makes its file the selection,
/// which is then saved; after any message the builders and the tree are
/// refreshed; `vimleave` quits.
pub fn handle_event(state: &mut State, ev: Event) -> (out: EventOutcome)
    ensures
        out.quit == (ev is VimLeave),
        out.save_prefs == (ev is BufEnter),
        out.refresh,
        match ev {
            Event::BufEnter(p) => selection_view(final(state).selection) == Some(p@),
            _ => final(state).selection == old(state).selection,
        },
        final(state).projects@ == old(state).projects@,
        final(state).expansions@ == old(state).expansions@,
        final(state).easy_mode == old(state).easy_mode,
        final(state).font_size == old(state).font_size,
{
    match ev {
        Event::BufEnter(p) => {
            state.selection = Some(p);
            EventOutcome { quit: false, save_prefs: true, refresh: true }
        },
        Event::VimLeave => EventOutcome { quit: true, save_prefs: false, refresh: true },
        Event::Other => EventOutcome { quit: false, save_prefs: false, refresh: true },
    }
}

} // verus!
