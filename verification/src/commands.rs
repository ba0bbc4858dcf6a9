//! The commands that the IDE sends to the embedded editor.

use vstd::prelude::*;

verus! {

/// `prefix` followed by `path`.
fn prefixed(prefix: &str, path: &str) -> (s: String)
    ensures
        s@ == prefix@ + path@,
{
    let mut s = String::from_str(prefix);
    s.append(path);
    s
}

/// The command that opens `path` in the editor: `e <path>`.
pub open spec fn edit_command_of(path: Seq<char>) -> Seq<char> {
    seq!['e', ' '] + path
}

/// `e <path>`.
pub fn edit_command(path: &String) -> (cmd: String)
    ensures
        cmd@ == edit_command_of(path@),
{
    proof {
        reveal_strlit("e ");
    }
    prefixed("e ", path.as_str())
}

/// The command that moves the current file to `path`: `Move <path>`.
pub open spec fn move_command_of(path: Seq<char>) -> Seq<char> {
    seq!['M', 'o', 'v', 'e', ' '] + path
}

/// `Move <path>`.
pub fn move_command(path: &String) -> (cmd: String)
    ensures
        cmd@ == move_command_of(path@),
{
    proof {
        reveal_strlit("Move ");
    }
    prefixed("Move ", path.as_str())
}

/// The command that closes the current buffer.
pub fn close_buffer_command() -> (cmd: String)
    ensures
        cmd@ == "bd"@,
{
    String::from_str("bd")
}

/// The command that opens `path`, deletes it from the disk and closes its
/// buffer: `e <path> | call delete(expand('%')) | bdelete!`.
pub open spec fn delete_file_command_of(path: Seq<char>) -> Seq<char> {
    edit_command_of(path) + " | call delete(expand('%')) | bdelete!"@
}

/// `e <path> | call delete(expand('%')) | bdelete!`.
pub fn delete_file_command(path: &String) -> (cmd: String)
    ensures
        cmd@ == delete_file_command_of(path@),
{
    let mut cmd = edit_command(path);
    cmd.append(" | call delete(expand('%')) | bdelete!");
    cmd
}

/// The command that turns the editor's insert mode lock on or off.
pub open spec fn easy_mode_command_of(on: bool) -> Seq<char> {
    if on {
        seq!['s', 'e', 't', ' ', 'i', 'm']
    } else {
        seq!['s', 'e', 't', ' ', 'n', 'o', 'i', 'm']
    }
}

/// `set im` when `on`, else `set noim`.
pub fn easy_mode_command(on: bool) -> (cmd: String)
    ensures
        cmd@ == easy_mode_command_of(on),
{
    proof {
        reveal_strlit("set im");
        reveal_strlit("set noim");
    }
    if on {
        String::from_str("set im")
    } else {
        String::from_str("set noim")
    }
}

} // verus!
