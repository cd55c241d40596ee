//! Listing the templates of a workspace.

use crate::text::{chars_of, push_str, string_of};
use vstd::prelude::*;

verus! {

/// Whether the directory `name` holds a template: its name starts with
/// `cl_`.
pub open spec fn is_cloup_dir(name: Seq<char>) -> bool {
    name.len() >= 3 && name[0] == 'c' && name[1] == 'l' && name[2] == '_'
}

/// Whether `cl_` stands in `s` at the offset `i`.
pub open spec fn mark_at(s: Seq<char>, i: int) -> bool {
    0 <= i && i + 3 <= s.len() && s[i] == 'c' && s[i + 1] == 'l' && s[i + 2] == '_'
}

/// `s` from the offset `i` on without any `cl_`; they are looked for from
/// left to right, each after the end of the one before.
pub open spec fn unmarked(s: Seq<char>, i: int) -> Seq<char>
    decreases s.len() - i,
{
    if i < 0 || i >= s.len() {
        Seq::empty()
    } else if mark_at(s, i) {
        unmarked(s, i + 3)
    } else {
        seq![s[i]] + unmarked(s, i + 1)
    }
}

/// The line above the templates of `workspace`, or the line that says that
/// there are none.
pub open spec fn heading_text(workspace: Seq<char>, empty: bool) -> Seq<char> {
    if empty {
        "\x1b[1;33m»\x1b[0m No cloups in workspace '"@ + workspace + "'"@
    } else {
        "\x1b[1;32m»\x1b[0m Cloups in workspace '"@ + workspace + "':"@
    }
}

/// The line of one template: the branch of the tree, the name in bold, and
/// the size in brackets. The last line closes the tree.
pub open spec fn entry_text(name: Seq<char>, size: Seq<char>, last: bool) -> Seq<char> {
    (if last {
        "    └── "@
    } else {
        "    ├── "@
    }) + "\x1b[1m"@ + name + "\x1b[0m ("@ + size + ")"@
}

/// Whether the directory `name` holds a template.
pub fn is_cloup(name: &str) -> (b: bool)
    ensures
        b == is_cloup_dir(name@),
{
    let chars = chars_of(name);
    chars.len() >= 3 && chars[0] == 'c' && chars[1] == 'l' && chars[2] == '_'
}

/// The name of the template that the directory `dir_name` holds: the name
/// of the directory without any `cl_`.
pub fn cloup_name(dir_name: &str) -> (name: String)
    ensures
        name@ == unmarked(dir_name@, 0),
{
    let chars = chars_of(dir_name);
    let mut out: Vec<char> = Vec::new();
    let mut i: usize = 0;
    assert(out@ + unmarked(chars@, 0) =~= unmarked(chars@, 0));
    while i < chars.len()
        invariant
            i <= chars.len(),
            chars@ == dir_name@,
            out@ + unmarked(chars@, i as int) == unmarked(chars@, 0),
        decreases chars.len() - i,
    {
        let ghost before = out@;
        if chars.len() - i >= 3 && chars[i] == 'c' && chars[i + 1] == 'l' && chars[i + 2] == '_' {
            i += 3;
        } else {
            out.push(chars[i]);
            assert(before.push(chars@[i as int]) + unmarked(chars@, i + 1) =~= before + (
            seq![chars@[i as int]] + unmarked(chars@, i + 1)));
            i += 1;
        }
    }
    assert(out@ + Seq::<char>::empty() =~= out@);
    string_of(&out)
}

/// The line above the templates of `workspace`, or the line that says that
/// there are none.
pub fn heading(workspace: &str, empty: bool) -> (text: String)
    ensures
        text@ == heading_text(workspace@, empty),
{
    let mut out: Vec<char> = Vec::new();
    if empty {
        push_str(&mut out, "\x1b[1;33m»\x1b[0m No cloups in workspace '");
        push_str(&mut out, workspace);
        push_str(&mut out, "'");
    } else {
        push_str(&mut out, "\x1b[1;32m»\x1b[0m Cloups in workspace '");
        push_str(&mut out, workspace);
        push_str(&mut out, "':");
    }
    assert(out@ =~= heading_text(workspace@, empty));
    string_of(&out)
}

/// The line of the template in the directory `dir_name`, with its size
/// already written out as `size`.
pub fn entry_line(dir_name: &str, size: &str, last: bool) -> (text: String)
    ensures
        text@ == entry_text(unmarked(dir_name@, 0), size@, last),
{
    let name = cloup_name(dir_name);
    let mut out: Vec<char> = Vec::new();
    if last {
        push_str(&mut out, "    └── ");
    } else {
        push_str(&mut out, "    ├── ");
    }
    push_str(&mut out, "\x1b[1m");
    push_str(&mut out, name.as_str());
    push_str(&mut out, "\x1b[0m (");
    push_str(&mut out, size);
    push_str(&mut out, ")");
    assert(out@ =~= entry_text(unmarked(dir_name@, 0), size@, last));
    string_of(&out)
}

} // verus!
