//! Colours for the terminal.

use crate::text::{push_str, string_of};
use vstd::prelude::*;

verus! {

/// `text` between the escape sequence `code` and the one that clears it.
pub open spec fn painted(code: Seq<char>, text: Seq<char>) -> Seq<char> {
    "\x1b"@ + code + text + "\x1b[0m"@
}

pub trait ColoredOutput {
    /// The text that is coloured.
    spec fn shown(&self) -> Seq<char>;

    /// The text in orange.
    fn orange(&self) -> (s: String)
        ensures
            s@ == painted("[38;5;214m"@, self.shown()),
    ;

    /// The text on red.
    fn on_red(&self) -> (s: String)
        ensures
            s@ == painted("[41m"@, self.shown()),
    ;

    /// The text on purple.
    fn on_purple(&self) -> (s: String)
        ensures
            s@ == painted("[45m"@, self.shown()),
    ;
}

/// `text` between the escape sequence `code` and the one that clears it.
fn paint(code: &str, text: &str) -> (s: String)
    ensures
        s@ == painted(code@, text@),
{
    let mut out: Vec<char> = Vec::new();
    push_str(&mut out, "\x1b");
    push_str(&mut out, code);
    push_str(&mut out, text);
    push_str(&mut out, "\x1b[0m");
    assert(out@ =~= painted(code@, text@));
    string_of(&out)
}

impl ColoredOutput for str {
    open spec fn shown(&self) -> Seq<char> {
        self@
    }

    fn orange(&self) -> (s: String) {
        paint("[38;5;214m", self)
    }

    fn on_red(&self) -> (s: String) {
        paint("[41m", self)
    }

    fn on_purple(&self) -> (s: String) {
        paint("[45m", self)
    }
}

impl ColoredOutput for String {
    open spec fn shown(&self) -> Seq<char> {
        self@
    }

    fn orange(&self) -> (s: String) {
        paint("[38;5;214m", self.as_str())
    }

    fn on_red(&self) -> (s: String) {
        paint("[41m", self.as_str())
    }

    fn on_purple(&self) -> (s: String) {
        paint("[45m", self.as_str())
    }
}

} // verus!
