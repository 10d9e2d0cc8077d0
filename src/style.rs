//! Display styles of entry names, rendered by the `colored` crate.
//!
//! Whether `colored` emits escape sequences depends on the environment and on
//! a process-wide override, so the contracts here state what holds of either
//! outcome: the name as it is, or the name between the style's ANSI escape
//! sequence and the reset sequence.

use vstd::prelude::*;
use colored::Colorize;
use crate::entry::StyleTag;

verus! {

/// The ANSI foreground code of a display class: magenta for directories,
/// green for files, red for the rest.
pub open spec fn style_code(tag: StyleTag) -> Seq<char> {
    match tag {
        StyleTag::Directory => seq!['3', '5'],
        StyleTag::File => seq!['3', '2'],
        StyleTag::Other => seq!['3', '1'],
    }
}

/// `s` between the escape sequence that selects `code` and the reset sequence.
pub open spec fn ansi_wrapped(code: Seq<char>, s: Seq<char>) -> Seq<char> {
    seq!['\u{1b}', '['] + code + seq!['m'] + s + seq!['\u{1b}', '[', '0', 'm']
}

/// `r` is `s` displayed in the style of `tag`, with or without colours.
pub open spec fn painted(tag: StyleTag, s: Seq<char>, r: Seq<char>) -> bool {
    r == s || r == ansi_wrapped(style_code(tag), s)
}

/// Relies on colored's `Colorize::purple` and the `Display` of its
/// `ColoredString`: the text as it is when colouring is off, else between
/// `ESC[35m` and `ESC[0m` (the text is only rewritten where it holds a reset
/// sequence itself).
#[verifier::external_body]
fn purple_text(s: &str) -> (r: String)
    ensures
        !s@.contains('\u{1b}') ==> (r@ == s@ || r@ == ansi_wrapped(seq!['3', '5'], s@)),
{
    s.purple().to_string()
}

/// Relies on colored's `Colorize::green` and the `Display` of its
/// `ColoredString`: the text as it is when colouring is off, else between
/// `ESC[32m` and `ESC[0m`.
#[verifier::external_body]
fn green_text(s: &str) -> (r: String)
    ensures
        !s@.contains('\u{1b}') ==> (r@ == s@ || r@ == ansi_wrapped(seq!['3', '2'], s@)),
{
    s.green().to_string()
}

/// Relies on colored's `Colorize::red` and the `Display` of its
/// `ColoredString`: the text as it is when colouring is off, else between
/// `ESC[31m` and `ESC[0m`.
#[verifier::external_body]
fn red_text(s: &str) -> (r: String)
    ensures
        !s@.contains('\u{1b}') ==> (r@ == s@ || r@ == ansi_wrapped(seq!['3', '1'], s@)),
{
    s.red().to_string()
}

/// Displays `s` in the style of `tag`.
pub fn paint(s: &str, tag: StyleTag) -> (r: String)
    ensures
        !s@.contains('\u{1b}') ==> painted(tag, s@, r@),
{
    match tag {
        StyleTag::Directory => purple_text(s),
        StyleTag::File => green_text(s),
        StyleTag::Other => red_text(s),
    }
}

} // verus!
