//! Terminal styling of the table's heading, done by the `colored` crate.

use crate::text::{matches_at, occurs_in};
use colored::Colorize;
use vstd::prelude::*;

verus! {

/// The escape sequence that ends a styled stretch of text.
pub open spec fn reset_sequence() -> Seq<char> {
    seq!['\u{1b}', '[', '0', 'm']
}

/// The escape sequence that starts a stretch of black on white.
pub open spec fn highlight_sequence() -> Seq<char> {
    seq!['\u{1b}', '[', '4', '7', ';', '3', '0', 'm']
}

/// The escape sequence that starts an underlined stretch.
pub open spec fn underline_sequence() -> Seq<char> {
    seq!['\u{1b}', '[', '4', 'm']
}

/// `styled` is what styling makes of `text`, a text without the reset
/// sequence, where `start` switches the style on: `text` as it is where
/// colouring is off, and `text` between `start` and the reset sequence
/// where it is on. Colouring is a setting of the whole process that is
/// looked up more than once while a text is written; switched off from
/// elsewhere in the meantime, `start` is left out and the reset sequence
/// still written.
pub open spec fn styled_as(styled: Seq<char>, text: Seq<char>, start: Seq<char>) -> bool {
    ||| styled == text
    ||| styled == start + text + reset_sequence()
    ||| styled == text + reset_sequence()
}

/// `text` in black on white, as `Colorize::black` and `Colorize::on_white`
/// of `colored` style it and the `Display` of its `ColoredString` writes it.
/// Whether escape sequences are written depends on the terminal and on the
/// environment; a text without the reset sequence comes out in one of the
/// forms that `styled_as` lists. Of a text that holds the reset sequence
/// nothing is claimed.
#[verifier::external_body]
pub(crate) fn highlighted(text: &str) -> (styled: String)
    ensures
        !occurs_in(text@, reset_sequence()) ==> styled_as(styled@, text@, highlight_sequence()),
{
    text.black().on_white().to_string()
}

/// `text` underlined, as `Colorize::underline` of `colored` styles it and
/// the `Display` of its `ColoredString` writes it. Whether escape sequences
/// are written depends on the terminal and on the environment; a text
/// without the reset sequence comes out in one of the forms that
/// `styled_as` lists. Of a text that holds the reset sequence nothing is
/// claimed.
#[verifier::external_body]
pub(crate) fn underlined(text: &str) -> (styled: String)
    ensures
        !occurs_in(text@, reset_sequence()) ==> styled_as(styled@, text@, underline_sequence()),
{
    text.underline().to_string()
}

/// A text without the escape character holds no reset sequence.
pub proof fn lemma_no_escape_no_reset(s: Seq<char>)
    requires
        forall|i: int| 0 <= i < s.len() ==> s[i] != '\u{1b}',
    ensures
        !occurs_in(s, reset_sequence()),
{
    assert forall|i: int| !matches_at(s, i, reset_sequence()) by {
        if matches_at(s, i, reset_sequence()) {
            assert(s.subrange(i, i + 4)[0] == '\u{1b}');
        }
    }
}

} // verus!
