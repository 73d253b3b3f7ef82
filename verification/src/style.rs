//! Terminal styling of entry names. Each display category has one
//! fixed colour; the outside crate decides at run time whether the
//! terminal gets escape sequences at all, so every contract here holds
//! for both outcomes.

use vstd::prelude::*;
use crate::entry::Category;

verus! {

/// No escape character anywhere in the text. Styling a string that
/// already holds escape sequences rewrites it in ways these contracts
/// do not describe.
pub open spec fn esc_free(s: Seq<char>) -> bool {
    forall|i: int| 0 <= i < s.len() ==> s[i] != '\u{1b}'
}

/// The escape sequence that switches the terminal back to its default
/// style.
pub open spec fn style_reset() -> Seq<char> {
    seq!['\u{1b}', '[', '0', 'm']
}

/// The escape sequence that turns on the fixed colour of a category:
/// white for a file, blue for a directory, cyan for a symlink, magenta
/// for a socket, yellow for a fifo, yellow on black for a device, red
/// for anything else.
pub open spec fn style_prefix(c: Category) -> Seq<char> {
    match c {
        Category::File => seq!['\u{1b}', '[', '3', '7', 'm'],
        Category::Directory => seq!['\u{1b}', '[', '3', '4', 'm'],
        Category::Symlink => seq!['\u{1b}', '[', '3', '6', 'm'],
        Category::Socket => seq!['\u{1b}', '[', '3', '5', 'm'],
        Category::Fifo => seq!['\u{1b}', '[', '3', '3', 'm'],
        Category::BlockOrCharDevice => seq!['\u{1b}', '[', '4', '0', ';', '3', '3', 'm'],
        Category::Other => seq!['\u{1b}', '[', '3', '1', 'm'],
    }
}

/// The two shapes a styled string can take: the text unchanged when
/// colour is off, or the text between the category's colour prefix and
/// the reset suffix.
pub open spec fn styled_as(text: Seq<char>, c: Category, out: Seq<char>) -> bool {
    out == text || out == style_prefix(c) + text + style_reset()
}

/// Relies on colored's Colorize::white and the Display of ColoredString:
/// the output is the text itself when colour is disabled, else the text
/// wrapped in the white escape prefix and the reset suffix.
#[verifier::external_body]
fn paint_white(text: &str) -> (r: String)
    ensures
        esc_free(text@) ==> styled_as(text@, Category::File, r@),
{
    colored::Colorize::white(text).to_string()
}

/// Relies on colored's Colorize::blue, as for the white case.
#[verifier::external_body]
fn paint_blue(text: &str) -> (r: String)
    ensures
        esc_free(text@) ==> styled_as(text@, Category::Directory, r@),
{
    colored::Colorize::blue(text).to_string()
}

/// Relies on colored's Colorize::cyan, as for the white case.
#[verifier::external_body]
fn paint_cyan(text: &str) -> (r: String)
    ensures
        esc_free(text@) ==> styled_as(text@, Category::Symlink, r@),
{
    colored::Colorize::cyan(text).to_string()
}

/// Relies on colored's Colorize::magenta, as for the white case.
#[verifier::external_body]
fn paint_magenta(text: &str) -> (r: String)
    ensures
        esc_free(text@) ==> styled_as(text@, Category::Socket, r@),
{
    colored::Colorize::magenta(text).to_string()
}

/// Relies on colored's Colorize::yellow, as for the white case.
#[verifier::external_body]
fn paint_yellow(text: &str) -> (r: String)
    ensures
        esc_free(text@) ==> styled_as(text@, Category::Fifo, r@),
{
    colored::Colorize::yellow(text).to_string()
}

/// Relies on colored's Colorize::yellow and Colorize::on_black chained:
/// the colour prefix then names the black background before the yellow
/// foreground, as colored's style computation orders them.
#[verifier::external_body]
fn paint_yellow_on_black(text: &str) -> (r: String)
    ensures
        esc_free(text@) ==> styled_as(text@, Category::BlockOrCharDevice, r@),
{
    colored::Colorize::on_black(colored::Colorize::yellow(text)).to_string()
}

/// Relies on colored's Colorize::red, as for the white case.
#[verifier::external_body]
fn paint_red(text: &str) -> (r: String)
    ensures
        esc_free(text@) ==> styled_as(text@, Category::Other, r@),
{
    colored::Colorize::red(text).to_string()
}

/// Style an entry name in the fixed colour of its category.
pub fn styled_name(text: &str, c: Category) -> (r: String)
    ensures
        esc_free(text@) ==> styled_as(text@, c, r@),
{
    match c {
        Category::File => paint_white(text),
        Category::Directory => paint_blue(text),
        Category::Symlink => paint_cyan(text),
        Category::Socket => paint_magenta(text),
        Category::Fifo => paint_yellow(text),
        Category::BlockOrCharDevice => paint_yellow_on_black(text),
        Category::Other => paint_red(text),
    }
}

} // verus!
