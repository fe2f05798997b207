//! Styling of report text as ANSI escape sequences, through owo-colors. Each
//! wrapper's contract states the exact text the styling produces: the escape
//! that starts the style, the styled text, and the escape that ends it.

use owo_colors::OwoColorize;
use vstd::prelude::*;

verus! {

/// The escape that starts red foreground text.
pub open spec fn red_pre() -> Seq<char> {
    "\u{1b}[31m"@
}

/// The escape that starts green foreground text.
pub open spec fn green_pre() -> Seq<char> {
    "\u{1b}[32m"@
}

/// The escape that starts yellow foreground text.
pub open spec fn yellow_pre() -> Seq<char> {
    "\u{1b}[33m"@
}

/// The escape that starts blue foreground text.
pub open spec fn blue_pre() -> Seq<char> {
    "\u{1b}[34m"@
}

/// The escape that restores the default foreground.
pub open spec fn fg_post() -> Seq<char> {
    "\u{1b}[39m"@
}

/// The escape that starts bold text.
pub open spec fn bold_pre() -> Seq<char> {
    "\u{1b}[1m"@
}

/// The escape that starts italic text.
pub open spec fn italic_pre() -> Seq<char> {
    "\u{1b}[3m"@
}

/// The escape that clears all styling.
pub open spec fn style_post() -> Seq<char> {
    "\u{1b}[0m"@
}

/// Relies on owo-colors' `OwoColorize::red`: its display writes the red
/// foreground escape, the text, and the foreground reset escape.
#[verifier::external_body]
pub(crate) fn paint_red(s: &str) -> (r: String)
    ensures
        r@ == red_pre() + s@ + fg_post(),
{
    s.red().to_string()
}

/// Relies on owo-colors' `OwoColorize::green`: its display writes the green
/// foreground escape, the text, and the foreground reset escape.
#[verifier::external_body]
pub(crate) fn paint_green(s: &str) -> (r: String)
    ensures
        r@ == green_pre() + s@ + fg_post(),
{
    s.green().to_string()
}

/// Relies on owo-colors' `OwoColorize::yellow`: its display writes the yellow
/// foreground escape, the text, and the foreground reset escape.
#[verifier::external_body]
pub(crate) fn paint_yellow(s: &str) -> (r: String)
    ensures
        r@ == yellow_pre() + s@ + fg_post(),
{
    s.yellow().to_string()
}

/// Relies on owo-colors' `OwoColorize::blue`: its display writes the blue
/// foreground escape, the text, and the foreground reset escape.
#[verifier::external_body]
pub(crate) fn paint_blue(s: &str) -> (r: String)
    ensures
        r@ == blue_pre() + s@ + fg_post(),
{
    s.blue().to_string()
}

/// Relies on owo-colors' `OwoColorize::bold`: its display writes the bold
/// escape, the text, and the style reset escape.
#[verifier::external_body]
pub(crate) fn paint_bold(s: &str) -> (r: String)
    ensures
        r@ == bold_pre() + s@ + style_post(),
{
    s.bold().to_string()
}

/// Relies on owo-colors' `OwoColorize::italic`: its display writes the italic
/// escape, the text, and the style reset escape.
#[verifier::external_body]
pub(crate) fn paint_italic(s: &str) -> (r: String)
    ensures
        r@ == italic_pre() + s@ + style_post(),
{
    s.italic().to_string()
}

} // verus!
