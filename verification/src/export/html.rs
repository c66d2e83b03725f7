//! Markdown to HTML.

use pulldown_cmark::{html, Options, Parser};
use vstd::prelude::*;
use vstd::string::StringExecFns;

verus! {

/// Name for the HTML that `pulldown_cmark` renders from a markdown text
/// with the given extensions switched on (tables, footnotes,
/// strikethrough, task lists).
pub uninterp spec fn markdown_html(
    markdown: Seq<char>,
    tables: bool,
    footnotes: bool,
    strikethrough: bool,
    tasklists: bool,
) -> Seq<char>;

/// `pulldown_cmark::Parser::new_ext` with the given extensions, rendered by
/// `pulldown_cmark::html::push_html` into a new string.  Claimed: the HTML
/// is a function of the text and the extensions.
#[verifier::external_body]
fn render_markdown(markdown: &str, tables: bool, footnotes: bool, strikethrough: bool, tasklists: bool) -> (r: String)
    ensures
        r@ == markdown_html(markdown@, tables, footnotes, strikethrough, tasklists),
{
    let mut options = Options::empty();
    options.set(Options::ENABLE_TABLES, tables);
    options.set(Options::ENABLE_FOOTNOTES, footnotes);
    options.set(Options::ENABLE_STRIKETHROUGH, strikethrough);
    options.set(Options::ENABLE_TASKLISTS, tasklists);
    let mut out = String::new();
    html::push_html(&mut out, Parser::new_ext(markdown, options));
    out
}

/// Converts markdown to HTML, with tables, footnotes, strikethrough and
/// task lists enabled.
pub fn markdown_to_html(markdown: &str) -> (r: String)
    ensures
        r@ == markdown_html(markdown@, true, true, true, true),
{
    render_markdown(markdown, true, true, true, true)
}

/// Where a theme's CSS comes from.
#[derive(Debug, PartialEq, Eq)]
pub enum ThemeSource {
    /// The built-in theme (light and dark).
    Builtin,
    /// A CSS file at this path.
    File(String),
}

/// The theme of `theme`: the built-in one for none, `default` or `dark`;
/// otherwise a path to a CSS file.
pub fn theme_source(theme: Option<&str>) -> (r: ThemeSource)
    ensures
        match theme {
            None => r == ThemeSource::Builtin,
            Some(t) => if t@ == "default"@ || t@ == "dark"@ {
                r == ThemeSource::Builtin
            } else {
                r matches ThemeSource::File(p) && p@ == t@
            },
        },
{
    match theme {
        None => ThemeSource::Builtin,
        Some(t) => {
            if crate::text::str_eq(t, "default") || crate::text::str_eq(t, "dark") {
                ThemeSource::Builtin
            } else {
                ThemeSource::File(String::from_str(t))
            }
        },
    }
}

} // verus!
