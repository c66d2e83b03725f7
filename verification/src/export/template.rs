//! Rendering a note page through an HTML template.

use minijinja::{Environment, Value};
use vstd::prelude::*;
use vstd::string::StringExecFns;

use crate::domain::note::Note;
use crate::export::links::LinkResolver;
use crate::export::page::{in_chrono_range, note_page, page_of, NotePage, NotePageView};
use crate::export::theme::{get_theme_css, theme_css_result, ThemeError};

verus! {

/// The template a note page is rendered with unless another is given.
pub const DEFAULT_NOTE_TEMPLATE: &'static str = r##"<!DOCTYPE html>
<html lang="en">
<head>
    <meta charset="utf-8">
    <meta name="viewport" content="width=device-width, initial-scale=1">
    <title>{{ title }}</title>
    <style>{{ theme_css }}</style>
</head>
<body>
    <article>
        <header>
            <h1>{{ title }}</h1>
            {% if description %}
            <p class="description">{{ description }}</p>
            {% endif %}
            {% if topics %}
            <nav class="topics">
                {% for topic in topics %}<a href="#">{{ topic }}</a>{% endfor %}
            </nav>
            {% endif %}
            {% if tags %}
            <div class="tags">
                {% for tag in tags %}<span class="tag">{{ tag }}</span>{% endfor %}
            </div>
            {% endif %}
            <div class="metadata">
                <time datetime="{{ created_iso }}">{{ created }}</time>
                {% if modified != created %}
                · Updated <time datetime="{{ modified_iso }}">{{ modified }}</time>
                {% endif %}
            </div>
        </header>
        <main>{{ content }}</main>
    </article>
</body>
</html>"##;

/// Name for what minijinja renders from the template text `template` with
/// the values of `page` as its variables: the document, or the message of
/// the error met.
pub uninterp spec fn rendered_page(template: Seq<char>, page: NotePageView) -> Result<Seq<char>, Seq<char>>;

pub open spec fn text_result(r: Result<String, String>) -> Result<Seq<char>, Seq<char>> {
    match r {
        Ok(s) => Ok(s@),
        Err(e) => Err(e@),
    }
}

/// `minijinja::Environment::new().render_named_str("note", template, ctx)`,
/// where `ctx` maps each field name of `page` to its value (strings, the
/// optional description, lists of strings); an error gives its `Display`
/// text.  Claimed: the outcome is a function of the template and the values.
#[verifier::external_body]
fn render_page_template(template: &str, page: &NotePage) -> (r: Result<String, String>)
    ensures
        text_result(r) == rendered_page(template@, page@),
{
    let ctx: Value = [
        ("title", Value::from(&page.title)), ("description", Value::from(page.description.clone())),
        ("content", Value::from(&page.content)), ("theme_css", Value::from(&page.theme_css)),
        ("topics", Value::from_iter(page.topics.clone())), ("tags", Value::from_iter(page.tags.clone())),
        ("created", Value::from(&page.created)), ("created_iso", Value::from(&page.created_iso)),
        ("modified", Value::from(&page.modified)), ("modified_iso", Value::from(&page.modified_iso)),
    ].into_iter().collect();
    match Environment::new().render_named_str("note", template, ctx) {
        Ok(html) => Ok(html),
        Err(e) => Err(e.to_string()),
    }
}

/// Why a note could not be rendered.
#[derive(Debug)]
pub enum RenderError {
    /// The theme is neither built in nor a readable file.
    Theme(ThemeError),
    /// The template could not be parsed or rendered; the message says why.
    Template(String),
}

impl RenderError {
    pub fn to_string(&self) -> (r: String)
        ensures
            match self {
                RenderError::Theme(e) => r@ == e@,
                RenderError::Template(m) => r@ == m@,
            },
    {
        match self {
            RenderError::Theme(e) => e.to_string(),
            RenderError::Template(m) => m.clone(),
        }
    }
}

/// The template text used: `template` when given, else the default one.
pub open spec fn template_text(template: Option<&str>) -> Seq<char> {
    match template {
        Some(t) => t@,
        None => DEFAULT_NOTE_TEMPLATE@,
    }
}

/// Options for rendering a note to HTML.
pub struct RenderOptions<'a> {
    /// Text of a custom template (the default template when none).
    pub template: Option<&'a str>,
    /// Theme name (`default`, `dark`) or path to a CSS file.
    pub theme: Option<&'a str>,
    /// Text of the CSS file that `theme` names, when that file exists.
    pub theme_file: Option<&'a str>,
    /// Resolver of note references in the body.
    pub link_resolver: Option<&'a LinkResolver<'a>>,
}

impl<'a> Default for RenderOptions<'a> {
    fn default() -> (r: RenderOptions<'a>)
        ensures
            r.template is None,
            r.theme is None,
            r.theme_file is None,
            r.link_resolver is None,
    {
        RenderOptions { template: None, theme: None, theme_file: None, link_resolver: None }
    }
}

pub open spec fn opt_str_view(o: Option<&str>) -> Option<Seq<char>> {
    match o {
        Some(s) => Some(s@),
        None => None,
    }
}

/// Renders `note` with markdown `body` to a complete HTML document: note
/// references resolved when there is a resolver, the stylesheet of the
/// theme, and the template (the default one when none is given).  A theme
/// that cannot be had is reported before anything is rendered.
pub fn render_note_html(note: &Note, body: &str, options: &RenderOptions) -> (r: Result<String, RenderError>)
    requires
        in_chrono_range(note.spec_created()),
        in_chrono_range(note.spec_modified()),
    ensures
        match theme_css_result(options.theme, opt_str_view(options.theme_file)) {
            Err(m) => r matches Err(RenderError::Theme(e)) && e@ == m,
            Ok(css) => match rendered_page(
                template_text(options.template),
                page_of(note, body@, options.link_resolver, css),
            ) {
                Ok(html) => r matches Ok(s) && s@ == html,
                Err(m) => r matches Err(RenderError::Template(e)) && e@ == m,
            },
        },
{
    let file = match options.theme_file {
        Some(f) => Some(String::from_str(f)),
        None => None,
    };
    let css = match get_theme_css(options.theme, file) {
        Ok(c) => c,
        Err(e) => {
            return Err(RenderError::Theme(e));
        },
    };
    let page = note_page(note, body, options.link_resolver, css.as_str());
    let rendered = match options.template {
        Some(t) => render_page_template(t, &page),
        None => render_page_template(DEFAULT_NOTE_TEMPLATE, &page),
    };
    match rendered {
        Ok(html) => Ok(html),
        Err(m) => Err(RenderError::Template(m)),
    }
}

} // verus!
