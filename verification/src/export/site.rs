//! Generating a static site: its options and result, and the rendering of
//! its pages (the notes, the index, the topic pages) through HTML templates.

use minijinja::{Environment, Value};
use vstd::prelude::*;
use vstd::string::StringExecFns;

use crate::domain::note::{opt_view, strings_view, tags_view, Note};
use crate::domain::topic::join_slash;
use crate::export::html::{markdown_html, markdown_to_html};
use crate::export::page::{in_chrono_range, rfc3339_text, ymd_text, note_page};
use crate::export::site_plan::{NoteInfo, TopicInfo, TopicPage, SitePlan};
use crate::export::template::{text_result, RenderError};
use crate::text::{decimal, usize_to_string};

verus! {

/// Configuration of site generation.
pub struct SiteConfig<'a> {
    /// Title of the index pages.
    pub site_title: &'a str,
    /// Theme name or path of a CSS file.
    pub theme: Option<&'a str>,
    /// Path of a custom template for note pages.
    pub note_template: Option<&'a str>,
}

impl Default for SiteConfig<'_> {
    fn default() -> (r: Self)
        ensures
            r.site_title@ == "Notes"@,
            r.theme is None,
            r.note_template is None,
    {
        SiteConfig { site_title: "Notes", theme: None, note_template: None }
    }
}

/// What site generation produced.
#[derive(Debug)]
pub struct SiteResult {
    /// Number of notes exported.
    pub notes_exported: usize,
    /// Number of topic pages generated.
    pub topic_pages: usize,
}

/// The template of the site's index page.
pub const DEFAULT_INDEX_TEMPLATE: &'static str = r##"<!DOCTYPE html>
<html lang="en">
<head>
    <meta charset="utf-8">
    <meta name="viewport" content="width=device-width, initial-scale=1">
    <title>{{ site_title }}</title>
    <link rel="stylesheet" href="style.css">
</head>
<body>
    <header>
        <h1>{{ site_title }}</h1>
        <p class="note-count">{{ notes | length }} note{% if notes | length != 1 %}s{% endif %}</p>
    </header>
    <main>
        {% if topics %}
        <nav class="topics-nav" aria-label="Browse by topic">
            <h2>Topics</h2>
            <ul>
            {% for topic in topics %}
                <li><a href="{{ topic.path }}/index.html">{{ topic.name }} <span class="count">({{ topic.count }})</span></a></li>
            {% endfor %}
            </ul>
        </nav>
        {% endif %}
        <section class="notes-list" aria-label="All notes">
            <h2>All Notes</h2>
            <ul>
            {% for note in notes %}
                <li>
                    <a href="{{ note.slug }}.html">{{ note.title }}</a>
                    {% if note.description %}<span class="description">{{ note.description }}</span>{% endif %}
                </li>
            {% endfor %}
            </ul>
        </section>
    </main>
    <footer>
        <p>Generated with den</p>
    </footer>
</body>
</html>"##;

/// The template of the topic pages.
pub const DEFAULT_TOPIC_TEMPLATE: &'static str = r##"<!DOCTYPE html>
<html lang="en">
<head>
    <meta charset="utf-8">
    <meta name="viewport" content="width=device-width, initial-scale=1">
    <title>{{ topic }} - {{ site_title }}</title>
    <link rel="stylesheet" href="{{ root_path }}style.css">
</head>
<body>
    <header>
        <nav class="breadcrumb" aria-label="Breadcrumb">
            <a href="{{ root_path }}index.html">Home</a>
            {% for crumb in breadcrumbs %}
            <span aria-hidden="true">/</span>
            <a href="{{ crumb.path }}">{{ crumb.name }}</a>
            {% endfor %}
        </nav>
        <h1>{{ topic }}</h1>
        <p class="note-count">{{ notes | length }} note{% if notes | length != 1 %}s{% endif %}</p>
    </header>
    <main>
        {% if subtopics %}
        <nav class="subtopics" aria-label="Subtopics">
            <h2>Subtopics</h2>
            <ul>
            {% for sub in subtopics %}
                <li><a href="{{ sub.path }}/index.html">{{ sub.name }} <span class="count">({{ sub.count }})</span></a></li>
            {% endfor %}
            </ul>
        </nav>
        {% endif %}
        <section class="notes-list" aria-label="Notes in this topic">
            <h2>Notes</h2>
            <ul>
            {% for note in notes %}
                <li>
                    <a href="{{ root_path }}{{ note.slug }}.html">{{ note.title }}</a>
                    {% if note.description %}<span class="description">{{ note.description }}</span>{% endif %}
                </li>
            {% endfor %}
            </ul>
        </section>
    </main>
    <footer>
        <a href="{{ root_path }}index.html">&larr; Back to index</a>
    </footer>
</body>
</html>"##;

/// The template of the note pages of a site.
pub const DEFAULT_SITE_NOTE_TEMPLATE: &'static str = r##"<!DOCTYPE html>
<html lang="en">
<head>
    <meta charset="utf-8">
    <meta name="viewport" content="width=device-width, initial-scale=1">
    <title>{{ title }} - {{ site_title }}</title>
    <link rel="stylesheet" href="style.css">
    <!-- Syntax highlighting: GitHub theme with automatic light/dark switching -->
    <link rel="stylesheet" href="https://cdnjs.cloudflare.com/ajax/libs/highlight.js/11.9.0/styles/github.min.css" media="(prefers-color-scheme: light), (prefers-color-scheme: no-preference)">
    <link rel="stylesheet" href="https://cdnjs.cloudflare.com/ajax/libs/highlight.js/11.9.0/styles/github-dark.min.css" media="(prefers-color-scheme: dark)">
</head>
<body>
    <article>
        <header>
            <nav class="breadcrumb" aria-label="Breadcrumb">
                <a href="index.html">Home</a>
                {% for topic in topics %}
                <span aria-hidden="true">/</span>
                <a href="{{ topic.path }}/index.html">{{ topic.name }}</a>
                {% endfor %}
            </nav>
            <h1>{{ title }}</h1>
            {% if description %}
            <p class="description">{{ description }}</p>
            {% endif %}
            {% if tags %}
            <div class="tags" role="list" aria-label="Tags">
                {% for tag in tags %}<span class="tag" role="listitem">{{ tag }}</span>{% endfor %}
            </div>
            {% endif %}
            <div class="metadata">
                <time datetime="{{ created_iso }}">{{ created }}</time>
                {% if modified != created %}
                <span aria-hidden="true"> · </span>
                <span>Updated <time datetime="{{ modified_iso }}">{{ modified }}</time></span>
                {% endif %}
            </div>
        </header>
        <main>
            {{ content }}
        </main>
    </article>
    <footer>
        <a href="index.html">&larr; Back to index</a>
    </footer>
    <!-- Syntax highlighting initialization -->
    <script src="https://cdnjs.cloudflare.com/ajax/libs/highlight.js/11.9.0/highlight.min.js"></script>
    <script>hljs.highlightAll();</script>
</body>
</html>"##;

/// A value given to a page template: a text, nothing, a list of texts, or a
/// list of records (each a list of field name and text).
#[derive(Debug)]
pub enum TemplateValue {
    Text(String),
    Nothing,
    Texts(Vec<String>),
    Records(Vec<Vec<(String, String)>>),
}

/// A template value as plain values.
pub enum TemplateValueView {
    Text(Seq<char>),
    Nothing,
    Texts(Seq<Seq<char>>),
    Records(Seq<Seq<(Seq<char>, Seq<char>)>>),
}

pub open spec fn fields_view(f: Seq<(String, String)>) -> Seq<(Seq<char>, Seq<char>)> {
    f.map_values(|p: (String, String)| (p.0@, p.1@))
}

pub open spec fn records_view(v: Seq<Vec<(String, String)>>) -> Seq<Seq<(Seq<char>, Seq<char>)>> {
    v.map_values(|r: Vec<(String, String)>| fields_view(r@))
}

impl View for TemplateValue {
    type V = TemplateValueView;

    open spec fn view(&self) -> TemplateValueView {
        match self {
            TemplateValue::Text(t) => TemplateValueView::Text(t@),
            TemplateValue::Nothing => TemplateValueView::Nothing,
            TemplateValue::Texts(v) => TemplateValueView::Texts(strings_view(v@)),
            TemplateValue::Records(v) => TemplateValueView::Records(records_view(v@)),
        }
    }
}

/// The variables a site page is rendered with, by name.
pub struct SitePage {
    pub vars: Vec<(String, TemplateValue)>,
}

impl View for SitePage {
    type V = Seq<(Seq<char>, TemplateValueView)>;

    open spec fn view(&self) -> Seq<(Seq<char>, TemplateValueView)> {
        self.vars@.map_values(|p: (String, TemplateValue)| (p.0@, p.1@))
    }
}

/// Name for what minijinja renders from the template text `template`,
/// named `name`, with the variables of `page`: the document, or the
/// message of the error met.
pub uninterp spec fn rendered_site(
    name: Seq<char>,
    template: Seq<char>,
    page: Seq<(Seq<char>, TemplateValueView)>,
) -> Result<Seq<char>, Seq<char>>;

/// `minijinja::Environment::new().render_named_str(name, template, ctx)`,
/// where `ctx` maps each variable of `page` to a string, none, a list of
/// strings, or a list of maps from field names to strings; an error gives
/// its `Display` text.  Claimed: the outcome is a function of the name, the
/// template and the values.
#[verifier::external_body]
fn render_site_template(name: &str, template: &str, page: &SitePage) -> (r: Result<String, String>)
    ensures
        text_result(r) == rendered_site(name@, template@, page@),
{
    let ctx: Value = page.vars.iter().map(|(k, v)| (k.as_str(), match v {
        TemplateValue::Text(t) => Value::from(t.as_str()),
        TemplateValue::Nothing => Value::from(()),
        TemplateValue::Texts(ts) => ts.iter().map(String::as_str).collect(),
        TemplateValue::Records(rs) => rs.iter().map(|fs| fs.iter().map(|(a, b)| (a.as_str(), b.as_str())).collect::<Value>()).collect(),
    })).collect();
    match Environment::new().render_named_str(name, template, ctx) {
        Ok(html) => Ok(html),
        Err(e) => Err(e.to_string()),
    }
}

/// The record of a note in a list: title, slug, and the description when
/// there is one.
pub open spec fn note_record(i: (Seq<char>, Seq<char>, Option<Seq<char>>)) -> Seq<(Seq<char>, Seq<char>)> {
    let base = seq![("title"@, i.0), ("slug"@, i.1)];
    match i.2 {
        Some(d) => base.push(("description"@, d)),
        None => base,
    }
}

/// The record of a topic link: name, path and number of notes.
pub open spec fn topic_record(t: (Seq<char>, Seq<char>, nat)) -> Seq<(Seq<char>, Seq<char>)> {
    seq![("name"@, t.0), ("path"@, t.1), ("count"@, decimal(t.2))]
}

/// The record of a named link: name and path.
pub open spec fn link_record(name: Seq<char>, path: Seq<char>) -> Seq<(Seq<char>, Seq<char>)> {
    seq![("name"@, name), ("path"@, path)]
}

pub open spec fn opt_text(o: Option<Seq<char>>) -> TemplateValueView {
    match o {
        Some(t) => TemplateValueView::Text(t),
        None => TemplateValueView::Nothing,
    }
}

/// The variables of the site page of `note` with markdown `body`.
pub open spec fn site_note_vars(note: &Note, body: Seq<char>, site_title: Seq<char>) -> Seq<(Seq<char>, TemplateValueView)> {
    seq![
        ("site_title"@, TemplateValueView::Text(site_title)),
        ("title"@, TemplateValueView::Text(note.spec_title())),
        ("description"@, opt_text(note.spec_description())),
        ("content"@, TemplateValueView::Text(markdown_html(body, true, true, true, true))),
        ("topics"@, TemplateValueView::Records(note.spec_topics().map_values(
            |t: Seq<Seq<char>>| link_record(join_slash(t), join_slash(t)),
        ))),
        ("tags"@, TemplateValueView::Texts(note.spec_tags())),
        ("created"@, TemplateValueView::Text(ymd_text(note.spec_created().secs, note.spec_created().nanos))),
        ("created_iso"@, TemplateValueView::Text(rfc3339_text(note.spec_created().secs, note.spec_created().nanos))),
        ("modified"@, TemplateValueView::Text(ymd_text(note.spec_modified().secs, note.spec_modified().nanos))),
        ("modified_iso"@, TemplateValueView::Text(rfc3339_text(note.spec_modified().secs, note.spec_modified().nanos))),
    ]
}

/// The variables of the site's index page.
pub open spec fn index_vars(plan: SitePlan, site_title: Seq<char>) -> Seq<(Seq<char>, TemplateValueView)> {
    seq![
        ("site_title"@, TemplateValueView::Text(site_title)),
        ("notes"@, TemplateValueView::Records(crate::export::site_plan::infos_view(plan.notes@).map_values(
            |i: (Seq<char>, Seq<char>, Option<Seq<char>>)| note_record(i),
        ))),
        ("topics"@, TemplateValueView::Records(crate::export::site_plan::topic_infos_view(plan.top_topics@).map_values(
            |t: (Seq<char>, Seq<char>, nat)| topic_record(t),
        ))),
    ]
}

/// The variables of a topic page.
pub open spec fn topic_vars(page: TopicPage, site_title: Seq<char>) -> Seq<(Seq<char>, TemplateValueView)> {
    seq![
        ("site_title"@, TemplateValueView::Text(site_title)),
        ("topic"@, TemplateValueView::Text(page.topic@)),
        ("notes"@, TemplateValueView::Records(crate::export::site_plan::infos_view(page.notes@).map_values(
            |i: (Seq<char>, Seq<char>, Option<Seq<char>>)| note_record(i),
        ))),
        ("subtopics"@, TemplateValueView::Records(crate::export::site_plan::topic_infos_view(page.subtopics@).map_values(
            |t: (Seq<char>, Seq<char>, nat)| topic_record(t),
        ))),
        ("breadcrumbs"@, TemplateValueView::Records(page.breadcrumbs@.map_values(
            |c: (String, String)| link_record(c.0@, c.1@),
        ))),
        ("root_path"@, TemplateValueView::Text(page.root_path@)),
    ]
}

/// The outcome of rendering as the page functions give it.
pub open spec fn render_outcome(r: Result<String, RenderError>, rendered: Result<Seq<char>, Seq<char>>) -> bool {
    match rendered {
        Ok(html) => r matches Ok(s) && s@ == html,
        Err(m) => r matches Err(RenderError::Template(e)) && e@ == m,
    }
}

fn text(s: &str) -> (r: TemplateValue)
    ensures
        r@ == TemplateValueView::Text(s@),
{
    TemplateValue::Text(String::from_str(s))
}

fn render_with(name: &str, template: &str, page: &SitePage) -> (r: Result<String, RenderError>)
    ensures
        render_outcome(r, rendered_site(name@, template@, page@)),
{
    match render_site_template(name, template, page) {
        Ok(html) => Ok(html),
        Err(m) => Err(RenderError::Template(m)),
    }
}

fn note_records(infos: &[NoteInfo]) -> (r: Vec<Vec<(String, String)>>)
    ensures
        records_view(r@) == crate::export::site_plan::infos_view(infos@).map_values(
            |i: (Seq<char>, Seq<char>, Option<Seq<char>>)| note_record(i),
        ),
{
    let ghost want = crate::export::site_plan::infos_view(infos@).map_values(
        |i: (Seq<char>, Seq<char>, Option<Seq<char>>)| note_record(i),
    );
    let mut out: Vec<Vec<(String, String)>> = Vec::new();
    let mut k: usize = 0;
    while k < infos.len()
        invariant
            k <= infos@.len(),
            want == crate::export::site_plan::infos_view(infos@).map_values(
                |i: (Seq<char>, Seq<char>, Option<Seq<char>>)| note_record(i),
            ),
            records_view(out@) == want.take(k as int),
        decreases infos@.len() - k,
    {
        let info = &infos[k];
        let mut rec: Vec<(String, String)> = Vec::new();
        rec.push((String::from_str("title"), info.title.clone()));
        rec.push((String::from_str("slug"), info.slug.clone()));
        match &info.description {
            Some(d) => rec.push((String::from_str("description"), d.clone())),
            None => {},
        }
        proof {
            reveal_strlit("title");
        }
        assert(fields_view(rec@) =~= note_record(crate::export::site_plan::info_view(*info)));
        let ghost before = out@;
        out.push(rec);
        assert(records_view(out@) =~= records_view(before).push(fields_view(rec@)));
        k = k + 1;
        assert(want.take(k as int) =~= want.take(k - 1).push(want[k - 1]));
    }
    assert(want.take(infos@.len() as int) =~= want);
    out
}

fn topic_records(topics: &[TopicInfo]) -> (r: Vec<Vec<(String, String)>>)
    ensures
        records_view(r@) == crate::export::site_plan::topic_infos_view(topics@).map_values(
            |t: (Seq<char>, Seq<char>, nat)| topic_record(t),
        ),
{
    let ghost want = crate::export::site_plan::topic_infos_view(topics@).map_values(
        |t: (Seq<char>, Seq<char>, nat)| topic_record(t),
    );
    let mut out: Vec<Vec<(String, String)>> = Vec::new();
    let mut k: usize = 0;
    while k < topics.len()
        invariant
            k <= topics@.len(),
            want == crate::export::site_plan::topic_infos_view(topics@).map_values(
                |t: (Seq<char>, Seq<char>, nat)| topic_record(t),
            ),
            records_view(out@) == want.take(k as int),
        decreases topics@.len() - k,
    {
        let t = &topics[k];
        let mut rec: Vec<(String, String)> = Vec::new();
        rec.push((String::from_str("name"), t.name.clone()));
        rec.push((String::from_str("path"), t.path.clone()));
        rec.push((String::from_str("count"), usize_to_string(t.count)));
        assert(fields_view(rec@) =~= topic_record(crate::export::site_plan::topic_info_view(*t)));
        let ghost before = out@;
        out.push(rec);
        assert(records_view(out@) =~= records_view(before).push(fields_view(rec@)));
        k = k + 1;
        assert(want.take(k as int) =~= want.take(k - 1).push(want[k - 1]));
    }
    assert(want.take(topics@.len() as int) =~= want);
    out
}

fn link_records(links: &[(String, String)]) -> (r: Vec<Vec<(String, String)>>)
    ensures
        records_view(r@) == links@.map_values(|c: (String, String)| link_record(c.0@, c.1@)),
{
    let ghost want = links@.map_values(|c: (String, String)| link_record(c.0@, c.1@));
    let mut out: Vec<Vec<(String, String)>> = Vec::new();
    let mut k: usize = 0;
    while k < links.len()
        invariant
            k <= links@.len(),
            want == links@.map_values(|c: (String, String)| link_record(c.0@, c.1@)),
            records_view(out@) == want.take(k as int),
        decreases links@.len() - k,
    {
        let mut rec: Vec<(String, String)> = Vec::new();
        rec.push((String::from_str("name"), links[k].0.clone()));
        rec.push((String::from_str("path"), links[k].1.clone()));
        assert(fields_view(rec@) =~= link_record(links@[k as int].0@, links@[k as int].1@));
        let ghost before = out@;
        out.push(rec);
        assert(records_view(out@) =~= records_view(before).push(fields_view(rec@)));
        k = k + 1;
        assert(want.take(k as int) =~= want.take(k - 1).push(want[k - 1]));
    }
    assert(want.take(links@.len() as int) =~= want);
    out
}

/// Renders the site page of `note` with markdown `body` through `template`
/// (the site's note template, `DEFAULT_SITE_NOTE_TEMPLATE` unless the
/// configuration names another).
pub fn render_site_note(note: &Note, body: &str, config: &SiteConfig, template: &str) -> (r: Result<String, RenderError>)
    requires
        in_chrono_range(note.spec_created()),
        in_chrono_range(note.spec_modified()),
    ensures
        render_outcome(r, rendered_site("note"@, template@, site_note_vars(note, body@, config.site_title@))),
{
    let page = note_page(note, body, None, "");
    let mut topics: Vec<Vec<(String, String)>> = Vec::new();
    let mut k: usize = 0;
    let ghost want = note.spec_topics().map_values(|t: Seq<Seq<char>>| link_record(join_slash(t), join_slash(t)));
    assert(page.topics@.len() == note.spec_topics().len()) by {
        assert(strings_view(page.topics@).len() == page.topics@.len());
    }
    while k < page.topics.len()
        invariant
            k <= page.topics@.len(),
            page.topics@.len() == note.spec_topics().len(),
            strings_view(page.topics@) == note.spec_topics().map_values(|t: Seq<Seq<char>>| join_slash(t)),
            want == note.spec_topics().map_values(|t: Seq<Seq<char>>| link_record(join_slash(t), join_slash(t))),
            records_view(topics@) == want.take(k as int),
        decreases page.topics@.len() - k,
    {
        let mut rec: Vec<(String, String)> = Vec::new();
        rec.push((String::from_str("name"), page.topics[k].clone()));
        rec.push((String::from_str("path"), page.topics[k].clone()));
        assert(strings_view(page.topics@)[k as int] == page.topics@[k as int]@);
        assert(page.topics@[k as int]@ == join_slash(note.spec_topics()[k as int]));
        assert(fields_view(rec@) =~= want[k as int]);
        let ghost before = topics@;
        topics.push(rec);
        assert(records_view(topics@) =~= records_view(before).push(fields_view(rec@)));
        k = k + 1;
        assert(want.take(k as int) =~= want.take(k - 1).push(want[k - 1]));
    }
    assert(want.take(page.topics@.len() as int) =~= want);
    let description = match &page.description {
        Some(d) => TemplateValue::Text(d.clone()),
        None => TemplateValue::Nothing,
    };
    let mut vars: Vec<(String, TemplateValue)> = Vec::new();
    vars.push((String::from_str("site_title"), text(config.site_title)));
    vars.push((String::from_str("title"), TemplateValue::Text(page.title)));
    vars.push((String::from_str("description"), description));
    vars.push((String::from_str("content"), TemplateValue::Text(page.content)));
    vars.push((String::from_str("topics"), TemplateValue::Records(topics)));
    vars.push((String::from_str("tags"), TemplateValue::Texts(page.tags)));
    vars.push((String::from_str("created"), TemplateValue::Text(page.created)));
    vars.push((String::from_str("created_iso"), TemplateValue::Text(page.created_iso)));
    vars.push((String::from_str("modified"), TemplateValue::Text(page.modified)));
    vars.push((String::from_str("modified_iso"), TemplateValue::Text(page.modified_iso)));
    let site = SitePage { vars };
    assert(site@ =~= site_note_vars(note, body@, config.site_title@));
    render_with("note", template, &site)
}

/// Renders the site's index page: the notes in title order and the
/// top-level topics.
pub fn render_index(plan: &SitePlan, config: &SiteConfig) -> (r: Result<String, RenderError>)
    ensures
        render_outcome(r, rendered_site("index"@, DEFAULT_INDEX_TEMPLATE@, index_vars(*plan, config.site_title@))),
{
    let mut vars: Vec<(String, TemplateValue)> = Vec::new();
    vars.push((String::from_str("site_title"), text(config.site_title)));
    vars.push((String::from_str("notes"), TemplateValue::Records(note_records(plan.notes.as_slice()))));
    vars.push((String::from_str("topics"), TemplateValue::Records(topic_records(plan.top_topics.as_slice()))));
    let site = SitePage { vars };
    assert(site@ =~= index_vars(*plan, config.site_title@));
    render_with("index", DEFAULT_INDEX_TEMPLATE, &site)
}

/// Renders the page of one topic: its notes, subtopics, breadcrumbs and the
/// way back to the root.
pub fn render_topic_page(page: &TopicPage, config: &SiteConfig) -> (r: Result<String, RenderError>)
    ensures
        render_outcome(r, rendered_site("topic"@, DEFAULT_TOPIC_TEMPLATE@, topic_vars(*page, config.site_title@))),
{
    let mut vars: Vec<(String, TemplateValue)> = Vec::new();
    vars.push((String::from_str("site_title"), text(config.site_title)));
    vars.push((String::from_str("topic"), TemplateValue::Text(page.topic.clone())));
    vars.push((String::from_str("notes"), TemplateValue::Records(note_records(page.notes.as_slice()))));
    vars.push((String::from_str("subtopics"), TemplateValue::Records(topic_records(page.subtopics.as_slice()))));
    vars.push((String::from_str("breadcrumbs"), TemplateValue::Records(link_records(page.breadcrumbs.as_slice()))));
    vars.push((String::from_str("root_path"), TemplateValue::Text(page.root_path.clone())));
    let site = SitePage { vars };
    assert(site@ =~= topic_vars(*page, config.site_title@));
    render_with("topic", DEFAULT_TOPIC_TEMPLATE, &site)
}

} // verus!
