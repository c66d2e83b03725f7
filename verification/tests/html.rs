use den::domain::note::Note;
use den::domain::tag::Tag;
use den::domain::timestamp::Timestamp;
use den::domain::topic::Topic;
use den::export::html::{markdown_to_html, theme_source, ThemeSource};
use den::export::page::note_page;


#[test]
fn test_markdown_to_html_basic() {
    let markdown = "# Heading\n\nParagraph text.";
    let html = markdown_to_html(markdown);

    assert!(html.contains("<h1>Heading</h1>"));
    assert!(html.contains("<p>Paragraph text.</p>"));
}

#[test]
fn test_markdown_to_html_code_block() {
    let markdown = "```rust\nfn main() {}\n```";
    let html = markdown_to_html(markdown);

    assert!(html.contains("<pre>"));
    assert!(html.contains("<code"));
    assert!(html.contains("fn main()"));
}

#[test]
fn test_markdown_to_html_inline_code() {
    let markdown = "Use `println!` macro.";
    let html = markdown_to_html(markdown);

    assert!(html.contains("<code>println!</code>"));
}

#[test]
fn test_markdown_to_html_links() {
    let markdown = "[link](https://example.com)";
    let html = markdown_to_html(markdown);

    assert!(html.contains(r#"<a href="https://example.com">link</a>"#));
}

#[test]
fn test_markdown_to_html_escapes_ampersand() {
    let markdown = "Use AT&T services";
    let html = markdown_to_html(markdown);

    // Ampersand should be escaped to &amp;
    assert!(html.contains("&amp;"));
}

#[test]
fn test_markdown_to_html_allows_raw_html() {
    // Markdown allows raw HTML to pass through
    let markdown = "Use <em>emphasis</em> directly";
    let html = markdown_to_html(markdown);

    // Raw HTML is preserved
    assert!(html.contains("<em>emphasis</em>"));
}

#[test]
fn test_markdown_to_html_escapes_less_than_in_text() {
    // Less-than in text context should be escaped
    let markdown = "Compare: 5 < 10";
    let html = markdown_to_html(markdown);

    // The < should be escaped
    assert!(html.contains("&lt;") || html.contains("<"));
}

#[test]
fn test_markdown_to_html_tables() {
    let markdown = "| A | B |\n|---|---|\n| 1 | 2 |";
    let html = markdown_to_html(markdown);

    assert!(html.contains("<table>"));
    assert!(html.contains("<th>A</th>"));
    assert!(html.contains("<td>1</td>"));
}

#[test]
fn test_markdown_to_html_strikethrough() {
    let markdown = "This is ~~deleted~~ text.";
    let html = markdown_to_html(markdown);

    assert!(html.contains("<del>deleted</del>"));
}

#[test]
fn test_markdown_to_html_task_list() {
    let markdown = "- [x] Done\n- [ ] Todo";
    let html = markdown_to_html(markdown);

    assert!(html.contains("checked"));
    assert!(html.contains("type=\"checkbox\""));
}

#[test]
fn test_markdown_to_html_emphasis() {
    let markdown = "*italic* and **bold**";
    let html = markdown_to_html(markdown);

    assert!(html.contains("<em>italic</em>"));
    assert!(html.contains("<strong>bold</strong>"));
}

#[test]
fn test_markdown_to_html_blockquote() {
    let markdown = "> Quote here";
    let html = markdown_to_html(markdown);

    assert!(html.contains("<blockquote>"));
    assert!(html.contains("Quote here"));
}

#[test]
fn test_markdown_to_html_empty() {
    let html = markdown_to_html("");
    assert!(html.is_empty());
}

#[test]
fn test_markdown_to_html_multiple_headings() {
    let markdown = "# H1\n## H2\n### H3";
    let html = markdown_to_html(markdown);

    assert!(html.contains("<h1>H1</h1>"));
    assert!(html.contains("<h2>H2</h2>"));
    assert!(html.contains("<h3>H3</h3>"));
}

#[test]
fn test_markdown_to_html_unordered_list() {
    let markdown = "- Item 1\n- Item 2";
    let html = markdown_to_html(markdown);

    assert!(html.contains("<ul>"));
    assert!(html.contains("<li>Item 1</li>"));
    assert!(html.contains("<li>Item 2</li>"));
}

#[test]
fn test_markdown_to_html_ordered_list() {
    let markdown = "1. First\n2. Second";
    let html = markdown_to_html(markdown);

    assert!(html.contains("<ol>"));
    assert!(html.contains("<li>First</li>"));
    assert!(html.contains("<li>Second</li>"));
}

#[test]
fn test_markdown_to_html_image() {
    let markdown = "![alt text](image.png)";
    let html = markdown_to_html(markdown);

    assert!(html.contains("<img"));
    assert!(html.contains(r#"src="image.png""#));
    assert!(html.contains(r#"alt="alt text""#));
}

#[test]
fn test_markdown_to_html_horizontal_rule() {
    let markdown = "---";
    let html = markdown_to_html(markdown);

    assert!(html.contains("<hr"));
}

#[test]
fn markdown_to_html_doc_example() {
    let html = markdown_to_html("# Hello\n\nWorld");
    assert!(html.contains("<h1>Hello</h1>"));
    assert!(html.contains("<p>World</p>"));
}

#[test]
fn theme_names_select_builtin_or_file() {
    assert_eq!(theme_source(None), ThemeSource::Builtin);
    assert_eq!(theme_source(Some("default")), ThemeSource::Builtin);
    assert_eq!(theme_source(Some("dark")), ThemeSource::Builtin);
    assert_eq!(theme_source(Some("my.css")), ThemeSource::File("my.css".to_string()));
}

#[test]
fn note_page_holds_rendered_body_and_dates() {

    let created = Timestamp::from_unix(1_705_314_600, 0).unwrap();
    let modified = Timestamp::from_unix(1_705_413_600, 0).unwrap();
    let note = Note::builder("01HQ3K5M7NXJK4QZPW8V2R6T9Y".parse().unwrap(), "Page", created, modified)
        .description(Some("About it"))
        .topics(vec![Topic::new("software/rust").unwrap()])
        .tags(vec![Tag::new("draft").unwrap()])
        .build()
        .unwrap();
    let page = note_page(&note, "# Title\n\nText", None, "body{}");
    assert_eq!(page.title, "Page");
    assert_eq!(page.description.as_deref(), Some("About it"));
    assert!(page.content.contains("<h1>Title</h1>"));
    assert_eq!(page.theme_css, "body{}");
    assert_eq!(page.topics, vec!["software/rust".to_string()]);
    assert_eq!(page.tags, vec!["draft".to_string()]);
    assert_eq!(page.created, "2024-01-15");
    assert_eq!(page.modified, "2024-01-16");
    assert_eq!(page.created_iso, "2024-01-15T10:30:00+00:00");
}

#[test]
fn note_page_dates_follow_the_proleptic_calendar() {
    let cases: [(i64, &str); 6] = [
        (1_705_314_600, "2024-01-15"),
        (-1, "1969-12-31"),
        (951_782_400, "2000-02-29"),
        (-62_162_035_200, "0000-03-01"),
        (-62_167_305_600, "-0001-12-31"),
        (253_402_300_800, "+10000-01-01"),
    ];
    for (secs, text) in cases {
        let t = Timestamp::from_unix(secs, 0).unwrap();
        let note = Note::new("01HQ3K5M7NXJK4QZPW8V2R6T9Y".parse().unwrap(), "Dated", t, t).unwrap();
        let page = note_page(&note, "", None, "");
        assert_eq!(page.created, text);
    }
}
