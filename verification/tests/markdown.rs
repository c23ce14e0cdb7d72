use issueboss::builder::{build_document, Builder, Event};
use issueboss::tokenize::parse_markdown;

#[test]
fn single_heading_and_paragraph() {
    let doc = parse_markdown("# Fix bug\nIt crashes on startup.\n");
    assert_eq!(doc.issues.len(), 1);
    assert_eq!(doc.issues[0].title.as_str(), "Fix bug");
    assert_eq!(doc.issues[0].description.as_str(), "It crashes on startup.");
    assert!(doc.issues[0].metadata.is_none());
    assert!(doc.metadata.is_none());
}

#[test]
fn two_headings_each_with_paragraph() {
    let doc = parse_markdown("# A\nDesc A\n\n# B\nDesc B\n");
    assert_eq!(doc.issues.len(), 2);
    assert_eq!(doc.issues[0].title.as_str(), "A");
    assert_eq!(doc.issues[0].description.as_str(), "Desc A");
    assert_eq!(doc.issues[1].title.as_str(), "B");
    assert_eq!(doc.issues[1].description.as_str(), "Desc B");
}

#[test]
fn trailing_heading_without_paragraph_is_dropped() {
    let doc = parse_markdown("# A\nDesc A\n\n# Trailing\n");
    assert_eq!(doc.issues.len(), 1);
    assert_eq!(doc.issues[0].title.as_str(), "A");
}

#[test]
fn heading_directly_followed_by_heading_drops_the_first() {
    let doc = parse_markdown("# A\n# B\nDesc B\n");
    assert_eq!(doc.issues.len(), 1);
    assert_eq!(doc.issues[0].title.as_str(), "B");
    assert_eq!(doc.issues[0].description.as_str(), "Desc B");
}

#[test]
fn soft_breaks_become_newlines() {
    let doc = parse_markdown("# T\nline one\nline two\n");
    assert_eq!(doc.issues.len(), 1);
    assert_eq!(doc.issues[0].description.as_str(), "line one\nline two");
}

#[test]
fn deeper_heading_levels_and_no_final_newline() {
    let doc = parse_markdown("## Sub task\nStill an issue");
    assert_eq!(doc.issues.len(), 1);
    assert_eq!(doc.issues[0].title.as_str(), "Sub task");
    assert_eq!(doc.issues[0].description.as_str(), "Still an issue");
}

#[test]
fn hash_without_space_is_ordinary_text() {
    let doc = parse_markdown("# A\n#not-a-heading\n");
    assert_eq!(doc.issues.len(), 1);
    assert_eq!(doc.issues[0].title.as_str(), "A");
    assert_eq!(doc.issues[0].description.as_str(), "#not-a-heading");
}

#[test]
fn canonical_pairs_with_trailing_blank_line() {
    let doc = parse_markdown("# A\nda\n\n# B\ndb\n\n");
    assert_eq!(doc.issues.len(), 2);
    assert_eq!(doc.issues[0].title.as_str(), "A");
    assert_eq!(doc.issues[0].description.as_str(), "da");
    assert_eq!(doc.issues[1].title.as_str(), "B");
    assert_eq!(doc.issues[1].description.as_str(), "db");
}

#[test]
fn empty_input_yields_no_issues() {
    let doc = parse_markdown("");
    assert_eq!(doc.issues.len(), 0);
    assert!(doc.metadata.is_none());
}

#[test]
fn builder_ignores_unrecognized_events() {
    let events = vec![
        Event::Other,
        Event::HeadingStart,
        Event::Text(String::from("T")),
        Event::Other,
        Event::HeadingEnd,
        Event::ParagraphStart,
        Event::Text(String::from("D")),
        Event::ParagraphEnd,
        Event::Other,
    ];
    let doc = build_document(&events);
    assert_eq!(doc.issues.len(), 1);
    assert_eq!(doc.issues[0].title.as_str(), "T");
    assert_eq!(doc.issues[0].description.as_str(), "D");
}

#[test]
fn paragraph_without_heading_still_commits_an_issue_with_empty_title() {
    let mut b = Builder::new();
    b.step(&Event::ParagraphStart);
    b.step(&Event::Text(String::from("stray")));
    b.step(&Event::ParagraphEnd);
    let doc = b.into_document();
    assert_eq!(doc.issues.len(), 1);
    assert_eq!(doc.issues[0].title.as_str(), "");
    assert_eq!(doc.issues[0].description.as_str(), "stray");
}

#[test]
fn soft_break_event_appends_newline() {
    let events = vec![
        Event::HeadingStart,
        Event::Text(String::from("T")),
        Event::HeadingEnd,
        Event::ParagraphStart,
        Event::Text(String::from("a")),
        Event::SoftBreak,
        Event::Text(String::from("b")),
        Event::ParagraphEnd,
    ];
    let doc = build_document(&events);
    assert_eq!(doc.issues[0].description.as_str(), "a\nb");
}
