use yanos::convert_markdown;
use yanos::markdown::{scan_events, MdEvent};

#[test]
fn convert_markdown_records_levels_from_heading_tags() {
    let converted = convert_markdown("# Heading\n### second");
    assert_eq!(converted.content, "<h1>Heading</h1>\n<h3>second</h3>\n");
    let headings = converted.headings;
    assert_eq!(headings.len(), 2);
    assert_eq!(headings[0].level, 1);
    assert_eq!(headings[0].prev_level, None);
    assert_eq!(headings[0].text, "Heading");
    assert_eq!(headings[1].level, 3);
    assert_eq!(headings[1].prev_level, Some(1));
    assert_eq!(headings[1].text, "second");
}

#[test]
fn convert_markdown_takes_first_paragraph_as_preview() {
    let converted = convert_markdown("# Title\n\nFirst *para*graph.\n\nSecond one.");
    assert_eq!(converted.preview_text, "First paragraph.");
    assert_eq!(
        converted.content,
        "<h1>Title</h1>\n<p>First <em>para</em>graph.</p>\n<p>Second one.</p>\n"
    );
}

#[test]
fn convert_markdown_without_paragraph_has_empty_preview() {
    let converted = convert_markdown("## Only a heading");
    assert_eq!(converted.preview_text, "");
    assert_eq!(converted.headings.len(), 1);
    assert_eq!(converted.headings[0].level, 2);
}

#[test]
fn convert_markdown_heading_text_keeps_emphasised_runs() {
    let converted = convert_markdown("# A *bold* move");
    assert_eq!(converted.headings[0].text, "A bold move");
}

#[test]
fn scan_skips_headings_without_text() {
    let events = vec![
        MdEvent::HeadingStart,
        MdEvent::HeadingEnd(1),
        MdEvent::HeadingStart,
        MdEvent::Text("b".to_string()),
        MdEvent::HeadingEnd(2),
        MdEvent::ParagraphStart,
        MdEvent::Text("p".to_string()),
        MdEvent::Other,
        MdEvent::Text("q".to_string()),
        MdEvent::ParagraphEnd,
        MdEvent::ParagraphStart,
        MdEvent::Text("later".to_string()),
        MdEvent::ParagraphEnd,
    ];
    let (headings, preview) = scan_events(&events);
    assert_eq!(headings.len(), 1);
    assert_eq!(headings[0].level, 2);
    assert_eq!(headings[0].prev_level, None);
    assert_eq!(headings[0].text, "b");
    assert_eq!(preview, "pq");
}
