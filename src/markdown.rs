//! Markdown to HTML, with the headings and the preview text gathered from the
//! same stream of parser events.

use pulldown_cmark::{html, Event, Parser, Tag};
use vstd::prelude::*;
use vstd::string::StringExecFns;

verus! {

/// A parser event as far as this library reads it.
#[derive(Debug, Clone)]
pub enum MdEvent {
    /// a heading opens
    HeadingStart,
    /// a heading of the given level closes
    HeadingEnd(u8),
    /// a paragraph opens
    ParagraphStart,
    /// a paragraph closes
    ParagraphEnd,
    /// a run of text
    Text(String),
    /// anything else
    Other,
}

/// One entry of a table of contents: a heading's level, the level of the
/// heading before it in the document, and its plain text.
#[derive(Debug, Clone)]
pub struct TocHeading {
    pub level: u8,
    pub prev_level: Option<u8>,
    pub text: String,
}

/// A heading as a mathematical value.
pub struct HeadingView {
    pub level: int,
    pub prev_level: Option<int>,
    pub text: Seq<char>,
}

impl TocHeading {
    pub open spec fn view(self) -> HeadingView {
        HeadingView {
            level: self.level as int,
            prev_level: match self.prev_level {
                Some(p) => Some(p as int),
                None => None,
            },
            text: self.text@,
        }
    }
}

/// The views of a list of headings.
pub open spec fn headings_view(hs: Seq<TocHeading>) -> Seq<HeadingView> {
    hs.map_values(|h: TocHeading| h.view())
}

/// Where the search for the first paragraph stands.
#[derive(Debug, Clone, Copy, PartialEq, Eq, Structural)]
pub enum PreviewState {
    Searching,
    Reading,
    Complete,
}

/// What a scan of events has gathered so far.
pub struct ScanView {
    pub in_heading: bool,
    pub current: Seq<char>,
    pub headings: Seq<HeadingView>,
    pub preview: PreviewState,
    pub preview_text: Seq<char>,
}

/// Before any event.
pub open spec fn scan_start() -> ScanView {
    ScanView {
        in_heading: false,
        current: Seq::empty(),
        headings: Seq::empty(),
        preview: PreviewState::Searching,
        preview_text: Seq::empty(),
    }
}

/// The level of the last heading gathered, if any.
pub open spec fn last_level(hs: Seq<HeadingView>) -> Option<int> {
    if hs.len() == 0 {
        None
    } else {
        Some(hs.last().level)
    }
}

/// One event read. Text inside a heading adds to that heading's text; a closing
/// heading with text is recorded, with the level of the heading recorded
/// before it. The first paragraph's text is the preview.
pub open spec fn scan_step(st: ScanView, e: MdEvent) -> ScanView {
    match e {
        MdEvent::HeadingStart => ScanView { in_heading: true, current: Seq::empty(), ..st },
        MdEvent::HeadingEnd(level) => if st.current.len() == 0 {
            ScanView { in_heading: false, ..st }
        } else {
            ScanView {
                in_heading: false,
                headings: st.headings.push(
                    HeadingView {
                        level: level as int,
                        prev_level: last_level(st.headings),
                        text: st.current,
                    },
                ),
                ..st
            }
        },
        MdEvent::ParagraphStart => if st.preview == PreviewState::Searching {
            ScanView { preview: PreviewState::Reading, ..st }
        } else {
            st
        },
        MdEvent::ParagraphEnd => if st.preview == PreviewState::Reading {
            ScanView { preview: PreviewState::Complete, ..st }
        } else {
            st
        },
        MdEvent::Text(t) => ScanView {
            current: if st.in_heading {
                st.current + t@
            } else {
                st.current
            },
            preview_text: if st.preview == PreviewState::Reading {
                st.preview_text + t@
            } else {
                st.preview_text
            },
            ..st
        },
        MdEvent::Other => st,
    }
}

/// What a scan gathers from a sequence of events, read left to right.
pub open spec fn scan(events: Seq<MdEvent>) -> ScanView
    decreases events.len(),
{
    if events.len() == 0 {
        scan_start()
    } else {
        scan_step(scan(events.drop_last()), events.last())
    }
}

/// The events that pulldown-cmark's parser yields for `text`, as this library
/// reads them.
pub uninterp spec fn markdown_events_of(text: Seq<char>) -> Seq<MdEvent>;

/// The HTML that pulldown-cmark writes for `text`.
pub uninterp spec fn html_of(text: Seq<char>) -> Seq<char>;

/// Relies on `pulldown_cmark::Parser::new`: the events depend on the text
/// alone. Each is handed on as the library's kind of event, a heading's end
/// with its level's number and a text run with its text.
#[verifier::external_body]
fn markdown_events(text: &str) -> (r: Vec<MdEvent>)
    ensures
        r@ == markdown_events_of(text@),
{
    let mut events = Vec::new();
    for event in Parser::new(text) {
        events.push(match event {
            Event::Start(Tag::Heading(..)) => MdEvent::HeadingStart,
            Event::End(Tag::Heading(level, ..)) => MdEvent::HeadingEnd(level as u8),
            Event::Start(Tag::Paragraph) => MdEvent::ParagraphStart,
            Event::End(Tag::Paragraph) => MdEvent::ParagraphEnd,
            Event::Text(run) => MdEvent::Text(run.to_string()),
            _ => MdEvent::Other,
        });
    }
    events
}

/// Relies on `pulldown_cmark::html::push_html` over the parser's events for
/// `text`, unchanged: the HTML depends on the text alone.
#[verifier::external_body]
fn markdown_html(text: &str) -> (r: String)
    ensures
        r@ == html_of(text@),
{
    let mut out = String::new();
    html::push_html(&mut out, Parser::new(text));
    out
}

/// A markdown body converted: its HTML, its headings, and the text of its
/// first paragraph as a preview.
pub struct ConvertedMarkdown {
    pub content: String,
    pub headings: Vec<TocHeading>,
    pub preview_text: String,
}

/// Converts markdown to HTML, and gathers from the parser's events the
/// headings that carry text and the text of the first paragraph.
pub fn convert_markdown(markdown: &str) -> (r: ConvertedMarkdown)
    ensures
        r.content@ == html_of(markdown@),
        headings_view(r.headings@) == scan(markdown_events_of(markdown@)).headings,
        r.preview_text@ == scan(markdown_events_of(markdown@)).preview_text,
{
    let events = markdown_events(markdown);
    let (headings, preview_text) = scan_events(&events);
    let content = markdown_html(markdown);
    ConvertedMarkdown { content, headings, preview_text }
}

/// Reads a stream of events once, left to right, and returns the headings
/// that carry text and the text of the first paragraph.
pub fn scan_events(events: &Vec<MdEvent>) -> (r: (Vec<TocHeading>, String))
    ensures
        headings_view(r.0@) == scan(events@).headings,
        r.1@ == scan(events@).preview_text,
{
    let mut in_heading = false;
    let mut current = String::new();
    let mut headings: Vec<TocHeading> = Vec::new();
    let mut preview = PreviewState::Searching;
    let mut preview_text = String::new();
    let mut i: usize = 0;
    assert(headings_view(headings@) =~= Seq::<HeadingView>::empty());
    assert(events@.take(0).len() == 0);
    while i < events.len()
        invariant
            i <= events@.len(),
            scan(events@.take(i as int)) == (ScanView {
                in_heading,
                current: current@,
                headings: headings_view(headings@),
                preview,
                preview_text: preview_text@,
            }),
        decreases events@.len() - i,
    {
        assert(events@.take(i + 1).drop_last() =~= events@.take(i as int));
        let ghost hs_before = headings@;
        match &events[i] {
            MdEvent::HeadingStart => {
                in_heading = true;
                current = String::new();
            },
            MdEvent::HeadingEnd(level) => {
                in_heading = false;
                if !current.as_str().is_empty() {
                    let prev_level = if headings.len() == 0 {
                        None
                    } else {
                        Some(headings[headings.len() - 1].level)
                    };
                    headings.push(TocHeading { level: *level, prev_level, text: current.clone() });
                    assert(headings_view(headings@) =~= headings_view(hs_before).push(
                        headings@.last().view(),
                    ));
                }
            },
            MdEvent::ParagraphStart => {
                if preview == PreviewState::Searching {
                    preview = PreviewState::Reading;
                }
            },
            MdEvent::ParagraphEnd => {
                if preview == PreviewState::Reading {
                    preview = PreviewState::Complete;
                }
            },
            MdEvent::Text(t) => {
                if in_heading {
                    current.append(t.as_str());
                }
                if preview == PreviewState::Reading {
                    preview_text.append(t.as_str());
                }
            },
            MdEvent::Other => {},
        }
        i = i + 1;
    }
    assert(events@.take(i as int) =~= events@);
    (headings, preview_text)
}

} // verus!
