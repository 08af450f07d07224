use vstd::prelude::*;

use crate::span::Span;
use pulldown_cmark::{CowStr, Event, Tag};
use vstd::string::StringSliceAdditionalSpecFns;

verus! {

/// A self-contained markdown structural tag: the opening or closing marker of a
/// container element. Mirrors the tokenizer's tag vocabulary, with every text
/// payload held as owned UTF-8 bytes, so a tag never borrows from the source
/// buffer. Column alignments of tables and the syntactic kind of links, images
/// and code fences are not recorded: no rule of the changelog model reads them.
#[derive(Clone, Debug, PartialEq, Eq)]
pub enum MdTag {
    Paragraph,
    /// A heading; the field is its level (`##` is level 2).
    Heading(u32),
    BlockQuote,
    CodeBlock,
    /// A list; for an ordered list the field holds the first item number.
    List(Option<u64>),
    /// One list item.
    ListItem,
    /// A footnote definition with its label.
    FootnoteDefinition(Vec<u8>),
    Table,
    TableHead,
    TableRow,
    TableCell,
    Emphasis,
    Strong,
    Strikethrough,
    /// A link: destination URL and title.
    Link(Vec<u8>, Vec<u8>),
    /// An image: destination URL and title.
    Image(Vec<u8>, Vec<u8>),
}

/// A self-contained (normalized) markdown structural event. Text payloads are
/// owned UTF-8 bytes, independent of the source buffer's lifetime.
#[derive(Clone, Debug, PartialEq, Eq)]
pub enum MdEvent {
    Start(MdTag),
    End(MdTag),
    Text(Vec<u8>),
    Code(Vec<u8>),
    Html(Vec<u8>),
    FootnoteReference(Vec<u8>),
    SoftBreak,
    HardBreak,
    Rule,
    TaskListMarker(bool),
}

impl MdEvent {
    /// The event that opens a heading of the given level.
    pub open spec fn is_heading_start(self, level: u32) -> bool {
        self matches MdEvent::Start(MdTag::Heading(l)) && l == level
    }

    /// The event that closes a heading of the given level.
    pub open spec fn is_heading_end(self, level: u32) -> bool {
        self matches MdEvent::End(MdTag::Heading(l)) && l == level
    }
}

/// Declares pulldown_cmark::Event, the tokenizer's borrowed event type, so
/// the conversion boundary can mention it; opaque to the verifier.
#[verifier::external_type_specification]
#[verifier::external_body]
pub struct ExEvent<'a>(Event<'a>);

/// Declares pulldown_cmark::Tag, the tokenizer's borrowed tag type; opaque.
#[verifier::external_type_specification]
#[verifier::external_body]
pub struct ExTag<'a>(Tag<'a>);

/// Declares pulldown_cmark::CowStr, the tokenizer's string type; opaque.
#[verifier::external_type_specification]
#[verifier::external_body]
pub struct ExCowStr<'a>(CowStr<'a>);

/// Relies on pulldown_cmark::CowStr (via str::as_bytes): hands out the UTF-8
/// bytes of one tokenizer string, whether borrowed, boxed or inlined.
#[verifier::external_body]
fn cow_bytes(s: CowStr<'_>) -> Vec<u8> {
    s.as_bytes().to_vec()
}

/// Converts one tokenizer tag into the owned tag vocabulary, one arm per
/// variant; the block-level half of the conversion.
#[verifier::external_body]
fn convert_tag(t: Tag<'_>) -> MdTag {
    match t {
        Tag::Paragraph => MdTag::Paragraph,
        Tag::Heading(l) => MdTag::Heading(l),
        Tag::BlockQuote => MdTag::BlockQuote,
        Tag::CodeBlock(_) => MdTag::CodeBlock,
        Tag::List(n) => MdTag::List(n),
        Tag::Item => MdTag::ListItem,
        Tag::FootnoteDefinition(s) => MdTag::FootnoteDefinition(cow_bytes(s)),
        other => convert_inline_tag(other),
    }
}

/// Converts one tokenizer tag into the owned tag vocabulary, one arm per
/// variant; the table- and span-level half of the conversion.
#[verifier::external_body]
fn convert_inline_tag(t: Tag<'_>) -> MdTag {
    match t {
        Tag::Table(_) => MdTag::Table,
        Tag::TableHead => MdTag::TableHead,
        Tag::TableRow => MdTag::TableRow,
        Tag::TableCell => MdTag::TableCell,
        Tag::Emphasis => MdTag::Emphasis,
        Tag::Strong => MdTag::Strong,
        Tag::Strikethrough => MdTag::Strikethrough,
        Tag::Link(_, url, title) => MdTag::Link(cow_bytes(url), cow_bytes(title)),
        _ => convert_image_tag(t),
    }
}

/// Converts a tokenizer image tag into the owned tag vocabulary, moving its
/// destination and title.
#[verifier::external_body]
fn convert_image_tag(t: Tag<'_>) -> MdTag {
    match t {
        Tag::Image(_, url, title) => MdTag::Image(cow_bytes(url), cow_bytes(title)),
        _ => MdTag::Paragraph,
    }
}

/// Converts one tokenizer event into the owned event vocabulary: every variant
/// maps to the same variant, with text payloads turned into owned bytes.
#[verifier::external_body]
fn convert_event(ev: Event<'_>) -> MdEvent {
    match ev {
        Event::Start(t) => MdEvent::Start(convert_tag(t)),
        Event::End(t) => MdEvent::End(convert_tag(t)),
        Event::Text(s) => MdEvent::Text(cow_bytes(s)),
        Event::Code(s) => MdEvent::Code(cow_bytes(s)),
        Event::Html(s) => MdEvent::Html(cow_bytes(s)),
        Event::FootnoteReference(s) => MdEvent::FootnoteReference(cow_bytes(s)),
        Event::SoftBreak => MdEvent::SoftBreak,
        Event::HardBreak => MdEvent::HardBreak,
        Event::Rule => MdEvent::Rule,
        Event::TaskListMarker(b) => MdEvent::TaskListMarker(b),
    }
}

/// The event stream that the markdown tokenizer derives from a source text,
/// already normalized to the owned vocabulary and paired with the byte span of
/// each event. The stream is a function of the source bytes alone.
pub uninterp spec fn tokens_of(src: Seq<u8>) -> Seq<(MdEvent, Span)>;

/// Relies on pulldown_cmark::Parser::new and Parser::into_offset_iter: walks
/// the source once and yields each structural event with its byte range, in
/// source order; the stream depends on the source text alone.
#[verifier::external_body]
pub fn tokenize(src: &str) -> (r: Vec<(MdEvent, Span)>)
    ensures
        r@ == tokens_of(src.spec_bytes()),
{
    let mut out = Vec::new();
    for (ev, range) in pulldown_cmark::Parser::new(src).into_offset_iter() {
        out.push((convert_event(ev), Span { start: range.start, end: range.end }));
    }
    out
}

} // verus!
