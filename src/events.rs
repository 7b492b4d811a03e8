//! The Markdown event stream: pulldown-cmark's events converted one for one
//! into plain values.

use vstd::prelude::*;
use pulldown_cmark::{
    Alignment as ColumnAlign, CodeBlockKind, CowStr, Event, HeadingLevel, Options, Parser, Tag, TagEnd,
};
use crate::ast::Alignment;

verus! {

#[verifier::external_type_specification]
#[verifier::external_body]
pub struct ExCowStr<'a>(CowStr<'a>);

#[verifier::external_type_specification]
pub struct ExEvent<'a>(Event<'a>);

#[verifier::external_type_specification]
pub struct ExTag<'a>(Tag<'a>);

#[verifier::external_type_specification]
pub struct ExTagEnd(TagEnd);

#[verifier::external_type_specification]
pub struct ExHeadingLevel(HeadingLevel);

#[verifier::external_type_specification]
pub struct ExBlockQuoteKind(pulldown_cmark::BlockQuoteKind);

#[verifier::external_type_specification]
pub struct ExCodeBlockKind<'a>(CodeBlockKind<'a>);

#[verifier::external_type_specification]
pub struct ExColumnAlign(ColumnAlign);

#[verifier::external_type_specification]
pub struct ExLinkType(pulldown_cmark::LinkType);

#[verifier::external_type_specification]
pub struct ExMetadataBlockKind(pulldown_cmark::MetadataBlockKind);

/// The end tags the tree builder tells apart; the rest are `Other`.
#[derive(Debug, Clone, Copy, PartialEq, Eq, Structural)]
pub enum EndTag {
    Paragraph,
    Heading(u8),
    BlockQuote,
    CodeBlock,
    List,
    Item,
    Table,
    TableHead,
    TableRow,
    TableCell,
    Emphasis,
    Strong,
    Strikethrough,
    Link,
    Image,
    Other,
}

/// One Markdown event, with its text owned.
#[derive(Debug)]
pub enum MdEvent {
    StartParagraph,
    StartHeading(u8),
    StartBlockQuote,
    /// A code block: fenced or indented, with the fence's info string.
    StartCodeBlock { fenced: bool, info: String },
    /// A list, with the number of its first item when it is ordered.
    StartList(Option<u64>),
    StartItem,
    StartTable(Vec<Alignment>),
    StartTableHead,
    StartTableRow,
    StartTableCell,
    StartEmphasis,
    StartStrong,
    StartStrikethrough,
    StartLink { url: String, title: String },
    StartImage { url: String, title: String },
    /// Any other start tag.
    StartOther,
    End(EndTag),
    Text(String),
    Code(String),
    Html(String),
    SoftBreak,
    HardBreak,
    Rule,
    /// Any other event.
    Other,
}

/// Mathematical value of an [`MdEvent`].
pub enum SpecEvent {
    StartParagraph,
    StartHeading(u8),
    StartBlockQuote,
    StartCodeBlock { fenced: bool, info: Seq<char> },
    StartList(Option<u64>),
    StartItem,
    StartTable(Seq<Alignment>),
    StartTableHead,
    StartTableRow,
    StartTableCell,
    StartEmphasis,
    StartStrong,
    StartStrikethrough,
    StartLink { url: Seq<char>, title: Seq<char> },
    StartImage { url: Seq<char>, title: Seq<char> },
    StartOther,
    End(EndTag),
    Text(Seq<char>),
    Code(Seq<char>),
    Html(Seq<char>),
    SoftBreak,
    HardBreak,
    Rule,
    Other,
}

pub open spec fn event_view(e: MdEvent) -> SpecEvent {
    match e {
        MdEvent::StartParagraph => SpecEvent::StartParagraph,
        MdEvent::StartHeading(l) => SpecEvent::StartHeading(l),
        MdEvent::StartBlockQuote => SpecEvent::StartBlockQuote,
        MdEvent::StartCodeBlock { fenced, info } => SpecEvent::StartCodeBlock { fenced, info: info@ },
        MdEvent::StartList(s) => SpecEvent::StartList(s),
        MdEvent::StartItem => SpecEvent::StartItem,
        MdEvent::StartTable(a) => SpecEvent::StartTable(a@),
        MdEvent::StartTableHead => SpecEvent::StartTableHead,
        MdEvent::StartTableRow => SpecEvent::StartTableRow,
        MdEvent::StartTableCell => SpecEvent::StartTableCell,
        MdEvent::StartEmphasis => SpecEvent::StartEmphasis,
        MdEvent::StartStrong => SpecEvent::StartStrong,
        MdEvent::StartStrikethrough => SpecEvent::StartStrikethrough,
        MdEvent::StartLink { url, title } => SpecEvent::StartLink { url: url@, title: title@ },
        MdEvent::StartImage { url, title } => SpecEvent::StartImage { url: url@, title: title@ },
        MdEvent::StartOther => SpecEvent::StartOther,
        MdEvent::End(t) => SpecEvent::End(t),
        MdEvent::Text(t) => SpecEvent::Text(t@),
        MdEvent::Code(t) => SpecEvent::Code(t@),
        MdEvent::Html(t) => SpecEvent::Html(t@),
        MdEvent::SoftBreak => SpecEvent::SoftBreak,
        MdEvent::HardBreak => SpecEvent::HardBreak,
        MdEvent::Rule => SpecEvent::Rule,
        MdEvent::Other => SpecEvent::Other,
    }
}

pub open spec fn events_view(s: Seq<MdEvent>) -> Seq<SpecEvent> {
    Seq::new(s.len(), |k: int| event_view(s[k]))
}

/// The event stream that pulldown-cmark produces for a text.
pub uninterp spec fn md_events(text: Seq<char>) -> Seq<SpecEvent>;

/// Relies on `pulldown_cmark::Parser::new_ext`, with tables, footnotes,
/// strikethrough and heading attributes enabled: its events, each converted
/// by `md_event`, depend on the text alone.
#[verifier::external_body]
pub(crate) fn markdown_events(text: &str) -> (r: Vec<MdEvent>)
    ensures
        events_view(r@) == md_events(text@),
{
    let options = Options::ENABLE_TABLES | Options::ENABLE_FOOTNOTES
        | Options::ENABLE_STRIKETHROUGH | Options::ENABLE_HEADING_ATTRIBUTES;
    Parser::new_ext(text, options).map(|e| md_event(e)).collect()
}

/// Relies on `CowStr`'s dereference to `str`: the text it holds, owned.
#[verifier::external_body]
fn cow_string(c: &CowStr) -> String {
    String::from(&**c)
}

fn level_number(l: &HeadingLevel) -> (r: u8)
    ensures
        1 <= r <= 6,
{
    match l {
        HeadingLevel::H1 => 1,
        HeadingLevel::H2 => 2,
        HeadingLevel::H3 => 3,
        HeadingLevel::H4 => 4,
        HeadingLevel::H5 => 5,
        HeadingLevel::H6 => 6,
    }
}

fn alignment_of(a: &ColumnAlign) -> Alignment {
    match a {
        ColumnAlign::None => Alignment::Unspecified,
        ColumnAlign::Left => Alignment::Left,
        ColumnAlign::Center => Alignment::Center,
        ColumnAlign::Right => Alignment::Right,
    }
}

fn start_event(t: Tag) -> MdEvent {
    match t {
        Tag::Paragraph => MdEvent::StartParagraph,
        Tag::Heading { level, .. } => MdEvent::StartHeading(level_number(&level)),
        Tag::BlockQuote(_) => MdEvent::StartBlockQuote,
        Tag::CodeBlock(CodeBlockKind::Fenced(info)) => MdEvent::StartCodeBlock {
            fenced: true,
            info: cow_string(&info),
        },
        Tag::CodeBlock(CodeBlockKind::Indented) => MdEvent::StartCodeBlock {
            fenced: false,
            info: String::new(),
        },
        Tag::List(start) => MdEvent::StartList(start),
        Tag::Item => MdEvent::StartItem,
        Tag::Table(columns) => {
            let mut alignments: Vec<Alignment> = Vec::new();
            let mut k: usize = 0;
            while k < columns.len()
                invariant
                    k <= columns.len(),
                decreases columns.len() - k,
            {
                alignments.push(alignment_of(&columns[k]));
                k = k + 1;
            }
            MdEvent::StartTable(alignments)
        },
        Tag::TableHead => MdEvent::StartTableHead,
        Tag::TableRow => MdEvent::StartTableRow,
        Tag::TableCell => MdEvent::StartTableCell,
        Tag::Emphasis => MdEvent::StartEmphasis,
        Tag::Strong => MdEvent::StartStrong,
        Tag::Strikethrough => MdEvent::StartStrikethrough,
        Tag::Link { dest_url, title, .. } => MdEvent::StartLink {
            url: cow_string(&dest_url),
            title: cow_string(&title),
        },
        Tag::Image { dest_url, title, .. } => MdEvent::StartImage {
            url: cow_string(&dest_url),
            title: cow_string(&title),
        },
        _ => MdEvent::StartOther,
    }
}

fn end_tag(t: TagEnd) -> EndTag {
    match t {
        TagEnd::Paragraph => EndTag::Paragraph,
        TagEnd::Heading(level) => EndTag::Heading(level_number(&level)),
        TagEnd::BlockQuote(_) => EndTag::BlockQuote,
        TagEnd::CodeBlock => EndTag::CodeBlock,
        TagEnd::List(_) => EndTag::List,
        TagEnd::Item => EndTag::Item,
        TagEnd::Table => EndTag::Table,
        TagEnd::TableHead => EndTag::TableHead,
        TagEnd::TableRow => EndTag::TableRow,
        TagEnd::TableCell => EndTag::TableCell,
        TagEnd::Emphasis => EndTag::Emphasis,
        TagEnd::Strong => EndTag::Strong,
        TagEnd::Strikethrough => EndTag::Strikethrough,
        TagEnd::Link => EndTag::Link,
        TagEnd::Image => EndTag::Image,
        _ => EndTag::Other,
    }
}

/// One pulldown-cmark event as a plain value.
pub fn md_event(e: Event) -> MdEvent {
    match e {
        Event::Start(t) => start_event(t),
        Event::End(t) => MdEvent::End(end_tag(t)),
        Event::Text(t) => MdEvent::Text(cow_string(&t)),
        Event::Code(t) => MdEvent::Code(cow_string(&t)),
        Event::Html(t) => MdEvent::Html(cow_string(&t)),
        Event::SoftBreak => MdEvent::SoftBreak,
        Event::HardBreak => MdEvent::HardBreak,
        Event::Rule => MdEvent::Rule,
        _ => MdEvent::Other,
    }
}

} // verus!
