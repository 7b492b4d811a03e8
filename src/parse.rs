//! Building the document tree from the Markdown event stream.

use vstd::prelude::*;
use crate::ast::{
    Alignment, Block, Inline, SpecBlock, SpecInline, inlines_view, blocks_view, cells_view,
    rows_view, items_view, opt_str_view,
};
use crate::events::{EndTag, MdEvent, SpecEvent, event_view, events_view, md_events, markdown_events};

verus! {

/// The position after a nested read that started at `pos + 1`: at least
/// one step on, and within the stream.
pub open spec fn after(p: int, pos: int, len: int) -> int {
    if p < pos + 1 {
        pos + 1
    } else if p > len {
        len
    } else {
        p
    }
}

/// The inline node that an event is by itself, if any.
pub open spec fn inline_leaf(e: SpecEvent) -> Option<SpecInline> {
    match e {
        SpecEvent::Text(t) => Some(SpecInline::Text(t)),
        SpecEvent::Code(c) => Some(SpecInline::Code(c)),
        SpecEvent::SoftBreak => Some(SpecInline::SoftBreak),
        SpecEvent::HardBreak => Some(SpecInline::HardBreak),
        SpecEvent::Html(h) => Some(SpecInline::Html(h)),
        _ => None,
    }
}

/// The end tag that closes an inline container that an event opens, if any.
pub open spec fn inline_open(e: SpecEvent) -> Option<EndTag> {
    match e {
        SpecEvent::StartEmphasis => Some(EndTag::Emphasis),
        SpecEvent::StartStrong => Some(EndTag::Strong),
        SpecEvent::StartStrikethrough => Some(EndTag::Strikethrough),
        SpecEvent::StartLink { .. } => Some(EndTag::Link),
        SpecEvent::StartImage { .. } => Some(EndTag::Image),
        _ => None,
    }
}

/// The inline container that an opening event makes of its content.
pub open spec fn inline_node(e: SpecEvent, inner: Seq<SpecInline>) -> SpecInline {
    match e {
        SpecEvent::StartStrong => SpecInline::Strong(inner),
        SpecEvent::StartStrikethrough => SpecInline::Strikethrough(inner),
        SpecEvent::StartLink { url, title } => SpecInline::Link { url, title, content: inner },
        SpecEvent::StartImage { url, title } => SpecInline::Image { url, title, alt: inner },
        _ => SpecInline::Emphasis(inner),
    }
}

/// Inline content read from `pos` up to and including the end tag `end`
/// (or to the end of the stream), and the position after it. Events that
/// the tree does not model are skipped.
pub open spec fn inlines_from(s: Seq<SpecEvent>, pos: int, end: EndTag) -> (Seq<SpecInline>, int)
    decreases s.len() - pos,
{
    if pos < 0 || pos >= s.len() {
        (seq![], pos)
    } else if s[pos] == SpecEvent::End(end) {
        (seq![], pos + 1)
    } else if inline_leaf(s[pos]) is Some {
        let rest = inlines_from(s, pos + 1, end);
        (seq![inline_leaf(s[pos])->0] + rest.0, rest.1)
    } else if inline_open(s[pos]) is Some {
        let inner = inlines_from(s, pos + 1, inline_open(s[pos])->0);
        let rest = inlines_from(s, after(inner.1, pos, s.len() as int), end);
        (seq![inline_node(s[pos], inner.0)] + rest.0, rest.1)
    } else {
        inlines_from(s, pos + 1, end)
    }
}

/// The cells of a table row read from `pos` up to and including `end`.
pub open spec fn row_from(s: Seq<SpecEvent>, pos: int, end: EndTag) -> (Seq<Seq<SpecInline>>, int)
    decreases s.len() - pos,
{
    if pos < 0 || pos >= s.len() {
        (seq![], pos)
    } else if s[pos] == SpecEvent::End(end) {
        (seq![], pos + 1)
    } else if s[pos] is StartTableCell {
        let cell = inlines_from(s, pos + 1, EndTag::TableCell);
        let rest = row_from(s, after(cell.1, pos, s.len() as int), end);
        (seq![cell.0] + rest.0, rest.1)
    } else {
        row_from(s, pos + 1, end)
    }
}

/// The literal text of a code block read from `pos` up to and including its end tag.
pub open spec fn code_text_from(s: Seq<SpecEvent>, pos: int) -> (Seq<char>, int)
    decreases s.len() - pos,
{
    if pos < 0 || pos >= s.len() {
        (seq![], pos)
    } else {
        match s[pos] {
            SpecEvent::Text(t) => {
                let rest = code_text_from(s, pos + 1);
                (t + rest.0, rest.1)
            },
            SpecEvent::End(EndTag::CodeBlock) => (seq![], pos + 1),
            _ => code_text_from(s, pos + 1),
        }
    }
}

/// A table's header (the last one read, if any) and rows, read from `pos`
/// up to and including the table's end tag.
pub open spec fn table_body_from(s: Seq<SpecEvent>, pos: int) -> (
    Option<Seq<Seq<SpecInline>>>,
    Seq<Seq<Seq<SpecInline>>>,
    int,
)
    decreases s.len() - pos,
{
    if pos < 0 || pos >= s.len() {
        (None, seq![], pos)
    } else {
        match s[pos] {
            SpecEvent::StartTableHead => {
                let h = row_from(s, pos + 1, EndTag::TableHead);
                let rest = table_body_from(s, after(h.1, pos, s.len() as int));
                (if rest.0 is Some {
                    rest.0
                } else {
                    Some(h.0)
                }, rest.1, rest.2)
            },
            SpecEvent::StartTableRow => {
                let r = row_from(s, pos + 1, EndTag::TableRow);
                let rest = table_body_from(s, after(r.1, pos, s.len() as int));
                (rest.0, seq![r.0] + rest.1, rest.2)
            },
            SpecEvent::End(EndTag::Table) => (None, seq![], pos + 1),
            _ => table_body_from(s, pos + 1),
        }
    }
}

/// Does `e` close the container being read: a block quote, or a list item?
pub open spec fn closes_container(e: SpecEvent, quote: bool) -> bool {
    if quote {
        e == SpecEvent::End(EndTag::BlockQuote)
    } else {
        e == SpecEvent::End(EndTag::Item)
    }
}

/// A container's blocks read from `pos` up to and including the end tag
/// that closes it; an end tag that closes nothing here is skipped.
pub open spec fn until_end_from(s: Seq<SpecEvent>, pos: int, quote: bool) -> (Seq<SpecBlock>, int)
    decreases s.len() - pos, 2int,
{
    if pos < 0 || pos >= s.len() {
        (seq![], pos)
    } else if closes_container(s[pos], quote) {
        (seq![], pos + 1)
    } else {
        let sub = blocks_from(s, pos);
        let rest = until_end_from(s, after(sub.1, pos, s.len() as int), quote);
        (sub.0 + rest.0, rest.1)
    }
}

/// The items of a list read from `pos` up to and including its end tag.
pub open spec fn list_items_from(s: Seq<SpecEvent>, pos: int) -> (Seq<Seq<SpecBlock>>, int)
    decreases s.len() - pos, 1int,
{
    if pos < 0 || pos >= s.len() {
        (seq![], pos)
    } else {
        match s[pos] {
            SpecEvent::StartItem => {
                let item = until_end_from(s, pos + 1, false);
                let rest = list_items_from(s, after(item.1, pos, s.len() as int));
                (seq![item.0] + rest.0, rest.1)
            },
            SpecEvent::End(EndTag::List) => (seq![], pos + 1),
            _ => list_items_from(s, pos + 1),
        }
    }
}

/// A fenced code block's language: its info string, unless empty.
pub open spec fn code_language(fenced: bool, info: Seq<char>) -> Option<Seq<char>> {
    if fenced && info.len() > 0 {
        Some(info)
    } else {
        None
    }
}

/// Blocks read from `pos` up to the first end tag that is not theirs (left
/// unread) or the end of the stream; events the tree does not model are skipped.
pub open spec fn blocks_from(s: Seq<SpecEvent>, pos: int) -> (Seq<SpecBlock>, int)
    decreases s.len() - pos, 0int,
{
    if pos < 0 || pos >= s.len() {
        (seq![], pos)
    } else {
        let len = s.len() as int;
        match s[pos] {
            SpecEvent::StartParagraph => {
                let c = inlines_from(s, pos + 1, EndTag::Paragraph);
                let rest = blocks_from(s, after(c.1, pos, len));
                (seq![SpecBlock::Paragraph(c.0)] + rest.0, rest.1)
            },
            SpecEvent::StartHeading(level) => {
                let c = inlines_from(s, pos + 1, EndTag::Heading(level));
                let rest = blocks_from(s, after(c.1, pos, len));
                (seq![SpecBlock::Heading { level, content: c.0 }] + rest.0, rest.1)
            },
            SpecEvent::StartBlockQuote => {
                let c = until_end_from(s, pos + 1, true);
                let rest = blocks_from(s, after(c.1, pos, len));
                (seq![SpecBlock::BlockQuote(c.0)] + rest.0, rest.1)
            },
            SpecEvent::StartCodeBlock { fenced, info } => {
                let c = code_text_from(s, pos + 1);
                let rest = blocks_from(s, after(c.1, pos, len));
                (seq![SpecBlock::CodeBlock { language: code_language(fenced, info), code: c.0 }]
                    + rest.0, rest.1)
            },
            SpecEvent::StartList(start) => {
                let c = list_items_from(s, pos + 1);
                let rest = blocks_from(s, after(c.1, pos, len));
                (seq![SpecBlock::List { ordered: start is Some, start, items: c.0 }] + rest.0, rest.1)
            },
            SpecEvent::StartTable(alignments) => {
                let c = table_body_from(s, pos + 1);
                let rest = blocks_from(s, after(c.2, pos, len));
                (seq![
                    SpecBlock::Table {
                        alignments,
                        header: match c.0 {
                            Some(h) => h,
                            None => seq![],
                        },
                        rows: c.1,
                    },
                ] + rest.0, rest.1)
            },
            SpecEvent::Rule => {
                let rest = blocks_from(s, pos + 1);
                (seq![SpecBlock::ThematicBreak] + rest.0, rest.1)
            },
            SpecEvent::Html(h) => {
                let rest = blocks_from(s, pos + 1);
                (seq![SpecBlock::HtmlBlock(h)] + rest.0, rest.1)
            },
            SpecEvent::End(_) => (seq![], pos),
            _ => blocks_from(s, pos + 1),
        }
    }
}

/// The tree that a text parses to.
pub open spec fn parsed(text: Seq<char>) -> Seq<SpecBlock> {
    blocks_from(md_events(text), 0).0
}

fn is_end_of(e: &MdEvent, end: EndTag) -> (r: bool)
    ensures
        r == (event_view(*e) == SpecEvent::End(end)),
{
    match e {
        MdEvent::End(t) => *t == end,
        _ => false,
    }
}

fn leaf_of(e: &MdEvent) -> (r: Option<Inline>)
    ensures
        match r {
            Some(x) => inline_leaf(event_view(*e)) == Some(x@),
            None => inline_leaf(event_view(*e)) is None,
        },
{
    match e {
        MdEvent::Text(t) => Some(Inline::Text(t.clone())),
        MdEvent::Code(c) => Some(Inline::Code(c.clone())),
        MdEvent::SoftBreak => Some(Inline::SoftBreak),
        MdEvent::HardBreak => Some(Inline::HardBreak),
        MdEvent::Html(h) => Some(Inline::Html(h.clone())),
        _ => None,
    }
}

fn open_of(e: &MdEvent) -> (r: Option<EndTag>)
    ensures
        r == inline_open(event_view(*e)),
{
    match e {
        MdEvent::StartEmphasis => Some(EndTag::Emphasis),
        MdEvent::StartStrong => Some(EndTag::Strong),
        MdEvent::StartStrikethrough => Some(EndTag::Strikethrough),
        MdEvent::StartLink { .. } => Some(EndTag::Link),
        MdEvent::StartImage { .. } => Some(EndTag::Image),
        _ => None,
    }
}

fn node_of(e: &MdEvent, inner: Vec<Inline>) -> (r: Inline)
    ensures
        r@ == inline_node(event_view(*e), inlines_view(inner@)),
{
    match e {
        MdEvent::StartStrong => Inline::Strong(inner),
        MdEvent::StartStrikethrough => Inline::Strikethrough(inner),
        MdEvent::StartLink { url, title } => Inline::Link {
            url: url.clone(),
            title: title.clone(),
            content: inner,
        },
        MdEvent::StartImage { url, title } => Inline::Image {
            url: url.clone(),
            title: title.clone(),
            alt: inner,
        },
        _ => Inline::Emphasis(inner),
    }
}

/// Inline content up to and including the end tag `end`; events it does not
/// model are skipped. It stops just after that end tag, or at the end of input.
fn parse_inlines(events: &Vec<MdEvent>, pos: &mut usize, end: EndTag) -> (r: Vec<Inline>)
    requires
        *old(pos) <= events.len(),
    ensures
        *old(pos) <= *final(pos) <= events.len(),
        (inlines_view(r@), *final(pos) as int) == inlines_from(
            events_view(events@),
            *old(pos) as int,
            end,
        ),
        *final(pos) == events.len() || (*final(pos) > *old(pos)
            && events_view(events@)[*final(pos) - 1] == SpecEvent::End(end)),
    decreases events.len() - *old(pos),
{
    let ghost s = events_view(events@);
    let ghost entry = *pos;
    let ghost total = inlines_from(s, entry as int, end);
    let mut inlines: Vec<Inline> = Vec::new();
    assert(inlines_view(inlines@) + total.0 =~= total.0);
    while *pos < events.len()
        invariant
            entry == *old(pos),
            entry <= *pos <= events.len(),
            s == events_view(events@),
            total == inlines_from(s, entry as int, end),
            total == (inlines_view(inlines@) + inlines_from(s, *pos as int, end).0, inlines_from(
                s,
                *pos as int,
                end,
            ).1),
        decreases events.len() - *pos,
    {
        let at = *pos;
        let e = &events[at];
        if is_end_of(e, end) {
            *pos = at + 1;
            assert(inlines_view(inlines@) + Seq::<SpecInline>::empty() =~= inlines_view(inlines@));
            return inlines;
        }
        let ghost before = inlines_view(inlines@);
        match leaf_of(e) {
            Some(x) => {
                let ghost rest = inlines_from(s, at + 1, end);
                inlines.push(x);
                *pos = at + 1;
                assert(inlines_view(inlines@) =~= before.push(x@));
                assert(before + (seq![x@] + rest.0) =~= inlines_view(inlines@) + rest.0);
                continue;
            },
            None => {},
        }
        match open_of(e) {
            Some(tag) => {
                *pos = at + 1;
                let inner = parse_inlines(events, pos, tag);
                let node = node_of(e, inner);
                let ghost rest = inlines_from(s, *pos as int, end);
                inlines.push(node);
                assert(inlines_view(inlines@) =~= before.push(node@));
                assert(before + (seq![node@] + rest.0) =~= inlines_view(inlines@) + rest.0);
                continue;
            },
            None => {},
        }
        *pos = at + 1;
    }
    assert(inlines_view(inlines@) + Seq::<SpecInline>::empty() =~= inlines_view(inlines@));
    inlines
}

/// The cells of a table row, up to and including the row's end tag.
fn parse_table_row(events: &Vec<MdEvent>, pos: &mut usize, end: EndTag) -> (r: Vec<Vec<Inline>>)
    requires
        *old(pos) <= events.len(),
    ensures
        *old(pos) <= *final(pos) <= events.len(),
        (cells_view(r@), *final(pos) as int) == row_from(events_view(events@), *old(pos) as int, end),
{
    let ghost s = events_view(events@);
    let ghost entry = *pos;
    let ghost total = row_from(s, entry as int, end);
    let mut cells: Vec<Vec<Inline>> = Vec::new();
    assert(cells_view(cells@) + total.0 =~= total.0);
    while *pos < events.len()
        invariant
            entry == *old(pos),
            entry <= *pos <= events.len(),
            s == events_view(events@),
            total == row_from(s, entry as int, end),
            total == (cells_view(cells@) + row_from(s, *pos as int, end).0, row_from(
                s,
                *pos as int,
                end,
            ).1),
        decreases events.len() - *pos,
    {
        let at = *pos;
        if is_end_of(&events[at], end) {
            *pos = at + 1;
            assert(cells_view(cells@) + Seq::<Seq<SpecInline>>::empty() =~= cells_view(cells@));
            return cells;
        }
        match &events[at] {
            MdEvent::StartTableCell => {
                *pos = at + 1;
                let ghost before = cells_view(cells@);
                let inlines = parse_inlines(events, pos, EndTag::TableCell);
                let ghost rest = row_from(s, *pos as int, end);
                let ghost iv = inlines_view(inlines@);
                cells.push(inlines);
                assert(cells_view(cells@) =~= before.push(iv));
                assert(before + (seq![iv] + rest.0) =~= cells_view(cells@) + rest.0);
            },
            _ => {
                *pos = at + 1;
            },
        }
    }
    assert(cells_view(cells@) + Seq::<Seq<SpecInline>>::empty() =~= cells_view(cells@));
    cells
}

/// The literal text of a code block, up to and including its end tag.
fn parse_code_text(events: &Vec<MdEvent>, pos: &mut usize) -> (r: String)
    requires
        *old(pos) <= events.len(),
    ensures
        *old(pos) <= *final(pos) <= events.len(),
        (r@, *final(pos) as int) == code_text_from(events_view(events@), *old(pos) as int),
{
    let ghost s = events_view(events@);
    let ghost entry = *pos;
    let ghost total = code_text_from(s, entry as int);
    let mut code = String::new();
    assert(code@ + total.0 =~= total.0);
    while *pos < events.len()
        invariant
            entry == *old(pos),
            entry <= *pos <= events.len(),
            s == events_view(events@),
            total == code_text_from(s, entry as int),
            total == (code@ + code_text_from(s, *pos as int).0, code_text_from(s, *pos as int).1),
        decreases events.len() - *pos,
    {
        let at = *pos;
        match &events[at] {
            MdEvent::Text(t) => {
                let ghost before = code@;
                let ghost rest = code_text_from(s, at + 1);
                code.append(t.as_str());
                *pos = at + 1;
                assert(before + (t@ + rest.0) =~= code@ + rest.0);
            },
            MdEvent::End(EndTag::CodeBlock) => {
                *pos = at + 1;
                assert(code@ + Seq::<char>::empty() =~= code@);
                return code;
            },
            _ => {
                *pos = at + 1;
            },
        }
    }
    assert(code@ + Seq::<char>::empty() =~= code@);
    code
}

fn ends_container(e: &MdEvent, quote: bool) -> (r: bool)
    ensures
        r == closes_container(event_view(*e), quote),
{
    match e {
        MdEvent::End(EndTag::BlockQuote) => quote,
        MdEvent::End(EndTag::Item) => !quote,
        _ => false,
    }
}

/// A container's blocks, up to and including the end tag that closes it.
fn parse_blocks_until_end(events: &Vec<MdEvent>, pos: &mut usize, quote: bool) -> (r: Vec<Block>)
    requires
        *old(pos) <= events.len(),
    ensures
        *old(pos) <= *final(pos) <= events.len(),
        (blocks_view(r@), *final(pos) as int) == until_end_from(
            events_view(events@),
            *old(pos) as int,
            quote,
        ),
    decreases events.len() - *old(pos), 2int,
{
    let ghost s = events_view(events@);
    let ghost entry = *pos;
    let ghost total = until_end_from(s, entry as int, quote);
    let mut blocks: Vec<Block> = Vec::new();
    assert(blocks_view(blocks@) + total.0 =~= total.0);
    while *pos < events.len()
        invariant
            entry == *old(pos),
            entry <= *pos <= events.len(),
            s == events_view(events@),
            total == until_end_from(s, entry as int, quote),
            total == (blocks_view(blocks@) + until_end_from(s, *pos as int, quote).0, until_end_from(
                s,
                *pos as int,
                quote,
            ).1),
        decreases events.len() - *pos,
    {
        let at = *pos;
        if ends_container(&events[at], quote) {
            *pos = at + 1;
            assert(blocks_view(blocks@) + Seq::<SpecBlock>::empty() =~= blocks_view(blocks@));
            return blocks;
        }
        let ghost before = blocks_view(blocks@);
        let mut sub = parse_blocks_from(events, pos);
        let ghost sv = blocks_view(sub@);
        blocks.append(&mut sub);
        assert(blocks_view(blocks@) =~= before + sv);
        if *pos == at {
            *pos = at + 1;
        }
        let ghost rest = until_end_from(s, *pos as int, quote);
        assert(before + (sv + rest.0) =~= blocks_view(blocks@) + rest.0);
    }
    assert(blocks_view(blocks@) + Seq::<SpecBlock>::empty() =~= blocks_view(blocks@));
    blocks
}

/// The items of a list, up to and including the list's end tag.
fn parse_list_items(events: &Vec<MdEvent>, pos: &mut usize) -> (r: Vec<Vec<Block>>)
    requires
        *old(pos) <= events.len(),
    ensures
        *old(pos) <= *final(pos) <= events.len(),
        (items_view(r@), *final(pos) as int) == list_items_from(events_view(events@), *old(pos) as int),
    decreases events.len() - *old(pos), 1int,
{
    let ghost s = events_view(events@);
    let ghost entry = *pos;
    let ghost total = list_items_from(s, entry as int);
    let mut items: Vec<Vec<Block>> = Vec::new();
    assert(items_view(items@) + total.0 =~= total.0);
    while *pos < events.len()
        invariant
            entry == *old(pos),
            entry <= *pos <= events.len(),
            s == events_view(events@),
            total == list_items_from(s, entry as int),
            total == (items_view(items@) + list_items_from(s, *pos as int).0, list_items_from(
                s,
                *pos as int,
            ).1),
        decreases events.len() - *pos,
    {
        let at = *pos;
        match &events[at] {
            MdEvent::StartItem => {
                *pos = at + 1;
                let ghost before = items_view(items@);
                let item = parse_blocks_until_end(events, pos, false);
                let ghost iv = blocks_view(item@);
                let ghost rest = list_items_from(s, *pos as int);
                items.push(item);
                assert(items_view(items@) =~= before.push(iv));
                assert(before + (seq![iv] + rest.0) =~= items_view(items@) + rest.0);
            },
            MdEvent::End(EndTag::List) => {
                *pos = at + 1;
                assert(items_view(items@) + Seq::<Seq<SpecBlock>>::empty() =~= items_view(items@));
                return items;
            },
            _ => {
                *pos = at + 1;
            },
        }
    }
    assert(items_view(items@) + Seq::<Seq<SpecBlock>>::empty() =~= items_view(items@));
    items
}

/// The header and rows of a table, up to and including the table's end tag.
fn parse_table_body(events: &Vec<MdEvent>, pos: &mut usize) -> (r: (
    Vec<Vec<Inline>>,
    Vec<Vec<Vec<Inline>>>,
))
    requires
        *old(pos) <= events.len(),
    ensures
        *old(pos) <= *final(pos) <= events.len(),
        ({
            let t = table_body_from(events_view(events@), *old(pos) as int);
            &&& cells_view(r.0@) == match t.0 {
                Some(h) => h,
                None => seq![],
            }
            &&& rows_view(r.1@) == t.1
            &&& *final(pos) == t.2
        }),
{
    let ghost s = events_view(events@);
    let ghost entry = *pos;
    let ghost total = table_body_from(s, entry as int);
    let mut header: Vec<Vec<Inline>> = Vec::new();
    let ghost mut seen: Option<Seq<Seq<SpecInline>>> = None;
    let mut rows: Vec<Vec<Vec<Inline>>> = Vec::new();
    assert(rows_view(rows@) + total.1 =~= total.1);
    while *pos < events.len()
        invariant
            entry == *old(pos),
            entry <= *pos <= events.len(),
            s == events_view(events@),
            total == table_body_from(s, entry as int),
            cells_view(header@) == match seen {
                Some(h) => h,
                None => seq![],
            },
            ({
                let rest = table_body_from(s, *pos as int);
                total == (if rest.0 is Some {
                    rest.0
                } else {
                    seen
                }, rows_view(rows@) + rest.1, rest.2)
            }),
        decreases events.len() - *pos,
    {
        let at = *pos;
        match &events[at] {
            MdEvent::StartTableHead => {
                *pos = at + 1;
                header = parse_table_row(events, pos, EndTag::TableHead);
                proof {
                    seen = Some(cells_view(header@));
                }
            },
            MdEvent::StartTableRow => {
                *pos = at + 1;
                let ghost before = rows_view(rows@);
                let row = parse_table_row(events, pos, EndTag::TableRow);
                let ghost rv = cells_view(row@);
                let ghost rest = table_body_from(s, *pos as int);
                rows.push(row);
                assert(rows_view(rows@) =~= before.push(rv));
                assert(before + (seq![rv] + rest.1) =~= rows_view(rows@) + rest.1);
            },
            MdEvent::End(EndTag::Table) => {
                *pos = at + 1;
                assert(rows_view(rows@) + Seq::<Seq<Seq<SpecInline>>>::empty() =~= rows_view(rows@));
                return (header, rows);
            },
            _ => {
                *pos = at + 1;
            },
        }
    }
    assert(rows_view(rows@) + Seq::<Seq<Seq<SpecInline>>>::empty() =~= rows_view(rows@));
    (header, rows)
}

fn language_of(fenced: bool, info: &String) -> (r: Option<String>)
    ensures
        opt_str_view(r) == code_language(fenced, info@),
{
    if fenced && info.as_str().unicode_len() > 0 {
        Some(info.clone())
    } else {
        None
    }
}

/// Blocks from `pos` on, stopping before the first end tag it meets (which
/// belongs to the caller) or at the end of input; events that the tree does
/// not model are skipped.
fn parse_blocks_from(events: &Vec<MdEvent>, pos: &mut usize) -> (r: Vec<Block>)
    requires
        *old(pos) <= events.len(),
    ensures
        *old(pos) <= *final(pos) <= events.len(),
        (blocks_view(r@), *final(pos) as int) == blocks_from(events_view(events@), *old(pos) as int),
        *final(pos) == events.len() || events_view(events@)[*final(pos) as int] is End,
    decreases events.len() - *old(pos), 0int,
{
    let ghost s = events_view(events@);
    let ghost entry = *pos;
    let ghost total = blocks_from(s, entry as int);
    let mut blocks: Vec<Block> = Vec::new();
    assert(blocks_view(blocks@) + total.0 =~= total.0);
    while *pos < events.len()
        invariant
            entry == *old(pos),
            entry <= *pos <= events.len(),
            s == events_view(events@),
            total == blocks_from(s, entry as int),
            total == (blocks_view(blocks@) + blocks_from(s, *pos as int).0, blocks_from(
                s,
                *pos as int,
            ).1),
        decreases events.len() - *pos,
    {
        let at = *pos;
        let ghost before = blocks_view(blocks@);
        let block: Block;
        match &events[at] {
            MdEvent::StartParagraph => {
                *pos = at + 1;
                let inlines = parse_inlines(events, pos, EndTag::Paragraph);
                block = Block::Paragraph(inlines);
            },
            MdEvent::StartHeading(level) => {
                *pos = at + 1;
                let content = parse_inlines(events, pos, EndTag::Heading(*level));
                block = Block::Heading { level: *level, content };
            },
            MdEvent::StartBlockQuote => {
                *pos = at + 1;
                let inner = parse_blocks_until_end(events, pos, true);
                block = Block::BlockQuote(inner);
            },
            MdEvent::StartCodeBlock { fenced, info } => {
                let language = language_of(*fenced, info);
                *pos = at + 1;
                let code = parse_code_text(events, pos);
                block = Block::CodeBlock { language, code };
            },
            MdEvent::StartList(start) => {
                *pos = at + 1;
                let items = parse_list_items(events, pos);
                block = Block::List { ordered: start.is_some(), start: *start, items };
            },
            MdEvent::StartTable(alignments) => {
                *pos = at + 1;
                let (header, rows) = parse_table_body(events, pos);
                block = Block::Table { alignments: alignments.clone(), header, rows };
            },
            MdEvent::Rule => {
                *pos = at + 1;
                block = Block::ThematicBreak;
            },
            MdEvent::Html(html) => {
                *pos = at + 1;
                block = Block::HtmlBlock(html.clone());
            },
            MdEvent::End(_) => {
                assert(blocks_view(blocks@) + Seq::<SpecBlock>::empty() =~= blocks_view(blocks@));
                return blocks;
            },
            _ => {
                *pos = at + 1;
                continue;
            },
        }
        let ghost rest = blocks_from(s, *pos as int);
        let ghost bv = block@;
        blocks.push(block);
        assert(blocks_view(blocks@) =~= before.push(bv));
        assert(before + (seq![bv] + rest.0) =~= blocks_view(blocks@) + rest.0);
    }
    assert(blocks_view(blocks@) + Seq::<SpecBlock>::empty() =~= blocks_view(blocks@));
    blocks
}

/// Parse Markdown text into its block-level tree.
pub fn parse(markdown: &str) -> (r: Vec<Block>)
    ensures
        blocks_view(r@) == parsed(markdown@),
{
    let events = markdown_events(markdown);
    let mut pos: usize = 0;
    parse_blocks_from(&events, &mut pos)
}

/// A fenced code block's events, its start, its text and its end, give one
/// code block holding that text, with the info string as its language
/// unless empty.
pub proof fn lemma_fenced_code_block(info: Seq<char>, code: Seq<char>)
    ensures
        blocks_from(
            seq![
                SpecEvent::StartCodeBlock { fenced: true, info },
                SpecEvent::Text(code),
                SpecEvent::End(EndTag::CodeBlock),
            ],
            0,
        ) == (
            seq![
                SpecBlock::CodeBlock {
                    language: if info.len() > 0 {
                        Some(info)
                    } else {
                        None
                    },
                    code,
                },
            ],
            3int,
        ),
{
    let s = seq![
        SpecEvent::StartCodeBlock { fenced: true, info },
        SpecEvent::Text(code),
        SpecEvent::End(EndTag::CodeBlock),
    ];
    assert(code_text_from(s, 2) == (Seq::<char>::empty(), 3int));
    assert(code + Seq::<char>::empty() =~= code);
    assert(code_text_from(s, 1) == (code, 3int));
    assert(blocks_from(s, 3) == (Seq::<SpecBlock>::empty(), 3int));
    let b = SpecBlock::CodeBlock { language: code_language(true, info), code };
    assert(seq![b] + Seq::<SpecBlock>::empty() =~= seq![b]);
}

} // verus!
