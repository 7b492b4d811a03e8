//! Rendering the document tree back to Markdown text.

use vstd::prelude::*;
use crate::ast::{Block, Inline, Alignment, SpecBlock, SpecInline, inlines_view, blocks_view, cells_view, rows_view, items_view, opt_str_view};
use crate::text::{chars_of, push_char, push_chars, trimmed_lines, decimal_string, decimal, trim_newlines, split_lines, lines_view, lemma_split_lines_nonempty};

verus! {

/// Link or image target: `](url)` or `](url "title")`.
pub open spec fn target_md(url: Seq<char>, title: Seq<char>) -> Seq<char> {
    "]("@ + url + (if title.len() == 0 { seq![] } else { " \""@ + title + "\""@ }) + ")"@
}

pub open spec fn inline_md(i: SpecInline) -> Seq<char>
    decreases i, 1int,
{
    match i {
        SpecInline::Text(t) => t,
        SpecInline::Code(c) => "`"@ + c + "`"@,
        SpecInline::Emphasis(v) => "*"@ + inlines_md(v) + "*"@,
        SpecInline::Strong(v) => "**"@ + inlines_md(v) + "**"@,
        SpecInline::Strikethrough(v) => "~~"@ + inlines_md(v) + "~~"@,
        SpecInline::Link { url, title, content } => "["@ + inlines_md(content) + target_md(
            url,
            title,
        ),
        SpecInline::Image { url, title, alt } => "!["@ + inlines_md(alt) + target_md(url, title),
        SpecInline::SoftBreak => "\n"@,
        SpecInline::HardBreak => "  \n"@,
        SpecInline::Html(h) => h,
    }
}

/// Markdown of a run of inline nodes: each node's text, in order.
pub open spec fn inlines_md(s: Seq<SpecInline>) -> Seq<char>
    decreases s, 0int,
{
    if s.len() == 0 {
        seq![]
    } else {
        inlines_md(s.drop_last()) + inline_md(s.last())
    }
}

/// A quoted line: `>` alone for an empty line, else `> ` before it.
pub open spec fn quote_line(l: Seq<char>) -> Seq<char> {
    if l.len() == 0 {
        ">\n"@
    } else {
        "> "@ + l + "\n"@
    }
}

pub open spec fn quote_lines(lines: Seq<Seq<char>>) -> Seq<char>
    decreases lines.len(),
{
    if lines.len() == 0 {
        seq![]
    } else {
        quote_lines(lines.drop_last()) + quote_line(lines.last())
    }
}

/// A list item's lines: the first follows the marker, the others are
/// indented by two spaces unless empty.
pub open spec fn item_lines(lines: Seq<Seq<char>>) -> Seq<char>
    decreases lines.len(),
{
    if lines.len() == 0 {
        seq![]
    } else if lines.len() == 1 {
        lines[0] + "\n"@
    } else {
        item_lines(lines.drop_last()) + (if lines.last().len() == 0 {
            "\n"@
        } else {
            "  "@ + lines.last() + "\n"@
        })
    }
}

pub open spec fn list_marker(ordered: bool, number: nat) -> Seq<char> {
    if ordered {
        decimal(number) + ". "@
    } else {
        "- "@
    }
}

/// The first `n` items of a list whose numbering begins at `first`.
pub open spec fn items_md(items: Seq<Seq<SpecBlock>>, ordered: bool, first: nat, n: nat) -> Seq<char>
    decreases items, 0int, n,
{
    if n == 0 || n > items.len() {
        seq![]
    } else {
        items_md(items, ordered, first, (n - 1) as nat) + list_marker(ordered, (first + n - 1) as nat)
            + item_lines(split_lines(trim_newlines(blocks_md(items[n - 1]))))
    }
}

pub open spec fn cells_md(cells: Seq<Seq<SpecInline>>) -> Seq<char>
    decreases cells.len(),
{
    if cells.len() == 0 {
        seq![]
    } else {
        cells_md(cells.drop_last()) + " "@ + inlines_md(cells.last()) + " |"@
    }
}

/// A table row: `| a | b |` and a line break.
pub open spec fn row_md(cells: Seq<Seq<SpecInline>>) -> Seq<char> {
    "|"@ + cells_md(cells) + "\n"@
}

pub open spec fn rows_md(rows: Seq<Seq<Seq<SpecInline>>>) -> Seq<char>
    decreases rows.len(),
{
    if rows.len() == 0 {
        seq![]
    } else {
        rows_md(rows.drop_last()) + row_md(rows.last())
    }
}

pub open spec fn alignment_md(a: Alignment) -> Seq<char> {
    match a {
        Alignment::Unspecified => " --- |"@,
        Alignment::Left => " :-- |"@,
        Alignment::Center => " :-: |"@,
        Alignment::Right => " --: |"@,
    }
}

pub open spec fn alignments_md(s: Seq<Alignment>) -> Seq<char>
    decreases s.len(),
{
    if s.len() == 0 {
        seq![]
    } else {
        alignments_md(s.drop_last()) + alignment_md(s.last())
    }
}

pub open spec fn hashes(n: nat) -> Seq<char>
    decreases n,
{
    if n == 0 {
        seq![]
    } else {
        hashes((n - 1) as nat).push('#')
    }
}

pub open spec fn ends_in_newline(t: Seq<char>) -> bool {
    t.len() > 0 && t.last() == '\n'
}

/// `t` followed by a line break unless it already ends in one.
pub open spec fn closed_line(t: Seq<char>) -> Seq<char> {
    if ends_in_newline(t) {
        t
    } else {
        t.push('\n')
    }
}

pub open spec fn block_md(b: SpecBlock) -> Seq<char>
    decreases b, 2int,
{
    match b {
        SpecBlock::Paragraph(v) => inlines_md(v) + "\n\n"@,
        SpecBlock::Heading { level, content } => hashes(level as nat) + " "@ + inlines_md(content)
            + "\n\n"@,
        SpecBlock::BlockQuote(inner) => quote_lines(split_lines(trim_newlines(blocks_md(inner))))
            + "\n"@,
        SpecBlock::CodeBlock { language, code } => "```"@ + (match language {
            Some(l) => l,
            None => seq![],
        }) + "\n"@ + closed_line(code) + "```\n\n"@,
        SpecBlock::List { ordered, start, items } => items_md(
            items,
            ordered,
            match start {
                Some(n) => n as nat,
                None => 1,
            },
            items.len(),
        ) + "\n"@,
        SpecBlock::ThematicBreak => "---\n\n"@,
        SpecBlock::Table { alignments, header, rows } => row_md(header) + "|"@ + alignments_md(
            alignments,
        ) + "\n"@ + rows_md(rows) + "\n"@,
        SpecBlock::HtmlBlock(h) => closed_line(h) + "\n"@,
    }
}

/// Markdown of a block sequence: each block's text, in order.
pub open spec fn blocks_md(s: Seq<SpecBlock>) -> Seq<char>
    decreases s, 1int,
{
    if s.len() == 0 {
        seq![]
    } else {
        blocks_md(s.drop_last()) + block_md(s.last())
    }
}

fn ends_with_newline(s: &str) -> (r: bool)
    ensures
        r == ends_in_newline(s@),
{
    let cs = chars_of(s);
    cs.len() > 0 && cs[cs.len() - 1] == '\n'
}

fn render_target(out: &mut String, url: &String, title: &String)
    ensures
        final(out)@ == old(out)@ + target_md(url@, title@),
{
    let ghost start = out@;
    out.append("](");
    out.append(url.as_str());
    let ghost mid = out@;
    if title.as_str().unicode_len() != 0 {
        out.append(" \"");
        out.append(title.as_str());
        out.append("\"");
        assert(out@ =~= mid + (" \""@ + title@ + "\""@));
    } else {
        assert(out@ =~= mid + Seq::<char>::empty());
    }
    out.append(")");
    assert(out@ =~= start + target_md(url@, title@));
}

fn render_inline(out: &mut String, inline: &Inline)
    ensures
        final(out)@ == old(out)@ + inline_md(inline@),
    decreases inline, 1int,
{
    let ghost start = out@;
    match inline {
        Inline::Text(t) => {
            out.append(t.as_str());
        },
        Inline::Code(c) => {
            out.append("`");
            out.append(c.as_str());
            out.append("`");
            assert(out@ =~= start + inline_md(inline@));
        },
        Inline::Emphasis(v) => {
            out.append("*");
            render_inlines(out, v);
            out.append("*");
            assert(out@ =~= start + inline_md(inline@));
        },
        Inline::Strong(v) => {
            out.append("**");
            render_inlines(out, v);
            out.append("**");
            assert(out@ =~= start + inline_md(inline@));
        },
        Inline::Strikethrough(v) => {
            out.append("~~");
            render_inlines(out, v);
            out.append("~~");
            assert(out@ =~= start + inline_md(inline@));
        },
        Inline::Link { url, title, content } => {
            out.append("[");
            render_inlines(out, content);
            render_target(out, url, title);
            assert(out@ =~= start + inline_md(inline@));
        },
        Inline::Image { url, title, alt } => {
            out.append("![");
            render_inlines(out, alt);
            render_target(out, url, title);
            assert(out@ =~= start + inline_md(inline@));
        },
        Inline::SoftBreak => {
            out.append("\n");
        },
        Inline::HardBreak => {
            out.append("  \n");
        },
        Inline::Html(h) => {
            out.append(h.as_str());
        },
    }
}

fn render_inlines(out: &mut String, inlines: &Vec<Inline>)
    ensures
        final(out)@ == old(out)@ + inlines_md(inlines_view(inlines@)),
    decreases inlines, 0int,
{
    let ghost start = out@;
    let ghost sv = inlines_view(inlines@);
    let mut k: usize = 0;
    while k < inlines.len()
        invariant
            k <= inlines.len(),
            sv == inlines_view(inlines@),
            out@ == start + inlines_md(sv.take(k as int)),
        decreases inlines.len() - k,
    {
        render_inline(out, &inlines[k]);
        assert(sv.take(k + 1).drop_last() =~= sv.take(k as int));
        assert(out@ =~= start + inlines_md(sv.take(k + 1)));
        k = k + 1;
    }
    assert(sv.take(k as int) =~= sv);
}

fn render_row(out: &mut String, cells: &Vec<Vec<Inline>>)
    ensures
        final(out)@ == old(out)@ + row_md(cells_view(cells@)),
{
    let ghost start = out@;
    let ghost cv = cells_view(cells@);
    out.append("|");
    let mut k: usize = 0;
    while k < cells.len()
        invariant
            k <= cells.len(),
            cv == cells_view(cells@),
            out@ == start + "|"@ + cells_md(cv.take(k as int)),
        decreases cells.len() - k,
    {
        out.append(" ");
        render_inlines(out, &cells[k]);
        out.append(" |");
        assert(cv.take(k + 1).drop_last() =~= cv.take(k as int));
        assert(out@ =~= start + "|"@ + cells_md(cv.take(k + 1)));
        k = k + 1;
    }
    assert(cv.take(k as int) =~= cv);
    out.append("\n");
    assert(out@ =~= start + row_md(cv));
}

fn render_quote_lines(out: &mut String, lines: &Vec<Vec<char>>)
    ensures
        final(out)@ == old(out)@ + quote_lines(lines_view(lines@)),
{
    let ghost start = out@;
    let ghost lv = lines_view(lines@);
    let mut k: usize = 0;
    while k < lines.len()
        invariant
            k <= lines.len(),
            lv == lines_view(lines@),
            out@ == start + quote_lines(lv.take(k as int)),
        decreases lines.len() - k,
    {
        if lines[k].len() == 0 {
            out.append(">\n");
        } else {
            out.append("> ");
            push_chars(out, &lines[k]);
            out.append("\n");
        }
        assert(lv.take(k + 1).drop_last() =~= lv.take(k as int));
        assert(out@ =~= start + quote_lines(lv.take(k + 1)));
        k = k + 1;
    }
    assert(lv.take(k as int) =~= lv);
}

fn render_item_lines(out: &mut String, lines: &Vec<Vec<char>>)
    requires
        lines.len() >= 1,
    ensures
        final(out)@ == old(out)@ + item_lines(lines_view(lines@)),
{
    let ghost start = out@;
    let ghost lv = lines_view(lines@);
    push_chars(out, &lines[0]);
    out.append("\n");
    assert(lv.take(1).len() == 1);
    assert(out@ =~= start + item_lines(lv.take(1)));
    let mut k: usize = 1;
    while k < lines.len()
        invariant
            1 <= k <= lines.len(),
            lv == lines_view(lines@),
            out@ == start + item_lines(lv.take(k as int)),
        decreases lines.len() - k,
    {
        if lines[k].len() == 0 {
            out.append("\n");
        } else {
            out.append("  ");
            push_chars(out, &lines[k]);
            out.append("\n");
        }
        assert(lv.take(k + 1).drop_last() =~= lv.take(k as int));
        assert(out@ =~= start + item_lines(lv.take(k + 1)));
        k = k + 1;
    }
    assert(lv.take(k as int) =~= lv);
}

fn render_quote(out: &mut String, inner: &Vec<Block>)
    ensures
        final(out)@ == old(out)@ + block_md(SpecBlock::BlockQuote(blocks_view(inner@))),
    decreases inner, 2int,
{
    let ghost start = out@;
    let mut inner_md = String::new();
    render_blocks(&mut inner_md, inner);
    assert(inner_md@ =~= blocks_md(blocks_view(inner@)));
    let lines = trimmed_lines(inner_md.as_str());
    render_quote_lines(out, &lines);
    out.append("\n");
    assert(out@ =~= start + block_md(SpecBlock::BlockQuote(blocks_view(inner@))));
}

fn render_list(out: &mut String, ordered: bool, first: Option<u64>, items: &Vec<Vec<Block>>)
    ensures
        final(out)@ == old(out)@ + block_md(
            SpecBlock::List { ordered, start: first, items: items_view(items@) },
        ),
    decreases items, 2int,
{
    let ghost start = out@;
    let start_num: u64 = match first {
        Some(n) => n,
        None => 1,
    };
    let ghost iv = items_view(items@);
    let mut j: usize = 0;
    while j < items.len()
        invariant
            j <= items.len(),
            iv == items_view(items@),
            out@ == start + items_md(iv, ordered, start_num as nat, j as nat),
        decreases items.len() - j,
    {
        let ghost before = out@;
        if ordered {
            let number = decimal_string(start_num as u128 + j as u128);
            out.append(number.as_str());
            out.append(". ");
        } else {
            out.append("- ");
        }
        assert(out@ =~= before + list_marker(ordered, (start_num + j) as nat));
        let mut item_md = String::new();
        render_blocks(&mut item_md, &items[j]);
        assert(item_md@ =~= blocks_md(iv[j as int]));
        let lines = trimmed_lines(item_md.as_str());
        proof {
            lemma_split_lines_nonempty(trim_newlines(item_md@));
        }
        render_item_lines(out, &lines);
        assert(out@ =~= start + items_md(iv, ordered, start_num as nat, (j + 1) as nat));
        j = j + 1;
    }
    out.append("\n");
    assert(out@ =~= start + block_md(
        SpecBlock::List { ordered, start: first, items: items_view(items@) },
    ));
}

fn render_table(
    out: &mut String,
    alignments: &Vec<Alignment>,
    header: &Vec<Vec<Inline>>,
    rows: &Vec<Vec<Vec<Inline>>>,
)
    ensures
        final(out)@ == old(out)@ + block_md(
            SpecBlock::Table {
                alignments: alignments@,
                header: cells_view(header@),
                rows: rows_view(rows@),
            },
        ),
{
    let ghost start = out@;
    render_row(out, header);
    out.append("|");
    let ghost mid = out@;
    let mut k: usize = 0;
    while k < alignments.len()
        invariant
            k <= alignments.len(),
            out@ == mid + alignments_md(alignments@.take(k as int)),
        decreases alignments.len() - k,
    {
        match alignments[k] {
            Alignment::Unspecified => out.append(" --- |"),
            Alignment::Left => out.append(" :-- |"),
            Alignment::Center => out.append(" :-: |"),
            Alignment::Right => out.append(" --: |"),
        }
        assert(alignments@.take(k + 1).drop_last() =~= alignments@.take(k as int));
        assert(out@ =~= mid + alignments_md(alignments@.take(k + 1)));
        k = k + 1;
    }
    assert(alignments@.take(k as int) =~= alignments@);
    out.append("\n");
    let ghost rv = rows_view(rows@);
    let ghost mid2 = out@;
    let mut r: usize = 0;
    while r < rows.len()
        invariant
            r <= rows.len(),
            rv == rows_view(rows@),
            out@ == mid2 + rows_md(rv.take(r as int)),
        decreases rows.len() - r,
    {
        render_row(out, &rows[r]);
        assert(rv.take(r + 1).drop_last() =~= rv.take(r as int));
        assert(out@ =~= mid2 + rows_md(rv.take(r + 1)));
        r = r + 1;
    }
    assert(rv.take(r as int) =~= rv);
    out.append("\n");
    assert(out@ =~= start + block_md(
        SpecBlock::Table {
            alignments: alignments@,
            header: cells_view(header@),
            rows: rows_view(rows@),
        },
    ));
}

fn render_code(out: &mut String, language: &Option<String>, code: &String)
    ensures
        final(out)@ == old(out)@ + block_md(
            SpecBlock::CodeBlock { language: opt_str_view(*language), code: code@ },
        ),
{
    let ghost start = out@;
    out.append("```");
    let ghost after_fence = out@;
    match language {
        Some(l) => {
            out.append(l.as_str());
        },
        None => {
            assert(out@ =~= after_fence + Seq::<char>::empty());
        },
    }
    out.append("\n");
    out.append(code.as_str());
    if !ends_with_newline(code.as_str()) {
        push_char(out, '\n');
    }
    out.append("```\n\n");
    assert(out@ =~= start + block_md(
        SpecBlock::CodeBlock { language: opt_str_view(*language), code: code@ },
    ));
}

fn render_block(out: &mut String, block: &Block)
    ensures
        final(out)@ == old(out)@ + block_md(block@),
    decreases block, 3int,
{
    let ghost start = out@;
    match block {
        Block::Paragraph(v) => {
            render_inlines(out, v);
            out.append("\n\n");
            assert(out@ =~= start + block_md(block@));
        },
        Block::Heading { level, content } => {
            let mut k: u8 = 0;
            while k < *level
                invariant
                    k <= *level,
                    out@ == start + hashes(k as nat),
                decreases *level - k,
            {
                push_char(out, '#');
                k = k + 1;
            }
            out.append(" ");
            render_inlines(out, content);
            out.append("\n\n");
            assert(out@ =~= start + block_md(block@));
        },
        Block::BlockQuote(inner) => render_quote(out, inner),
        Block::CodeBlock { language, code } => render_code(out, language, code),
        Block::List { ordered, start: first, items } => render_list(out, *ordered, *first, items),
        Block::ThematicBreak => {
            out.append("---\n\n");
        },
        Block::Table { alignments, header, rows } => render_table(out, alignments, header, rows),
        Block::HtmlBlock(h) => {
            out.append(h.as_str());
            if !ends_with_newline(h.as_str()) {
                push_char(out, '\n');
            }
            out.append("\n");
            assert(out@ =~= start + block_md(block@));
        },
    }
}

fn render_blocks(out: &mut String, blocks: &Vec<Block>)
    ensures
        final(out)@ == old(out)@ + blocks_md(blocks_view(blocks@)),
    decreases blocks, 1int,
{
    let ghost start = out@;
    let ghost bv = blocks_view(blocks@);
    let mut k: usize = 0;
    while k < blocks.len()
        invariant
            k <= blocks.len(),
            bv == blocks_view(blocks@),
            out@ == start + blocks_md(bv.take(k as int)),
        decreases blocks.len() - k,
    {
        render_block(out, &blocks[k]);
        assert(bv.take(k + 1).drop_last() =~= bv.take(k as int));
        assert(out@ =~= start + blocks_md(bv.take(k + 1)));
        k = k + 1;
    }
    assert(bv.take(k as int) =~= bv);
}

/// Render a block sequence back to Markdown text.
pub fn render_to_markdown(blocks: &Vec<Block>) -> (r: String)
    ensures
        r@ == blocks_md(blocks_view(blocks@)),
{
    let mut out = String::new();
    render_blocks(&mut out, blocks);
    out
}

proof fn lemma_split_lines_no_break(l: Seq<char>)
    requires
        !l.contains('\n'),
    ensures
        split_lines(l) == seq![l],
    decreases l.len(),
{
    if l.len() > 0 {
        assert(!l.drop_last().contains('\n')) by {
            if l.drop_last().contains('\n') {
                let i = choose|i: int| 0 <= i < l.drop_last().len() && l.drop_last()[i] == '\n';
                assert(l[i] == '\n');
            }
        }
        lemma_split_lines_no_break(l.drop_last());
        assert(l.last() != '\n') by {
            assert(l[l.len() - 1] == l.last());
        }
        assert(l.drop_last().push(l.last()) =~= l);
        assert(seq![l.drop_last()].update(0, l.drop_last().push(l.last())) =~= seq![l]);
    } else {
        assert(l =~= Seq::<char>::empty());
    }
}

/// Splitting after a line break: the lines of `a` but its last (empty) one,
/// then the lines of `b`.
proof fn lemma_split_lines_append(a: Seq<char>, b: Seq<char>)
    requires
        a.len() == 0 || a.last() == '\n',
    ensures
        split_lines(a + b) == split_lines(a).drop_last() + split_lines(b),
    decreases b.len(),
{
    lemma_split_lines_nonempty(a);
    if b.len() == 0 {
        assert(a + b =~= a);
        if a.len() == 0 {
            assert(split_lines(a).drop_last() + split_lines(b) =~= split_lines(a));
        } else {
            assert(a.drop_last() + seq![] =~= a.drop_last());
            assert(split_lines(a) == split_lines(a.drop_last()).push(seq![]));
            assert(split_lines(a).drop_last() + split_lines(b) =~= split_lines(a));
        }
    } else {
        lemma_split_lines_append(a, b.drop_last());
        lemma_split_lines_nonempty(b.drop_last());
        assert((a + b).drop_last() =~= a + b.drop_last());
        assert((a + b).last() == b.last());
        let r = split_lines(a + b.drop_last());
        let rb = split_lines(b.drop_last());
        let pre = split_lines(a).drop_last();
        if b.last() == '\n' {
            assert(r.push(seq![]) =~= pre + rb.push(seq![]));
        } else {
            assert(r.update(r.len() - 1, r.last().push(b.last())) =~= pre + rb.update(
                rb.len() - 1,
                rb.last().push(b.last()),
            ));
        }
    }
}

pub proof fn lemma_split_lines_no_breaks_inside(t: Seq<char>)
    ensures
        forall|i: int| 0 <= i < split_lines(t).len() ==> !(#[trigger] split_lines(t)[i]).contains('\n'),
    decreases t.len(),
{
    if t.len() > 0 {
        lemma_split_lines_no_breaks_inside(t.drop_last());
        lemma_split_lines_nonempty(t.drop_last());
        let r = split_lines(t.drop_last());
        if t.last() != '\n' {
            let l = r.last().push(t.last());
            assert(!l.contains('\n')) by {
                if l.contains('\n') {
                    let j = choose|j: int| 0 <= j < l.len() && l[j] == '\n';
                    if j < r.last().len() {
                        assert(r[r.len() - 1][j] == '\n');
                    }
                }
            }
            assert forall|i: int| 0 <= i < split_lines(t).len() implies !(#[trigger] split_lines(
                t,
            )[i]).contains('\n') by {
                if i < r.len() - 1 {
                    assert(split_lines(t)[i] == r[i]);
                }
            }
        } else {
            assert forall|i: int| 0 <= i < split_lines(t).len() implies !(#[trigger] split_lines(
                t,
            )[i]).contains('\n') by {
                if i < r.len() {
                    assert(split_lines(t)[i] == r[i]);
                } else {
                    assert(split_lines(t)[i] =~= Seq::<char>::empty());
                }
            }
        }
    }
}

/// The lines of quoted text: each input line with its quote prefix, then
/// the empty line after the last break.
proof fn lemma_quote_lines_split(lines: Seq<Seq<char>>)
    requires
        forall|i: int| 0 <= i < lines.len() ==> !(#[trigger] lines[i]).contains('\n'),
    ensures
        split_lines(quote_lines(lines)) == Seq::new(
            lines.len(),
            |i: int| quote_line(lines[i]).drop_last(),
        ).push(seq![]),
    decreases lines.len(),
{
    reveal_strlit(">\n");
    reveal_strlit("> ");
    reveal_strlit("\n");
    if lines.len() == 0 {
        assert(Seq::new(0, |i: int| quote_line(lines[i]).drop_last()).push(seq![]) =~= seq![
            Seq::<char>::empty(),
        ]);
    } else {
        let prev = lines.drop_last();
        lemma_quote_lines_split(prev);
        let q = quote_lines(prev);
        let l = lines.last();
        let ql = quote_line(l);
        assert(q.len() == 0 || q.last() == '\n') by {
            if prev.len() > 0 {
                let pl = quote_line(prev.last());
                assert(q == quote_lines(prev.drop_last()) + pl);
                assert(pl.last() == '\n');
            }
        }
        lemma_split_lines_append(q, ql);
        assert(ql == ql.drop_last().push('\n'));
        assert(!ql.drop_last().contains('\n')) by {
            if ql.drop_last().contains('\n') {
                let j = choose|j: int| 0 <= j < ql.drop_last().len() && ql.drop_last()[j] == '\n';
                if l.len() > 0 {
                    assert(ql.drop_last() =~= "> "@ + l);
                    assert(l[j - 2] == '\n');
                    assert(lines[lines.len() - 1] == l);
                } else {
                    assert(ql.drop_last() =~= ">"@);
                }
            }
        }
        lemma_split_lines_no_break(ql.drop_last());
        assert(split_lines(ql) == seq![ql.drop_last(), Seq::<char>::empty()]);
        assert(Seq::new(prev.len(), |i: int| quote_line(prev[i]).drop_last()).push(seq![]).drop_last()
            + seq![ql.drop_last(), Seq::<char>::empty()] =~= Seq::new(
            lines.len(),
            |i: int| quote_line(lines[i]).drop_last(),
        ).push(seq![]));
    }
}

/// A block quote renders as lines that all begin with `>`, followed by the
/// blank line that closes the block: no quoted line is left without its
/// prefix, however the quoted blocks render.
pub proof fn lemma_quote_lines_prefixed(inner: Seq<SpecBlock>)
    ensures
        ({
            let lines = split_lines(block_md(SpecBlock::BlockQuote(inner)));
            &&& lines.len() >= 3
            &&& lines[lines.len() - 1].len() == 0
            &&& lines[lines.len() - 2].len() == 0
            &&& forall|i: int| 0 <= i < lines.len() - 2 ==> (#[trigger] lines[i]).len() > 0
                && lines[i][0] == '>'
        }),
{
    reveal_strlit(">\n");
    reveal_strlit("> ");
    reveal_strlit("\n");
    let body = split_lines(trim_newlines(blocks_md(inner)));
    lemma_split_lines_nonempty(trim_newlines(blocks_md(inner)));
    lemma_split_lines_no_breaks_inside(trim_newlines(blocks_md(inner)));
    lemma_quote_lines_split(body);
    let q = quote_lines(body);
    assert(q.len() == 0 || q.last() == '\n') by {
        let pl = quote_line(body.last());
        assert(q == quote_lines(body.drop_last()) + pl);
        assert(pl.last() == '\n');
    }
    lemma_split_lines_append(q, "\n"@);
    assert(split_lines("\n"@) =~= seq![Seq::<char>::empty(), Seq::<char>::empty()]) by {
        assert("\n"@ =~= seq!['\n']);
        assert(seq!['\n'].drop_last() =~= Seq::<char>::empty());
        assert(split_lines(Seq::<char>::empty()) == seq![Seq::<char>::empty()]);
    }
    let all = split_lines(block_md(SpecBlock::BlockQuote(inner)));
    let heads = Seq::new(body.len(), |i: int| quote_line(body[i]).drop_last());
    assert(all =~= heads + seq![Seq::<char>::empty(), Seq::<char>::empty()]);
    assert forall|i: int| 0 <= i < all.len() - 2 implies (#[trigger] all[i]).len() > 0 && all[i][0]
        == '>' by {
        assert(all[i] == heads[i]);
        if body[i].len() == 0 {
            reveal_strlit(">");
            assert(quote_line(body[i]).drop_last() =~= ">"@);
        } else {
            assert(quote_line(body[i]).drop_last() =~= "> "@ + body[i]);
        }
    }
}

} // verus!
