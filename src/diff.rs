//! Structure-aware diff of two documents.

use vstd::prelude::*;
use crate::ast::{
    Block, Inline, SpecBlock, SpecInline, inlines_view, blocks_view, cells_view, rows_view, items_view,
    copy_inlines, copy_block,
};
use crate::words::{flat_text, inline_text};
use crate::parse::{parse, parsed};
use crate::render::{render_to_markdown, blocks_md, block_md, lemma_quote_lines_prefixed};
use crate::text::split_lines;
use crate::text::trim_newlines_string;
use crate::text::trim_newlines;
use crate::lcs::{
    DiffOp, diff_sequences, backtrack, views, ops_view, op_view, olds, news,
    lemma_backtrack_reconstructs,
};
use crate::words::{words, join_words, strs_view, split_words, join_with_spaces, is_white};

verus! {

/// A word token: a code span inside a code diff, plain text elsewhere.
pub open spec fn leaf(code: bool, s: Seq<char>) -> SpecInline {
    if code {
        SpecInline::Code(s)
    } else {
        SpecInline::Text(s)
    }
}

/// `acc` followed by a separating space, unless it is empty.
pub open spec fn spaced(acc: Seq<SpecInline>) -> Seq<SpecInline> {
    if acc.len() > 0 {
        acc.push(SpecInline::Text(" "@))
    } else {
        acc
    }
}

/// Emit the pending removed run (struck through), then the pending added
/// run (strong), each as one span of its words joined by spaces.
pub open spec fn flush_runs(
    acc: Seq<SpecInline>,
    removed: Seq<Seq<char>>,
    added: Seq<Seq<char>>,
    code: bool,
) -> Seq<SpecInline> {
    let a1 = if removed.len() > 0 {
        spaced(acc).push(SpecInline::Strikethrough(seq![leaf(code, join_words(removed))]))
    } else {
        acc
    };
    if added.len() > 0 {
        spaced(a1).push(SpecInline::Strong(seq![leaf(code, join_words(added))]))
    } else {
        a1
    }
}

/// Inline content for an alignment of words: equal words as plain tokens,
/// each maximal run of removed or added words collapsed into one span.
pub open spec fn collapse(
    ops: Seq<DiffOp<Seq<char>>>,
    acc: Seq<SpecInline>,
    removed: Seq<Seq<char>>,
    added: Seq<Seq<char>>,
    code: bool,
) -> Seq<SpecInline>
    decreases ops.len(),
{
    if ops.len() == 0 {
        flush_runs(acc, removed, added, code)
    } else {
        let rest = ops.drop_first();
        match ops[0] {
            DiffOp::Equal(w) => collapse(
                rest,
                spaced(flush_runs(acc, removed, added, code)).push(leaf(code, w)),
                seq![],
                seq![],
                code,
            ),
            DiffOp::Remove(w) => collapse(rest, acc, removed.push(w), added, code),
            DiffOp::Add(w) => collapse(rest, acc, removed, added.push(w), code),
        }
    }
}

/// Word-level diff of two word streams.
pub open spec fn word_diff(old: Seq<Seq<char>>, new: Seq<Seq<char>>, code: bool) -> Seq<SpecInline> {
    collapse(backtrack(old, new, old.len(), new.len()), seq![], seq![], seq![], code)
}

fn leaf_node(code: bool, s: String) -> (r: Inline)
    ensures
        r@ == leaf(code, s@),
{
    if code {
        Inline::Code(s)
    } else {
        Inline::Text(s)
    }
}

fn push_space(acc: &mut Vec<Inline>)
    ensures
        inlines_view(final(acc)@) == spaced(inlines_view(old(acc)@)),
{
    if acc.len() > 0 {
        let ghost before = inlines_view(acc@);
        acc.push(Inline::Text(String::from_str(" ")));
        assert(inlines_view(acc@) =~= before.push(SpecInline::Text(" "@)));
    }
}

fn flush_word_runs(
    acc: &mut Vec<Inline>,
    removed: &mut Vec<String>,
    added: &mut Vec<String>,
    code: bool,
)
    ensures
        inlines_view(final(acc)@) == flush_runs(
            inlines_view(old(acc)@),
            strs_view(old(removed)@),
            strs_view(old(added)@),
            code,
        ),
        final(removed)@.len() == 0,
        final(added)@.len() == 0,
{
    let ghost rv = strs_view(removed@);
    let ghost av = strs_view(added@);
    if removed.len() > 0 {
        push_space(acc);
        let ghost before = inlines_view(acc@);
        let joined = join_with_spaces(removed);
        let ghost jv = joined@;
        let content = vec![leaf_node(code, joined)];
        assert(inlines_view(content@) =~= seq![leaf(code, jv)]);
        let node = Inline::Strikethrough(content);
        acc.push(node);
        assert(inlines_view(acc@) =~= before.push(
            SpecInline::Strikethrough(seq![leaf(code, join_words(rv))]),
        ));
        *removed = Vec::new();
    }
    let ghost mid = inlines_view(acc@);
    if added.len() > 0 {
        push_space(acc);
        let ghost before = inlines_view(acc@);
        let joined = join_with_spaces(added);
        let ghost jv = joined@;
        let content = vec![leaf_node(code, joined)];
        assert(inlines_view(content@) =~= seq![leaf(code, jv)]);
        let node = Inline::Strong(content);
        acc.push(node);
        assert(inlines_view(acc@) =~= before.push(
            SpecInline::Strong(seq![leaf(code, join_words(av))]),
        ));
        *added = Vec::new();
    }
    *removed = Vec::new();
}

/// Word-level diff of two word lists, as inline content.
pub fn diff_words(old_words: &Vec<String>, new_words: &Vec<String>, code: bool) -> (r: Vec<Inline>)
    ensures
        inlines_view(r@) == word_diff(strs_view(old_words@), strs_view(new_words@), code),
{
    let ops = diff_sequences(old_words.as_slice(), new_words.as_slice());
    assert(views(old_words@) =~= strs_view(old_words@));
    assert(views(new_words@) =~= strs_view(new_words@));
    let ghost opsv = ops_view(ops@);
    let mut acc: Vec<Inline> = Vec::new();
    let mut removed: Vec<String> = Vec::new();
    let mut added: Vec<String> = Vec::new();
    let mut k: usize = 0;
    assert(opsv.skip(0) =~= opsv);
    assert(inlines_view(acc@) =~= Seq::<SpecInline>::empty());
    assert(strs_view(removed@) =~= Seq::<Seq<char>>::empty());
    assert(strs_view(added@) =~= Seq::<Seq<char>>::empty());
    while k < ops.len()
        invariant
            k <= ops.len(),
            opsv == ops_view(ops@),
            collapse(opsv, seq![], seq![], seq![], code) == collapse(
                opsv.skip(k as int),
                inlines_view(acc@),
                strs_view(removed@),
                strs_view(added@),
                code,
            ),
        decreases ops.len() - k,
    {
        assert(opsv.skip(k as int).drop_first() =~= opsv.skip(k + 1));
        assert(opsv.skip(k as int)[0] == opsv[k as int]);
        match ops[k] {
            DiffOp::Equal(w) => {
                flush_word_runs(&mut acc, &mut removed, &mut added, code);
                push_space(&mut acc);
                let ghost before = inlines_view(acc@);
                acc.push(leaf_node(code, w.clone()));
                assert(inlines_view(acc@) =~= before.push(leaf(code, w@)));
                assert(strs_view(removed@) =~= Seq::<Seq<char>>::empty());
                assert(strs_view(added@) =~= Seq::<Seq<char>>::empty());
            },
            DiffOp::Remove(w) => {
                let ghost before = strs_view(removed@);
                removed.push(w.clone());
                assert(strs_view(removed@) =~= before.push(w@));
            },
            DiffOp::Add(w) => {
                let ghost before = strs_view(added@);
                added.push(w.clone());
                assert(strs_view(added@) =~= before.push(w@));
            },
        }
        k = k + 1;
    }
    flush_word_runs(&mut acc, &mut removed, &mut added, code);
    acc
}

/// The marker span: struck through for removed content, strong for added.
pub open spec fn mark(removed: bool, v: Seq<SpecInline>) -> SpecInline {
    if removed {
        SpecInline::Strikethrough(v)
    } else {
        SpecInline::Strong(v)
    }
}

pub open spec fn mark_cells(cells: Seq<Seq<SpecInline>>, removed: bool) -> Seq<Seq<SpecInline>> {
    Seq::new(cells.len(), |k: int| seq![mark(removed, cells[k])])
}

/// A whole block marked as removed (or added): inline content wrapped in
/// one marker span, quotes and lists marked child by child, tables cell by
/// cell, and a code block, thematic break or HTML block shown as a
/// paragraph holding its marked text.
pub open spec fn wrap_block(b: SpecBlock, removed: bool) -> SpecBlock
    decreases b, 2int,
{
    match b {
        SpecBlock::Paragraph(v) => SpecBlock::Paragraph(seq![mark(removed, v)]),
        SpecBlock::Heading { level, content } => SpecBlock::Heading {
            level,
            content: seq![mark(removed, content)],
        },
        SpecBlock::CodeBlock { code, .. } => SpecBlock::Paragraph(
            seq![mark(removed, seq![SpecInline::Code(trim_newlines(code))])],
        ),
        SpecBlock::BlockQuote(inner) => SpecBlock::BlockQuote(wrap_blocks(inner, removed)),
        SpecBlock::List { ordered, start, items } => SpecBlock::List {
            ordered,
            start,
            items: wrap_items(items, removed),
        },
        SpecBlock::ThematicBreak => SpecBlock::Paragraph(
            seq![mark(removed, seq![SpecInline::Text("---"@)])],
        ),
        SpecBlock::Table { alignments, header, rows } => SpecBlock::Table {
            alignments,
            header: mark_cells(header, removed),
            rows: Seq::new(rows.len(), |k: int| mark_cells(rows[k], removed)),
        },
        SpecBlock::HtmlBlock(h) => SpecBlock::Paragraph(
            seq![mark(removed, seq![SpecInline::Text(h)])],
        ),
    }
}

pub open spec fn wrap_blocks(s: Seq<SpecBlock>, removed: bool) -> Seq<SpecBlock>
    decreases s, 1int,
{
    Seq::new(
        s.len(),
        |k: int|
            if 0 <= k < s.len() {
                wrap_block(s[k], removed)
            } else {
                SpecBlock::ThematicBreak
            },
    )
}

pub open spec fn wrap_items(s: Seq<Seq<SpecBlock>>, removed: bool) -> Seq<Seq<SpecBlock>>
    decreases s, 0int,
{
    Seq::new(s.len(), |k: int| if 0 <= k < s.len() { wrap_blocks(s[k], removed) } else { seq![] })
}

fn mark_node(removed: bool, v: Vec<Inline>) -> (r: Inline)
    ensures
        r@ == mark(removed, inlines_view(v@)),
{
    if removed {
        Inline::Strikethrough(v)
    } else {
        Inline::Strong(v)
    }
}

fn one_marked(removed: bool, v: Vec<Inline>) -> (r: Vec<Inline>)
    ensures
        inlines_view(r@) == seq![mark(removed, inlines_view(v@))],
{
    let r = vec![mark_node(removed, v)];
    assert(inlines_view(r@) =~= seq![mark(removed, inlines_view(v@))]);
    r
}

fn mark_cells_exec(cells: &Vec<Vec<Inline>>, removed: bool) -> (r: Vec<Vec<Inline>>)
    ensures
        cells_view(r@) == mark_cells(cells_view(cells@), removed),
{
    let mut r: Vec<Vec<Inline>> = Vec::new();
    let mut k: usize = 0;
    while k < cells.len()
        invariant
            k <= cells.len(),
            r.len() == k,
            forall|q: int|
                0 <= q < k ==> inlines_view(#[trigger] r@[q]@) == seq![
                    mark(removed, inlines_view(cells@[q]@)),
                ],
        decreases cells.len() - k,
    {
        r.push(one_marked(removed, copy_inlines(&cells[k])));
        k = k + 1;
    }
    assert(cells_view(r@) =~= mark_cells(cells_view(cells@), removed));
    r
}

fn wrap_block_exec(block: &Block, removed: bool) -> (r: Block)
    ensures
        r@ == wrap_block(block@, removed),
    decreases block, 2int,
{
    match block {
        Block::Paragraph(v) => Block::Paragraph(one_marked(removed, copy_inlines(v))),
        Block::Heading { level, content } => Block::Heading {
            level: *level,
            content: one_marked(removed, copy_inlines(content)),
        },
        Block::CodeBlock { code, .. } => {
            let trimmed = trim_newlines_string(code.as_str());
            let ghost tv = trimmed@;
            let inner = vec![Inline::Code(trimmed)];
            assert(inlines_view(inner@) =~= seq![SpecInline::Code(tv)]);
            Block::Paragraph(one_marked(removed, inner))
        },
        Block::BlockQuote(inner) => Block::BlockQuote(wrap_blocks_exec(inner, removed)),
        Block::List { ordered, start, items } => Block::List {
            ordered: *ordered,
            start: *start,
            items: wrap_items_exec(items, removed),
        },
        Block::ThematicBreak => {
            let inner = vec![Inline::Text(String::from_str("---"))];
            assert(inlines_view(inner@) =~= seq![SpecInline::Text("---"@)]);
            Block::Paragraph(one_marked(removed, inner))
        },
        Block::Table { alignments, header, rows } => {
            let mut new_rows: Vec<Vec<Vec<Inline>>> = Vec::new();
            let mut k: usize = 0;
            while k < rows.len()
                invariant
                    k <= rows.len(),
                    new_rows.len() == k,
                    forall|q: int|
                        0 <= q < k ==> cells_view(#[trigger] new_rows@[q]@) == mark_cells(
                            cells_view(rows@[q]@),
                            removed,
                        ),
                decreases rows.len() - k,
            {
                new_rows.push(mark_cells_exec(&rows[k], removed));
                k = k + 1;
            }
            let ghost rv = rows_view(rows@);
            assert(rows_view(new_rows@) =~= Seq::new(
                rv.len(),
                |k: int| mark_cells(rv[k], removed),
            ));
            Block::Table {
                alignments: alignments.clone(),
                header: mark_cells_exec(header, removed),
                rows: new_rows,
            }
        },
        Block::HtmlBlock(h) => {
            let inner = vec![Inline::Text(h.clone())];
            assert(inlines_view(inner@) =~= seq![SpecInline::Text(h@)]);
            Block::Paragraph(one_marked(removed, inner))
        },
    }
}

fn wrap_blocks_exec(blocks: &Vec<Block>, removed: bool) -> (r: Vec<Block>)
    ensures
        blocks_view(r@) == wrap_blocks(blocks_view(blocks@), removed),
    decreases blocks, 1int,
{
    let mut r: Vec<Block> = Vec::new();
    let mut k: usize = 0;
    while k < blocks.len()
        invariant
            k <= blocks.len(),
            r.len() == k,
            forall|q: int|
                0 <= q < k ==> (#[trigger] r@[q])@ == wrap_block(blocks@[q]@, removed),
        decreases blocks.len() - k,
    {
        r.push(wrap_block_exec(&blocks[k], removed));
        k = k + 1;
    }
    assert(blocks_view(r@) =~= wrap_blocks(blocks_view(blocks@), removed));
    r
}

fn wrap_items_exec(items: &Vec<Vec<Block>>, removed: bool) -> (r: Vec<Vec<Block>>)
    ensures
        items_view(r@) == wrap_items(items_view(items@), removed),
    decreases items, 0int,
{
    let mut r: Vec<Vec<Block>> = Vec::new();
    let mut k: usize = 0;
    while k < items.len()
        invariant
            k <= items.len(),
            r.len() == k,
            forall|q: int|
                0 <= q < k ==> blocks_view(#[trigger] r@[q]@) == wrap_blocks(
                    blocks_view(items@[q]@),
                    removed,
                ),
        decreases items.len() - k,
    {
        r.push(wrap_blocks_exec(&items[k], removed));
        k = k + 1;
    }
    assert(items_view(r@) =~= wrap_items(items_view(items@), removed));
    r
}

/// Mark a whole block as removed.
pub fn wrap_block_removed(block: &Block) -> (r: Block)
    ensures
        r@ == wrap_block(block@, true),
{
    wrap_block_exec(block, true)
}

/// Mark a whole block as added.
pub fn wrap_block_added(block: &Block) -> (r: Block)
    ensures
        r@ == wrap_block(block@, false),
{
    wrap_block_exec(block, false)
}

/// Blocks of the same shape can be diffed inside: paragraphs, headings (of
/// any level), block quotes and code blocks (of any language).
pub open spec fn same_shape(a: SpecBlock, b: SpecBlock) -> bool {
    (a is Paragraph && b is Paragraph) || (a is Heading && b is Heading) || (a is BlockQuote
        && b is BlockQuote) || (a is CodeBlock && b is CodeBlock)
}

/// Check if two blocks are the same variant (suitable for inline diffing).
pub fn same_variant(a: &Block, b: &Block) -> (r: bool)
    ensures
        r == same_shape(a@, b@),
{
    match (a, b) {
        (Block::Paragraph(_), Block::Paragraph(_)) => true,
        (Block::Heading { .. }, Block::Heading { .. }) => true,
        (Block::BlockQuote(_), Block::BlockQuote(_)) => true,
        (Block::CodeBlock { .. }, Block::CodeBlock { .. }) => true,
        _ => false,
    }
}

/// Word-level diff of two runs of inline content.
pub open spec fn text_diff(a: Seq<SpecInline>, b: Seq<SpecInline>) -> Seq<SpecInline> {
    word_diff(words(flat_text(a)), words(flat_text(b)), false)
}

/// The content of a diffed pair of quotes whose contents are `a` and `b`:
/// both are rendered, diffed as text (quotes inside at most `depth` levels
/// deeper) and parsed again. Past the depth bound, the old content is
/// marked removed and the new added.
pub open spec fn quote_diff(a: Seq<SpecBlock>, b: Seq<SpecBlock>, depth: nat) -> Seq<SpecBlock>
    decreases depth, 1int, 0int,
{
    if depth == 0 {
        wrap_blocks(a, true) + wrap_blocks(b, false)
    } else {
        parsed(paired_text(blocks_md(a), blocks_md(b), (depth - 1) as nat))
    }
}

/// The diff of a removed block with the added block it was paired with.
pub open spec fn pair_diff(old: SpecBlock, new: SpecBlock, depth: nat) -> SpecBlock
    decreases depth, 2int, 0int,
{
    match (old, new) {
        (SpecBlock::Paragraph(a), SpecBlock::Paragraph(b)) => SpecBlock::Paragraph(text_diff(a, b)),
        (SpecBlock::Heading { level, content: a }, SpecBlock::Heading { content: b, .. }) => {
            SpecBlock::Heading { level, content: text_diff(a, b) }
        },
        (SpecBlock::BlockQuote(a), SpecBlock::BlockQuote(b)) => SpecBlock::BlockQuote(
            quote_diff(a, b, depth),
        ),
        (
            SpecBlock::CodeBlock { language: l1, code: c1 },
            SpecBlock::CodeBlock { language: l2, code: c2 },
        ) => if c1 == c2 && l1 == l2 {
            new
        } else {
            SpecBlock::Paragraph(word_diff(words(c1), words(c2), true))
        },
        _ => wrap_block(old, true),
    }
}

/// Diff inside a matched pair of blocks.
fn diff_block_inline(old: &Block, new: &Block, depth: usize) -> (r: Block)
    ensures
        r@ == pair_diff(old@, new@, depth as nat),
    decreases depth, 0int,
{
    match (old, new) {
        (Block::Paragraph(a), Block::Paragraph(b)) => Block::Paragraph(diff_inlines(a, b)),
        (Block::Heading { level, content: a }, Block::Heading { content: b, .. }) => {
            Block::Heading { level: *level, content: diff_inlines(a, b) }
        },
        (Block::BlockQuote(a), Block::BlockQuote(b)) => {
            if depth == 0 {
                // past the depth bound: the old content marked removed, then the new added
                let mut inner = wrap_blocks_exec(a, true);
                let mut added = wrap_blocks_exec(b, false);
                let ghost iv = blocks_view(inner@);
                let ghost av = blocks_view(added@);
                inner.append(&mut added);
                assert(blocks_view(inner@) =~= iv + av);
                Block::BlockQuote(inner)
            } else {
                let inner_old = render_to_markdown(a);
                let inner_new = render_to_markdown(b);
                let diffed = diff_text_inline(inner_old.as_str(), inner_new.as_str(), depth - 1);
                Block::BlockQuote(parse(diffed.as_str()))
            }
        },
        (
            Block::CodeBlock { language: l1, code: c1 },
            Block::CodeBlock { language: l2, code: c2 },
        ) => {
            let same_lang = match (l1, l2) {
                (Some(x), Some(y)) => *x == *y,
                (None, None) => true,
                _ => false,
            };
            if *c1 == *c2 && same_lang {
                copy_block(new)
            } else {
                let old_words = split_words(c1.as_str());
                let new_words = split_words(c2.as_str());
                Block::Paragraph(diff_words(&old_words, &new_words, true))
            }
        },
        _ => wrap_block_exec(old, true),
    }
}

/// Word-level diff of two runs of inline content: their plain text is split
/// into words and aligned; equal words stay plain, removed runs are struck
/// through and added runs made strong.
pub fn diff_inlines(old: &Vec<Inline>, new: &Vec<Inline>) -> (r: Vec<Inline>)
    ensures
        inlines_view(r@) == text_diff(inlines_view(old@), inlines_view(new@)),
{
    let old_text = inline_text(old);
    let new_text = inline_text(new);
    let old_words = split_words(old_text.as_str());
    let new_words = split_words(new_text.as_str());
    diff_words(&old_words, &new_words, false)
}

/// `k` is the first pending block with the shape of `b`.
pub open spec fn first_match(pending: Seq<SpecBlock>, b: SpecBlock, k: int) -> bool {
    &&& 0 <= k < pending.len()
    &&& same_shape(pending[k], b)
    &&& forall|q: int| 0 <= q < k ==> !same_shape(#[trigger] pending[q], b)
}

/// One step of the paired diff over its state (blocks emitted, removed
/// blocks pending). An equal block flushes the pending removals and passes
/// through; a removed block waits; an added block is diffed with the first
/// pending block of its shape, or else flushes the pending removals and is
/// marked as added.
pub open spec fn pass_step(
    st: (Seq<SpecBlock>, Seq<SpecBlock>),
    op: DiffOp<SpecBlock>,
    depth: nat,
) -> (Seq<SpecBlock>, Seq<SpecBlock>)
    decreases depth, 3int, 0int,
{
    let out = st.0;
    let pending = st.1;
    match op {
        DiffOp::Equal(b) => ((out + wrap_blocks(pending, true)).push(b), seq![]),
        DiffOp::Remove(b) => (out, pending.push(b)),
        DiffOp::Add(b) => if exists|k: int| first_match(pending, b, k) {
            let k = choose|k: int| first_match(pending, b, k);
            (out.push(pair_diff(pending[k], b, depth)), pending.remove(k))
        } else {
            ((out + wrap_blocks(pending, true)).push(wrap_block(b, false)), seq![])
        },
    }
}

/// The state after the first `n` steps.
pub open spec fn pass_state(ops: Seq<DiffOp<SpecBlock>>, depth: nat, n: nat) -> (
    Seq<SpecBlock>,
    Seq<SpecBlock>,
)
    decreases depth, 4int, n,
{
    if n == 0 || n > ops.len() {
        (seq![], seq![])
    } else {
        pass_step(pass_state(ops, depth, (n - 1) as nat), ops[n - 1], depth)
    }
}

/// The paired diff of an alignment: all steps, then the remaining pending
/// removals.
pub open spec fn paired_result(ops: Seq<DiffOp<SpecBlock>>, depth: nat) -> Seq<SpecBlock>
    decreases depth, 5int, 0int,
{
    let st = pass_state(ops, depth, ops.len());
    st.0 + wrap_blocks(st.1, true)
}

/// The paired diff of two block sequences.
pub open spec fn paired_blocks(a: Seq<SpecBlock>, b: Seq<SpecBlock>, depth: nat) -> Seq<SpecBlock>
    decreases depth, 6int, 0int,
{
    paired_result(backtrack(a, b, a.len(), b.len()), depth)
}

/// The paired diff of two texts: their trees diffed, then rendered.
pub open spec fn paired_text(old: Seq<char>, new: Seq<char>, depth: nat) -> Seq<char>
    decreases depth, 7int, 0int,
{
    blocks_md(paired_blocks(parsed(old), parsed(new), depth))
}

/// The whole-block diff of an alignment: equal blocks pass through, removed
/// and added blocks are marked whole.
pub open spec fn whole_result(ops: Seq<DiffOp<SpecBlock>>) -> Seq<SpecBlock> {
    Seq::new(
        ops.len(),
        |k: int|
            match ops[k] {
                DiffOp::Equal(b) => b,
                DiffOp::Remove(b) => wrap_block(b, true),
                DiffOp::Add(b) => wrap_block(b, false),
            },
    )
}

/// The whole-block diff of two texts: their trees diffed, then rendered.
pub open spec fn whole_text(old: Seq<char>, new: Seq<char>) -> Seq<char> {
    let a = parsed(old);
    let b = parsed(new);
    blocks_md(whole_result(backtrack(a, b, a.len(), b.len())))
}

pub open spec fn block_ops(old: Seq<Block>, new: Seq<Block>) -> Seq<DiffOp<SpecBlock>> {
    backtrack(blocks_view(old), blocks_view(new), old.len(), new.len())
}

pub open spec fn refs_view(s: Seq<&Block>) -> Seq<SpecBlock> {
    Seq::new(s.len(), |k: int| s[k]@)
}

/// Emit every pending removal, marked as removed, and empty the queue.
fn flush_removes(result: &mut Vec<Block>, pending: &mut Vec<&Block>)
    ensures
        blocks_view(final(result)@) == blocks_view(old(result)@) + wrap_blocks(
            refs_view(old(pending)@),
            true,
        ),
        final(pending)@.len() == 0,
{
    let ghost start = blocks_view(result@);
    let ghost pv = refs_view(pending@);
    let mut k: usize = 0;
    while k < pending.len()
        invariant
            k <= pending.len(),
            pv == refs_view(pending@),
            blocks_view(result@) == start + wrap_blocks(pv.take(k as int), true),
        decreases pending.len() - k,
    {
        let ghost before = blocks_view(result@);
        result.push(wrap_block_exec(pending[k], true));
        assert(blocks_view(result@) =~= before.push(wrap_block(pv[k as int], true)));
        assert(wrap_blocks(pv.take(k + 1), true) =~= wrap_blocks(pv.take(k as int), true).push(
            wrap_block(pv[k as int], true),
        ));
        assert(blocks_view(result@) =~= start + wrap_blocks(pv.take(k + 1), true));
        k = k + 1;
    }
    assert(pv.take(k as int) =~= pv);
    *pending = Vec::new();
}

/// The index of the first pending block with the shape of `b`, if any.
fn find_match(pending: &Vec<&Block>, b: &Block) -> (r: Option<usize>)
    ensures
        match r {
            Some(k) => first_match(refs_view(pending@), b@, k as int),
            None => !exists|k: int| first_match(refs_view(pending@), b@, k),
        },
{
    let ghost pv = refs_view(pending@);
    let mut k: usize = 0;
    while k < pending.len()
        invariant
            k <= pending.len(),
            pv == refs_view(pending@),
            forall|q: int| 0 <= q < k ==> !same_shape(#[trigger] pv[q], b@),
        decreases pending.len() - k,
    {
        if same_variant(pending[k], b) {
            return Some(k);
        }
        k = k + 1;
    }
    None
}

/// The paired diff of two block sequences, with quotes diffed through text
/// at most `depth` levels deep (deeper quote pairs keep their structure but
/// are marked whole).
fn diff_blocks_paired(old: &Vec<Block>, new: &Vec<Block>, depth: usize) -> (r: Vec<Block>)
    ensures
        blocks_view(r@) == paired_blocks(blocks_view(old@), blocks_view(new@), depth as nat),
    decreases depth, 1int,
{
    let ops = diff_sequences(old.as_slice(), new.as_slice());
    assert(views(old@) =~= blocks_view(old@));
    assert(views(new@) =~= blocks_view(new@));
    let ghost opsv = ops_view(ops@);
    assert(opsv == block_ops(old@, new@));
    let ghost d = depth as nat;
    let mut result: Vec<Block> = Vec::new();
    let mut pending: Vec<&Block> = Vec::new();
    assert(blocks_view(result@) =~= Seq::<SpecBlock>::empty());
    assert(refs_view(pending@) =~= Seq::<SpecBlock>::empty());
    let mut k: usize = 0;
    while k < ops.len()
        invariant
            k <= ops.len(),
            opsv == ops_view(ops@),
            d == depth as nat,
            (blocks_view(result@), refs_view(pending@)) == pass_state(opsv, d, k as nat),
        decreases ops.len() - k,
    {
        assert(opsv[k as int] == op_view(ops@[k as int]));
        let ghost st = pass_state(opsv, d, k as nat);
        assert(pass_state(opsv, d, (k + 1) as nat) == pass_step(st, opsv[k as int], d));
        match ops[k] {
            DiffOp::Equal(b) => {
                flush_removes(&mut result, &mut pending);
                let ghost before = blocks_view(result@);
                result.push(copy_block(b));
                assert(blocks_view(result@) =~= before.push(b@));
                assert(refs_view(pending@) =~= Seq::<SpecBlock>::empty());
            },
            DiffOp::Remove(b) => {
                let ghost before = refs_view(pending@);
                pending.push(b);
                assert(refs_view(pending@) =~= before.push(b@));
            },
            DiffOp::Add(b) => {
                match find_match(&pending, b) {
                    Some(idx) => {
                        let ghost pv = refs_view(pending@);
                        proof {
                            let c = choose|c: int| first_match(pv, b@, c);
                            assert(c == idx as int) by {
                                if c < idx as int {
                                    assert(!same_shape(pv[c], b@));
                                } else if c > idx as int {
                                    assert(!same_shape(pv[idx as int], b@));
                                }
                            }
                        }
                        let removed = pending.remove(idx);
                        assert(refs_view(pending@) =~= pv.remove(idx as int));
                        let diffed = diff_block_inline(removed, b, depth);
                        let ghost before = blocks_view(result@);
                        result.push(diffed);
                        assert(blocks_view(result@) =~= before.push(diffed@));
                    },
                    None => {
                        flush_removes(&mut result, &mut pending);
                        let ghost before = blocks_view(result@);
                        result.push(wrap_block_exec(b, false));
                        assert(blocks_view(result@) =~= before.push(wrap_block(b@, false)));
                        assert(refs_view(pending@) =~= Seq::<SpecBlock>::empty());
                    },
                }
            },
        }
        k = k + 1;
    }
    flush_removes(&mut result, &mut pending);
    assert(opsv.len() == ops@.len());
    assert(blocks_view(result@) == paired_result(opsv, d));
    result
}

/// The paired (inline-aware) diff of two texts, with quotes diffed at most
/// `depth` levels deep.
fn diff_text_inline(old: &str, new: &str, depth: usize) -> (r: String)
    ensures
        r@ == paired_text(old@, new@, depth as nat),
    decreases depth, 2int,
{
    let old_blocks = parse(old);
    let new_blocks = parse(new);
    let result_blocks = diff_blocks_paired(&old_blocks, &new_blocks, depth);
    render_to_markdown(&result_blocks)
}

/// Whole-block diff of two block sequences: no pairing, each removed or
/// added block is marked whole.
pub fn diff_blocks(old: &Vec<Block>, new: &Vec<Block>) -> (r: Vec<Block>)
    ensures
        blocks_view(r@) == whole_result(block_ops(old@, new@)),
{
    let ops = diff_sequences(old.as_slice(), new.as_slice());
    assert(views(old@) =~= blocks_view(old@));
    assert(views(new@) =~= blocks_view(new@));
    let ghost opsv = ops_view(ops@);
    let mut result: Vec<Block> = Vec::new();
    let mut k: usize = 0;
    while k < ops.len()
        invariant
            k <= ops.len(),
            opsv == ops_view(ops@),
            result.len() == k,
            forall|q: int| 0 <= q < k ==> (#[trigger] result@[q])@ == whole_result(opsv)[q],
        decreases ops.len() - k,
    {
        let block = match ops[k] {
            DiffOp::Equal(b) => copy_block(b),
            DiffOp::Remove(b) => wrap_block_removed(b),
            DiffOp::Add(b) => wrap_block_added(b),
        };
        result.push(block);
        k = k + 1;
    }
    assert(blocks_view(result@) =~= whole_result(opsv));
    result
}

/// Diff two markdown strings and produce markdown with change markers.
/// Removed content wrapped in `~~strikethrough~~`, added in `**bold**`.
pub fn diff_markdown(old: &str, new: &str) -> (r: String)
    ensures
        r@ == whole_text(old@, new@),
{
    let old_blocks = parse(old);
    let new_blocks = parse(new);
    let result_blocks = diff_blocks(&old_blocks, &new_blocks);
    render_to_markdown(&result_blocks)
}

/// Depth bound used by the public entry points. It only bounds the
/// recursion into quotes for termination: no document nests quotes anywhere
/// near this deep.
pub open spec fn full_depth() -> nat {
    usize::MAX as nat
}

/// The paired (inline-aware) diff of two block sequences: a removed block is
/// paired with a later added block of the same shape and diffed inside.
pub fn diff_blocks_inline(old: &Vec<Block>, new: &Vec<Block>) -> (r: Vec<Block>)
    ensures
        blocks_view(r@) == paired_blocks(blocks_view(old@), blocks_view(new@), full_depth()),
        blocks_view(old@) == blocks_view(new@) ==> blocks_view(r@) == blocks_view(old@),
{
    let r = diff_blocks_paired(old, new, usize::MAX);
    proof {
        lemma_diff_with_itself(blocks_view(old@), full_depth());
    }
    r
}

/// Diff two markdown strings with inline-level diffing for changed blocks.
/// This is the smarter version that tries to match up structurally similar blocks.
pub fn diff_markdown_inline(old: &str, new: &str) -> (r: String)
    ensures
        r@ == paired_text(old@, new@, full_depth()),
{
    diff_text_inline(old, new, usize::MAX)
}

proof fn lemma_backtrack_same(v: Seq<SpecBlock>, i: nat)
    requires
        i <= v.len(),
    ensures
        backtrack(v, v, i, i) == Seq::new(i, |k: int| DiffOp::Equal(v[k])),
    decreases i,
{
    if i > 0 {
        lemma_backtrack_same(v, (i - 1) as nat);
        assert(Seq::new((i - 1) as nat, |k: int| DiffOp::Equal(v[k])).push(DiffOp::Equal(v[i - 1]))
            =~= Seq::new(i, |k: int| DiffOp::Equal(v[k])));
    } else {
        assert(backtrack(v, v, 0, 0) =~= Seq::new(0, |k: int| DiffOp::Equal(v[k])));
    }
}

proof fn lemma_pass_all_equal(v: Seq<SpecBlock>, depth: nat, n: nat)
    requires
        n <= v.len(),
    ensures
        pass_state(Seq::new(v.len(), |k: int| DiffOp::Equal(v[k])), depth, n) == (
            v.take(n as int),
            Seq::<SpecBlock>::empty(),
        ),
    decreases n,
{
    if n == 0 {
        assert(v.take(0) =~= Seq::<SpecBlock>::empty());
    } else {
        lemma_pass_all_equal(v, depth, (n - 1) as nat);
        let ops = Seq::new(v.len(), |k: int| DiffOp::Equal(v[k]));
        assert(pass_state(ops, depth, n) == pass_step(pass_state(ops, depth, (n - 1) as nat), ops[n - 1], depth));
        assert(wrap_blocks(Seq::<SpecBlock>::empty(), true) =~= Seq::<SpecBlock>::empty());
        assert(v.take(n - 1) + Seq::<SpecBlock>::empty() =~= v.take(n - 1));
        assert(v.take(n - 1).push(v[n - 1]) =~= v.take(n as int));
    }
}

/// Diffing a document with itself gives it back unchanged, in either mode:
/// no block is marked.
pub proof fn lemma_diff_with_itself(blocks: Seq<SpecBlock>, depth: nat)
    ensures
        paired_blocks(blocks, blocks, depth) == blocks,
        whole_result(backtrack(blocks, blocks, blocks.len(), blocks.len())) == blocks,
{
    lemma_backtrack_same(blocks, blocks.len());
    lemma_pass_all_equal(blocks, depth, blocks.len());
    assert(blocks.take(blocks.len() as int) =~= blocks);
    assert(wrap_blocks(Seq::<SpecBlock>::empty(), true) =~= Seq::<SpecBlock>::empty());
    assert(blocks + Seq::<SpecBlock>::empty() =~= blocks);
    assert(whole_result(backtrack(blocks, blocks, blocks.len(), blocks.len())) =~= blocks);
}

/// Diffing a text with itself, in either mode, gives the rendering of its
/// own tree: no marker is added.
pub proof fn lemma_text_diff_with_itself(text: Seq<char>, depth: nat)
    ensures
        paired_text(text, text, depth) == blocks_md(parsed(text)),
        whole_text(text, text) == blocks_md(parsed(text)),
{
    lemma_diff_with_itself(parsed(text), depth);
}

/// A word as `words` produces it: not empty, without whitespace.
pub open spec fn plain_word(w: Seq<char>) -> bool {
    w.len() > 0 && forall|i: int| 0 <= i < w.len() ==> !is_white(#[trigger] w[i])
}

/// The words that one node of a diff shows for one side: a plain word for
/// both sides, the words of a struck-through run for the old side, those of
/// a strong run for the new side.
pub open spec fn shown_item(x: SpecInline, old_side: bool) -> Seq<Seq<char>> {
    match x {
        SpecInline::Text(t) => if t == " "@ {
            seq![]
        } else {
            seq![t]
        },
        SpecInline::Strikethrough(v) => if old_side && v.len() == 1 && v[0] is Text {
            words(v[0]->Text_0)
        } else {
            seq![]
        },
        SpecInline::Strong(v) => if !old_side && v.len() == 1 && v[0] is Text {
            words(v[0]->Text_0)
        } else {
            seq![]
        },
        _ => seq![],
    }
}

/// The words that a diff shows for one side, in order.
pub open spec fn shown_words(out: Seq<SpecInline>, old_side: bool) -> Seq<Seq<char>>
    decreases out.len(),
{
    if out.len() == 0 {
        seq![]
    } else {
        shown_words(out.drop_last(), old_side) + shown_item(out.last(), old_side)
    }
}

proof fn lemma_shown_push(out: Seq<SpecInline>, x: SpecInline, old_side: bool)
    ensures
        shown_words(out.push(x), old_side) == shown_words(out, old_side) + shown_item(x, old_side),
{
    assert(out.push(x).drop_last() =~= out);
}

pub proof fn lemma_words_plain(t: Seq<char>)
    ensures
        forall|i: int| 0 <= i < words(t).len() ==> plain_word(#[trigger] words(t)[i]),
    decreases t.len(),
{
    if t.len() > 0 {
        lemma_words_plain(t.drop_last());
        let w = words(t.drop_last());
        let c = t.last();
        if !is_white(c) && t.len() >= 2 && !is_white(t[t.len() - 2]) {
            crate::words::lemma_words_nonempty(t.drop_last());
            let l = w.last().push(c);
            assert(plain_word(l)) by {
                assert(plain_word(w[w.len() - 1]));
                assert forall|i: int| 0 <= i < l.len() implies !is_white(#[trigger] l[i]) by {
                    if i < l.len() - 1 {
                        assert(l[i] == w[w.len() - 1][i]);
                    }
                }
            }
            assert forall|i: int| 0 <= i < words(t).len() implies plain_word(
                #[trigger] words(t)[i],
            ) by {
                if i < w.len() - 1 {
                    assert(words(t)[i] == w[i]);
                }
            }
        } else if !is_white(c) {
            assert(plain_word(seq![c]));
            assert forall|i: int| 0 <= i < words(t).len() implies plain_word(
                #[trigger] words(t)[i],
            ) by {
                if i < w.len() {
                    assert(words(t)[i] == w[i]);
                }
            }
        }
    }
}

proof fn lemma_words_of_plain(w: Seq<char>)
    requires
        plain_word(w),
    ensures
        words(w) == seq![w],
    decreases w.len(),
{
    if w.len() > 1 {
        let d = w.drop_last();
        assert(plain_word(d)) by {
            assert forall|i: int| 0 <= i < d.len() implies !is_white(#[trigger] d[i]) by {
                assert(d[i] == w[i]);
            }
        }
        lemma_words_of_plain(d);
        assert(!is_white(w[w.len() - 2]));
        assert(!is_white(w[w.len() - 1]));
        assert(d.push(w.last()) =~= w);
        assert(seq![d].update(0, d.push(w.last())) =~= seq![w]);
        assert(w.len() >= 2 && !is_white(w[w.len() - 2]));
    } else {
        assert(!is_white(w[0]));
        assert(w.drop_last() =~= Seq::<char>::empty());
        assert(words(w.drop_last()) == Seq::<Seq<char>>::empty());
        assert(seq![w.last()] =~= w);
        assert(Seq::<Seq<char>>::empty().push(seq![w.last()]) =~= seq![w]);
    }
}

/// Appending a space and a word adds that word.
proof fn lemma_words_append_word(a: Seq<char>, w: Seq<char>)
    requires
        plain_word(w),
    ensures
        words(a + " "@ + w) == words(a).push(w),
    decreases w.len(),
{
    reveal_strlit(" ");
    let t = a + " "@ + w;
    assert(is_white(' '));
    if w.len() == 1 {
        assert(t.drop_last() =~= a + " "@);
        assert((a + " "@).drop_last() =~= a);
        assert((a + " "@).last() == ' ');
        assert(words(a + " "@) == words(a));
        assert(t[t.len() - 2] == ' ');
        assert(!is_white(w[0]));
        assert(t.last() == w[0]);
        assert(seq![w[0]] =~= w);
    } else {
        let d = w.drop_last();
        assert(plain_word(d)) by {
            assert forall|i: int| 0 <= i < d.len() implies !is_white(#[trigger] d[i]) by {
                assert(d[i] == w[i]);
            }
        }
        lemma_words_append_word(a, d);
        assert(t.drop_last() =~= a + " "@ + d);
        assert(t[t.len() - 2] == w[w.len() - 2]);
        assert(!is_white(w[w.len() - 2]));
        assert(!is_white(w[w.len() - 1]));
        assert(t.last() == w.last());
        assert(d.push(w.last()) =~= w);
        assert(words(a).push(d).update(words(a).len() as int, d.push(w.last())) =~= words(a).push(
            w,
        ));
    }
}

/// The words of a run joined by spaces are the run.
proof fn lemma_words_of_join(ws: Seq<Seq<char>>)
    requires
        forall|i: int| 0 <= i < ws.len() ==> plain_word(#[trigger] ws[i]),
    ensures
        words(join_words(ws)) == ws,
    decreases ws.len(),
{
    if ws.len() == 0 {
        assert(words(Seq::<char>::empty()) =~= ws);
    } else if ws.len() == 1 {
        lemma_words_of_plain(ws[0]);
        assert(seq![ws[0]] =~= ws);
    } else {
        let d = ws.drop_last();
        assert forall|i: int| 0 <= i < d.len() implies plain_word(#[trigger] d[i]) by {
            assert(d[i] == ws[i]);
        }
        lemma_words_of_join(d);
        assert(plain_word(ws[ws.len() - 1]));
        lemma_words_append_word(join_words(d), ws.last());
        assert(d.push(ws.last()) =~= ws);
    }
}

pub open spec fn side_of(old_side: bool, removed: Seq<Seq<char>>, added: Seq<Seq<char>>) -> Seq<
    Seq<char>,
> {
    if old_side {
        removed
    } else {
        added
    }
}

/// The words an alignment keeps on one side, read from the front.
pub open spec fn side_words(ops: Seq<DiffOp<Seq<char>>>, old_side: bool) -> Seq<Seq<char>> {
    if old_side {
        olds(ops)
    } else {
        news(ops)
    }
}

proof fn lemma_side_words_front(ops: Seq<DiffOp<Seq<char>>>, old_side: bool)
    requires
        ops.len() > 0,
    ensures
        side_words(ops, old_side) == (match ops[0] {
            DiffOp::Equal(w) => seq![w],
            DiffOp::Remove(w) => if old_side {
                seq![w]
            } else {
                seq![]
            },
            DiffOp::Add(w) => if old_side {
                seq![]
            } else {
                seq![w]
            },
        }) + side_words(ops.drop_first(), old_side),
    decreases ops.len(),
{
    if ops.len() == 1 {
        assert(ops.drop_first() =~= Seq::<DiffOp<Seq<char>>>::empty());
        assert(ops.drop_last() =~= Seq::<DiffOp<Seq<char>>>::empty());
        assert(side_words(ops.drop_first(), old_side) =~= Seq::<Seq<char>>::empty());
        match ops[0] {
            DiffOp::Equal(w) => {
                assert(seq![w] + Seq::<Seq<char>>::empty() =~= seq![w]);
                assert(Seq::<Seq<char>>::empty().push(w) =~= seq![w]);
            },
            DiffOp::Remove(w) => {
                assert(seq![w] + Seq::<Seq<char>>::empty() =~= seq![w]);
                assert(Seq::<Seq<char>>::empty().push(w) =~= seq![w]);
                assert(Seq::<Seq<char>>::empty() + Seq::<Seq<char>>::empty() =~= Seq::<
                    Seq<char>,
                >::empty());
            },
            DiffOp::Add(w) => {
                assert(seq![w] + Seq::<Seq<char>>::empty() =~= seq![w]);
                assert(Seq::<Seq<char>>::empty().push(w) =~= seq![w]);
                assert(Seq::<Seq<char>>::empty() + Seq::<Seq<char>>::empty() =~= Seq::<
                    Seq<char>,
                >::empty());
            },
        }
    } else {
        lemma_side_words_front(ops.drop_last(), old_side);
        assert(ops.drop_last().drop_first() =~= ops.drop_first().drop_last());
        assert(ops.drop_last()[0] == ops[0]);
        assert(ops.drop_first().last() == ops.last());
        let head = match ops[0] {
            DiffOp::Equal(w) => seq![w],
            DiffOp::Remove(w) => if old_side {
                seq![w]
            } else {
                seq![]
            },
            DiffOp::Add(w) => if old_side {
                seq![]
            } else {
                seq![w]
            },
        };
        let mid = side_words(ops.drop_first().drop_last(), old_side);
        match ops.last() {
            DiffOp::Equal(x) => {
                assert((head + mid).push(x) =~= head + mid.push(x));
            },
            DiffOp::Remove(x) => {
                assert((head + mid).push(x) =~= head + mid.push(x));
            },
            DiffOp::Add(x) => {
                assert((head + mid).push(x) =~= head + mid.push(x));
            },
        }
    }
}

proof fn lemma_shown_flush(
    acc: Seq<SpecInline>,
    removed: Seq<Seq<char>>,
    added: Seq<Seq<char>>,
    old_side: bool,
)
    requires
        forall|i: int| 0 <= i < removed.len() ==> plain_word(#[trigger] removed[i]),
        forall|i: int| 0 <= i < added.len() ==> plain_word(#[trigger] added[i]),
    ensures
        shown_words(flush_runs(acc, removed, added, false), old_side) == shown_words(acc, old_side)
            + side_of(old_side, removed, added),
        shown_words(spaced(acc), old_side) == shown_words(acc, old_side),
{
    lemma_spaced(acc, old_side);
    lemma_words_of_join(removed);
    lemma_words_of_join(added);
    let none = Seq::<Seq<char>>::empty();
    let a1 = if removed.len() > 0 {
        spaced(acc).push(SpecInline::Strikethrough(seq![leaf(false, join_words(removed))]))
    } else {
        acc
    };
    if removed.len() > 0 {
        lemma_shown_push(
            spaced(acc),
            SpecInline::Strikethrough(seq![leaf(false, join_words(removed))]),
            old_side,
        );
    }
    assert(shown_words(a1, old_side) =~= shown_words(acc, old_side) + (if old_side {
        removed
    } else {
        none
    }));
    lemma_spaced(a1, old_side);
    let a2 = if added.len() > 0 {
        spaced(a1).push(SpecInline::Strong(seq![leaf(false, join_words(added))]))
    } else {
        a1
    };
    if added.len() > 0 {
        lemma_shown_push(spaced(a1), SpecInline::Strong(seq![leaf(false, join_words(added))]), old_side);
    }
    assert(shown_words(a2, old_side) =~= shown_words(a1, old_side) + (if old_side {
        none
    } else {
        added
    }));
    assert(shown_words(a2, old_side) =~= shown_words(acc, old_side) + side_of(
        old_side,
        removed,
        added,
    ));
}

proof fn lemma_spaced(acc: Seq<SpecInline>, old_side: bool)
    ensures
        shown_words(spaced(acc), old_side) == shown_words(acc, old_side),
{
    if acc.len() > 0 {
        lemma_shown_push(acc, SpecInline::Text(" "@), old_side);
        assert(shown_words(acc, old_side) + Seq::<Seq<char>>::empty() =~= shown_words(
            acc,
            old_side,
        ));
    }
}

pub open spec fn op_word(op: DiffOp<Seq<char>>) -> Seq<char> {
    match op {
        DiffOp::Equal(w) => w,
        DiffOp::Remove(w) => w,
        DiffOp::Add(w) => w,
    }
}

proof fn lemma_backtrack_plain(a: Seq<Seq<char>>, b: Seq<Seq<char>>, i: nat, j: nat)
    requires
        i <= a.len(),
        j <= b.len(),
        forall|k: int| 0 <= k < a.len() ==> plain_word(#[trigger] a[k]),
        forall|k: int| 0 <= k < b.len() ==> plain_word(#[trigger] b[k]),
    ensures
        forall|k: int|
            0 <= k < backtrack(a, b, i, j).len() ==> plain_word(
                #[trigger] op_word(backtrack(a, b, i, j)[k]),
            ),
    decreases i + j,
{
    let ops = backtrack(a, b, i, j);
    if i == 0 && j == 0 {
    } else if i > 0 && j > 0 && a[i - 1] == b[j - 1] {
        lemma_backtrack_plain(a, b, (i - 1) as nat, (j - 1) as nat);
        assert forall|k: int| 0 <= k < ops.len() implies plain_word(#[trigger] op_word(ops[k])) by {
            if k < ops.len() - 1 {
                assert(ops[k] == backtrack(a, b, (i - 1) as nat, (j - 1) as nat)[k]);
            }
        }
    } else if j > 0 && (i == 0 || crate::lcs::lcs_len(a, b, i, (j - 1) as nat)
        >= crate::lcs::lcs_len(a, b, (i - 1) as nat, j)) {
        lemma_backtrack_plain(a, b, i, (j - 1) as nat);
        assert forall|k: int| 0 <= k < ops.len() implies plain_word(#[trigger] op_word(ops[k])) by {
            if k < ops.len() - 1 {
                assert(ops[k] == backtrack(a, b, i, (j - 1) as nat)[k]);
            }
        }
    } else {
        lemma_backtrack_plain(a, b, (i - 1) as nat, j);
        assert forall|k: int| 0 <= k < ops.len() implies plain_word(#[trigger] op_word(ops[k])) by {
            if k < ops.len() - 1 {
                assert(ops[k] == backtrack(a, b, (i - 1) as nat, j)[k]);
            }
        }
    }
}

proof fn lemma_collapse_shown(
    ops: Seq<DiffOp<Seq<char>>>,
    acc: Seq<SpecInline>,
    removed: Seq<Seq<char>>,
    added: Seq<Seq<char>>,
    old_side: bool,
)
    requires
        forall|k: int| 0 <= k < ops.len() ==> plain_word(#[trigger] op_word(ops[k])),
        forall|i: int| 0 <= i < removed.len() ==> plain_word(#[trigger] removed[i]),
        forall|i: int| 0 <= i < added.len() ==> plain_word(#[trigger] added[i]),
    ensures
        shown_words(collapse(ops, acc, removed, added, false), old_side) == shown_words(
            acc,
            old_side,
        ) + side_of(old_side, removed, added) + side_words(ops, old_side),
    decreases ops.len(),
{
    let none = Seq::<Seq<char>>::empty();
    if ops.len() == 0 {
        lemma_shown_flush(acc, removed, added, old_side);
        assert(side_words(ops, old_side) =~= none);
        assert(shown_words(acc, old_side) + side_of(old_side, removed, added) + none =~= shown_words(
            acc,
            old_side,
        ) + side_of(old_side, removed, added));
    } else {
        let rest = ops.drop_first();
        assert forall|k: int| 0 <= k < rest.len() implies plain_word(#[trigger] op_word(rest[k])) by {
            assert(rest[k] == ops[k + 1]);
        }
        assert(plain_word(op_word(ops[0])));
        lemma_side_words_front(ops, old_side);
        match ops[0] {
            DiffOp::Equal(w) => {
                let flushed = flush_runs(acc, removed, added, false);
                lemma_shown_flush(acc, removed, added, old_side);
                lemma_spaced(flushed, old_side);
                lemma_shown_push(spaced(flushed), SpecInline::Text(w), old_side);
                assert(w != " "@) by {
                    reveal_strlit(" ");
                    if w == " "@ {
                        assert(w[0] == ' ');
                        assert(is_white(' '));
                    }
                }
                let acc2 = spaced(flushed).push(leaf(false, w));
                lemma_collapse_shown(rest, acc2, none, none, old_side);
                assert(side_of(old_side, none, none) =~= none);
                assert(shown_words(acc2, old_side) + none + side_words(rest, old_side) =~= shown_words(
                    acc,
                    old_side,
                ) + side_of(old_side, removed, added) + (seq![w] + side_words(rest, old_side)));
            },
            DiffOp::Remove(w) => {
                assert forall|i: int| 0 <= i < removed.push(w).len() implies plain_word(
                    #[trigger] removed.push(w)[i],
                ) by {
                    if i < removed.len() {
                        assert(removed.push(w)[i] == removed[i]);
                    }
                }
                lemma_collapse_shown(rest, acc, removed.push(w), added, old_side);
                if old_side {
                    assert(shown_words(acc, old_side) + removed.push(w) + side_words(rest, old_side)
                        =~= shown_words(acc, old_side) + removed + (seq![w] + side_words(
                        rest,
                        old_side,
                    )));
                } else {
                    assert(none + side_words(rest, old_side) =~= side_words(rest, old_side));
                }
            },
            DiffOp::Add(w) => {
                assert forall|i: int| 0 <= i < added.push(w).len() implies plain_word(
                    #[trigger] added.push(w)[i],
                ) by {
                    if i < added.len() {
                        assert(added.push(w)[i] == added[i]);
                    }
                }
                lemma_collapse_shown(rest, acc, removed, added.push(w), old_side);
                if !old_side {
                    assert(shown_words(acc, old_side) + added.push(w) + side_words(rest, old_side)
                        =~= shown_words(acc, old_side) + added + (seq![w] + side_words(
                        rest,
                        old_side,
                    )));
                } else {
                    assert(none + side_words(rest, old_side) =~= side_words(rest, old_side));
                }
            },
        }
    }
}

/// No word is lost in a word-level diff: the plain words read together with
/// the struck-through runs give exactly the old words, in order, and read
/// with the strong runs exactly the new words.
pub proof fn lemma_word_diff_keeps_words(old: Seq<SpecInline>, new: Seq<SpecInline>)
    ensures
        shown_words(text_diff(old, new), true) == words(flat_text(old)),
        shown_words(text_diff(old, new), false) == words(flat_text(new)),
{
    let a = words(flat_text(old));
    let b = words(flat_text(new));
    let none = Seq::<Seq<char>>::empty();
    let empty = Seq::<SpecInline>::empty();
    lemma_words_plain(flat_text(old));
    lemma_words_plain(flat_text(new));
    lemma_backtrack_plain(a, b, a.len(), b.len());
    lemma_backtrack_reconstructs(a, b, a.len(), b.len());
    assert(a.take(a.len() as int) =~= a);
    assert(b.take(b.len() as int) =~= b);
    let ops = backtrack(a, b, a.len(), b.len());
    lemma_collapse_shown(ops, empty, none, none, true);
    lemma_collapse_shown(ops, empty, none, none, false);
    assert(shown_words(empty, true) =~= none);
    assert(none + none + a =~= a);
    assert(none + none + b =~= b);
}

/// Every line of a block quote's text but the blank one that closes it
/// begins with `>`.
pub open spec fn quoted_lines(t: Seq<char>) -> bool {
    let lines = split_lines(t);
    &&& lines.len() >= 3
    &&& lines[lines.len() - 1].len() == 0
    &&& lines[lines.len() - 2].len() == 0
    &&& forall|i: int| 0 <= i < lines.len() - 2 ==> (#[trigger] lines[i]).len() > 0 && lines[i][0]
        == '>'
}

/// Diffing two block quotes gives a block quote, so its text keeps every
/// line quoted.
pub proof fn lemma_quote_diff_stays_quoted(old: SpecBlock, new: SpecBlock, depth: nat)
    requires
        old is BlockQuote,
        new is BlockQuote,
    ensures
        pair_diff(old, new, depth) is BlockQuote,
        quoted_lines(block_md(pair_diff(old, new, depth))),
{
    lemma_quote_lines_prefixed(pair_diff(old, new, depth)->BlockQuote_0);
}

/// Diffing two texts that are each one block quote gives a text whose every
/// line, but the blank one at its end, is quoted.
pub proof fn lemma_quote_texts_stay_quoted(old: Seq<char>, new: Seq<char>, depth: nat)
    requires
        parsed(old).len() == 1,
        parsed(old)[0] is BlockQuote,
        parsed(new).len() == 1,
        parsed(new)[0] is BlockQuote,
    ensures
        quoted_lines(paired_text(old, new, depth)),
{
    let a = parsed(old);
    let b = parsed(new);
    let qa = a[0];
    let qb = b[0];
    let ops = backtrack(a, b, 1, 1);
    let out = paired_blocks(a, b, depth);
    if qa == qb {
        assert(ops == seq![DiffOp::Equal(qa)]) by {
            assert(backtrack(a, b, 0, 0) =~= Seq::<DiffOp<SpecBlock>>::empty());
        }
        assert(pass_state(ops, depth, 0) == (Seq::<SpecBlock>::empty(), Seq::<SpecBlock>::empty()));
        assert(wrap_blocks(Seq::<SpecBlock>::empty(), true) =~= Seq::<SpecBlock>::empty());
        assert(out =~= seq![qa]);
        lemma_quote_lines_prefixed(qa->BlockQuote_0);
    } else {
        assert(backtrack(a, b, 0, 0) =~= Seq::<DiffOp<SpecBlock>>::empty());
        assert(backtrack(a, b, 1, 0) =~= seq![DiffOp::Remove(qa)]);
        assert(crate::lcs::lcs_len(a, b, 1, 0) == 0);
        assert(crate::lcs::lcs_len(a, b, 0, 1) == 0);
        assert(ops =~= seq![DiffOp::Remove(qa), DiffOp::Add(qb)]);
        let st1 = pass_state(ops, depth, 1);
        assert(pass_state(ops, depth, 0) == (Seq::<SpecBlock>::empty(), Seq::<SpecBlock>::empty()));
        assert(st1 == (Seq::<SpecBlock>::empty(), seq![qa]));
        assert(first_match(seq![qa], qb, 0));
        let k = choose|k: int| first_match(seq![qa], qb, k);
        assert(k == 0) by {
            if k != 0 {
                assert(k >= 1);
                assert(!same_shape(seq![qa][0], qb));
            }
        }
        assert(seq![qa].remove(0) =~= Seq::<SpecBlock>::empty());
        let d = pair_diff(qa, qb, depth);
        assert(pass_state(ops, depth, 2) == (seq![d], Seq::<SpecBlock>::empty()));
        assert(wrap_blocks(Seq::<SpecBlock>::empty(), true) =~= Seq::<SpecBlock>::empty());
        assert(out =~= seq![d]);
        lemma_quote_diff_stays_quoted(qa, qb, depth);
    }
    let x = out[0];
    assert(out.drop_last() =~= Seq::<SpecBlock>::empty());
    assert(out.last() == x);
    assert(blocks_md(Seq::<SpecBlock>::empty()) == Seq::<char>::empty());
    assert(blocks_md(out) == blocks_md(out.drop_last()) + block_md(out.last()));
    assert(blocks_md(out) =~= block_md(x));
}

} // verus!
