//! The document tree: block and inline nodes, and their mathematical model.

use vstd::prelude::*;
use crate::lcs::Token;

verus! {

/// Document-level node.
#[derive(Debug)]
pub enum Block {
    Paragraph(Vec<Inline>),
    Heading { level: u8, content: Vec<Inline> },
    BlockQuote(Vec<Block>),
    CodeBlock { language: Option<String>, code: String },
    List { ordered: bool, start: Option<u64>, items: Vec<Vec<Block>> },
    ThematicBreak,
    Table { alignments: Vec<Alignment>, header: Vec<Vec<Inline>>, rows: Vec<Vec<Vec<Inline>>> },
    HtmlBlock(String),
}

/// Span-level node.
#[derive(Debug)]
pub enum Inline {
    Text(String),
    Code(String),
    Emphasis(Vec<Inline>),
    Strong(Vec<Inline>),
    Strikethrough(Vec<Inline>),
    Link { url: String, title: String, content: Vec<Inline> },
    Image { url: String, title: String, alt: Vec<Inline> },
    SoftBreak,
    HardBreak,
    Html(String),
}

/// Column alignment of a table.
#[derive(Debug, Clone, Copy, PartialEq, Eq, Structural)]
pub enum Alignment {
    Unspecified,
    Left,
    Center,
    Right,
}

/// Mathematical value of an [`Inline`]: strings become character sequences.
pub enum SpecInline {
    Text(Seq<char>),
    Code(Seq<char>),
    Emphasis(Seq<SpecInline>),
    Strong(Seq<SpecInline>),
    Strikethrough(Seq<SpecInline>),
    Link { url: Seq<char>, title: Seq<char>, content: Seq<SpecInline> },
    Image { url: Seq<char>, title: Seq<char>, alt: Seq<SpecInline> },
    SoftBreak,
    HardBreak,
    Html(Seq<char>),
}

/// Mathematical value of a [`Block`].
pub enum SpecBlock {
    Paragraph(Seq<SpecInline>),
    Heading { level: u8, content: Seq<SpecInline> },
    BlockQuote(Seq<SpecBlock>),
    CodeBlock { language: Option<Seq<char>>, code: Seq<char> },
    List { ordered: bool, start: Option<u64>, items: Seq<Seq<SpecBlock>> },
    ThematicBreak,
    Table {
        alignments: Seq<Alignment>,
        header: Seq<Seq<SpecInline>>,
        rows: Seq<Seq<Seq<SpecInline>>>,
    },
    HtmlBlock(Seq<char>),
}

pub open spec fn inline_view(i: Inline) -> SpecInline
    decreases i, 1int,
{
    match i {
        Inline::Text(t) => SpecInline::Text(t@),
        Inline::Code(c) => SpecInline::Code(c@),
        Inline::Emphasis(v) => SpecInline::Emphasis(inlines_view(v@)),
        Inline::Strong(v) => SpecInline::Strong(inlines_view(v@)),
        Inline::Strikethrough(v) => SpecInline::Strikethrough(inlines_view(v@)),
        Inline::Link { url, title, content } => SpecInline::Link {
            url: url@,
            title: title@,
            content: inlines_view(content@),
        },
        Inline::Image { url, title, alt } => SpecInline::Image {
            url: url@,
            title: title@,
            alt: inlines_view(alt@),
        },
        Inline::SoftBreak => SpecInline::SoftBreak,
        Inline::HardBreak => SpecInline::HardBreak,
        Inline::Html(h) => SpecInline::Html(h@),
    }
}

pub open spec fn inlines_view(s: Seq<Inline>) -> Seq<SpecInline>
    decreases s, 0int,
{
    Seq::new(s.len(), |k: int| if 0 <= k < s.len() { inline_view(s[k]) } else { SpecInline::SoftBreak })
}

pub open spec fn cells_view(s: Seq<Vec<Inline>>) -> Seq<Seq<SpecInline>> {
    Seq::new(s.len(), |k: int| inlines_view(s[k]@))
}

pub open spec fn rows_view(s: Seq<Vec<Vec<Inline>>>) -> Seq<Seq<Seq<SpecInline>>> {
    Seq::new(s.len(), |k: int| cells_view(s[k]@))
}

pub open spec fn opt_str_view(o: Option<String>) -> Option<Seq<char>> {
    match o {
        Some(s) => Some(s@),
        None => None,
    }
}

pub open spec fn block_view(b: Block) -> SpecBlock
    decreases b, 2int,
{
    match b {
        Block::Paragraph(v) => SpecBlock::Paragraph(inlines_view(v@)),
        Block::Heading { level, content } => SpecBlock::Heading {
            level,
            content: inlines_view(content@),
        },
        Block::BlockQuote(inner) => SpecBlock::BlockQuote(blocks_view(inner@)),
        Block::CodeBlock { language, code } => SpecBlock::CodeBlock {
            language: opt_str_view(language),
            code: code@,
        },
        Block::List { ordered, start, items } => SpecBlock::List {
            ordered,
            start,
            items: items_view(items@),
        },
        Block::ThematicBreak => SpecBlock::ThematicBreak,
        Block::Table { alignments, header, rows } => SpecBlock::Table {
            alignments: alignments@,
            header: cells_view(header@),
            rows: rows_view(rows@),
        },
        Block::HtmlBlock(h) => SpecBlock::HtmlBlock(h@),
    }
}

pub open spec fn blocks_view(s: Seq<Block>) -> Seq<SpecBlock>
    decreases s, 1int,
{
    Seq::new(s.len(), |k: int| if 0 <= k < s.len() { block_view(s[k]) } else { SpecBlock::ThematicBreak })
}

pub open spec fn items_view(s: Seq<Vec<Block>>) -> Seq<Seq<SpecBlock>>
    decreases s, 0int,
{
    Seq::new(s.len(), |k: int| if 0 <= k < s.len() { blocks_view(s[k]@) } else { seq![] })
}

impl View for Inline {
    type V = SpecInline;

    open spec fn view(&self) -> SpecInline {
        inline_view(*self)
    }
}

impl View for Block {
    type V = SpecBlock;

    open spec fn view(&self) -> SpecBlock {
        block_view(*self)
    }
}

fn opt_str_same(a: &Option<String>, b: &Option<String>) -> (r: bool)
    ensures
        r == (opt_str_view(*a) == opt_str_view(*b)),
{
    match (a, b) {
        (Some(x), Some(y)) => *x == *y,
        (None, None) => true,
        _ => false,
    }
}

fn alignments_same(a: &Vec<Alignment>, b: &Vec<Alignment>) -> (r: bool)
    ensures
        r == (a@ == b@),
{
    if a.len() != b.len() {
        return false;
    }
    let mut k: usize = 0;
    while k < a.len()
        invariant
            a.len() == b.len(),
            k <= a.len(),
            forall|q: int| 0 <= q < k ==> a[q] == b[q],
        decreases a.len() - k,
    {
        if a[k] != b[k] {
            return false;
        }
        k = k + 1;
    }
    assert(a@ =~= b@);
    true
}

fn inline_same(a: &Inline, b: &Inline) -> (r: bool)
    ensures
        r == (a@ == b@),
    decreases a, 1int,
{
    match (a, b) {
        (Inline::Text(x), Inline::Text(y)) => *x == *y,
        (Inline::Code(x), Inline::Code(y)) => *x == *y,
        (Inline::Emphasis(x), Inline::Emphasis(y)) => inlines_same(x, y),
        (Inline::Strong(x), Inline::Strong(y)) => inlines_same(x, y),
        (Inline::Strikethrough(x), Inline::Strikethrough(y)) => inlines_same(x, y),
        (
            Inline::Link { url: u1, title: t1, content: c1 },
            Inline::Link { url: u2, title: t2, content: c2 },
        ) => *u1 == *u2 && *t1 == *t2 && inlines_same(c1, c2),
        (
            Inline::Image { url: u1, title: t1, alt: c1 },
            Inline::Image { url: u2, title: t2, alt: c2 },
        ) => *u1 == *u2 && *t1 == *t2 && inlines_same(c1, c2),
        (Inline::SoftBreak, Inline::SoftBreak) => true,
        (Inline::HardBreak, Inline::HardBreak) => true,
        (Inline::Html(x), Inline::Html(y)) => *x == *y,
        _ => false,
    }
}

fn inlines_same(a: &Vec<Inline>, b: &Vec<Inline>) -> (r: bool)
    ensures
        r == (inlines_view(a@) == inlines_view(b@)),
    decreases a, 0int,
{
    if a.len() != b.len() {
        assert(inlines_view(a@).len() != inlines_view(b@).len());
        return false;
    }
    let mut k: usize = 0;
    while k < a.len()
        invariant
            a.len() == b.len(),
            k <= a.len(),
            forall|q: int| 0 <= q < k ==> inline_view(a@[q]) == inline_view(b@[q]),
        decreases a.len() - k,
    {
        if !inline_same(&a[k], &b[k]) {
            assert(inlines_view(a@)[k as int] != inlines_view(b@)[k as int]);
            return false;
        }
        k = k + 1;
    }
    assert(inlines_view(a@) =~= inlines_view(b@));
    true
}

fn cells_same(a: &Vec<Vec<Inline>>, b: &Vec<Vec<Inline>>) -> (r: bool)
    ensures
        r == (cells_view(a@) == cells_view(b@)),
{
    if a.len() != b.len() {
        assert(cells_view(a@).len() != cells_view(b@).len());
        return false;
    }
    let mut k: usize = 0;
    while k < a.len()
        invariant
            a.len() == b.len(),
            k <= a.len(),
            forall|q: int| 0 <= q < k ==> inlines_view(a@[q]@) == inlines_view(b@[q]@),
        decreases a.len() - k,
    {
        if !inlines_same(&a[k], &b[k]) {
            assert(cells_view(a@)[k as int] != cells_view(b@)[k as int]);
            return false;
        }
        k = k + 1;
    }
    assert(cells_view(a@) =~= cells_view(b@));
    true
}

fn rows_same(a: &Vec<Vec<Vec<Inline>>>, b: &Vec<Vec<Vec<Inline>>>) -> (r: bool)
    ensures
        r == (rows_view(a@) == rows_view(b@)),
{
    if a.len() != b.len() {
        assert(rows_view(a@).len() != rows_view(b@).len());
        return false;
    }
    let mut k: usize = 0;
    while k < a.len()
        invariant
            a.len() == b.len(),
            k <= a.len(),
            forall|q: int| 0 <= q < k ==> cells_view(a@[q]@) == cells_view(b@[q]@),
        decreases a.len() - k,
    {
        if !cells_same(&a[k], &b[k]) {
            assert(rows_view(a@)[k as int] != rows_view(b@)[k as int]);
            return false;
        }
        k = k + 1;
    }
    assert(rows_view(a@) =~= rows_view(b@));
    true
}

fn block_same(a: &Block, b: &Block) -> (r: bool)
    ensures
        r == (a@ == b@),
    decreases a, 2int,
{
    match (a, b) {
        (Block::Paragraph(x), Block::Paragraph(y)) => inlines_same(x, y),
        (Block::Heading { level: l1, content: c1 }, Block::Heading { level: l2, content: c2 }) => {
            *l1 == *l2 && inlines_same(c1, c2)
        },
        (Block::BlockQuote(x), Block::BlockQuote(y)) => blocks_same(x, y),
        (
            Block::CodeBlock { language: l1, code: c1 },
            Block::CodeBlock { language: l2, code: c2 },
        ) => opt_str_same(l1, l2) && *c1 == *c2,
        (
            Block::List { ordered: o1, start: s1, items: i1 },
            Block::List { ordered: o2, start: s2, items: i2 },
        ) => *o1 == *o2 && *s1 == *s2 && items_same(i1, i2),
        (Block::ThematicBreak, Block::ThematicBreak) => true,
        (
            Block::Table { alignments: a1, header: h1, rows: r1 },
            Block::Table { alignments: a2, header: h2, rows: r2 },
        ) => alignments_same(a1, a2) && cells_same(h1, h2) && rows_same(r1, r2),
        (Block::HtmlBlock(x), Block::HtmlBlock(y)) => *x == *y,
        _ => false,
    }
}

fn blocks_same(a: &Vec<Block>, b: &Vec<Block>) -> (r: bool)
    ensures
        r == (blocks_view(a@) == blocks_view(b@)),
    decreases a, 1int,
{
    if a.len() != b.len() {
        assert(blocks_view(a@).len() != blocks_view(b@).len());
        return false;
    }
    let mut k: usize = 0;
    while k < a.len()
        invariant
            a.len() == b.len(),
            k <= a.len(),
            forall|q: int| 0 <= q < k ==> block_view(a@[q]) == block_view(b@[q]),
        decreases a.len() - k,
    {
        if !block_same(&a[k], &b[k]) {
            assert(blocks_view(a@)[k as int] != blocks_view(b@)[k as int]);
            return false;
        }
        k = k + 1;
    }
    assert(blocks_view(a@) =~= blocks_view(b@));
    true
}

fn items_same(a: &Vec<Vec<Block>>, b: &Vec<Vec<Block>>) -> (r: bool)
    ensures
        r == (items_view(a@) == items_view(b@)),
    decreases a, 0int,
{
    if a.len() != b.len() {
        assert(items_view(a@).len() != items_view(b@).len());
        return false;
    }
    let mut k: usize = 0;
    while k < a.len()
        invariant
            a.len() == b.len(),
            k <= a.len(),
            forall|q: int| 0 <= q < k ==> blocks_view(a@[q]@) == blocks_view(b@[q]@),
        decreases a.len() - k,
    {
        if !blocks_same(&a[k], &b[k]) {
            assert(items_view(a@)[k as int] != items_view(b@)[k as int]);
            return false;
        }
        k = k + 1;
    }
    assert(items_view(a@) =~= items_view(b@));
    true
}

impl Token for Block {
    fn same_as(&self, other: &Self) -> (r: bool) {
        block_same(self, other)
    }
}

impl PartialEq for Block {
    fn eq(&self, other: &Block) -> (r: bool) {
        block_same(self, other)
    }
}

impl vstd::std_specs::cmp::PartialEqSpecImpl for Block {
    open spec fn obeys_eq_spec() -> bool {
        true
    }

    open spec fn eq_spec(&self, other: &Block) -> bool {
        self@ == other@
    }
}

impl PartialEq for Inline {
    fn eq(&self, other: &Inline) -> (r: bool) {
        inline_same(self, other)
    }
}

impl vstd::std_specs::cmp::PartialEqSpecImpl for Inline {
    open spec fn obeys_eq_spec() -> bool {
        true
    }

    open spec fn eq_spec(&self, other: &Inline) -> bool {
        self@ == other@
    }
}

pub fn copy_inline(a: &Inline) -> (r: Inline)
    ensures
        r@ == a@,
    decreases a, 1int,
{
    match a {
        Inline::Text(x) => Inline::Text(x.clone()),
        Inline::Code(x) => Inline::Code(x.clone()),
        Inline::Emphasis(x) => Inline::Emphasis(copy_inlines(x)),
        Inline::Strong(x) => Inline::Strong(copy_inlines(x)),
        Inline::Strikethrough(x) => Inline::Strikethrough(copy_inlines(x)),
        Inline::Link { url, title, content } => Inline::Link {
            url: url.clone(),
            title: title.clone(),
            content: copy_inlines(content),
        },
        Inline::Image { url, title, alt } => Inline::Image {
            url: url.clone(),
            title: title.clone(),
            alt: copy_inlines(alt),
        },
        Inline::SoftBreak => Inline::SoftBreak,
        Inline::HardBreak => Inline::HardBreak,
        Inline::Html(x) => Inline::Html(x.clone()),
    }
}

pub fn copy_inlines(a: &Vec<Inline>) -> (r: Vec<Inline>)
    ensures
        inlines_view(r@) == inlines_view(a@),
    decreases a, 0int,
{
    let mut r: Vec<Inline> = Vec::new();
    let mut k: usize = 0;
    while k < a.len()
        invariant
            k <= a.len(),
            r.len() == k,
            forall|q: int| 0 <= q < k ==> inline_view(r@[q]) == inline_view(a@[q]),
        decreases a.len() - k,
    {
        r.push(copy_inline(&a[k]));
        k = k + 1;
    }
    assert(inlines_view(r@) =~= inlines_view(a@));
    r
}

pub fn copy_cells(a: &Vec<Vec<Inline>>) -> (r: Vec<Vec<Inline>>)
    ensures
        cells_view(r@) == cells_view(a@),
{
    let mut r: Vec<Vec<Inline>> = Vec::new();
    let mut k: usize = 0;
    while k < a.len()
        invariant
            k <= a.len(),
            r.len() == k,
            forall|q: int| 0 <= q < k ==> inlines_view(r@[q]@) == inlines_view(a@[q]@),
        decreases a.len() - k,
    {
        r.push(copy_inlines(&a[k]));
        k = k + 1;
    }
    assert(cells_view(r@) =~= cells_view(a@));
    r
}

pub fn copy_block(a: &Block) -> (r: Block)
    ensures
        r@ == a@,
    decreases a, 2int,
{
    match a {
        Block::Paragraph(x) => Block::Paragraph(copy_inlines(x)),
        Block::Heading { level, content } => Block::Heading {
            level: *level,
            content: copy_inlines(content),
        },
        Block::BlockQuote(x) => Block::BlockQuote(copy_blocks(x)),
        Block::CodeBlock { language, code } => {
            let language = match language {
                Some(l) => Some(l.clone()),
                None => None,
            };
            Block::CodeBlock { language, code: code.clone() }
        },
        Block::List { ordered, start, items } => Block::List {
            ordered: *ordered,
            start: *start,
            items: copy_items(items),
        },
        Block::ThematicBreak => Block::ThematicBreak,
        Block::Table { alignments, header, rows } => {
            let mut new_rows: Vec<Vec<Vec<Inline>>> = Vec::new();
            let mut k: usize = 0;
            while k < rows.len()
                invariant
                    k <= rows.len(),
                    new_rows.len() == k,
                    forall|q: int|
                        0 <= q < k ==> cells_view(new_rows@[q]@) == cells_view(rows@[q]@),
                decreases rows.len() - k,
            {
                new_rows.push(copy_cells(&rows[k]));
                k = k + 1;
            }
            assert(rows_view(new_rows@) =~= rows_view(rows@));
            Block::Table {
                alignments: alignments.clone(),
                header: copy_cells(header),
                rows: new_rows,
            }
        },
        Block::HtmlBlock(x) => Block::HtmlBlock(x.clone()),
    }
}

pub fn copy_blocks(a: &Vec<Block>) -> (r: Vec<Block>)
    ensures
        blocks_view(r@) == blocks_view(a@),
    decreases a, 1int,
{
    let mut r: Vec<Block> = Vec::new();
    let mut k: usize = 0;
    while k < a.len()
        invariant
            k <= a.len(),
            r.len() == k,
            forall|q: int| 0 <= q < k ==> block_view(r@[q]) == block_view(a@[q]),
        decreases a.len() - k,
    {
        r.push(copy_block(&a[k]));
        k = k + 1;
    }
    assert(blocks_view(r@) =~= blocks_view(a@));
    r
}

fn copy_items(a: &Vec<Vec<Block>>) -> (r: Vec<Vec<Block>>)
    ensures
        items_view(r@) == items_view(a@),
    decreases a, 0int,
{
    let mut r: Vec<Vec<Block>> = Vec::new();
    let mut k: usize = 0;
    while k < a.len()
        invariant
            k <= a.len(),
            r.len() == k,
            forall|q: int| 0 <= q < k ==> blocks_view(r@[q]@) == blocks_view(a@[q]@),
        decreases a.len() - k,
    {
        r.push(copy_blocks(&a[k]));
        k = k + 1;
    }
    assert(items_view(r@) =~= items_view(a@));
    r
}

impl Clone for Block {
    fn clone(&self) -> Self {
        copy_block(self)
    }
}

impl Clone for Inline {
    fn clone(&self) -> Self {
        copy_inline(self)
    }
}
} // verus!
