use marq::{parse, render_to_markdown, Block};

#[test]
fn round_trip_paragraph() {
    let md = "Hello world.\n";
    let blocks = parse(md);
    assert_eq!(blocks.len(), 1);
    assert!(matches!(&blocks[0], Block::Paragraph(_)));
    let rendered = render_to_markdown(&blocks);
    let reparsed = parse(&rendered);
    assert_eq!(blocks, reparsed);
}

#[test]
fn round_trip_heading() {
    let md = "## My Heading\n";
    let blocks = parse(md);
    assert_eq!(blocks.len(), 1);
    match &blocks[0] {
        Block::Heading { level, content } => {
            assert_eq!(*level, 2);
            assert_eq!(content.len(), 1);
        }
        other => panic!("expected heading, got {other:?}"),
    }
    let rendered = render_to_markdown(&blocks);
    let reparsed = parse(&rendered);
    assert_eq!(blocks, reparsed);
}

#[test]
fn round_trip_blockquote() {
    let md = "> Quoted text.\n";
    let blocks = parse(md);
    assert_eq!(blocks.len(), 1);
    assert!(matches!(&blocks[0], Block::BlockQuote(_)));
    let rendered = render_to_markdown(&blocks);
    let reparsed = parse(&rendered);
    assert_eq!(blocks, reparsed);
}

#[test]
fn round_trip_code_block() {
    let md = "```rust\nfn main() {}\n```\n";
    let blocks = parse(md);
    assert_eq!(blocks.len(), 1);
    match &blocks[0] {
        Block::CodeBlock { language, code } => {
            assert_eq!(language.as_deref(), Some("rust"));
            assert_eq!(code, "fn main() {}\n");
        }
        other => panic!("expected code block, got {other:?}"),
    }
    let rendered = render_to_markdown(&blocks);
    let reparsed = parse(&rendered);
    assert_eq!(blocks, reparsed);
}

#[test]
fn round_trip_unordered_list() {
    let md = "- item one\n- item two\n- item three\n";
    let blocks = parse(md);
    assert_eq!(blocks.len(), 1);
    match &blocks[0] {
        Block::List { ordered, items, .. } => {
            assert!(!ordered);
            assert_eq!(items.len(), 3);
        }
        other => panic!("expected list, got {other:?}"),
    }
    let rendered = render_to_markdown(&blocks);
    let reparsed = parse(&rendered);
    assert_eq!(blocks, reparsed);
}

#[test]
fn round_trip_emphasis_strong() {
    let md = "Text with *emphasis* and **strong**.\n";
    let blocks = parse(md);
    let rendered = render_to_markdown(&blocks);
    let reparsed = parse(&rendered);
    assert_eq!(blocks, reparsed);
}

#[test]
fn round_trip_link() {
    let md = "See [example](https://example.com) for details.\n";
    let blocks = parse(md);
    let rendered = render_to_markdown(&blocks);
    let reparsed = parse(&rendered);
    assert_eq!(blocks, reparsed);
}

#[test]
fn round_trip_image() {
    let md = "![alt text](image.png)\n";
    let blocks = parse(md);
    let rendered = render_to_markdown(&blocks);
    let reparsed = parse(&rendered);
    assert_eq!(blocks, reparsed);
}

#[test]
fn round_trip_nested_blockquote() {
    let md = "> outer\n>\n> > inner\n";
    let blocks = parse(md);
    assert_eq!(blocks.len(), 1);
    match &blocks[0] {
        Block::BlockQuote(inner) => {
            assert!(inner.len() >= 2);
            assert!(inner.iter().any(|b| matches!(b, Block::BlockQuote(_))));
        }
        other => panic!("expected blockquote, got {other:?}"),
    }
    let rendered = render_to_markdown(&blocks);
    let reparsed = parse(&rendered);
    assert_eq!(blocks, reparsed);
}

#[test]
fn round_trip_mixed_inline() {
    let md = "This has **bold *nested italic*** and `code`.\n";
    let blocks = parse(md);
    let rendered = render_to_markdown(&blocks);
    let reparsed = parse(&rendered);
    assert_eq!(blocks, reparsed);
}

#[test]
fn round_trip_thematic_break() {
    let md = "Before.\n\n---\n\nAfter.\n";
    let blocks = parse(md);
    assert!(blocks.iter().any(|b| matches!(b, Block::ThematicBreak)));
    let rendered = render_to_markdown(&blocks);
    let reparsed = parse(&rendered);
    assert_eq!(blocks, reparsed);
}

#[test]
fn round_trip_table() {
    let md = "| A | B |\n| --- | --- |\n| 1 | 2 |\n| 3 | 4 |\n";
    let blocks = parse(md);
    assert_eq!(blocks.len(), 1);
    match &blocks[0] {
        Block::Table { header, rows, .. } => {
            assert_eq!(header.len(), 2);
            assert_eq!(rows.len(), 2);
        }
        other => panic!("expected table, got {other:?}"),
    }
    let rendered = render_to_markdown(&blocks);
    let reparsed = parse(&rendered);
    assert_eq!(blocks, reparsed);
}
