use marq::diff::{diff_blocks, diff_blocks_inline, diff_inlines, wrap_block_added, wrap_block_removed};
use marq::handler::{DefaultReqHandler, RawCodeHandler};
use marq::handlers::{AasvgHandler, MermaidHandler, PikruHandler, TermHandler};
use marq::lcs::{diff_sequences, DiffOp};
use marq::reqs::{
    detect_rfc2119_keywords, parse_req_marker, parse_rule_id, ReqDefinition, ReqLevel, ReqMetadata, ReqStatus,
    Rfc2119Keyword, SourceSpan,
};
use marq::words::{inline_text, split_words};
use marq::{diff_markdown, diff_markdown_inline, parse, render_to_markdown, Alignment, Block, Error, Inline};

fn text(s: &str) -> Inline {
    Inline::Text(s.to_string())
}

fn op_string(ops: &[DiffOp<&i32>]) -> String {
    let mut out = String::new();
    for op in ops {
        match op {
            DiffOp::Equal(v) => out.push_str(&format!("={} ", v)),
            DiffOp::Remove(v) => out.push_str(&format!("-{} ", v)),
            DiffOp::Add(v) => out.push_str(&format!("+{} ", v)),
        }
    }
    out
}

#[test]
fn tie_break_lists_removal_before_addition() {
    let old = vec![1, 2, 3, 4, 5];
    let new = vec![1, 3, 4, 6];
    let ops = diff_sequences(&old, &new);
    assert_eq!(op_string(&ops), "=1 -2 =3 =4 -5 +6 ");
}

#[test]
fn aligner_handles_empty_sides() {
    let empty: Vec<i32> = vec![];
    let some = vec![7, 8];
    assert_eq!(op_string(&diff_sequences(&empty, &some)), "+7 +8 ");
    assert_eq!(op_string(&diff_sequences(&some, &empty)), "-7 -8 ");
    assert_eq!(op_string(&diff_sequences(&empty, &empty)), "");
}

#[test]
fn aligner_replacement_is_remove_then_add() {
    let ops = diff_sequences(&[1], &[2]);
    assert_eq!(op_string(&ops), "-1 +2 ");
}

#[test]
fn paired_diff_of_same_text_has_no_markers() {
    let md = "Plain words here.\n\n- one\n- two\n";
    let result = diff_markdown_inline(md, md);
    assert!(!result.contains("~~"));
    assert!(!result.contains("**"));
    assert_eq!(parse(&result), parse(md));
}

#[test]
fn scenario_word_change_in_paragraph() {
    let result = diff_markdown_inline("The quick brown fox.\n", "The slow brown fox.\n");
    assert_eq!(result, "The ~~quick~~ **slow** brown fox.\n\n");
}

#[test]
fn scenario_added_paragraph_whole_block() {
    let result = diff_markdown("First paragraph.\n", "First paragraph.\n\nSecond paragraph.\n");
    assert_eq!(result, "First paragraph.\n\n**Second paragraph.**\n\n");
}

#[test]
fn scenario_blockquote_lines_stay_quoted() {
    let result = diff_markdown_inline("> Line one.\n> Line two.\n", "> Line one.\n> Line changed.\n");
    for line in result.lines() {
        if line.contains('>') {
            assert!(line.starts_with('>'));
        }
    }
    assert!(result.contains("Line one."));
    assert!(result.contains("~~two.~~"));
    assert!(result.contains("**changed.**"));
}

#[test]
fn scenario_changed_code_block_becomes_marked_code_spans() {
    let old = "```rust\nlet x = 1;\n```\n";
    let new = "```rust\nlet x = 2;\n```\n";
    let result = diff_markdown_inline(old, new);
    assert_eq!(result, "`let` `x` `=` ~~`1;`~~ **`2;`**\n\n");
}

#[test]
fn scenario_unchanged_code_block_is_stable() {
    let md = "```rust\nfn main() {}\n```\n";
    let first = diff_markdown_inline(md, md);
    let second = diff_markdown_inline(md, md);
    assert_eq!(first, second);
    assert_eq!(first, "```rust\nfn main() {}\n```\n\n");
}

#[test]
fn word_preservation_in_paragraph_diff() {
    let old = vec![text("a b c d")];
    let new = vec![text("a x c y d")];
    let out = diff_inlines(&old, &new);
    let mut plain = Vec::new();
    let mut struck = Vec::new();
    let mut strong = Vec::new();
    for node in &out {
        match node {
            Inline::Text(t) if t != " " => plain.push(t.clone()),
            Inline::Strikethrough(v) => struck.push(inline_text(v)),
            Inline::Strong(v) => strong.push(inline_text(v)),
            _ => {}
        }
    }
    assert_eq!(plain, vec!["a", "c", "d"]);
    assert_eq!(struck, vec!["b"]);
    assert_eq!(strong, vec!["x", "y"]);
}

#[test]
fn removed_runs_are_joined_into_one_span() {
    let old = vec![text("one two three four")];
    let new = vec![text("one four")];
    let out = diff_inlines(&old, &new);
    assert_eq!(
        out,
        vec![
            text("one"),
            text(" "),
            Inline::Strikethrough(vec![text("two three")]),
            text(" "),
            text("four"),
        ]
    );
}

#[test]
fn flattening_drops_formatting_and_urls() {
    let inlines = vec![
        Inline::Emphasis(vec![text("em")]),
        Inline::SoftBreak,
        Inline::Link { url: "http://x".to_string(), title: String::new(), content: vec![text("label")] },
        Inline::HardBreak,
        Inline::Code("c".to_string()),
    ];
    assert_eq!(inline_text(&inlines), "em label `c`");
}

#[test]
fn split_words_on_unicode_whitespace() {
    assert_eq!(split_words("  a\tb\u{3000}c\n"), vec!["a", "b", "c"]);
    assert!(split_words(" \n ").is_empty());
}

#[test]
fn wrapping_rules_per_variant() {
    let code = Block::CodeBlock { language: Some("rust".to_string()), code: "x\n\n".to_string() };
    assert_eq!(
        wrap_block_removed(&code),
        Block::Paragraph(vec![Inline::Strikethrough(vec![Inline::Code("x".to_string())])])
    );
    assert_eq!(
        wrap_block_added(&Block::ThematicBreak),
        Block::Paragraph(vec![Inline::Strong(vec![text("---")])])
    );
    assert_eq!(
        wrap_block_removed(&Block::HtmlBlock("<br>".to_string())),
        Block::Paragraph(vec![Inline::Strikethrough(vec![text("<br>")])])
    );
    let table = Block::Table {
        alignments: vec![Alignment::Left],
        header: vec![vec![text("h")]],
        rows: vec![vec![vec![text("v")]]],
    };
    assert_eq!(
        wrap_block_added(&table),
        Block::Table {
            alignments: vec![Alignment::Left],
            header: vec![vec![Inline::Strong(vec![text("h")])]],
            rows: vec![vec![vec![Inline::Strong(vec![text("v")])]]],
        }
    );
    let heading = Block::Heading { level: 3, content: vec![text("T")] };
    assert_eq!(
        wrap_block_removed(&heading),
        Block::Heading { level: 3, content: vec![Inline::Strikethrough(vec![text("T")])] }
    );
}

#[test]
fn lists_and_tables_are_never_paired() {
    let old = parse("- a\n");
    let new = parse("3. a\n");
    let out = diff_blocks_inline(&old, &new);
    assert_eq!(out.len(), 2);
    assert_eq!(out[0], wrap_block_removed(&old[0]));
    assert_eq!(out[1], wrap_block_added(&new[0]));
}

#[test]
fn unmatched_removals_flush_before_added_block() {
    let old = vec![Block::ThematicBreak];
    let new = vec![Block::Paragraph(vec![text("p")])];
    let out = diff_blocks_inline(&old, &new);
    assert_eq!(
        out,
        vec![
            Block::Paragraph(vec![Inline::Strikethrough(vec![text("---")])]),
            Block::Paragraph(vec![Inline::Strong(vec![text("p")])]),
        ]
    );
    let whole = diff_blocks(&old, &new);
    assert_eq!(whole, out);
}

#[test]
fn heading_keeps_old_level() {
    let old = vec![Block::Heading { level: 2, content: vec![text("Old")] }];
    let new = vec![Block::Heading { level: 4, content: vec![text("New")] }];
    let out = diff_blocks_inline(&old, &new);
    assert_eq!(
        out,
        vec![Block::Heading {
            level: 2,
            content: vec![
                Inline::Strikethrough(vec![text("Old")]),
                text(" "),
                Inline::Strong(vec![text("New")]),
            ],
        }]
    );
}

#[test]
fn render_formats_lists_tables_and_quotes() {
    let blocks = vec![
        Block::List {
            ordered: true,
            start: Some(9),
            items: vec![vec![Block::Paragraph(vec![text("a")])], vec![Block::Paragraph(vec![text("b")])]],
        },
        Block::Table {
            alignments: vec![Alignment::Unspecified, Alignment::Center, Alignment::Right],
            header: vec![vec![text("x")], vec![text("y")], vec![text("z")]],
            rows: vec![],
        },
        Block::BlockQuote(vec![Block::Paragraph(vec![text("q")]), Block::Paragraph(vec![text("r")])]),
    ];
    assert_eq!(
        render_to_markdown(&blocks),
        "9. a\n10. b\n\n| x | y | z |\n| --- | :-: | --: |\n\n> q\n>\n> r\n\n"
    );
}

#[test]
fn render_inline_forms() {
    let blocks = vec![Block::Paragraph(vec![
        Inline::Image { url: "i.png".to_string(), title: "T".to_string(), alt: vec![text("alt")] },
        Inline::HardBreak,
        Inline::Strong(vec![Inline::Emphasis(vec![text("x")])]),
        Inline::Html("<b>".to_string()),
    ])];
    assert_eq!(render_to_markdown(&blocks), "![alt](i.png \"T\")  \n***x***<b>\n\n");
}

#[test]
fn rule_ids_with_versions() {
    let r = parse_rule_id("auth.token+2").unwrap();
    assert_eq!(r.base, "auth.token");
    assert_eq!(r.version, 2);
    assert_eq!(r.to_string(), "auth.token+2");
    let plain = parse_rule_id("auth.token").unwrap();
    assert_eq!(plain.version, 1);
    assert_eq!(plain.to_string(), "auth.token");
    assert!(parse_rule_id("").is_none());
    assert!(parse_rule_id("a+0").is_none());
    assert!(parse_rule_id("+3").is_none());
    assert!(parse_rule_id("a+").is_none());
    assert!(parse_rule_id("a+b+2").is_none());
    assert!(parse_rule_id("a+x").is_none());
    assert!(parse_rule_id("a+4294967296").is_none());
    assert_eq!(parse_rule_id("a+4294967295").unwrap().version, 4294967295);
}

#[test]
fn marker_with_attributes() {
    let (id, meta) =
        parse_req_marker("  api.limit status=draft level=should since=1.2 until=2.0 tags=a ").unwrap();
    assert_eq!(id.base, "api.limit");
    assert_eq!(meta.status, Some(ReqStatus::Draft));
    assert_eq!(meta.level, Some(ReqLevel::Should));
    assert_eq!(meta.since.as_deref(), Some("1.2"));
    assert_eq!(meta.until.as_deref(), Some("2.0"));
    assert_eq!(meta.tags, vec!["a".to_string()]);
    assert!(parse_req_marker("x tags=a, b").is_err());
    let (_, meta) = parse_req_marker("x tags=a,,b").unwrap();
    assert_eq!(meta.tags, vec!["a".to_string(), String::new(), "b".to_string()]);
}

#[test]
fn marker_errors() {
    assert!(matches!(parse_req_marker("   "), Err(Error::DuplicateReq(_))));
    match parse_req_marker("x status=bogus") {
        Err(Error::CodeBlockHandler { language, message }) => {
            assert_eq!(language, "req");
            assert_eq!(
                message,
                "invalid status 'bogus' for requirement 'x', expected: draft, stable, deprecated, removed"
            );
        }
        _ => panic!("expected a status error"),
    }
    assert!(matches!(parse_req_marker("x level=huge"), Err(Error::CodeBlockHandler { .. })));
    assert!(matches!(parse_req_marker("x color=red"), Err(Error::CodeBlockHandler { .. })));
    match parse_req_marker("x+3 novalue") {
        Err(Error::CodeBlockHandler { message, .. }) => assert_eq!(
            message,
            "invalid attribute format 'novalue' for requirement 'x+3', expected: key=value"
        ),
        _ => panic!("expected a format error"),
    }
}

#[test]
fn keyword_names_and_polarity() {
    assert_eq!(Rfc2119Keyword::MustNot.as_str(), "MUST NOT");
    assert!(Rfc2119Keyword::ShouldNot.is_negative());
    assert!(!Rfc2119Keyword::May.is_negative());
    assert_eq!(ReqStatus::parse("deprecated"), Some(ReqStatus::Deprecated));
    assert_eq!(ReqStatus::Removed.as_str(), "removed");
    assert_eq!(ReqLevel::parse("recommended"), Some(ReqLevel::Should));
    assert_eq!(ReqLevel::parse("MUST"), None);
    assert_eq!(ReqLevel::May.as_str(), "may");
}

#[test]
fn handler_html() {
    assert_eq!(
        RawCodeHandler.render_html("rust", "fn main() {}"),
        "<pre><code class=\"language-rust\">fn main() {}</code></pre>"
    );
    assert_eq!(RawCodeHandler.render_html("", "<a>"), "<pre><code>&lt;a&gt;</code></pre>");
    assert_eq!(
        TermHandler::new().render_html("<t-b>x</t-b>"),
        "<div class=\"code-block term-output\"><pre><code><t-b>x</t-b></code></pre></div>"
    );
    assert_eq!(
        MermaidHandler::new().render_html("A-->B"),
        "<div data-hotmeal-opaque=\"mermaid\"><pre class=\"mermaid\">A--&gt;B</pre></div>"
    );
    assert!(PikruHandler::with_css_variables(true).css_variables);
    assert!(!PikruHandler::new().css_variables);
}

#[test]
fn aasvg_draws_svg() {
    let svg = AasvgHandler::new().render_svg("+--+\n|  |\n+--+");
    assert!(svg.contains("<svg"));
    assert_ne!(svg, "+--+\n|  |\n+--+");
}

#[test]
fn keywords_ignore_surrounding_punctuation() {
    assert_eq!(
        detect_rfc2119_keywords("(MUST) \"SHALL NOT\" *OPTIONAL*, NOT RECOMMENDED."),
        vec![Rfc2119Keyword::Must, Rfc2119Keyword::MustNot, Rfc2119Keyword::May, Rfc2119Keyword::ShouldNot]
    );
    assert!(detect_rfc2119_keywords("MUSTARD").is_empty());
}

#[test]
fn rule_id_compares_with_text() {
    let r = parse_rule_id("a.b+3").unwrap();
    assert!(r == "a.b+3");
    assert!("a.b+3" == r);
    assert!(r != "a.b");
}

#[test]
fn pikchr_renders_or_names_the_failing_stage() {
    let handler = PikruHandler::new();
    let svg = handler.render_svg("box \"A\"").unwrap();
    assert!(svg.contains("<svg"));
    match handler.render_svg("box \"unterminated") {
        Err(Error::CodeBlockHandler { language, message }) => {
            assert_eq!(language, "pik");
            assert!(message.starts_with("parse error: "));
        }
        other => panic!("expected a parse error, got {:?}", other),
    }
}

#[test]
fn empty_documents() {
    assert_eq!(diff_markdown("", ""), "");
    assert_eq!(diff_markdown_inline("", ""), "");
    assert_eq!(diff_markdown_inline("", "New.\n"), "**New.**\n\n");
    assert_eq!(diff_markdown_inline("Old.\n", ""), "~~Old.~~\n\n");
    assert!(parse("").is_empty());
    assert_eq!(render_to_markdown(&vec![]), "");
}

#[test]
fn nested_quote_diff_keeps_both_levels() {
    let result = diff_markdown_inline("> a\n>\n> > b c\n", "> a\n>\n> > b d\n");
    assert!(result.contains("> > b ~~c~~ **d**"));
    for line in result.lines() {
        if !line.is_empty() {
            assert!(line.starts_with('>'));
        }
    }
}

#[test]
fn metadata_equality() {
    let (_, a) = parse_req_marker("x status=stable tags=p,q").unwrap();
    let (_, b) = parse_req_marker("y tags=p,q status=stable").unwrap();
    let (_, c) = parse_req_marker("y tags=p status=stable").unwrap();
    assert_eq!(a, b);
    assert_ne!(a, c);
    assert_ne!(a, ReqMetadata::default());
}

#[test]
fn default_req_handler_html() {
    let (id, metadata) = parse_req_marker("chan.alloc+2").unwrap();
    let req = ReqDefinition {
        id,
        anchor_id: "r--chan.alloc".to_string(),
        marker_span: SourceSpan::default(),
        span: SourceSpan::default(),
        line: 1,
        metadata,
        raw: String::new(),
        html: String::new(),
    };
    assert_eq!(
        DefaultReqHandler.start_html(&req),
        "<div class=\"req\" id=\"r--chan.alloc\"><a class=\"req-link\" href=\"#r--chan.alloc\" title=\"chan.alloc+2\"><span>chan.alloc+2</span></a>"
    );
    assert_eq!(DefaultReqHandler.end_html(), "</div>");
}

#[test]
fn parse_fenced_code_and_tables() {
    let blocks = parse("```rust\nfn main() {}\n```\n\n| a | b |\n| :-- | --: |\n| 1 | 2 |\n");
    assert_eq!(
        blocks[0],
        Block::CodeBlock { language: Some("rust".to_string()), code: "fn main() {}\n".to_string() }
    );
    assert_eq!(
        blocks[1],
        Block::Table {
            alignments: vec![Alignment::Left, Alignment::Right],
            header: vec![vec![text("a")], vec![text("b")]],
            rows: vec![vec![vec![text("1")], vec![text("2")]]],
        }
    );
    assert_eq!(parse("    indented\n")[0], Block::CodeBlock { language: None, code: "indented\n".to_string() });
}
