use marq::diff::{diff_markdown, diff_markdown_inline};
use marq::lcs::{diff_sequences, DiffOp};

// =========================================================================
// Realistic tracey scenarios — these mirror actual requirement .raw text
// that gets diffed for hover popups.
// =========================================================================

#[test]
fn tracey_paragraph_req_word_change() {
    // Paragraph requirement: .raw is text after the r[...] marker
    let v1 = "All payloads MUST use Postcard wire format.\n";
    let v2 = "All payloads MUST use MessagePack wire format.\n";
    let result = diff_markdown_inline(v1, v2);
    println!("--- paragraph req word change ---\n{result}---");
    assert!(result.contains("~~Postcard~~"));
    assert!(result.contains("**MessagePack**"));
    assert!(result.contains("MUST"));
    assert!(result.contains("wire"));
}

#[test]
fn tracey_blockquote_req_text_change() {
    // Blockquote requirement: .raw includes `> ` prefixes, marker already stripped
    let v1 = "\
> The server MUST validate all incoming session tokens
> before processing any request.
";
    let v2 = "\
> The server MUST validate all incoming session tokens
> and verify their expiry before processing any request.
";
    let result = diff_markdown_inline(v1, v2);
    println!("--- blockquote req text change ---\n{result}---");
    // Blockquote structure preserved
    assert!(
        result.contains("> "),
        "blockquote prefix preserved: {result}"
    );
    // Word-level diff inside the blockquote — added phrase grouped together
    assert!(
        result.contains("**and verify their expiry**"),
        "added words marked: {result}"
    );
}

#[test]
fn tracey_blockquote_req_with_code_block() {
    // Multi-block blockquote: text paragraph + code example
    let v1 = "\
> Responses MUST conform to the following schema:
>
> ```json
> {\"status\": \"ok\", \"data\": []}
> ```
";
    let v2 = "\
> Responses MUST conform to the following schema:
>
> ```json
> {\"status\": \"ok\", \"data\": [], \"meta\": {}}
> ```
";
    let result = diff_markdown_inline(v1, v2);
    println!("--- blockquote with code block change ---\n{result}---");
    // The text paragraph is unchanged
    assert!(result.contains("Responses MUST conform"));
    // Code block change should show old/new
    assert!(result.contains("~~"), "old code struck: {result}");
    assert!(result.contains("**"), "new code bolded: {result}");
}

#[test]
fn tracey_added_paragraph_to_req() {
    // Requirement grows: v2 adds a clarifying paragraph
    let v1 = "Clients MUST retry failed requests with exponential backoff.\n";
    let v2 = "\
Clients MUST retry failed requests with exponential backoff.

The initial delay SHOULD be 100ms, doubling on each retry up to 10s.
";
    let result = diff_markdown_inline(v1, v2);
    println!("--- added paragraph ---\n{result}---");
    assert!(result.contains("exponential backoff."));
    assert!(
        result.contains("**"),
        "added paragraph should be bold: {result}"
    );
    assert!(
        result.contains("100ms") || result.contains("SHOULD"),
        "new content present: {result}"
    );
}

#[test]
fn tracey_removed_paragraph_from_req() {
    // Requirement shrinks: v2 removes the example
    let v1 = "\
Connections MUST use TLS 1.3 or higher.

Legacy TLS 1.2 connections MAY be accepted during the migration period.
";
    let v2 = "Connections MUST use TLS 1.3 or higher.\n";
    let result = diff_markdown_inline(v1, v2);
    println!("--- removed paragraph ---\n{result}---");
    assert!(result.contains("TLS 1.3"));
    assert!(
        result.contains("~~"),
        "removed paragraph should be struck: {result}"
    );
}

#[test]
fn tracey_unchanged_req() {
    let md = "\
> The implementation MUST handle partial reads by buffering
> incomplete frames until a full message boundary is received.
";
    let result = diff_markdown_inline(md, md);
    println!("--- unchanged ---\n{result}---");
    assert!(!result.contains("~~"), "no strikethrough: {result}");
    assert!(!result.contains("**"), "no bold: {result}");
    assert!(result.contains("MUST handle"));
}

// =========================================================================
// Structural preservation tests — the whole point vs raw word diff
// =========================================================================

#[test]
fn blockquote_markers_not_mangled() {
    // The old word-level diff would collapse "> foo\n> bar" into
    // "> ~~foo~~ > ~~bar~~" — a single line with embedded `>`
    let v1 = "> Line one.\n> Line two.\n";
    let v2 = "> Line one.\n> Line changed.\n";
    let result = diff_markdown_inline(v1, v2);
    println!("--- blockquote not mangled ---\n{result}---");
    // Must start with blockquote
    assert!(
        result.starts_with("> "),
        "output must be a blockquote: {result}"
    );
    // Must not have bare `>` in the middle of a line (mangled)
    for line in result.lines() {
        if line.contains('>') {
            assert!(
                line.starts_with('>'),
                "bare > in middle of line — structure mangled: {line}"
            );
        }
    }
}

#[test]
fn paragraph_breaks_preserved() {
    let v1 = "First paragraph.\n\nSecond paragraph.\n";
    let v2 = "First paragraph.\n\nChanged paragraph.\n";
    let result = diff_markdown_inline(v1, v2);
    println!("--- paragraph breaks preserved ---\n{result}---");
    // Should have two separate paragraph blocks, not one merged line
    let non_empty_lines: Vec<&str> = result.lines().filter(|l| !l.is_empty()).collect();
    assert!(
        non_empty_lines.len() >= 2,
        "should be multiple paragraphs, got: {result}"
    );
}

// =========================================================================
// Unit tests
// =========================================================================

#[test]
fn diff_sequences_basic() {
    let old = vec![1, 2, 3, 4, 5];
    let new = vec![1, 3, 4, 6];
    let ops = diff_sequences(&old, &new);
    let equal: Vec<_> = ops
        .iter()
        .filter_map(|op| match op {
            DiffOp::Equal(v) => Some(**v),
            _ => None,
        })
        .collect();
    assert_eq!(equal, vec![1, 3, 4]);
}

#[test]
fn unchanged_text_no_markers() {
    let md = "Hello world.\n";
    let result = diff_markdown(md, md);
    assert!(result.contains("Hello world."));
    assert!(!result.contains("~~"));
    assert!(!result.contains("**"));
}

#[test]
fn heading_preserves_level() {
    let old = "## Old Title\n";
    let new = "## New Title\n";
    let result = diff_markdown_inline(old, new);
    assert!(result.contains("## "), "heading level preserved: {result}");
    assert!(result.contains("~~Old~~"), "old struck: {result}");
    assert!(result.contains("**New**"), "new bolded: {result}");
}
