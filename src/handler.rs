//! Code block handlers: the HTML that the built-in handlers produce.

use vstd::prelude::*;
use crate::text::{chars_of, push_char};
use crate::reqs::{ReqDefinition, rule_id_text};

verus! {

/// The HTML escape of one character.
pub open spec fn escape_char(c: char) -> Seq<char> {
    if c == '&' {
        "&amp;"@
    } else if c == '<' {
        "&lt;"@
    } else if c == '>' {
        "&gt;"@
    } else if c == '"' {
        "&quot;"@
    } else if c == '\'' {
        "&#x27;"@
    } else {
        seq![c]
    }
}

/// `s` with `& < > " '` replaced by their character references.
pub open spec fn escaped(s: Seq<char>) -> Seq<char>
    decreases s.len(),
{
    if s.len() == 0 {
        seq![]
    } else {
        escaped(s.drop_last()) + escape_char(s.last())
    }
}

/// Escape HTML special characters.
pub fn html_escape(s: &str) -> (r: String)
    ensures
        r@ == escaped(s@),
{
    let cs = chars_of(s);
    let mut result = String::new();
    let mut k: usize = 0;
    while k < cs.len()
        invariant
            k <= cs.len(),
            cs@ == s@,
            result@ == escaped(cs@.take(k as int)),
        decreases cs.len() - k,
    {
        let c = cs[k];
        let ghost before = result@;
        if c == '&' {
            result.append("&amp;");
        } else if c == '<' {
            result.append("&lt;");
        } else if c == '>' {
            result.append("&gt;");
        } else if c == '"' {
            result.append("&quot;");
        } else if c == '\'' {
            result.append("&#x27;");
        } else {
            push_char(&mut result, c);
            assert(result@ =~= before + seq![c]);
        }
        assert(cs@.take(k + 1).drop_last() =~= cs@.take(k as int));
        k = k + 1;
    }
    assert(cs@.take(k as int) =~= cs@);
    result
}

/// Default req handler that renders simple anchor divs.
///
/// This is used when no custom req handler is registered.
pub struct DefaultReqHandler;

/// The opening HTML of a requirement: an anchored div with a link to itself.
pub open spec fn req_start_html(anchor: Seq<char>, id: Seq<char>) -> Seq<char> {
    "<div class=\"req\" id=\""@ + anchor + "\"><a class=\"req-link\" href=\"#"@ + anchor
        + "\" title=\""@ + id + "\"><span>"@ + id + "</span></a>"@
}

impl DefaultReqHandler {
    /// The opening HTML for a requirement definition.
    pub fn start_html(&self, req: &ReqDefinition) -> (r: String)
        ensures
            r@ == req_start_html(req.anchor_id@, rule_id_text(req.id.base@, req.id.version)),
    {
        let id = req.id.to_string();
        let mut out = String::from_str("<div class=\"req\" id=\"");
        out.append(req.anchor_id.as_str());
        out.append("\"><a class=\"req-link\" href=\"#");
        out.append(req.anchor_id.as_str());
        out.append("\" title=\"");
        out.append(id.as_str());
        out.append("\"><span>");
        out.append(id.as_str());
        out.append("</span></a>");
        out
    }

    /// The closing HTML for a requirement definition.
    pub fn end_html(&self) -> (r: String)
        ensures
            r@ == "</div>"@,
    {
        String::from_str("</div>")
    }
}

/// A simple handler that wraps code in `<pre><code>` tags without processing.
///
/// This is used as a fallback when no handler is registered for a language.
pub struct RawCodeHandler;

/// The class attribute naming a code block's language, empty without one.
pub open spec fn language_class(language: Seq<char>) -> Seq<char> {
    if language.len() == 0 {
        seq![]
    } else {
        " class=\"language-"@ + escaped(language) + "\""@
    }
}

impl RawCodeHandler {
    /// The escaped code in `<pre><code>`, with a class naming the language.
    pub fn render_html(&self, language: &str, code: &str) -> (r: String)
        ensures
            r@ == "<pre><code"@ + language_class(language@) + ">"@ + escaped(code@)
                + "</code></pre>"@,
    {
        let escaped_code = html_escape(code);
        let mut out = String::from_str("<pre><code");
        if language.unicode_len() != 0 {
            out.append(" class=\"language-");
            out.append(html_escape(language).as_str());
            out.append("\"");
        }
        out.append(">");
        out.append(escaped_code.as_str());
        out.append("</code></pre>");
        out
    }
}

} // verus!
