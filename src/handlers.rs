//! Built-in code block handlers: terminal output, ASCII-art diagrams,
//! Pikchr diagrams and Mermaid diagrams.

use vstd::prelude::*;
use crate::handler::{html_escape, escaped};
use crate::error::Error;
use crate::chars::{
    trim_back, trim_both, strip_of, split_on, split_chars, chars_view, trim_chars, trim_end_chars,
    string_from_chars, sub_chars,
};
use crate::links::{starts_with, has_prefix};
use crate::text::chars_of;
use pikru::ast::Program as PikchrProgram;
use pikru::errors::PikruError;

verus! {

/// Terminal output handler that passes through HTML without escaping.
///
/// The content is pre-rendered terminal output (HTML with `<t-*>` elements
/// for styled text); it is wrapped in a code block container unescaped.
pub struct TermHandler;

impl TermHandler {
    /// Create a new TermHandler.
    pub fn new() -> Self {
        TermHandler
    }

    /// The code, unescaped, in a terminal-output code block.
    pub fn render_html(&self, code: &str) -> (r: String)
        ensures
            r@ == "<div class=\"code-block term-output\"><pre><code>"@ + code@
                + "</code></pre></div>"@,
    {
        let mut out = String::from_str("<div class=\"code-block term-output\"><pre><code>");
        out.append(code);
        out.append("</code></pre></div>");
        out
    }
}

/// The SVG that aasvg draws for an ASCII-art diagram.
pub uninterp spec fn ascii_art_svg(code: Seq<char>) -> Seq<char>;

/// Relies on `aasvg::render`: the SVG drawing of the diagram, which depends
/// on the diagram text alone.
#[verifier::external_body]
fn aasvg_render(code: &str) -> (r: String)
    ensures
        r@ == ascii_art_svg(code@),
{
    aasvg::render(code)
}

/// ASCII art to SVG handler using aasvg.
pub struct AasvgHandler;

impl AasvgHandler {
    /// Create a new AasvgHandler.
    pub fn new() -> Self {
        AasvgHandler
    }

    /// The diagram drawn as SVG.
    pub fn render_svg(&self, code: &str) -> (r: String)
        ensures
            r@ == ascii_art_svg(code@),
    {
        aasvg_render(code)
    }
}

/// Pikchr diagram handler using pikru.
pub struct PikruHandler {
    /// Whether to use CSS variables for colors (for dark mode support)
    pub css_variables: bool,
}

#[verifier::external_type_specification]
#[verifier::external_body]
pub struct ExPikchrProgram(PikchrProgram);

#[verifier::external_type_specification]
#[verifier::external_body]
pub struct ExPikruError(PikruError);

/// Relies on `pikru::parse::parse`: the program that Pikchr source
/// describes, or why it is not one.
#[verifier::external_body]
fn pikchr_parse(code: &str) -> Result<PikchrProgram, PikruError> {
    pikru::parse::parse(code)
}

/// Relies on `pikru::macros::expand_macros`: the program with its macros expanded.
#[verifier::external_body]
fn pikchr_expand(program: PikchrProgram) -> Result<PikchrProgram, PikruError> {
    pikru::macros::expand_macros(program)
}

/// Relies on `pikru::render::render_with_options`, with colors as CSS
/// variables or not and the other options at their defaults: the SVG.
#[verifier::external_body]
fn pikchr_render(program: &PikchrProgram, css_variables: bool) -> Result<String, PikruError> {
    let options = pikru::render::RenderOptions { css_variables, ..Default::default() };
    pikru::render::render_with_options(program, &options)
}

/// Relies on `PikruError`'s `Display`: its message.
#[verifier::external_body]
fn pikchr_error_text(e: &PikruError) -> String {
    e.to_string()
}

/// An error of a `pik` block whose message begins with the failing stage.
pub open spec fn pikchr_failure(e: Error, stage: Seq<char>) -> bool {
    e matches Error::CodeBlockHandler { language, message } && language@ == "pik"@
        && message@.len() >= stage.len() && message@.take(stage.len() as int) == stage
}

fn pikchr_error(stage: &str, e: &PikruError) -> (r: Error)
    ensures
        pikchr_failure(r, stage@),
{
    let mut message = String::from_str(stage);
    message.append(": ");
    message.append(pikchr_error_text(e).as_str());
    assert(message@.take(stage@.len() as int) =~= stage@);
    Error::CodeBlockHandler { language: String::from_str("pik"), message }
}

impl PikruHandler {
    /// Render Pikchr source to SVG: parse it, expand its macros and draw it.
    /// A failing stage is reported as an error of the `pik` block whose
    /// message names the stage.
    pub fn render_svg(&self, code: &str) -> (r: Result<String, Error>)
        ensures
            r matches Err(e) ==> pikchr_failure(e, "parse error"@) || pikchr_failure(
                e,
                "macro error"@,
            ) || pikchr_failure(e, "render error"@),
    {
        let program = match pikchr_parse(code) {
            Ok(p) => p,
            Err(e) => {
                return Err(pikchr_error("parse error", &e));
            },
        };
        let program = match pikchr_expand(program) {
            Ok(p) => p,
            Err(e) => {
                return Err(pikchr_error("macro error", &e));
            },
        };
        match pikchr_render(&program, self.css_variables) {
            Ok(svg) => Ok(svg),
            Err(e) => Err(pikchr_error("render error", &e)),
        }
    }

    /// Create a new PikruHandler.
    pub fn new() -> (r: Self)
        ensures
            !r.css_variables,
    {
        PikruHandler { css_variables: false }
    }

    /// Create a new PikruHandler with CSS variable support.
    pub fn with_css_variables(css_variables: bool) -> (r: Self)
        ensures
            r.css_variables == css_variables,
    {
        PikruHandler { css_variables }
    }
}

/// Mermaid diagram handler.
///
/// Emits a `<pre class="mermaid">` block for client-side rendering by
/// Mermaid.js, wrapped in `data-hotmeal-opaque` for live-reload compatibility.
pub struct MermaidHandler;

impl MermaidHandler {
    /// Create a new MermaidHandler.
    pub fn new() -> Self {
        MermaidHandler
    }

    /// The escaped diagram source in a `pre.mermaid` inside an opaque wrapper.
    pub fn render_html(&self, code: &str) -> (r: String)
        ensures
            r@ == "<div data-hotmeal-opaque=\"mermaid\"><pre class=\"mermaid\">"@ + escaped(code@)
                + "</pre></div>"@,
    {
        let mut out = String::from_str("<div data-hotmeal-opaque=\"mermaid\"><pre class=\"mermaid\">");
        out.append(html_escape(code).as_str());
        out.append("</pre></div>");
        out
    }
}

/// A parsed section from a compare block.
#[derive(Debug, Clone)]
pub struct CompareSection {
    /// Language identifier for syntax highlighting
    pub language: String,
    /// The code content
    pub code: String,
}

/// A line without a carriage return that ended it.
pub open spec fn strip_cr(l: Seq<char>) -> Seq<char> {
    if l.len() > 0 && l.last() == '\r' {
        l.drop_last()
    } else {
        l
    }
}

/// The lines of a text as `str::lines` gives them: split at `\n`, each
/// line but the last without a `\r` before its `\n`, and no empty last line.
pub open spec fn text_lines(t: Seq<char>) -> Seq<Seq<char>> {
    let ls = split_on(t, '\n');
    if ls.len() == 0 {
        seq![]
    } else {
        let body = Seq::new((ls.len() - 1) as nat, |i: int| strip_cr(ls[i]));
        if ls.last().len() == 0 {
            body
        } else {
            body.push(ls.last())
        }
    }
}

/// Reading state: sections so far (language, code), the language of the
/// open section if any, and its code so far.
pub open spec fn section_step(
    st: (Seq<(Seq<char>, Seq<char>)>, Option<Seq<char>>, Seq<char>),
    line: Seq<char>,
) -> (Seq<(Seq<char>, Seq<char>)>, Option<Seq<char>>, Seq<char>) {
    if starts_with(line, "/// "@) {
        (
            match st.1 {
                Some(l) => st.0.push((l, trim_back(st.2, strip_of(true)))),
                None => st.0,
            },
            Some(trim_both(line.skip(4), strip_of(true))),
            if st.1 is Some {
                seq![]
            } else {
                st.2
            },
        )
    } else if st.1 is Some {
        (st.0, st.1, if st.2.len() > 0 {
            st.2.push('\n') + line
        } else {
            st.2 + line
        })
    } else {
        st
    }
}

pub open spec fn sections_state(lines: Seq<Seq<char>>, n: nat) -> (
    Seq<(Seq<char>, Seq<char>)>,
    Option<Seq<char>>,
    Seq<char>,
)
    decreases n,
{
    if n == 0 || n > lines.len() {
        (seq![], None, seq![])
    } else {
        section_step(sections_state(lines, (n - 1) as nat), lines[n - 1])
    }
}

/// The sections of a compare block: each `/// language` line opens a
/// section holding the lines up to the next one, with trailing whitespace
/// trimmed; lines before the first are ignored.
pub open spec fn compare_sections(code: Seq<char>) -> Seq<(Seq<char>, Seq<char>)> {
    let lines = text_lines(code);
    let st = sections_state(lines, lines.len());
    match st.1 {
        Some(l) => st.0.push((l, trim_back(st.2, strip_of(true)))),
        None => st.0,
    }
}

pub open spec fn sections_view(v: Seq<CompareSection>) -> Seq<(Seq<char>, Seq<char>)> {
    Seq::new(v.len(), |i: int| (v[i].language@, v[i].code@))
}

fn lines_exec(code: &str) -> (r: Vec<Vec<char>>)
    ensures
        chars_view(r@) == text_lines(code@),
{
    let cs = chars_of(code);
    let pieces = split_chars(&cs, '\n');
    let ghost pv = chars_view(pieces@);
    let mut lines: Vec<Vec<char>> = Vec::new();
    if pieces.len() == 0 {
        assert(chars_view(lines@) =~= text_lines(code@));
        return lines;
    }
    let last = pieces.len() - 1;
    let mut k: usize = 0;
    while k < last
        invariant
            k <= last,
            last == pieces.len() - 1,
            pv == chars_view(pieces@),
            lines.len() == k,
            forall|i: int| 0 <= i < k ==> (#[trigger] lines@[i])@ == strip_cr(pv[i]),
        decreases last - k,
    {
        let p = &pieces[k];
        let line = if p.len() > 0 && p[p.len() - 1] == '\r' {
            let l = sub_chars(p, 0, p.len() - 1);
            assert(l@ =~= p@.drop_last());
            l
        } else {
            p.clone()
        };
        lines.push(line);
        k = k + 1;
    }
    let ghost body = chars_view(lines@);
    assert(body =~= Seq::new((pv.len() - 1) as nat, |i: int| strip_cr(pv[i])));
    if pieces[last].len() > 0 {
        lines.push(pieces[last].clone());
        assert(chars_view(lines@) =~= body.push(pv.last()));
    }
    lines
}

impl CompareSection {
    /// Parse the content of a compare block into sections.
    ///
    /// Each section starts with `/// language` and contains the code until
    /// the next separator or end of content.
    pub fn parse_sections(code: &str) -> (r: Vec<CompareSection>)
        ensures
            sections_view(r@) == compare_sections(code@),
    {
        let lines = lines_exec(code);
        let ghost lv = chars_view(lines@);
        let mut sections: Vec<CompareSection> = Vec::new();
        let mut language: Option<Vec<char>> = None;
        let mut current: Vec<char> = Vec::new();
        let mut k: usize = 0;
        while k < lines.len()
            invariant
                k <= lines.len(),
                lv == chars_view(lines@),
                ({
                    let st = sections_state(lv, k as nat);
                    &&& sections_view(sections@) == st.0
                    &&& match language {
                        Some(l) => st.1 == Some(l@),
                        None => st.1 is None,
                    }
                    &&& current@ == st.2
                }),
            decreases lines.len() - k,
        {
            let line = &lines[k];
            if has_prefix(line, "/// ") {
                proof {
                    reveal_strlit("/// ");
                }
                match &language {
                    Some(l) => {
                        let ghost before = sections_view(sections@);
                        let section = CompareSection {
                            language: string_from_chars(l),
                            code: string_from_chars(&trim_end_chars(&current)),
                        };
                        sections.push(section);
                        assert(sections_view(sections@) =~= before.push(
                            (l@, trim_back(current@, strip_of(true))),
                        ));
                        current = Vec::new();
                    },
                    None => {},
                }
                let rest = sub_chars(line, 4, line.len());
                assert(rest@ =~= line@.skip(4));
                language = Some(trim_chars(&rest, true));
            } else if language.is_some() {
                let ghost before = current@;
                if current.len() > 0 {
                    current.push('\n');
                }
                let mut j: usize = 0;
                let ghost mid = current@;
                while j < line.len()
                    invariant
                        j <= line.len(),
                        current@ == mid + line@.take(j as int),
                    decreases line.len() - j,
                {
                    current.push(line[j]);
                    assert(line@.take(j as int).push(line@[j as int]) =~= line@.take(j + 1));
                    j = j + 1;
                }
                assert(line@.take(j as int) =~= line@);
                assert(current@ =~= (if before.len() > 0 {
                    before.push('\n') + line@
                } else {
                    before + line@
                }));
            }
            k = k + 1;
        }
        match &language {
            Some(l) => {
                let ghost before = sections_view(sections@);
                let section = CompareSection {
                    language: string_from_chars(l),
                    code: string_from_chars(&trim_end_chars(&current)),
                };
                sections.push(section);
                assert(sections_view(sections@) =~= before.push(
                    (l@, trim_back(current@, strip_of(true))),
                ));
            },
            None => {},
        }
        sections
    }
}

} // verus!
