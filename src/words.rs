//! Plain-text flattening of inline content and splitting it into words.

use vstd::prelude::*;
use crate::ast::{Inline, SpecInline, inlines_view};
use crate::text::{chars_of, push_char, push_chars};

verus! {

/// Unicode `White_Space` characters, the set `char::is_whitespace` tests.
pub open spec fn is_white(c: char) -> bool {
    c == ' ' || ('\t' <= c && c <= '\r') || c == '\u{85}' || c == '\u{A0}' || c == '\u{1680}'
        || ('\u{2000}' <= c && c <= '\u{200A}') || c == '\u{2028}' || c == '\u{2029}'
        || c == '\u{202F}' || c == '\u{205F}' || c == '\u{3000}'
}

pub fn is_whitespace(c: char) -> (r: bool)
    ensures
        r == is_white(c),
{
    c == ' ' || ('\t' <= c && c <= '\r') || c == '\u{85}' || c == '\u{A0}' || c == '\u{1680}'
        || ('\u{2000}' <= c && c <= '\u{200A}') || c == '\u{2028}' || c == '\u{2029}'
        || c == '\u{202F}' || c == '\u{205F}' || c == '\u{3000}'
}

/// The maximal runs of non-whitespace characters of `t`, in order.
pub open spec fn words(t: Seq<char>) -> Seq<Seq<char>>
    decreases t.len(),
{
    if t.len() == 0 {
        seq![]
    } else {
        let w = words(t.drop_last());
        let c = t.last();
        if is_white(c) {
            w
        } else if t.len() >= 2 && !is_white(t[t.len() - 2]) {
            w.update(w.len() - 1, w.last().push(c))
        } else {
            w.push(seq![c])
        }
    }
}

pub proof fn lemma_words_nonempty(t: Seq<char>)
    requires
        t.len() > 0,
        !is_white(t.last()),
    ensures
        words(t).len() > 0,
    decreases t.len(),
{
    if t.len() >= 2 && !is_white(t[t.len() - 2]) {
        lemma_words_nonempty(t.drop_last());
    }
}

pub open spec fn strs_view(v: Seq<String>) -> Seq<Seq<char>> {
    Seq::new(v.len(), |k: int| v[k]@)
}

fn string_of(cs: &Vec<char>) -> (r: String)
    ensures
        r@ == cs@,
{
    let mut r = String::new();
    push_chars(&mut r, cs);
    r
}

/// Split `text` into its whitespace-separated words.
pub fn split_words(text: &str) -> (r: Vec<String>)
    ensures
        strs_view(r@) == words(text@),
{
    let cs = chars_of(text);
    let mut r: Vec<String> = Vec::new();
    let mut cur: Vec<char> = Vec::new();
    let mut k: usize = 0;
    while k < cs.len()
        invariant
            k <= cs.len(),
            cs@ == text@,
            cur.len() > 0 <==> (k > 0 && !is_white(cs@[k - 1])),
            words(cs@.take(k as int)) == (if cur.len() > 0 {
                strs_view(r@).push(cur@)
            } else {
                strs_view(r@)
            }),
        decreases cs.len() - k,
    {
        let c = cs[k];
        let ghost prev = cs@.take(k as int);
        assert(cs@.take(k + 1).drop_last() =~= prev);
        if is_whitespace(c) {
            if cur.len() > 0 {
                let ghost before = strs_view(r@);
                let w = string_of(&cur);
                r.push(w);
                cur = Vec::new();
                assert(strs_view(r@) =~= before.push(w@));
            }
        } else {
            let ghost before = words(prev);
            cur.push(c);
            proof {
                if k > 0 && !is_white(cs@[k - 1]) {
                    assert(before.update(before.len() - 1, before.last().push(c))
                        =~= strs_view(r@).push(cur@));
                } else {
                    assert(cur@ =~= seq![c]);
                    assert(before.push(seq![c]) =~= strs_view(r@).push(cur@));
                }
            }
        }
        k = k + 1;
    }
    if cur.len() > 0 {
        let ghost before = strs_view(r@);
        let w = string_of(&cur);
        r.push(w);
        assert(strs_view(r@) =~= before.push(w@));
    }
    assert(cs@.take(k as int) =~= cs@);
    r
}

/// Words joined by single spaces.
pub open spec fn join_words(ws: Seq<Seq<char>>) -> Seq<char>
    decreases ws.len(),
{
    if ws.len() == 0 {
        seq![]
    } else if ws.len() == 1 {
        ws[0]
    } else {
        join_words(ws.drop_last()) + " "@ + ws.last()
    }
}

pub fn join_with_spaces(ws: &Vec<String>) -> (r: String)
    ensures
        r@ == join_words(strs_view(ws@)),
{
    let ghost sv = strs_view(ws@);
    let mut r = String::new();
    let mut k: usize = 0;
    while k < ws.len()
        invariant
            k <= ws.len(),
            sv == strs_view(ws@),
            r@ == join_words(sv.take(k as int)),
        decreases ws.len() - k,
    {
        assert(sv.take(k + 1).drop_last() =~= sv.take(k as int));
        if k > 0 {
            r.append(" ");
        } else {
            assert(r@ =~= Seq::<char>::empty());
        }
        r.append(ws[k].as_str());
        assert(r@ =~= join_words(sv.take(k + 1)));
        k = k + 1;
    }
    assert(sv.take(k as int) =~= sv);
    r
}

pub open spec fn flat_inline(i: SpecInline) -> Seq<char>
    decreases i, 1int,
{
    match i {
        SpecInline::Text(t) => t,
        SpecInline::Code(c) => "`"@ + c + "`"@,
        SpecInline::Emphasis(v) => flat_text(v),
        SpecInline::Strong(v) => flat_text(v),
        SpecInline::Strikethrough(v) => flat_text(v),
        SpecInline::Link { content, .. } => flat_text(content),
        SpecInline::Image { alt, .. } => flat_text(alt),
        SpecInline::SoftBreak => " "@,
        SpecInline::HardBreak => " "@,
        SpecInline::Html(h) => h,
    }
}

/// Plain text of inline content: literal text, code in backticks, the text
/// inside formatting, links and images, and a space for each line break.
pub open spec fn flat_text(s: Seq<SpecInline>) -> Seq<char>
    decreases s, 0int,
{
    if s.len() == 0 {
        seq![]
    } else {
        flat_text(s.drop_last()) + flat_inline(s.last())
    }
}

fn append_flat(out: &mut String, inline: &Inline)
    ensures
        final(out)@ == old(out)@ + flat_inline(inline@),
    decreases inline, 1int,
{
    let ghost start = out@;
    match inline {
        Inline::Text(t) => out.append(t.as_str()),
        Inline::Code(c) => {
            out.append("`");
            out.append(c.as_str());
            out.append("`");
            assert(out@ =~= start + flat_inline(inline@));
        },
        Inline::Emphasis(v) => append_flat_all(out, v),
        Inline::Strong(v) => append_flat_all(out, v),
        Inline::Strikethrough(v) => append_flat_all(out, v),
        Inline::Link { content, .. } => append_flat_all(out, content),
        Inline::Image { alt, .. } => append_flat_all(out, alt),
        Inline::SoftBreak => push_char(out, ' '),
        Inline::HardBreak => push_char(out, ' '),
        Inline::Html(h) => out.append(h.as_str()),
    }
    proof {
        reveal_strlit(" ");
    }
    assert(out@ =~= start + flat_inline(inline@));
}

fn append_flat_all(out: &mut String, inlines: &Vec<Inline>)
    ensures
        final(out)@ == old(out)@ + flat_text(inlines_view(inlines@)),
    decreases inlines, 0int,
{
    let ghost start = out@;
    let ghost sv = inlines_view(inlines@);
    let mut k: usize = 0;
    while k < inlines.len()
        invariant
            k <= inlines.len(),
            sv == inlines_view(inlines@),
            out@ == start + flat_text(sv.take(k as int)),
        decreases inlines.len() - k,
    {
        append_flat(out, &inlines[k]);
        assert(sv.take(k + 1).drop_last() =~= sv.take(k as int));
        assert(out@ =~= start + flat_text(sv.take(k + 1)));
        k = k + 1;
    }
    assert(sv.take(k as int) =~= sv);
}

/// Flatten inline content to plain text, for word-level alignment.
pub fn inline_text(inlines: &Vec<Inline>) -> (r: String)
    ensures
        r@ == flat_text(inlines_view(inlines@)),
{
    let mut out = String::new();
    append_flat_all(&mut out, inlines);
    out
}

} // verus!
