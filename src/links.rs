//! Internal link resolution for markdown: `@/path` absolute links and
//! relative `.md` links.

use vstd::prelude::*;
use crate::chars::{
    chars_are, chars_view, find_char, first_at, lemma_first_at_unique, split_chars, split_on,
    string_from_chars, sub_chars,
};
use crate::text::chars_of;

verus! {

pub open spec fn starts_with(s: Seq<char>, p: Seq<char>) -> bool {
    s.len() >= p.len() && s.take(p.len() as int) == p
}

pub open spec fn ends_with(s: Seq<char>, p: Seq<char>) -> bool {
    s.len() >= p.len() && s.skip(s.len() - p.len()) == p
}

/// `s` up to its first `#`.
pub open spec fn before_hash(s: Seq<char>) -> Seq<char> {
    if exists|i: int| first_at(s, '#', i) {
        s.take(choose|i: int| first_at(s, '#', i))
    } else {
        s
    }
}

/// `s` from its first `#` on, empty without one.
pub open spec fn from_hash(s: Seq<char>) -> Seq<char> {
    if exists|i: int| first_at(s, '#', i) {
        s.skip(choose|i: int| first_at(s, '#', i))
    } else {
        seq![]
    }
}

/// A page path as a route: without `.md`, and `_index` standing for its directory.
pub open spec fn route_path(p: Seq<char>) -> Seq<char> {
    let q = if ends_with(p, ".md"@) {
        p.take(p.len() - 3)
    } else {
        p
    };
    if ends_with(q, "/_index"@) {
        q.take(q.len() - 7)
    } else if q == "_index"@ {
        seq![]
    } else {
        q
    }
}

/// `@/path#fragment` resolved to `/path/#fragment`.
pub open spec fn absolute_link(path: Seq<char>) -> Seq<char> {
    let p = route_path(before_hash(path));
    (if p.len() == 0 {
        "/"@
    } else {
        "/"@ + p + "/"@
    }) + from_hash(path)
}

/// The path segments that name a directory or file: not empty, not `.`.
pub open spec fn real_segments(s: Seq<Seq<char>>) -> Seq<Seq<char>>
    decreases s.len(),
{
    if s.len() == 0 {
        seq![]
    } else if s.last().len() == 0 || s.last() == "."@ {
        real_segments(s.drop_last())
    } else {
        real_segments(s.drop_last()).push(s.last())
    }
}

/// Segments with `.` skipped and `..` removing the segment before it.
pub open spec fn normalized(s: Seq<Seq<char>>) -> Seq<Seq<char>>
    decreases s.len(),
{
    if s.len() == 0 {
        seq![]
    } else {
        let prev = normalized(s.drop_last());
        let t = s.last();
        if t.len() == 0 || t == "."@ {
            prev
        } else if t == ".."@ {
            if prev.len() > 0 {
                prev.drop_last()
            } else {
                prev
            }
        } else {
            prev.push(t)
        }
    }
}

/// Segments joined by `/`.
pub open spec fn joined(s: Seq<Seq<char>>) -> Seq<char>
    decreases s.len(),
{
    if s.len() == 0 {
        seq![]
    } else if s.len() == 1 {
        s[0]
    } else {
        joined(s.drop_last()) + "/"@ + s.last()
    }
}

/// Backslashes turned into slashes.
pub open spec fn slashes(s: Seq<char>) -> Seq<char> {
    s.map_values(|c: char| if c == '\\' { '/' } else { c })
}

/// The directory segments of a source file's path: all but its last name.
pub open spec fn source_dir(source: Seq<char>) -> Seq<Seq<char>> {
    let segs = real_segments(split_on(source, '/'));
    if segs.len() > 0 {
        segs.drop_last()
    } else {
        segs
    }
}

/// A relative link resolved against the directory of the source file.
pub open spec fn relative_link(link: Seq<char>, source: Seq<char>) -> Seq<char> {
    let lp = before_hash(link);
    let segs = (if starts_with(lp, "/"@) {
        seq![]
    } else {
        source_dir(source)
    }) + split_on(lp, '/');
    let p = route_path(slashes(joined(normalized(segs))));
    (if p.len() == 0 {
        "/"@
    } else if starts_with(p, "/"@) {
        p + "/"@
    } else {
        "/"@ + p + "/"@
    }) + from_hash(link)
}

/// Where a link points once resolved.
pub open spec fn resolved_link(link: Seq<char>, source: Option<Seq<char>>) -> Seq<char> {
    if starts_with(link, "@/"@) {
        absolute_link(link.skip(2))
    } else if source is Some && ends_with(before_hash(link), ".md"@) && !starts_with(
        link,
        "http://"@,
    ) && !starts_with(link, "https://"@) {
        relative_link(link, source->0)
    } else {
        link
    }
}

pub(crate) fn has_prefix(cs: &Vec<char>, lit: &str) -> (r: bool)
    ensures
        r == starts_with(cs@, lit@),
{
    let l = chars_of(lit);
    if cs.len() < l.len() {
        return false;
    }
    let head = sub_chars(cs, 0, l.len());
    assert(head@ =~= cs@.take(l@.len() as int));
    chars_are(&head, lit)
}

fn has_suffix(cs: &Vec<char>, lit: &str) -> (r: bool)
    ensures
        r == ends_with(cs@, lit@),
{
    let l = chars_of(lit);
    if cs.len() < l.len() {
        return false;
    }
    let tail = sub_chars(cs, cs.len() - l.len(), cs.len());
    assert(tail@ =~= cs@.skip(cs@.len() - l@.len()));
    chars_are(&tail, lit)
}

/// Split `cs` at its first `#`: the part before and the fragment from `#` on.
fn split_fragment(cs: &Vec<char>) -> (r: (Vec<char>, Vec<char>))
    ensures
        r.0@ == before_hash(cs@),
        r.1@ == from_hash(cs@),
{
    match find_char(cs, '#') {
        Some(i) => {
            proof {
                let c = choose|c: int| first_at(cs@, '#', c);
                lemma_first_at_unique(cs@, '#', i as int, c);
            }
            let before = sub_chars(cs, 0, i);
            let after = sub_chars(cs, i, cs.len());
            assert(before@ =~= cs@.take(i as int));
            assert(after@ =~= cs@.skip(i as int));
            (before, after)
        },
        None => (cs.clone(), Vec::new()),
    }
}

fn route_of(p: &Vec<char>) -> (r: Vec<char>)
    ensures
        r@ == route_path(p@),
{
    let q = if has_suffix(p, ".md") {
        proof {
            reveal_strlit(".md");
        }
        sub_chars(p, 0, p.len() - 3)
    } else {
        p.clone()
    };
    assert(ends_with(p@, ".md"@) ==> q@ =~= p@.take(p@.len() - 3));
    if has_suffix(&q, "/_index") {
        proof {
            reveal_strlit("/_index");
        }
        let r = sub_chars(&q, 0, q.len() - 7);
        assert(r@ =~= q@.take(q@.len() - 7));
        r
    } else if chars_are(&q, "_index") {
        Vec::new()
    } else {
        q
    }
}

/// `/` + path + `/` (just `/` for an empty path), then the fragment.
fn rooted(p: &Vec<char>, fragment: &Vec<char>, keep_leading: bool) -> (r: String)
    ensures
        r@ == (if p@.len() == 0 {
            "/"@
        } else if keep_leading && starts_with(p@, "/"@) {
            p@ + "/"@
        } else {
            "/"@ + p@ + "/"@
        }) + fragment@,
{
    let mut out = String::new();
    if p.len() == 0 {
        out.append("/");
    } else if keep_leading && has_prefix(p, "/") {
        out.append(string_from_chars(p).as_str());
        out.append("/");
    } else {
        out.append("/");
        out.append(string_from_chars(p).as_str());
        out.append("/");
    }
    out.append(string_from_chars(fragment).as_str());
    out
}

/// Resolve `@/path/to/file.md` links to absolute URLs.
fn resolve_absolute_link(path: &Vec<char>) -> (r: String)
    ensures
        r@ == absolute_link(path@),
{
    let (path_part, fragment) = split_fragment(path);
    let p = route_of(&path_part);
    rooted(&p, &fragment, false)
}

/// Normalize a path by resolving `.` and `..` segments.
fn normalize_path(segments: &Vec<Vec<char>>) -> (r: Vec<Vec<char>>)
    ensures
        chars_view(r@) == normalized(chars_view(segments@)),
{
    let ghost sv = chars_view(segments@);
    let mut kept: Vec<Vec<char>> = Vec::new();
    let mut k: usize = 0;
    while k < segments.len()
        invariant
            k <= segments.len(),
            sv == chars_view(segments@),
            chars_view(kept@) == normalized(sv.take(k as int)),
        decreases segments.len() - k,
    {
        assert(sv.take(k + 1).drop_last() =~= sv.take(k as int));
        let ghost before = chars_view(kept@);
        let t = &segments[k];
        if t.len() == 0 || chars_are(t, ".") {
        } else if chars_are(t, "..") {
            if kept.len() > 0 {
                kept.pop();
                assert(chars_view(kept@) =~= before.drop_last());
            }
        } else {
            kept.push(t.clone());
            assert(chars_view(kept@) =~= before.push(t@));
        }
        k = k + 1;
    }
    assert(sv.take(k as int) =~= sv);
    kept
}

fn join_segments(segments: &Vec<Vec<char>>) -> (r: Vec<char>)
    ensures
        r@ == slashes(joined(chars_view(segments@))),
{
    let ghost sv = chars_view(segments@);
    let mut out: Vec<char> = Vec::new();
    let mut k: usize = 0;
    while k < segments.len()
        invariant
            k <= segments.len(),
            sv == chars_view(segments@),
            out@ == slashes(joined(sv.take(k as int))),
        decreases segments.len() - k,
    {
        assert(sv.take(k + 1).drop_last() =~= sv.take(k as int));
        let ghost before = out@;
        if k > 0 {
            out.push('/');
        }
        let seg = &segments[k];
        let mut j: usize = 0;
        let ghost mid = out@;
        while j < seg.len()
            invariant
                j <= seg.len(),
                out@ == mid + slashes(seg@.take(j as int)),
            decreases seg.len() - j,
        {
            let c = seg[j];
            out.push(if c == '\\' { '/' } else { c });
            assert(seg@.take(j + 1) =~= seg@.take(j as int).push(c));
            assert(slashes(seg@.take(j + 1)) =~= slashes(seg@.take(j as int)).push(
                if c == '\\' { '/' } else { c },
            ));
            j = j + 1;
        }
        assert(seg@.take(j as int) =~= seg@);
        proof {
            reveal_strlit("/");
            if k > 0 {
                assert(slashes(joined(sv.take(k + 1))) =~= slashes(joined(sv.take(k as int))) + "/"@
                    + slashes(sv[k as int]));
            } else {
                assert(slashes(joined(sv.take(k + 1))) =~= slashes(sv[k as int]));
            }
        }
        assert(out@ =~= slashes(joined(sv.take(k + 1))));
        k = k + 1;
    }
    assert(sv.take(k as int) =~= sv);
    out
}

fn real_segments_exec(segments: &Vec<Vec<char>>) -> (r: Vec<Vec<char>>)
    ensures
        chars_view(r@) == real_segments(chars_view(segments@)),
{
    let ghost sv = chars_view(segments@);
    let mut kept: Vec<Vec<char>> = Vec::new();
    let mut k: usize = 0;
    while k < segments.len()
        invariant
            k <= segments.len(),
            sv == chars_view(segments@),
            chars_view(kept@) == real_segments(sv.take(k as int)),
        decreases segments.len() - k,
    {
        assert(sv.take(k + 1).drop_last() =~= sv.take(k as int));
        let ghost before = chars_view(kept@);
        let t = &segments[k];
        if !(t.len() == 0 || chars_are(t, ".")) {
            kept.push(t.clone());
            assert(chars_view(kept@) =~= before.push(t@));
        }
        k = k + 1;
    }
    assert(sv.take(k as int) =~= sv);
    kept
}

/// Resolve relative `.md` links based on current file location.
fn resolve_relative_link(link: &Vec<char>, source_path: &Vec<char>) -> (r: String)
    ensures
        r@ == relative_link(link@, source_path@),
{
    let (link_part, fragment) = split_fragment(link);
    let mut segments: Vec<Vec<char>> = if has_prefix(&link_part, "/") {
        Vec::new()
    } else {
        let all = split_chars(source_path, '/');
        let mut dir = real_segments_exec(&all);
        if dir.len() > 0 {
            let ghost before = chars_view(dir@);
            dir.pop();
            assert(chars_view(dir@) =~= before.drop_last());
        }
        dir
    };
    let ghost head = chars_view(segments@);
    let mut rest = split_chars(&link_part, '/');
    let ghost tail = chars_view(rest@);
    segments.append(&mut rest);
    assert(chars_view(segments@) =~= head + tail);
    let normal = normalize_path(&segments);
    let path = join_segments(&normal);
    let p = route_of(&path);
    rooted(&p, &fragment, true)
}

/// Resolve internal links (both `@/` absolute and relative `.md` links).
///
/// Absolute `@/` links become site routes; a relative link whose path ends
/// in `.md` is resolved against the source file's directory when one is
/// given; all other links are returned unchanged.
pub fn resolve_link(link: &str, source_path: Option<&str>) -> (r: String)
    ensures
        r@ == resolved_link(
            link@,
            match source_path {
                Some(s) => Some(s@),
                None => None,
            },
        ),
{
    let cs = chars_of(link);
    if has_prefix(&cs, "@/") {
        proof {
            reveal_strlit("@/");
        }
        let rest = sub_chars(&cs, 2, cs.len());
        assert(rest@ =~= cs@.skip(2));
        return resolve_absolute_link(&rest);
    }
    match source_path {
        Some(source) => {
            let (path_part, _) = split_fragment(&cs);
            if has_suffix(&path_part, ".md") && !has_prefix(&cs, "http://") && !has_prefix(
                &cs,
                "https://",
            ) {
                let src = chars_of(source);
                return resolve_relative_link(&cs, &src);
            }
        },
        None => {},
    }
    String::from_str(link)
}

} // verus!
