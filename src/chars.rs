//! Character-sequence helpers for small parsers: trimming, splitting at a
//! separator, comparing with literals, and decimal numbers.

use vstd::prelude::*;
use crate::text::{chars_of, push_chars};
use crate::words::{is_white, is_whitespace};

verus! {

/// Unicode alphanumeric characters, as `char::is_alphanumeric` decides them.
pub uninterp spec fn alphanumeric(c: char) -> bool;

/// Relies on `char::is_alphanumeric`: whether `c` is alphabetic or numeric.
#[verifier::external_body]
pub(crate) fn is_alphanumeric(c: char) -> (r: bool)
    ensures
        r == alphanumeric(c),
{
    c.is_alphanumeric()
}

/// `s` without the leading characters that satisfy `strip`.
pub open spec fn trim_front(s: Seq<char>, strip: spec_fn(char) -> bool) -> Seq<char>
    decreases s.len(),
{
    if s.len() > 0 && strip(s[0]) {
        trim_front(s.drop_first(), strip)
    } else {
        s
    }
}

/// `s` without the trailing characters that satisfy `strip`.
pub open spec fn trim_back(s: Seq<char>, strip: spec_fn(char) -> bool) -> Seq<char>
    decreases s.len(),
{
    if s.len() > 0 && strip(s.last()) {
        trim_back(s.drop_last(), strip)
    } else {
        s
    }
}

pub open spec fn trim_both(s: Seq<char>, strip: spec_fn(char) -> bool) -> Seq<char> {
    trim_back(trim_front(s, strip), strip)
}

pub open spec fn white() -> spec_fn(char) -> bool {
    |c: char| is_white(c)
}

pub open spec fn not_alphanumeric() -> spec_fn(char) -> bool {
    |c: char| !alphanumeric(c)
}

/// Which trimming a caller asks for: whitespace, or anything not alphanumeric.
pub open spec fn strip_of(ws: bool) -> spec_fn(char) -> bool {
    if ws {
        white()
    } else {
        not_alphanumeric()
    }
}

fn strips(c: char, ws: bool) -> (r: bool)
    ensures
        r == (strip_of(ws))(c),
{
    if ws {
        is_whitespace(c)
    } else {
        !is_alphanumeric(c)
    }
}

/// `cs` trimmed on both sides: of whitespace when `ws`, else of the
/// characters that are not alphanumeric.
pub(crate) fn trim_chars(cs: &Vec<char>, ws: bool) -> (r: Vec<char>)
    ensures
        r@ == trim_both(cs@, strip_of(ws)),
{
    let ghost f = strip_of(ws);
    let mut lo: usize = 0;
    assert(cs@.skip(0) =~= cs@);
    while lo < cs.len() && strips(cs[lo], ws)
        invariant
            lo <= cs.len(),
            f == strip_of(ws),
            trim_front(cs@.skip(lo as int), f) == trim_front(cs@, f),
        decreases cs.len() - lo,
    {
        assert(cs@.skip(lo as int).drop_first() =~= cs@.skip(lo + 1));
        lo = lo + 1;
    }
    let ghost front = cs@.skip(lo as int);
    assert(trim_front(front, f) == front);
    let mut hi: usize = cs.len();
    assert(front.take(front.len() as int) =~= front);
    while hi > lo && strips(cs[hi - 1], ws)
        invariant
            lo <= hi <= cs.len(),
            f == strip_of(ws),
            front == cs@.skip(lo as int),
            trim_back(front.take(hi - lo), f) == trim_back(front, f),
        decreases hi,
    {
        assert(front.take(hi - lo).drop_last() =~= front.take(hi - 1 - lo));
        hi = hi - 1;
    }
    let mut r: Vec<char> = Vec::new();
    let mut k: usize = lo;
    while k < hi
        invariant
            lo <= k <= hi <= cs.len(),
            front == cs@.skip(lo as int),
            r@ == front.take(k - lo),
        decreases hi - k,
    {
        r.push(cs[k]);
        assert(front.take(k - lo).push(cs@[k as int]) =~= front.take(k + 1 - lo));
        k = k + 1;
    }
    r
}

/// Whether `cs` holds exactly the characters of `lit`.
pub(crate) fn chars_are(cs: &Vec<char>, lit: &str) -> (r: bool)
    ensures
        r == (cs@ == lit@),
{
    let l = chars_of(lit);
    if cs.len() != l.len() {
        return false;
    }
    let mut k: usize = 0;
    while k < cs.len()
        invariant
            k <= cs.len(),
            cs.len() == l.len(),
            l@ == lit@,
            forall|q: int| 0 <= q < k ==> cs@[q] == l@[q],
        decreases cs.len() - k,
    {
        if cs[k] != l[k] {
            return false;
        }
        k = k + 1;
    }
    assert(cs@ =~= l@);
    true
}

/// The pieces of `s` between occurrences of `sep`; never empty.
pub open spec fn split_on(s: Seq<char>, sep: char) -> Seq<Seq<char>>
    decreases s.len(),
{
    if s.len() == 0 {
        seq![seq![]]
    } else {
        let r = split_on(s.drop_last(), sep);
        if s.last() == sep {
            r.push(seq![])
        } else {
            r.update(r.len() - 1, r.last().push(s.last()))
        }
    }
}

pub open spec fn chars_view(v: Seq<Vec<char>>) -> Seq<Seq<char>> {
    Seq::new(v.len(), |k: int| v[k]@)
}

/// Split `cs` at every `sep`.
pub(crate) fn split_chars(cs: &Vec<char>, sep: char) -> (r: Vec<Vec<char>>)
    ensures
        chars_view(r@) == split_on(cs@, sep),
{
    let mut pieces: Vec<Vec<char>> = Vec::new();
    let mut cur: Vec<char> = Vec::new();
    let mut k: usize = 0;
    assert(cs@.take(0) =~= Seq::<char>::empty());
    assert(chars_view(pieces@).push(cur@) =~= seq![Seq::<char>::empty()]);
    while k < cs.len()
        invariant
            k <= cs.len(),
            split_on(cs@.take(k as int), sep) == chars_view(pieces@).push(cur@),
        decreases cs.len() - k,
    {
        let c = cs[k];
        let ghost prev = cs@.take(k as int);
        assert(cs@.take(k + 1).drop_last() =~= prev);
        let ghost before = chars_view(pieces@);
        let ghost cur_before = cur@;
        if c == sep {
            pieces.push(cur);
            cur = Vec::new();
            assert(chars_view(pieces@) =~= before.push(cur_before));
        } else {
            cur.push(c);
            assert(before.push(cur_before).update(before.len() as int, cur_before.push(c))
                =~= before.push(cur@));
        }
        k = k + 1;
    }
    pieces.push(cur);
    assert(cs@.take(k as int) =~= cs@);
    pieces
}

/// Index of the first `c` in `s`, if any.
pub open spec fn first_at(s: Seq<char>, c: char, p: int) -> bool {
    &&& 0 <= p < s.len()
    &&& s[p] == c
    &&& forall|q: int| 0 <= q < p ==> s[q] != c
}

pub(crate) fn find_char(cs: &Vec<char>, c: char) -> (r: Option<usize>)
    ensures
        match r {
            Some(p) => first_at(cs@, c, p as int),
            None => forall|q: int| 0 <= q < cs@.len() ==> cs@[q] != c,
        },
{
    let mut k: usize = 0;
    while k < cs.len()
        invariant
            k <= cs.len(),
            forall|q: int| 0 <= q < k ==> cs@[q] != c,
        decreases cs.len() - k,
    {
        if cs[k] == c {
            return Some(k);
        }
        k = k + 1;
    }
    None
}

pub proof fn lemma_first_at_unique(s: Seq<char>, c: char, x: int, y: int)
    requires
        first_at(s, c, x),
        first_at(s, c, y),
    ensures
        x == y,
{
    if x < y {
        assert(s[x] != c);
    } else if y < x {
        assert(s[y] != c);
    }
}

pub(crate) fn sub_chars(cs: &Vec<char>, lo: usize, hi: usize) -> (r: Vec<char>)
    requires
        lo <= hi <= cs.len(),
    ensures
        r@ == cs@.subrange(lo as int, hi as int),
{
    let mut r: Vec<char> = Vec::new();
    let mut k: usize = lo;
    while k < hi
        invariant
            lo <= k <= hi <= cs.len(),
            r@ == cs@.subrange(lo as int, k as int),
        decreases hi - k,
    {
        r.push(cs[k]);
        assert(cs@.subrange(lo as int, k as int).push(cs@[k as int]) =~= cs@.subrange(
            lo as int,
            k + 1,
        ));
        k = k + 1;
    }
    r
}

pub(crate) fn string_from_chars(cs: &Vec<char>) -> (r: String)
    ensures
        r@ == cs@,
{
    let mut r = String::new();
    push_chars(&mut r, cs);
    r
}

pub open spec fn is_digit(c: char) -> bool {
    '0' <= c && c <= '9'
}

/// The value of a string of decimal digits.
pub open spec fn digits_value(s: Seq<char>) -> nat
    decreases s.len(),
{
    if s.len() == 0 {
        0
    } else {
        digits_value(s.drop_last()) * 10 + (s.last() as nat - '0' as nat) as nat
    }
}

/// A decimal number that fits in `u32`, as `str::parse::<u32>` reads a
/// string without sign: one or more digits.
pub open spec fn u32_of(s: Seq<char>) -> Option<u32> {
    if s.len() > 0 && (forall|i: int| 0 <= i < s.len() ==> is_digit(#[trigger] s[i]))
        && digits_value(s) <= u32::MAX {
        Some(digits_value(s) as u32)
    } else {
        None
    }
}

pub proof fn lemma_digits_value_grows(s: Seq<char>, k: int)
    requires
        0 <= k <= s.len(),
        forall|i: int| 0 <= i < s.len() ==> is_digit(#[trigger] s[i]),
    ensures
        digits_value(s.take(k)) <= digits_value(s),
    decreases s.len() - k,
{
    if k < s.len() {
        lemma_digits_value_grows(s, k + 1);
        assert(s.take(k + 1).drop_last() =~= s.take(k));
    } else {
        assert(s.take(k) =~= s);
    }
}

pub(crate) fn parse_u32(cs: &Vec<char>) -> (r: Option<u32>)
    ensures
        r == u32_of(cs@),
{
    if cs.len() == 0 {
        return None;
    }
    let mut k: usize = 0;
    while k < cs.len()
        invariant
            k <= cs.len(),
            forall|i: int| 0 <= i < k ==> is_digit(#[trigger] cs@[i]),
        decreases cs.len() - k,
    {
        if !('0' <= cs[k] && cs[k] <= '9') {
            return None;
        }
        k = k + 1;
    }
    let mut value: u64 = 0;
    let mut k: usize = 0;
    assert(cs@.take(0) =~= Seq::<char>::empty());
    while k < cs.len()
        invariant
            k <= cs.len(),
            forall|i: int| 0 <= i < cs@.len() ==> is_digit(#[trigger] cs@[i]),
            value == digits_value(cs@.take(k as int)),
            value <= u32::MAX,
        decreases cs.len() - k,
    {
        let d = (cs[k] as u32 - '0' as u32) as u64;
        assert(cs@.take(k + 1).drop_last() =~= cs@.take(k as int));
        value = value * 10 + d;
        if value > 4294967295 {
            proof {
                lemma_digits_value_grows(cs@, k + 1);
            }
            return None;
        }
        k = k + 1;
    }
    assert(cs@.take(k as int) =~= cs@);
    Some(value as u32)
}

/// `cs` without its trailing whitespace.
pub(crate) fn trim_end_chars(cs: &Vec<char>) -> (r: Vec<char>)
    ensures
        r@ == trim_back(cs@, strip_of(true)),
{
    let ghost f = strip_of(true);
    let mut hi: usize = cs.len();
    assert(cs@.take(hi as int) =~= cs@);
    while hi > 0 && is_whitespace(cs[hi - 1])
        invariant
            hi <= cs.len(),
            f == strip_of(true),
            trim_back(cs@.take(hi as int), f) == trim_back(cs@, f),
        decreases hi,
    {
        assert(cs@.take(hi as int).drop_last() =~= cs@.take(hi - 1));
        hi = hi - 1;
    }
    let r = sub_chars(cs, 0, hi);
    assert(r@ =~= cs@.take(hi as int));
    r
}

} // verus!
