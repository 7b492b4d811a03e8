//! Requirement definitions for specification traceability: rule ids, RFC 2119
//! keywords, lifecycle status, requirement level and marker attributes.

use vstd::prelude::*;
use crate::chars::{
    trim_chars, trim_both, strip_of, chars_are, split_chars, split_on, chars_view, find_char,
    first_at, lemma_first_at_unique, sub_chars, string_from_chars, u32_of, parse_u32,
};
use crate::text::{chars_of, decimal_string, decimal};
use crate::words::{words, split_words, strs_view};
use crate::error::Error;

verus! {

#[verifier::external_type_specification]
#[verifier::external_body]
pub struct ExPathBuf(std::path::PathBuf);

/// Byte offset and length in source content.
#[derive(Debug, Clone, Copy, PartialEq, Eq, Structural, Default)]
pub struct SourceSpan {
    /// Byte offset from start of content
    pub offset: usize,
    /// Length in bytes
    pub length: usize,
}

/// Structured rule identifier with optional version.
#[derive(Debug, Clone, Eq, Hash)]
pub struct RuleId {
    /// Base identifier without version suffix.
    pub base: String,
    /// Version number (unversioned IDs are version 1).
    pub version: u32,
}

impl PartialEq for RuleId {
    fn eq(&self, other: &RuleId) -> (r: bool) {
        self.base == other.base && self.version == other.version
    }
}

impl vstd::std_specs::cmp::PartialEqSpecImpl for RuleId {
    open spec fn obeys_eq_spec() -> bool {
        true
    }

    open spec fn eq_spec(&self, other: &RuleId) -> bool {
        self.base@ == other.base@ && self.version == other.version
    }
}

/// How a rule id is written: the base alone for version 1, else `base+N`.
pub open spec fn rule_id_text(base: Seq<char>, version: u32) -> Seq<char> {
    if version == 1 {
        base
    } else {
        base + "+"@ + decimal(version as nat)
    }
}

impl<'a> PartialEq<&'a str> for RuleId {
    fn eq(&self, other: &&'a str) -> (r: bool) {
        self.to_string() == String::from_str(*other)
    }
}

impl<'a> vstd::std_specs::cmp::PartialEqSpecImpl<&'a str> for RuleId {
    open spec fn obeys_eq_spec() -> bool {
        true
    }

    open spec fn eq_spec(&self, other: &&'a str) -> bool {
        rule_id_text(self.base@, self.version) == other@
    }
}

impl<'a> PartialEq<RuleId> for &'a str {
    fn eq(&self, other: &RuleId) -> (r: bool) {
        String::from_str(*self) == other.to_string()
    }
}

impl<'a> vstd::std_specs::cmp::PartialEqSpecImpl<RuleId> for &'a str {
    open spec fn obeys_eq_spec() -> bool {
        true
    }

    open spec fn eq_spec(&self, other: &RuleId) -> bool {
        self@ == rule_id_text(other.base@, other.version)
    }
}

impl RuleId {
    /// The id as written in a marker.
    pub fn to_string(&self) -> (r: String)
        ensures
            r@ == rule_id_text(self.base@, self.version),
    {
        let mut r = self.base.clone();
        if self.version != 1 {
            r.append("+");
            let number = decimal_string(self.version as u128);
            r.append(number.as_str());
        }
        r
    }
}

/// A rule id split at its only `+`: a non-empty base and a version, a
/// positive decimal number that fits in `u32`.
pub open spec fn versioned_at(id: Seq<char>, p: int) -> bool {
    &&& first_at(id, '+', p)
    &&& 0 < p
    &&& u32_of(id.skip(p + 1)) matches Some(v) && v > 0
}

/// The rule id that `id` denotes, as base and version.
pub open spec fn rule_id_of(id: Seq<char>) -> Option<(Seq<char>, u32)> {
    if id.len() == 0 {
        None
    } else if !id.contains('+') {
        Some((id, 1))
    } else if exists|p: int| versioned_at(id, p) {
        let p = choose|p: int| versioned_at(id, p);
        Some((id.take(p), u32_of(id.skip(p + 1))->0))
    } else {
        None
    }
}

/// Parse a rule ID with an optional `+N` version suffix.
pub fn parse_rule_id(id: &str) -> (r: Option<RuleId>)
    ensures
        match r {
            Some(rule) => rule_id_of(id@) == Some((rule.base@, rule.version)),
            None => rule_id_of(id@) is None,
        },
{
    let cs = chars_of(id);
    if cs.len() == 0 {
        return None;
    }
    match find_char(&cs, '+') {
        None => {
            assert(!id@.contains('+'));
            Some(RuleId { base: string_from_chars(&cs), version: 1 })
        },
        Some(p) => {
            let base = sub_chars(&cs, 0, p);
            let rest = sub_chars(&cs, p + 1, cs.len());
            assert(base@ =~= id@.take(p as int));
            assert(rest@ =~= id@.skip(p + 1));
            let parsed = parse_u32(&rest);
            proof {
                assert(id@.contains('+'));
                if exists|q: int| versioned_at(id@, q) {
                    let q = choose|q: int| versioned_at(id@, q);
                    lemma_first_at_unique(id@, '+', p as int, q);
                }
            }
            if p == 0 {
                return None;
            }
            match parsed {
                Some(v) => {
                    if v == 0 {
                        None
                    } else {
                        assert(versioned_at(id@, p as int));
                        Some(RuleId { base: string_from_chars(&base), version: v })
                    }
                },
                None => None,
            }
        },
    }
}

/// RFC 2119 keyword found in requirement text.
#[derive(Debug, Clone, Copy, PartialEq, Eq, Structural, Hash)]
pub enum Rfc2119Keyword {
    /// MUST, SHALL, REQUIRED
    Must,
    /// MUST NOT, SHALL NOT
    MustNot,
    /// SHOULD, RECOMMENDED
    Should,
    /// SHOULD NOT, NOT RECOMMENDED
    ShouldNot,
    /// MAY, OPTIONAL
    May,
}

impl Rfc2119Keyword {
    /// Returns true if this is a negative keyword (MUST NOT, SHOULD NOT).
    pub fn is_negative(&self) -> (r: bool)
        ensures
            r == (*self is MustNot || *self is ShouldNot),
    {
        match self {
            Rfc2119Keyword::MustNot => true,
            Rfc2119Keyword::ShouldNot => true,
            _ => false,
        }
    }

    /// Human-readable name for this keyword.
    pub fn as_str(&self) -> (r: &'static str)
        ensures
            r@ == match *self {
                Rfc2119Keyword::Must => "MUST"@,
                Rfc2119Keyword::MustNot => "MUST NOT"@,
                Rfc2119Keyword::Should => "SHOULD"@,
                Rfc2119Keyword::ShouldNot => "SHOULD NOT"@,
                Rfc2119Keyword::May => "MAY"@,
            },
    {
        match self {
            Rfc2119Keyword::Must => "MUST",
            Rfc2119Keyword::MustNot => "MUST NOT",
            Rfc2119Keyword::Should => "SHOULD",
            Rfc2119Keyword::ShouldNot => "SHOULD NOT",
            Rfc2119Keyword::May => "MAY",
        }
    }
}

/// A word without its leading and trailing non-alphanumeric characters.
pub open spec fn bare(w: Seq<char>) -> Seq<char> {
    trim_both(w, strip_of(false))
}

/// The negative keyword that two consecutive bare words form, if any.
pub open spec fn pair_keyword(w: Seq<char>, next: Seq<char>) -> Option<Rfc2119Keyword> {
    if (w == "MUST"@ || w == "SHALL"@) && next == "NOT"@ {
        Some(Rfc2119Keyword::MustNot)
    } else if w == "SHOULD"@ && next == "NOT"@ {
        Some(Rfc2119Keyword::ShouldNot)
    } else if w == "NOT"@ && next == "RECOMMENDED"@ {
        Some(Rfc2119Keyword::ShouldNot)
    } else {
        None
    }
}

/// The keyword that a bare word is by itself, if any.
pub open spec fn word_keyword(w: Seq<char>) -> Option<Rfc2119Keyword> {
    if w == "MUST"@ || w == "SHALL"@ || w == "REQUIRED"@ {
        Some(Rfc2119Keyword::Must)
    } else if w == "SHOULD"@ || w == "RECOMMENDED"@ {
        Some(Rfc2119Keyword::Should)
    } else if w == "MAY"@ || w == "OPTIONAL"@ {
        Some(Rfc2119Keyword::May)
    } else {
        None
    }
}

pub open spec fn opt_seq(k: Option<Rfc2119Keyword>) -> Seq<Rfc2119Keyword> {
    match k {
        Some(x) => seq![x],
        None => seq![],
    }
}

/// Keywords in the words from `i` on: a negative two-word form takes both
/// words, else a one-word form takes one.
pub open spec fn keywords_from(ws: Seq<Seq<char>>, i: int) -> Seq<Rfc2119Keyword>
    decreases ws.len() - i,
{
    if i < 0 || i >= ws.len() {
        seq![]
    } else if i + 1 < ws.len() && pair_keyword(bare(ws[i]), bare(ws[i + 1])) is Some {
        seq![pair_keyword(bare(ws[i]), bare(ws[i + 1]))->0] + keywords_from(ws, i + 2)
    } else {
        opt_seq(word_keyword(bare(ws[i]))) + keywords_from(ws, i + 1)
    }
}

fn bare_word(w: &String) -> (r: Vec<char>)
    ensures
        r@ == bare(w@),
{
    let cs = chars_of(w.as_str());
    trim_chars(&cs, false)
}

fn pair_keyword_of(w: &Vec<char>, next: &Vec<char>) -> (r: Option<Rfc2119Keyword>)
    ensures
        r == pair_keyword(w@, next@),
{
    let not = chars_are(next, "NOT");
    if (chars_are(w, "MUST") || chars_are(w, "SHALL")) && not {
        Some(Rfc2119Keyword::MustNot)
    } else if chars_are(w, "SHOULD") && not {
        Some(Rfc2119Keyword::ShouldNot)
    } else if chars_are(w, "NOT") && chars_are(next, "RECOMMENDED") {
        Some(Rfc2119Keyword::ShouldNot)
    } else {
        None
    }
}

fn word_keyword_of(w: &Vec<char>) -> (r: Option<Rfc2119Keyword>)
    ensures
        r == word_keyword(w@),
{
    if chars_are(w, "MUST") || chars_are(w, "SHALL") || chars_are(w, "REQUIRED") {
        Some(Rfc2119Keyword::Must)
    } else if chars_are(w, "SHOULD") || chars_are(w, "RECOMMENDED") {
        Some(Rfc2119Keyword::Should)
    } else if chars_are(w, "MAY") || chars_are(w, "OPTIONAL") {
        Some(Rfc2119Keyword::May)
    } else {
        None
    }
}

/// Detect RFC 2119 keywords in text.
///
/// Returns all keywords found, checking for negative forms first.
/// Keywords must be uppercase to match RFC 2119 conventions.
pub fn detect_rfc2119_keywords(text: &str) -> (r: Vec<Rfc2119Keyword>)
    ensures
        r@ == keywords_from(words(text@), 0),
{
    let ws = split_words(text);
    let ghost wv = strs_view(ws@);
    let mut keywords: Vec<Rfc2119Keyword> = Vec::new();
    let mut i: usize = 0;
    while i < ws.len()
        invariant
            i <= ws.len() + 1,
            wv == strs_view(ws@),
            wv == words(text@),
            keywords_from(wv, 0) == keywords@ + keywords_from(wv, i as int),
        decreases ws.len() + 1 - i,
    {
        let word = bare_word(&ws[i]);
        if i + 1 < ws.len() {
            let next_word = bare_word(&ws[i + 1]);
            match pair_keyword_of(&word, &next_word) {
                Some(k) => {
                    keywords.push(k);
                    assert(keywords_from(wv, 0) =~= keywords@ + keywords_from(wv, i + 2));
                    i = i + 2;
                    continue;
                },
                None => {},
            }
        }
        let ghost before = keywords@;
        match word_keyword_of(&word) {
            Some(k) => keywords.push(k),
            None => {},
        }
        assert(keywords@ =~= before + opt_seq(word_keyword(bare(wv[i as int]))));
        assert(keywords_from(wv, 0) =~= keywords@ + keywords_from(wv, i + 1));
        i = i + 1;
    }
    assert(keywords_from(wv, i as int) =~= Seq::<Rfc2119Keyword>::empty());
    assert(keywords@ + Seq::<Rfc2119Keyword>::empty() =~= keywords@);
    keywords
}

/// Lifecycle status of a requirement.
///
/// Requirements progress through these states as the specification evolves.
#[derive(Debug, Clone, Copy, PartialEq, Eq, Structural, Hash, Default)]
pub enum ReqStatus {
    /// Requirement is proposed but not yet finalized
    Draft,
    /// Requirement is active and enforced
    #[default]
    Stable,
    /// Requirement is being phased out
    Deprecated,
    /// Requirement has been removed (kept for historical reference)
    Removed,
}

pub open spec fn status_of(s: Seq<char>) -> Option<ReqStatus> {
    if s == "draft"@ {
        Some(ReqStatus::Draft)
    } else if s == "stable"@ {
        Some(ReqStatus::Stable)
    } else if s == "deprecated"@ {
        Some(ReqStatus::Deprecated)
    } else if s == "removed"@ {
        Some(ReqStatus::Removed)
    } else {
        None
    }
}

fn status_of_chars(cs: &Vec<char>) -> (r: Option<ReqStatus>)
    ensures
        r == status_of(cs@),
{
    if chars_are(cs, "draft") {
        Some(ReqStatus::Draft)
    } else if chars_are(cs, "stable") {
        Some(ReqStatus::Stable)
    } else if chars_are(cs, "deprecated") {
        Some(ReqStatus::Deprecated)
    } else if chars_are(cs, "removed") {
        Some(ReqStatus::Removed)
    } else {
        None
    }
}

impl ReqStatus {
    /// Parse a status from its string representation.
    pub fn parse(s: &str) -> (r: Option<Self>)
        ensures
            r == status_of(s@),
    {
        let cs = chars_of(s);
        status_of_chars(&cs)
    }

    /// Get the string representation of this status.
    pub fn as_str(&self) -> (r: &'static str)
        ensures
            r@ == match *self {
                ReqStatus::Draft => "draft"@,
                ReqStatus::Stable => "stable"@,
                ReqStatus::Deprecated => "deprecated"@,
                ReqStatus::Removed => "removed"@,
            },
    {
        match self {
            ReqStatus::Draft => "draft",
            ReqStatus::Stable => "stable",
            ReqStatus::Deprecated => "deprecated",
            ReqStatus::Removed => "removed",
        }
    }
}

/// RFC 2119 requirement level for a requirement.
#[derive(Debug, Clone, Copy, PartialEq, Eq, Structural, Hash, Default)]
pub enum ReqLevel {
    /// Absolute requirement (MUST, SHALL, REQUIRED)
    #[default]
    Must,
    /// Recommended but not required (SHOULD, RECOMMENDED)
    Should,
    /// Truly optional (MAY, OPTIONAL)
    May,
}

pub open spec fn level_of(s: Seq<char>) -> Option<ReqLevel> {
    if s == "must"@ || s == "shall"@ || s == "required"@ {
        Some(ReqLevel::Must)
    } else if s == "should"@ || s == "recommended"@ {
        Some(ReqLevel::Should)
    } else if s == "may"@ || s == "optional"@ {
        Some(ReqLevel::May)
    } else {
        None
    }
}

fn level_of_chars(cs: &Vec<char>) -> (r: Option<ReqLevel>)
    ensures
        r == level_of(cs@),
{
    if chars_are(cs, "must") || chars_are(cs, "shall") || chars_are(cs, "required") {
        Some(ReqLevel::Must)
    } else if chars_are(cs, "should") || chars_are(cs, "recommended") {
        Some(ReqLevel::Should)
    } else if chars_are(cs, "may") || chars_are(cs, "optional") {
        Some(ReqLevel::May)
    } else {
        None
    }
}

impl ReqLevel {
    /// Parse a level from its string representation.
    pub fn parse(s: &str) -> (r: Option<Self>)
        ensures
            r == level_of(s@),
    {
        let cs = chars_of(s);
        level_of_chars(&cs)
    }

    /// Get the string representation of this level.
    pub fn as_str(&self) -> (r: &'static str)
        ensures
            r@ == match *self {
                ReqLevel::Must => "must"@,
                ReqLevel::Should => "should"@,
                ReqLevel::May => "may"@,
            },
    {
        match self {
            ReqLevel::Must => "must",
            ReqLevel::Should => "should",
            ReqLevel::May => "may",
        }
    }
}

/// Metadata attributes for a requirement.
#[derive(Debug, Clone, Default, Eq)]
pub struct ReqMetadata {
    /// Lifecycle status (draft, stable, deprecated, removed)
    pub status: Option<ReqStatus>,
    /// RFC 2119 requirement level (must, should, may)
    pub level: Option<ReqLevel>,
    /// Version when this requirement was introduced
    pub since: Option<String>,
    /// Version when this requirement will be/was deprecated or removed
    pub until: Option<String>,
    /// Custom tags for categorization
    pub tags: Vec<String>,
}

impl ReqMetadata {
    /// Returns true if this requirement should be counted in coverage by default.
    ///
    /// Draft and removed requirements are excluded from coverage by default.
    pub fn counts_for_coverage(&self) -> (r: bool)
        ensures
            r == !(self.status == Some(ReqStatus::Draft) || self.status == Some(
                ReqStatus::Removed,
            )),
    {
        match self.status {
            Some(ReqStatus::Draft) => false,
            Some(ReqStatus::Removed) => false,
            _ => true,
        }
    }

    /// Returns true if this requirement is required (must be covered for passing builds).
    ///
    /// Only `must` level requirements are required; `should` and `may` are optional.
    pub fn is_required(&self) -> (r: bool)
        ensures
            r == (self.level is None || self.level == Some(ReqLevel::Must)),
    {
        match self.level {
            Some(ReqLevel::Must) => true,
            None => true,
            Some(ReqLevel::Should) => false,
            Some(ReqLevel::May) => false,
        }
    }
}

/// A requirement definition extracted from the markdown.
#[derive(Debug, Clone, Eq)]
pub struct ReqDefinition {
    /// The requirement identifier (e.g., "channel.id.allocation")
    pub id: RuleId,
    /// The anchor ID for HTML linking (e.g., "r--channel.id.allocation")
    pub anchor_id: String,
    /// Source span of just the requirement marker (e.g., `r[` to `]`)
    pub marker_span: SourceSpan,
    /// Source span of the entire requirement (marker + all content paragraphs).
    pub span: SourceSpan,
    /// Line number where this requirement is defined (1-indexed)
    pub line: usize,
    /// Requirement metadata (status, level, since, until, tags)
    pub metadata: ReqMetadata,
    /// Raw markdown source of the requirement content (without the `r[...]` marker).
    pub raw: String,
    /// The rendered HTML of the content following the requirement marker
    pub html: String,
}

/// Warning about requirement quality.
#[derive(Debug)]
pub struct ReqWarning {
    /// File where the warning occurred
    pub file: std::path::PathBuf,
    /// Requirement ID this warning relates to
    pub req_id: RuleId,
    /// Line number (1-indexed)
    pub line: usize,
    /// Byte span of the requirement
    pub span: SourceSpan,
    /// What kind of warning
    pub kind: ReqWarningKind,
}

/// Types of requirement warnings.
#[derive(Debug, Clone)]
pub enum ReqWarningKind {
    /// Requirement text contains no RFC 2119 keywords
    NoRfc2119Keyword,
    /// Requirement text contains a negative requirement (MUST NOT, SHALL NOT, etc.)
    NegativeReq(Rfc2119Keyword),
}

/// Result of extracting requirements from markdown.
#[derive(Debug)]
pub struct ExtractedReqs {
    /// Transformed markdown with requirement markers replaced by HTML
    pub output: String,
    /// All requirements found in the document
    pub reqs: Vec<ReqDefinition>,
    /// Warnings about requirement quality
    pub warnings: Vec<ReqWarning>,
}

/// The mathematical value of [`ReqMetadata`].
pub struct MetaModel {
    pub status: Option<ReqStatus>,
    pub level: Option<ReqLevel>,
    pub since: Option<Seq<char>>,
    pub until: Option<Seq<char>>,
    pub tags: Seq<Seq<char>>,
}

pub open spec fn opt_chars(o: Option<String>) -> Option<Seq<char>> {
    match o {
        Some(s) => Some(s@),
        None => None,
    }
}

pub open spec fn meta_model(m: ReqMetadata) -> MetaModel {
    MetaModel {
        status: m.status,
        level: m.level,
        since: opt_chars(m.since),
        until: opt_chars(m.until),
        tags: strs_view(m.tags@),
    }
}

pub open spec fn empty_meta() -> MetaModel {
    MetaModel { status: None, level: None, since: None, until: None, tags: seq![] }
}

/// Why a marker is refused.
pub enum MarkerFault {
    /// The identifier is empty or not a valid rule id.
    BadId,
    /// An attribute is not of the form `key=value`.
    BadAttribute,
    /// A `status` value is not a known status.
    BadStatus,
    /// A `level` value is not a known level.
    BadLevel,
    /// An attribute key is not one of status, level, since, until, tags.
    UnknownKey,
}

/// Tags: the comma-separated pieces of the value, each trimmed of whitespace.
pub open spec fn tags_of(value: Seq<char>) -> Seq<Seq<char>> {
    split_on(value, ',').map_values(|p: Seq<char>| trim_both(p, strip_of(true)))
}

/// One `key=value` attribute applied to the metadata read so far.
pub open spec fn apply_attribute(m: MetaModel, w: Seq<char>) -> Result<MetaModel, MarkerFault> {
    if exists|e: int| first_at(w, '=', e) {
        let e = choose|e: int| first_at(w, '=', e);
        let key = w.take(e);
        let value = w.skip(e + 1);
        if key == "status"@ {
            match status_of(value) {
                Some(s) => Ok(MetaModel { status: Some(s), ..m }),
                None => Err(MarkerFault::BadStatus),
            }
        } else if key == "level"@ {
            match level_of(value) {
                Some(l) => Ok(MetaModel { level: Some(l), ..m }),
                None => Err(MarkerFault::BadLevel),
            }
        } else if key == "since"@ {
            Ok(MetaModel { since: Some(value), ..m })
        } else if key == "until"@ {
            Ok(MetaModel { until: Some(value), ..m })
        } else if key == "tags"@ {
            Ok(MetaModel { tags: tags_of(value), ..m })
        } else {
            Err(MarkerFault::UnknownKey)
        }
    } else {
        Err(MarkerFault::BadAttribute)
    }
}

/// The attributes from the `i`-th on, applied in order; the first refused
/// one decides the fault.
pub open spec fn apply_attributes(m: MetaModel, ws: Seq<Seq<char>>, i: int) -> Result<
    MetaModel,
    MarkerFault,
>
    decreases ws.len() - i,
{
    if i < 0 || i >= ws.len() {
        Ok(m)
    } else {
        match apply_attribute(m, ws[i]) {
            Ok(m2) => apply_attributes(m2, ws, i + 1),
            Err(f) => Err(f),
        }
    }
}

/// The identifier of a trimmed marker: up to its first space.
pub open spec fn marker_id(t: Seq<char>) -> Seq<char> {
    if exists|p: int| first_at(t, ' ', p) {
        t.take(choose|p: int| first_at(t, ' ', p))
    } else {
        t
    }
}

/// The attributes of a trimmed marker: after its first space, trimmed.
pub open spec fn marker_attributes(t: Seq<char>) -> Seq<char> {
    if exists|p: int| first_at(t, ' ', p) {
        trim_both(t.skip((choose|p: int| first_at(t, ' ', p)) + 1), strip_of(true))
    } else {
        seq![]
    }
}

/// What a marker's content denotes: its rule id and metadata, or the fault.
pub open spec fn marker_of(inner: Seq<char>) -> Result<((Seq<char>, u32), MetaModel), MarkerFault> {
    let t = trim_both(inner, strip_of(true));
    match rule_id_of(marker_id(t)) {
        None => Err(MarkerFault::BadId),
        Some(id) => match apply_attributes(empty_meta(), words(marker_attributes(t)), 0) {
            Ok(m) => Ok((id, m)),
            Err(f) => Err(f),
        },
    }
}

/// The error reported for a fault: an invalid id is reported as such, the
/// rest as an error of the `req` block.
pub open spec fn reports(e: Error, f: MarkerFault) -> bool {
    match f {
        MarkerFault::BadId => e is DuplicateReq,
        _ => e matches Error::CodeBlockHandler { language, .. } && language@ == "req"@,
    }
}

fn fault_message(what: &str, item: &Vec<char>, id: &RuleId, expected: &str) -> String {
    let mut m = String::from_str(what);
    m.append(" '");
    m.append(string_from_chars(item).as_str());
    m.append("' for requirement '");
    m.append(id.to_string().as_str());
    m.append("', expected: ");
    m.append(expected);
    m
}

fn req_error(message: String) -> (r: Error)
    ensures
        reports(r, MarkerFault::BadAttribute),
{
    Error::CodeBlockHandler { language: String::from_str("req"), message }
}

fn tags_exec(value: &Vec<char>) -> (r: Vec<String>)
    ensures
        strs_view(r@) == tags_of(value@),
{
    let pieces = split_chars(value, ',');
    let ghost pv = chars_view(pieces@);
    let mut tags: Vec<String> = Vec::new();
    let mut k: usize = 0;
    while k < pieces.len()
        invariant
            k <= pieces.len(),
            pv == chars_view(pieces@),
            pv == split_on(value@, ','),
            tags.len() == k,
            forall|q: int|
                0 <= q < k ==> (#[trigger] tags@[q])@ == trim_both(pv[q], strip_of(true)),
        decreases pieces.len() - k,
    {
        let t = trim_chars(&pieces[k], true);
        tags.push(string_from_chars(&t));
        k = k + 1;
    }
    assert(strs_view(tags@) =~= tags_of(value@));
    tags
}

fn apply_attribute_exec(metadata: &mut ReqMetadata, attr: &Vec<char>, req_id: &RuleId) -> (r: Result<
    (),
    Error,
>)
    ensures
        match r {
            Ok(()) => apply_attribute(meta_model(*old(metadata)), attr@) == Ok::<_, MarkerFault>(
                meta_model(*final(metadata)),
            ),
            Err(e) => apply_attribute(meta_model(*old(metadata)), attr@) matches Err(f) && reports(
                e,
                f,
            ),
        },
{
    let ghost m = meta_model(*metadata);
    match find_char(attr, '=') {
        None => {
            let msg = fault_message("invalid attribute format", attr, req_id, "key=value");
            Err(req_error(msg))
        },
        Some(e) => {
            proof {
                let c = choose|c: int| first_at(attr@, '=', c);
                lemma_first_at_unique(attr@, '=', e as int, c);
            }
            assert(e < attr.len());
            let key = sub_chars(attr, 0, e);
            let value = sub_chars(attr, e + 1, attr.len());
            assert(key@ =~= attr@.take(e as int));
            assert(value@ =~= attr@.skip(e + 1));
            if chars_are(&key, "status") {
                match status_of_chars(&value) {
                    Some(s) => {
                        metadata.status = Some(s);
                        Ok(())
                    },
                    None => {
                        let msg = fault_message(
                            "invalid status",
                            &value,
                            req_id,
                            "draft, stable, deprecated, removed",
                        );
                        Err(req_error(msg))
                    },
                }
            } else if chars_are(&key, "level") {
                match level_of_chars(&value) {
                    Some(l) => {
                        metadata.level = Some(l);
                        Ok(())
                    },
                    None => {
                        let msg = fault_message("invalid level", &value, req_id, "must, should, may");
                        Err(req_error(msg))
                    },
                }
            } else if chars_are(&key, "since") {
                metadata.since = Some(string_from_chars(&value));
                Ok(())
            } else if chars_are(&key, "until") {
                metadata.until = Some(string_from_chars(&value));
                Ok(())
            } else if chars_are(&key, "tags") {
                metadata.tags = tags_exec(&value);
                Ok(())
            } else {
                let msg = fault_message(
                    "unknown attribute",
                    &key,
                    req_id,
                    "status, level, since, until, tags",
                );
                Err(req_error(msg))
            }
        },
    }
}

/// Parse a requirement marker content (inside r[...]).
///
/// Supports formats:
/// - `req.id` - simple requirement ID
/// - `req.id status=stable level=must` - requirement ID with attributes
pub fn parse_req_marker(inner: &str) -> (r: Result<(RuleId, ReqMetadata), Error>)
    ensures
        match r {
            Ok((id, meta)) => marker_of(inner@) == Ok::<_, MarkerFault>(
                ((id.base@, id.version), meta_model(meta)),
            ),
            Err(e) => marker_of(inner@) matches Err(f) && reports(e, f),
        },
{
    let raw = chars_of(inner);
    let t = trim_chars(&raw, true);
    let (id_part, attrs) = match find_char(&t, ' ') {
        Some(p) => {
            proof {
                let c = choose|c: int| first_at(t@, ' ', c);
                lemma_first_at_unique(t@, ' ', p as int, c);
            }
            let rest = sub_chars(&t, p + 1, t.len());
            assert(rest@ =~= t@.skip(p + 1));
            (sub_chars(&t, 0, p), trim_chars(&rest, true))
        },
        None => (t.clone(), Vec::new()),
    };
    assert(id_part@ =~= marker_id(t@));
    assert(attrs@ =~= marker_attributes(t@));
    let id_text = string_from_chars(&id_part);
    let req_id = match parse_rule_id(id_text.as_str()) {
        Some(id) => id,
        None => {
            return Err(Error::DuplicateReq(String::from_str("empty or invalid requirement identifier")));
        },
    };
    let attr_text = string_from_chars(&attrs);
    let ws = split_words(attr_text.as_str());
    let ghost wv = strs_view(ws@);
    let mut metadata = ReqMetadata {
        status: None,
        level: None,
        since: None,
        until: None,
        tags: Vec::new(),
    };
    assert(meta_model(metadata) == empty_meta()) by {
        assert(strs_view(metadata.tags@) =~= Seq::<Seq<char>>::empty());
    }
    let mut i: usize = 0;
    while i < ws.len()
        invariant
            i <= ws.len(),
            wv == strs_view(ws@),
            wv == words(marker_attributes(t@)),
            t@ == trim_both(inner@, strip_of(true)),
            rule_id_of(marker_id(t@)) == Some((req_id.base@, req_id.version)),
            apply_attributes(empty_meta(), wv, 0) == apply_attributes(meta_model(metadata), wv, i as int),
        decreases ws.len() - i,
    {
        let attr = chars_of(ws[i].as_str());
        assert(wv[i as int] == attr@);
        let ghost m = meta_model(metadata);
        match apply_attribute_exec(&mut metadata, &attr, &req_id) {
            Ok(()) => {},
            Err(e) => {
                proof {
                    let f = apply_attribute(m, attr@)->Err_0;
                    assert(apply_attributes(m, wv, i as int) == Err::<MetaModel, MarkerFault>(f));
                }
                return Err(e);
            },
        }
        i = i + 1;
    }
    Ok((req_id, metadata))
}

fn opt_string_same(a: &Option<String>, b: &Option<String>) -> (r: bool)
    ensures
        r == (opt_chars(*a) == opt_chars(*b)),
{
    match (a, b) {
        (Some(x), Some(y)) => *x == *y,
        (None, None) => true,
        _ => false,
    }
}

fn strings_same(a: &Vec<String>, b: &Vec<String>) -> (r: bool)
    ensures
        r == (strs_view(a@) == strs_view(b@)),
{
    if a.len() != b.len() {
        assert(strs_view(a@).len() != strs_view(b@).len());
        return false;
    }
    let mut k: usize = 0;
    while k < a.len()
        invariant
            a.len() == b.len(),
            k <= a.len(),
            forall|q: int| 0 <= q < k ==> a@[q]@ == b@[q]@,
        decreases a.len() - k,
    {
        if a[k] != b[k] {
            assert(strs_view(a@)[k as int] != strs_view(b@)[k as int]);
            return false;
        }
        k = k + 1;
    }
    assert(strs_view(a@) =~= strs_view(b@));
    true
}

impl PartialEq for ReqMetadata {
    fn eq(&self, other: &ReqMetadata) -> (r: bool) {
        self.status == other.status && self.level == other.level && opt_string_same(
            &self.since,
            &other.since,
        ) && opt_string_same(&self.until, &other.until) && strings_same(&self.tags, &other.tags)
    }
}

impl vstd::std_specs::cmp::PartialEqSpecImpl for ReqMetadata {
    open spec fn obeys_eq_spec() -> bool {
        true
    }

    open spec fn eq_spec(&self, other: &ReqMetadata) -> bool {
        meta_model(*self) == meta_model(*other)
    }
}

impl PartialEq for ReqDefinition {
    fn eq(&self, other: &ReqDefinition) -> (r: bool) {
        self.id == other.id && self.anchor_id == other.anchor_id && self.marker_span
            == other.marker_span && self.span == other.span && self.line == other.line
            && self.metadata == other.metadata && self.raw == other.raw && self.html == other.html
    }
}

impl vstd::std_specs::cmp::PartialEqSpecImpl for ReqDefinition {
    open spec fn obeys_eq_spec() -> bool {
        true
    }

    open spec fn eq_spec(&self, other: &ReqDefinition) -> bool {
        &&& self.id.base@ == other.id.base@
        &&& self.id.version == other.id.version
        &&& self.anchor_id@ == other.anchor_id@
        &&& self.marker_span == other.marker_span
        &&& self.span == other.span
        &&& self.line == other.line
        &&& meta_model(self.metadata) == meta_model(other.metadata)
        &&& self.raw@ == other.raw@
        &&& self.html@ == other.html@
    }
}

} // verus!
