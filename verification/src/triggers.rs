//! Output triggers — style transforms for matching lines.

use vstd::prelude::*;
use vstd::utf8::encode_utf8;

use crate::schema::{MatchType, TriggerRule, TriggerScope, TriggerStyle, TriggersConfig};
use crate::text::{
    ascii_lower, ascii_lower_seq, chars_of, contains_chars, contains_seq, find_from, is_ws,
    occurs_at, trim, trim_chars, trim_end, trim_start,
};

verus! {

// ---------------------------------------------------------------------------
// The regex crate
// ---------------------------------------------------------------------------

#[verifier::external_type_specification]
#[verifier::external_body]
pub struct ExRegex(regex::Regex);

#[verifier::external_type_specification]
#[verifier::external_body]
pub struct ExRegexError(regex::Error);

/// The pattern a compiled regex was built from (what `Regex::as_str` returns).
pub uninterp spec fn regex_source(re: regex::Regex) -> Seq<char>;

/// Whether `Regex::new` accepts `pattern` (valid syntax within the size limit).
pub uninterp spec fn regex_accepts(pattern: Seq<char>) -> bool;

/// What `Regex::is_match` answers for `pattern` on `hay`.
pub uninterp spec fn regex_is_match(pattern: Seq<char>, hay: Seq<char>) -> bool;

/// Byte spans `(start, end)` of the successive non-overlapping matches that
/// `Regex::find_iter` yields for `pattern` on `hay`.
pub uninterp spec fn regex_find_spans(pattern: Seq<char>, hay: Seq<char>) -> Seq<(usize, usize)>;

/// `Regex::new`: compiles `pattern`; succeeds exactly when the pattern is
/// accepted, and the regex remembers its pattern.
#[verifier::external_body]
fn regex_new(pattern: &str) -> (r: Result<regex::Regex, regex::Error>)
    ensures
        r is Ok <==> regex_accepts(pattern@),
        r matches Ok(re) ==> regex_source(re) == pattern@,
{
    regex::Regex::new(pattern)
}

/// `Regex::is_match`: whether the regex matches anywhere in `hay`.
#[verifier::external_body]
fn regex_is_match_exec(re: &regex::Regex, hay: &str) -> (b: bool)
    ensures
        b == regex_is_match(regex_source(*re), hay@),
{
    re.is_match(hay)
}

/// `Regex::find_iter`, each match given by its byte offsets; offsets lie
/// within the haystack and each match starts no later than it ends.
#[verifier::external_body]
fn regex_find_iter(re: &regex::Regex, hay: &str) -> (spans: Vec<(usize, usize)>)
    ensures
        spans@ == regex_find_spans(regex_source(*re), hay@),
        forall|k: int|
            0 <= k < spans@.len() ==> #[trigger] spans@[k].0 <= spans@[k].1 <= encode_utf8(
                hay@,
            ).len(),
{
    re.find_iter(hay).map(|m| (m.start(), m.end())).collect()
}

/// The text of a regex error (its `Display`).
#[verifier::external_body]
fn regex_error_text(e: &regex::Error) -> String {
    e.to_string()
}

// ---------------------------------------------------------------------------
// Colors
// ---------------------------------------------------------------------------

#[derive(Debug, Clone, Copy, PartialEq, Eq, Structural)]
pub struct Rgba {
    pub r: u8,
    pub g: u8,
    pub b: u8,
    pub a: u8,
}

/// `c` is an ASCII hex digit.
pub open spec fn is_hex(c: char) -> bool {
    ('0' <= c <= '9') || ('a' <= c <= 'f') || ('A' <= c <= 'F')
}

/// Value of a hex digit.
pub open spec fn hex_val(c: char) -> nat {
    if '0' <= c <= '9' {
        ((c as u32) - 48) as nat
    } else if 'a' <= c <= 'f' {
        ((c as u32) - 87) as nat
    } else {
        ((c as u32) - 55) as nat
    }
}

/// Value of a sequence of hex digits.
pub open spec fn hex_value(s: Seq<char>) -> nat
    decreases s.len(),
{
    if s.len() == 0 {
        0
    } else {
        hex_value(s.drop_last()) * 16 + hex_val(s.last())
    }
}

/// The value of `s` read as one or more hex digits and nothing else (no
/// sign), if it fits in a `u32`.
pub open spec fn parse_hex_u32(s: Seq<char>) -> Option<u32> {
    if s.len() > 0 && all_hex(s) && hex_value(s) <= u32::MAX {
        Some(hex_value(s) as u32)
    } else {
        None
    }
}

/// Every character is a hex digit.
pub open spec fn all_hex(d: Seq<char>) -> bool {
    forall|i: int| 0 <= i < d.len() ==> is_hex(#[trigger] d[i])
}

/// `s` without leading `c` characters.
pub open spec fn trim_start_char(s: Seq<char>, c: char) -> Seq<char>
    decreases s.len(),
{
    if s.len() > 0 && s[0] == c {
        trim_start_char(s.drop_first(), c)
    } else {
        s
    }
}

/// The color a `#RRGGBB` / `#RRGGBBAA` string denotes, if any.
pub open spec fn hex_color(s: Seq<char>) -> Option<Rgba> {
    let t = trim_start_char(trim(s), '#');
    if t.len() == 6 {
        match parse_hex_u32(t) {
            Some(n) => Some(
                Rgba {
                    r: ((n >> 16u32) & 0xffu32) as u8,
                    g: ((n >> 8u32) & 0xffu32) as u8,
                    b: (n & 0xffu32) as u8,
                    a: 255,
                },
            ),
            None => None,
        }
    } else if t.len() == 8 {
        match parse_hex_u32(t) {
            Some(n) => Some(
                Rgba {
                    r: ((n >> 24u32) & 0xffu32) as u8,
                    g: ((n >> 16u32) & 0xffu32) as u8,
                    b: ((n >> 8u32) & 0xffu32) as u8,
                    a: (n & 0xffu32) as u8,
                },
            ),
            None => None,
        }
    } else {
        None
    }
}

fn hex_digit(c: char) -> (r: Option<u32>)
    ensures
        r is Some <==> is_hex(c),
        r matches Some(v) ==> v == hex_val(c) && v < 16,
{
    if '0' <= c && c <= '9' {
        Some(c as u32 - 48)
    } else if 'a' <= c && c <= 'f' {
        Some(c as u32 - 87)
    } else if 'A' <= c && c <= 'F' {
        Some(c as u32 - 55)
    } else {
        None
    }
}

/// Reads a string of at most 8 hex digits.
fn parse_hex_u32_exec(s: &[char]) -> (r: Option<u32>)
    requires
        s@.len() <= 8,
    ensures
        r == parse_hex_u32(s@),
{
    if s.len() == 0 {
        return None;
    }
    let ghost d = s@;
    let mut value: u32 = 0;
    let mut i: usize = 0;
    while i < s.len()
        invariant
            i <= s@.len() <= 8,
            0 < s@.len(),
            d == s@,
            forall|k: int| 0 <= k < i ==> is_hex(#[trigger] s@[k]),
            value as nat == hex_value(s@.subrange(0, i as int)),
            value < pow16(i as int),
        decreases s@.len() - i,
    {
        let c = s[i];
        match hex_digit(c) {
            None => {
                proof {
                    assert(d[i as int] == c);
                    assert(!is_hex(d[i as int]));
                    assert(parse_hex_u32(s@) is None);
                }
                return None;
            },
            Some(v) => {
                proof {
                    let sub = s@.subrange(0, i + 1);
                    assert(sub.drop_last() =~= s@.subrange(0, i as int));
                    assert(sub.last() == c);
                    lemma_pow16_bound(i as nat);
                    assert(value * 16 + v < pow16(i + 1)) by (nonlinear_arith)
                        requires
                            value < pow16(i as int),
                            v < 16,
                            pow16(i + 1) == 16 * pow16(i as int),
                    ;
                }
                value = value * 16 + v;
            },
        }
        i = i + 1;
    }
    proof {
        assert(s@.subrange(0, s@.len() as int) =~= d);
        assert forall|k: int| 0 <= k < d.len() implies is_hex(#[trigger] d[k]) by {
            assert(d[k] == s@[k]);
        }
    }
    Some(value)
}

/// `16^n`.
pub open spec fn pow16(n: int) -> int
    decreases n,
{
    if n <= 0 {
        1
    } else {
        16 * pow16(n - 1)
    }
}

proof fn lemma_pow16_pos(n: int)
    ensures
        pow16(n) >= 1,
    decreases n,
{
    if n > 0 {
        lemma_pow16_pos(n - 1);
    }
}

proof fn lemma_pow16_mono(a: int, b: int)
    requires
        0 <= a <= b,
    ensures
        pow16(a) <= pow16(b),
    decreases b,
{
    if a < b {
        lemma_pow16_mono(a, b - 1);
        lemma_pow16_pos(b - 1);
    }
}

proof fn lemma_pow16_bound(n: nat)
    requires
        n < 8,
    ensures
        pow16(n as int + 1) == 16 * pow16(n as int),
        pow16(n as int + 1) <= 0x1_0000_0000,
{
    assert(pow16(8) == 0x1_0000_0000) by {
        reveal_with_fuel(pow16, 9);
    }
    lemma_pow16_mono(n as int + 1, 8);
}

/// Parse `#RRGGBB` or `#RRGGBBAA` (surrounding whitespace and any number of
/// leading `#` are ignored).
pub fn parse_hex_color(s: &str) -> (c: Option<Rgba>)
    ensures
        c == hex_color(s@),
{
    let trimmed = trim_chars(chars_of(s).as_slice());
    let mut k: usize = 0;
    proof {
        assert(trimmed@.skip(0) =~= trimmed@);
    }
    while k < trimmed.len() && trimmed[k] == '#'
        invariant
            k <= trimmed@.len(),
            trim_start_char(trimmed@.skip(k as int), '#') == trim_start_char(trimmed@, '#'),
        decreases trimmed@.len() - k,
    {
        proof {
            assert(trimmed@.skip(k as int).drop_first() =~= trimmed@.skip(k + 1));
        }
        k = k + 1;
    }
    let t = crate::text::slice_chars(trimmed.as_slice(), k, trimmed.len());
    proof {
        assert(t@ =~= trimmed@.skip(k as int));
        assert(t@ == trim_start_char(trimmed@, '#'));
    }
    if t.len() == 6 {
        match parse_hex_u32_exec(t.as_slice()) {
            Some(n) => Some(
                Rgba {
                    r: ((n >> 16u32) & 0xffu32) as u8,
                    g: ((n >> 8u32) & 0xffu32) as u8,
                    b: (n & 0xffu32) as u8,
                    a: 255,
                },
            ),
            None => None,
        }
    } else if t.len() == 8 {
        match parse_hex_u32_exec(t.as_slice()) {
            Some(n) => Some(
                Rgba {
                    r: ((n >> 24u32) & 0xffu32) as u8,
                    g: ((n >> 16u32) & 0xffu32) as u8,
                    b: ((n >> 8u32) & 0xffu32) as u8,
                    a: (n & 0xffu32) as u8,
                },
            ),
            None => None,
        }
    } else {
        None
    }
}

// ---------------------------------------------------------------------------
// Engine
// ---------------------------------------------------------------------------

#[derive(Debug, Clone, Copy)]
pub struct AppliedStyle {
    pub foreground: Option<Rgba>,
    pub background: Option<Rgba>,
    pub bold: bool,
    pub underline: bool,
}

#[derive(Debug, Clone, Copy)]
pub struct LineDecoration {
    /// Inclusive start column, exclusive end. For `scope: line`, covers full line.
    pub start: usize,
    pub end: usize,
    pub style: AppliedStyle,
}

/// The color a configured color string denotes, if any.
pub open spec fn opt_hex_color(s: Option<String>) -> Option<Rgba> {
    match s {
        Some(t) => hex_color(t@),
        None => None,
    }
}

/// The style a rule's style block compiles to.
pub open spec fn applied_style_of(s: TriggerStyle) -> AppliedStyle {
    AppliedStyle {
        foreground: opt_hex_color(s.foreground),
        background: opt_hex_color(s.background),
        bold: s.bold,
        underline: s.underline,
    }
}

/// How a compiled rule matches: by regex pattern or by literal text.
pub enum Matcher {
    Regex(Seq<char>),
    Literal(Seq<char>),
    /// A rule with neither a regex nor a literal never fires.
    Never,
}

/// Abstract value of a compiled rule.
pub struct RuleView {
    pub name: Seq<char>,
    pub matcher: Matcher,
    pub scope: TriggerScope,
    pub style: AppliedStyle,
}

struct CompiledRule {
    name: String,
    regex: Option<regex::Regex>,
    literal: Option<String>,
    scope: TriggerScope,
    style: AppliedStyle,
}

impl CompiledRule {
    spec fn view(&self) -> RuleView {
        RuleView {
            name: self.name@,
            matcher: match self.regex {
                Some(re) => Matcher::Regex(regex_source(re)),
                None => match self.literal {
                    Some(l) => Matcher::Literal(l@),
                    None => Matcher::Never,
                },
            },
            scope: self.scope,
            style: self.style,
        }
    }
}

/// The compiled form of a configured rule, or `None` when its regex does
/// not compile.
pub open spec fn compile_rule_spec(rule: TriggerRule) -> Option<RuleView> {
    let style = applied_style_of(rule.style);
    match rule.match_type {
        MatchType::Regex => if regex_accepts(rule.pattern@) {
            Some(
                RuleView {
                    name: rule.name@,
                    matcher: Matcher::Regex(rule.pattern@),
                    scope: rule.scope,
                    style,
                },
            )
        } else {
            None
        },
        MatchType::String => Some(
            RuleView {
                name: rule.name@,
                matcher: Matcher::Literal(rule.pattern@),
                scope: rule.scope,
                style,
            },
        ),
    }
}

/// The compiled rules of a configuration, in order, skipping the ones
/// that fail to compile.
pub open spec fn compiled_rules(rules: Seq<TriggerRule>) -> Seq<RuleView>
    decreases rules.len(),
{
    if rules.len() == 0 {
        Seq::empty()
    } else {
        let prev = compiled_rules(rules.drop_last());
        match compile_rule_spec(rules.last()) {
            Some(r) => prev.push(r),
            None => prev,
        }
    }
}

/// Abstract value of a [`TriggerEngine`].
pub struct EngineView {
    pub enabled: bool,
    pub rules: Seq<RuleView>,
}

pub struct TriggerEngine {
    enabled: bool,
    rules: Vec<CompiledRule>,
}

impl View for TriggerEngine {
    type V = EngineView;

    closed spec fn view(&self) -> EngineView {
        EngineView { enabled: self.enabled, rules: self.rules@.map_values(|r: CompiledRule| r.view()) }
    }
}

/// UTF-8 length of a character.
pub open spec fn utf8_width(c: char) -> int {
    let u = c as u32;
    if u < 0x80 {
        1
    } else if u < 0x800 {
        2
    } else if u < 0x10000 {
        3
    } else {
        4
    }
}

/// Number of characters of `s` that fit entirely in its first `b` bytes.
pub open spec fn chars_before(s: Seq<char>, b: int) -> int
    decreases s.len(),
{
    if s.len() == 0 || b < utf8_width(s[0]) {
        0
    } else {
        1 + chars_before(s.drop_first(), b - utf8_width(s[0]))
    }
}

/// Successive non-overlapping occurrences of `lit` in `line` from `from`
/// on, as character spans.
#[verifier::opaque]
pub open spec fn literal_spans(line: Seq<char>, lit: Seq<char>, from: int) -> Seq<(int, int)>
    decreases line.len() + 1 - from,
    when lit.len() > 0 && 0 <= from
{
    if exists|q: int| from <= q && occurs_at(line, lit, q) {
        let q = choose|q: int|
            from <= q && occurs_at(line, lit, q) && forall|p: int|
                from <= p < q ==> !occurs_at(line, lit, p);
        if q >= from && q + lit.len() <= line.len() {
            seq![(q, q + lit.len())] + literal_spans(line, lit, q + lit.len())
        } else {
            Seq::empty()
        }
    } else {
        Seq::empty()
    }
}

/// Whether a rule fires on a line.
pub open spec fn rule_fires(r: RuleView, line: Seq<char>) -> bool {
    match r.matcher {
        Matcher::Regex(p) => regex_is_match(p, line),
        Matcher::Literal(l) => contains_seq(line, l),
        Matcher::Never => false,
    }
}

/// Decoration spans `(start, end)` of one rule on a line.
pub open spec fn rule_spans(r: RuleView, line: Seq<char>) -> Seq<(int, int)> {
    if !rule_fires(r, line) {
        Seq::empty()
    } else {
        match r.scope {
            TriggerScope::Line => seq![(0, if line.len() >= 1 { line.len() as int } else { 1 })],
            TriggerScope::Match => match r.matcher {
                Matcher::Regex(p) => char_spans(line, regex_find_spans(p, line)),
                Matcher::Literal(l) => if l.len() > 0 {
                    literal_spans(line, l, 0)
                } else {
                    Seq::empty()
                },
                Matcher::Never => Seq::empty(),
            },
        }
    }
}

/// Decorations of the rules `rules`, in rule order.
pub open spec fn decorations_of(rules: Seq<RuleView>, line: Seq<char>) -> Seq<(int, int, AppliedStyle)>
    decreases rules.len(),
{
    if rules.len() == 0 {
        Seq::empty()
    } else {
        let r = rules.last();
        decorations_of(rules.drop_last(), line) + styled(rule_spans(r, line), r.style)
    }
}

/// Abstract value of a decoration.
pub open spec fn decoration_view(d: LineDecoration) -> (int, int, AppliedStyle) {
    (d.start as int, d.end as int, d.style)
}

fn opt_color(s: &Option<String>) -> (c: Option<Rgba>)
    ensures
        c == opt_hex_color(*s),
{
    match s {
        Some(t) => parse_hex_color(t.as_str()),
        None => None,
    }
}

fn compile_rule(rule: &TriggerRule) -> (r: Result<CompiledRule, String>)
    ensures
        match r {
            Ok(c) => compile_rule_spec(*rule) == Some(c.view()),
            Err(_) => compile_rule_spec(*rule) is None,
        },
{
    let style = AppliedStyle {
        foreground: opt_color(&rule.style.foreground),
        background: opt_color(&rule.style.background),
        bold: rule.style.bold,
        underline: rule.style.underline,
    };
    match rule.match_type {
        MatchType::Regex => {
            match regex_new(rule.pattern.as_str()) {
                Ok(regex) => Ok(
                    CompiledRule {
                        name: rule.name.clone(),
                        regex: Some(regex),
                        literal: None,
                        scope: rule.scope,
                        style,
                    },
                ),
                Err(e) => Err(regex_error_text(&e)),
            }
        },
        MatchType::String => Ok(
            CompiledRule {
                name: rule.name.clone(),
                regex: None,
                literal: Some(rule.pattern.clone()),
                scope: rule.scope,
                style,
            },
        ),
    }
}

/// UTF-8 length of a character (`char::len_utf8`).
fn utf8_width_exec(c: char) -> (w: usize)
    ensures
        w == utf8_width(c),
{
    let u = c as u32;
    if u < 0x80 {
        1
    } else if u < 0x800 {
        2
    } else if u < 0x10000 {
        3
    } else {
        4
    }
}

/// Number of characters of `s` that fit entirely in its first `b` bytes.
fn chars_before_exec(s: &[char], b: usize) -> (n: usize)
    ensures
        n == chars_before(s@, b as int),
{
    let mut i: usize = 0;
    let mut left: usize = b;
    proof {
        assert(s@.skip(0) =~= s@);
    }
    while i < s.len() && utf8_width_exec(s[i]) <= left
        invariant
            i <= s@.len(),
            left <= b,
            chars_before(s@, b as int) == i + chars_before(s@.skip(i as int), left as int),
        decreases s@.len() - i,
    {
        proof {
            assert(s@.skip(i as int).drop_first() =~= s@.skip(i + 1));
        }
        left = left - utf8_width_exec(s[i]);
        i = i + 1;
    }
    i
}

impl TriggerEngine {
    /// Compile the configured rules; rules whose regex does not compile are skipped.
    pub fn from_config(cfg: &TriggersConfig) -> (e: Self)
        ensures
            e@.enabled == cfg.enabled,
            e@.rules == compiled_rules(cfg.rules@),
    {
        let mut rules: Vec<CompiledRule> = Vec::new();
        let mut i: usize = 0;
        while i < cfg.rules.len()
            invariant
                i <= cfg.rules@.len(),
                rules@.map_values(|r: CompiledRule| r.view()) == compiled_rules(
                    cfg.rules@.take(i as int),
                ),
            decreases cfg.rules@.len() - i,
        {
            proof {
                assert(cfg.rules@.take(i + 1).drop_last() =~= cfg.rules@.take(i as int));
            }
            match compile_rule(&cfg.rules[i]) {
                Ok(r) => {
                    rules.push(r);
                    proof {
                        assert(rules@.map_values(|r: CompiledRule| r.view()) =~= compiled_rules(
                            cfg.rules@.take(i + 1),
                        ));
                    }
                },
                Err(_err) => {},
            }
            i = i + 1;
        }
        proof {
            assert(cfg.rules@.take(cfg.rules@.len() as int) =~= cfg.rules@);
        }
        TriggerEngine { enabled: cfg.enabled, rules }
    }

    pub fn set_enabled(&mut self, enabled: bool)
        ensures
            final(self)@ == (EngineView { enabled, ..old(self)@ }),
    {
        self.enabled = enabled;
    }

    pub fn reload(&mut self, cfg: &TriggersConfig)
        ensures
            final(self)@.enabled == cfg.enabled,
            final(self)@.rules == compiled_rules(cfg.rules@),
    {
        *self = Self::from_config(cfg);
    }
}

/// Byte spans of `line` turned into character spans.
pub open spec fn char_spans(line: Seq<char>, v: Seq<(usize, usize)>) -> Seq<(int, int)> {
    Seq::new(v.len(), |i: int| (chars_before(line, v[i].0 as int), chars_before(line, v[i].1 as int)))
}

/// Spans with integer bounds.
pub open spec fn int_spans(v: Seq<(usize, usize)>) -> Seq<(int, int)> {
    Seq::new(v.len(), |i: int| (v[i].0 as int, v[i].1 as int))
}

/// Abstract values of decorations.
pub open spec fn decoration_views(v: Seq<LineDecoration>) -> Seq<(int, int, AppliedStyle)> {
    Seq::new(v.len(), |i: int| decoration_view(v[i]))
}

/// Spans of one rule, each carrying the rule's style.
pub open spec fn styled(spans: Seq<(int, int)>, style: AppliedStyle) -> Seq<(int, int, AppliedStyle)> {
    Seq::new(spans.len(), |i: int| (spans[i].0, spans[i].1, style))
}

proof fn lemma_decoration_views_push(v: Seq<LineDecoration>, x: LineDecoration)
    ensures
        decoration_views(v.push(x)) == decoration_views(v).push(decoration_view(x)),
{
    assert(decoration_views(v.push(x)) =~= decoration_views(v).push(decoration_view(x)));
}

proof fn lemma_int_spans_push(v: Seq<(usize, usize)>, x: (usize, usize))
    ensures
        int_spans(v.push(x)) == int_spans(v) + seq![(x.0 as int, x.1 as int)],
{
    assert(int_spans(v.push(x)) =~= int_spans(v) + seq![(x.0 as int, x.1 as int)]);
}

/// When the first occurrence at or after `from` is at `q`, the spans from
/// `from` start with that occurrence.
proof fn lemma_literal_spans_step(line: Seq<char>, lit: Seq<char>, from: int, q: int)
    requires
        lit.len() > 0,
        0 <= from <= q,
        occurs_at(line, lit, q),
        forall|p: int| from <= p < q ==> !occurs_at(line, lit, p),
    ensures
        literal_spans(line, lit, from) == seq![(q, q + lit.len())] + literal_spans(
            line,
            lit,
            q + lit.len(),
        ),
{
    reveal(literal_spans);
    let w = choose|w: int|
        from <= w && occurs_at(line, lit, w) && forall|p: int|
            from <= p < w ==> !occurs_at(line, lit, p);
    assert(from <= q && occurs_at(line, lit, q) && forall|p: int|
        from <= p < q ==> !occurs_at(line, lit, p));
    if w < q {
        assert(!occurs_at(line, lit, w));
    }
    if w > q {
        assert(!occurs_at(line, lit, q));
    }
    assert(w == q);
}

/// With no occurrence at or after `from`, there are no more spans.
proof fn lemma_literal_spans_done(line: Seq<char>, lit: Seq<char>, from: int)
    requires
        lit.len() > 0,
        0 <= from,
        forall|q: int| from <= q ==> !occurs_at(line, lit, q),
    ensures
        literal_spans(line, lit, from) == Seq::<(int, int)>::empty(),
{
    reveal(literal_spans);
}


/// Character spans of the regex's matches on a line.
fn regex_char_spans(re: &regex::Regex, line: &str, chars: &Vec<char>) -> (spans: Vec<(usize, usize)>)
    requires
        chars@ == line@,
    ensures
        int_spans(spans@) == char_spans(line@, regex_find_spans(regex_source(*re), line@)),
{
    let found = regex_find_iter(re, line);
    let ghost target = char_spans(line@, found@);
    let mut spans: Vec<(usize, usize)> = Vec::new();
    let mut j: usize = 0;
    while j < found.len()
        invariant
            chars@ == line@,
            j <= found@.len(),
            target == char_spans(line@, found@),
            spans@.len() == j,
            forall|i: int| 0 <= i < j ==> #[trigger] int_spans(spans@)[i] == target[i],
        decreases found@.len() - j,
    {
        let (bs, be) = found[j];
        let s0 = chars_before_exec(chars.as_slice(), bs);
        let e0 = chars_before_exec(chars.as_slice(), be);
        let ghost before = spans@;
        spans.push((s0, e0));
        proof {
            assert forall|i: int| 0 <= i < j + 1 implies #[trigger] int_spans(spans@)[i] == target[i] by {
                if i < j {
                    assert(int_spans(before)[i] == target[i]);
                    assert(spans@[i] == before[i]);
                } else {
                    assert(found@[j as int] == (bs, be));
                }
            }
        }
        j = j + 1;
    }
    proof {
        assert(int_spans(spans@) =~= target);
    }
    spans
}

/// Character spans of the successive non-overlapping occurrences of `lit`.
fn literal_spans_exec(line: &[char], lit: &[char]) -> (spans: Vec<(usize, usize)>)
    requires
        lit@.len() > 0,
    ensures
        int_spans(spans@) == literal_spans(
            line@,
            lit@,
            0,
        ),
{
    let mut spans: Vec<(usize, usize)> = Vec::new();
    let mut from: usize = 0;
    loop
        invariant
            lit@.len() > 0,
            from <= line@.len(),
            int_spans(spans@) + literal_spans(line@, lit@, from as int) == literal_spans(
                line@,
                lit@,
                0,
            ),
        decreases line@.len() - from,
    {
        match find_from(line, lit, from) {
            Some(q) => {
                let ghost before = spans@;
                let n = line.len();
                proof {
                    assert(occurs_at(line@, lit@, q as int));
                    assert(q + lit@.len() <= line@.len());
                }
                let end = q + lit.len();
                proof {
                    lemma_literal_spans_step(line@, lit@, from as int, q as int);
                }
                spans.push((q, end));
                proof {
                    lemma_int_spans_push(before, (q, end));
                }
                from = end;
            },
            None => {
                proof {
                    lemma_literal_spans_done(line@, lit@, from as int);
                    assert(int_spans(spans@)
                        =~= literal_spans(line@, lit@, 0));
                }
                return spans;
            },
        }
    }
}

impl TriggerEngine {
    /// Decoration spans of rule `k` on a line.
    fn spans_of_rule(&self, k: usize, line: &str, chars: &Vec<char>) -> (spans: Vec<(usize, usize)>)
        requires
            k < self@.rules.len(),
            chars@ == line@,
        ensures
            int_spans(spans@) == rule_spans(
                self@.rules[k as int],
                line@,
            ),
    {
        let rule = &self.rules[k];
        proof {
            assert(self@.rules[k as int] == rule.view());
        }
        let matched = if let Some(re) = &rule.regex {
            regex_is_match_exec(re, line)
        } else if let Some(lit) = &rule.literal {
            let lit_chars = chars_of(lit.as_str());
            contains_chars(chars.as_slice(), lit_chars.as_slice())
        } else {
            false
        };
        let mut spans: Vec<(usize, usize)> = Vec::new();
        if !matched {
            proof {
                assert(int_spans(spans@) =~= Seq::<(int, int)>::empty());
            }
            return spans;
        }
        match rule.scope {
            TriggerScope::Line => {
                let n = chars.len();
                spans.push((
                    0,
                    if n >= 1 {
                        n
                    } else {
                        1
                    },
                ));
                proof {
                    assert(int_spans(spans@) =~= rule_spans(
                        self@.rules[k as int],
                        line@,
                    ));
                }
                spans
            },
            TriggerScope::Match => {
                if let Some(re) = &rule.regex {
                    regex_char_spans(re, line, chars)
                } else if let Some(lit) = &rule.literal {
                    let lit_chars = chars_of(lit.as_str());
                    if lit_chars.len() == 0 {
                        // An empty literal matches everywhere and marks nothing.
                        proof {
                            assert(int_spans(spans@) =~= Seq::<(int, int)>::empty());
                        }
                        return spans;
                    }
                    literal_spans_exec(chars.as_slice(), lit_chars.as_slice())
                } else {
                    proof {
                        assert(int_spans(spans@) =~= Seq::<(int, int)>::empty());
                    }
                    spans
                }
            },
        }
    }

    /// Decorations for a single line of text, rule by rule in configuration order.
    pub fn decorations_for_line(&self, line: &str) -> (out: Vec<LineDecoration>)
        ensures
            !self@.enabled ==> out@.len() == 0,
            self@.enabled ==> decoration_views(out@)
                == decorations_of(self@.rules, line@),
    {
        let mut out: Vec<LineDecoration> = Vec::new();
        if !self.enabled {
            return out;
        }
        let chars = chars_of(line);
        let mut k: usize = 0;
        while k < self.rules.len()
            invariant
                chars@ == line@,
                k <= self@.rules.len(),
                self@.rules.len() == self.rules@.len(),
                decoration_views(out@) == decorations_of(
                    self@.rules.take(k as int),
                    line@,
                ),
            decreases self@.rules.len() - k,
        {
            let spans = self.spans_of_rule(k, line, &chars);
            let style = self.rules[k].style;
            let ghost base = decoration_views(out@);
            let ghost r = self@.rules[k as int];
            proof {
                assert(r.style == style);
                assert(self@.rules.take(k + 1).drop_last() =~= self@.rules.take(k as int));
                assert(self@.rules.take(k + 1).last() == r);
            }
            let ghost target = styled(rule_spans(r, line@), r.style);
            let mut j: usize = 0;
            while j < spans.len()
                invariant
                    j <= spans@.len(),
                    int_spans(spans@) == rule_spans(r, line@),
                    target == styled(rule_spans(r, line@), r.style),
                    r.style == style,
                    decoration_views(out@) == base + target.take(j as int),
                    j <= target.len(),
                decreases spans@.len() - j,
            {
                let (s0, e0) = spans[j];
                proof {
                    assert(spans@[j as int] == (s0, e0));
                    assert(int_spans(spans@)[j as int] == (s0 as int, e0 as int));
                    assert(rule_spans(r, line@)[j as int] == (s0 as int, e0 as int));
                    assert(target[j as int] == (s0 as int, e0 as int, style));
                }
                let ghost before = out@;
                out.push(LineDecoration { start: s0, end: e0, style });
                proof {
                    assert(out@ == before.push(LineDecoration { start: s0, end: e0, style }));
                    lemma_decoration_views_push(before, LineDecoration { start: s0, end: e0, style });
                    assert(target.take(j + 1) =~= target.take(j as int).push(target[j as int]));
                }
                proof {
                }
                j = j + 1;
            }
            proof {
                assert(target.take(spans@.len() as int) =~= target);
            }
            k = k + 1;
        }
        proof {
            assert(self@.rules.take(self@.rules.len() as int) =~= self@.rules);
        }
        out
    }
}

proof fn lemma_lower_char(c: char)
    ensures
        is_ws(ascii_lower(c)) == is_ws(c),
        (ascii_lower(c) == '#') == (c == '#'),
        is_hex(ascii_lower(c)) == is_hex(c),
        is_hex(c) ==> hex_val(ascii_lower(c)) == hex_val(c),
{
}

proof fn lemma_lower_trim_end(s: Seq<char>)
    ensures
        trim_end(ascii_lower_seq(s)) == ascii_lower_seq(trim_end(s)),
    decreases s.len(),
{
    if s.len() > 0 {
        assert(ascii_lower_seq(s).drop_last() =~= ascii_lower_seq(s.drop_last()));
        lemma_lower_char(s.last());
        lemma_lower_trim_end(s.drop_last());
    }
}

proof fn lemma_lower_trim_start(s: Seq<char>)
    ensures
        trim_start(ascii_lower_seq(s)) == ascii_lower_seq(trim_start(s)),
    decreases s.len(),
{
    if s.len() > 0 {
        assert(ascii_lower_seq(s).drop_first() =~= ascii_lower_seq(s.drop_first()));
        lemma_lower_char(s[0]);
        lemma_lower_trim_start(s.drop_first());
    }
}

proof fn lemma_lower_trim_hash(s: Seq<char>)
    ensures
        trim_start_char(ascii_lower_seq(s), '#') == ascii_lower_seq(trim_start_char(s, '#')),
    decreases s.len(),
{
    if s.len() > 0 {
        assert(ascii_lower_seq(s).drop_first() =~= ascii_lower_seq(s.drop_first()));
        lemma_lower_char(s[0]);
        lemma_lower_trim_hash(s.drop_first());
    }
}

proof fn lemma_lower_hex_value(d: Seq<char>)
    requires
        all_hex(d),
    ensures
        all_hex(ascii_lower_seq(d)),
        hex_value(ascii_lower_seq(d)) == hex_value(d),
    decreases d.len(),
{
    let l = ascii_lower_seq(d);
    assert forall|i: int| 0 <= i < l.len() implies is_hex(#[trigger] l[i]) by {
        lemma_lower_char(d[i]);
    }
    if d.len() > 0 {
        assert(l.drop_last() =~= ascii_lower_seq(d.drop_last()));
        assert forall|i: int| 0 <= i < d.drop_last().len() implies is_hex(#[trigger] d.drop_last()[i]) by {
            assert(d.drop_last()[i] == d[i]);
        }
        lemma_lower_hex_value(d.drop_last());
        lemma_lower_char(d.last());
        assert(is_hex(d[d.len() - 1]));
    }
}

proof fn lemma_lower_parse_hex(t: Seq<char>)
    ensures
        parse_hex_u32(ascii_lower_seq(t)) == parse_hex_u32(t),
{
    let l = ascii_lower_seq(t);
    if all_hex(t) {
        lemma_lower_hex_value(t);
    } else {
        let i = choose|i: int| 0 <= i < t.len() && !is_hex(t[i]);
        lemma_lower_char(t[i]);
        assert(!is_hex(l[i]));
    }
}

/// Hex colors ignore the case of their letters: a string and its ASCII
/// lower-cased form denote the same color (or are both rejected), so `A`–`F`
/// count 10–15 as `a`–`f` do.
pub proof fn lemma_hex_color_ignores_case(s: Seq<char>)
    ensures
        hex_color(ascii_lower_seq(s)) == hex_color(s),
{
    lemma_lower_trim_end(s);
    lemma_lower_trim_start(trim_end(s));
    lemma_lower_trim_hash(trim(s));
    lemma_lower_parse_hex(trim_start_char(trim(s), '#'));
}

/// The lower-case hex digit for `n` in 0..16.
pub open spec fn hex_digit_char(n: int) -> char {
    seq!['0', '1', '2', '3', '4', '5', '6', '7', '8', '9', 'a', 'b', 'c', 'd', 'e', 'f'][n]
}

/// A byte written as two lower-case hex digits.
pub open spec fn hex_byte(v: u8) -> Seq<char> {
    seq![hex_digit_char((v / 16) as int), hex_digit_char((v % 16) as int)]
}

proof fn lemma_hex_digit_char(n: int)
    requires
        0 <= n < 16,
    ensures
        is_hex(hex_digit_char(n)),
        hex_val(hex_digit_char(n)) == n,
        !is_ws(hex_digit_char(n)),
        hex_digit_char(n) != '#',
{
    assert(n == 0 || n == 1 || n == 2 || n == 3 || n == 4 || n == 5 || n == 6 || n == 7 || n == 8
        || n == 9 || n == 10 || n == 11 || n == 12 || n == 13 || n == 14 || n == 15);
}

proof fn lemma_hex_value_byte(x: Seq<char>, v: u8)
    requires
        all_hex(x),
    ensures
        all_hex(x + hex_byte(v)),
        hex_value(x + hex_byte(v)) == hex_value(x) * 256 + v,
{
    let d = hex_byte(v);
    lemma_hex_digit_char((v / 16) as int);
    lemma_hex_digit_char((v % 16) as int);
    let y = x + d;
    assert(y.drop_last() =~= x + seq![d[0]]);
    assert(y.last() == d[1]);
    assert((x + seq![d[0]]).drop_last() =~= x);
    assert((x + seq![d[0]]).last() == d[0]);
    assert forall|i: int| 0 <= i < y.len() implies is_hex(#[trigger] y[i]) by {
        if i >= x.len() {
            assert(y[i] == d[i - x.len()]);
        }
    }
    let x1 = x + seq![d[0]];
    assert(hex_value(x1) == hex_value(x1.drop_last()) * 16 + hex_val(x1.last()));
    assert(hex_value(x1) == hex_value(x) * 16 + hex_val(d[0]));
    assert(hex_value(y) == hex_value(y.drop_last()) * 16 + hex_val(y.last()));
    assert(hex_value(y) == (hex_value(x) * 16 + hex_val(d[0])) * 16 + hex_val(d[1]));
    assert((hex_value(x) * 16 + (v / 16) as int) * 16 + (v % 16) as int == hex_value(x) * 256 + v)
        by (nonlinear_arith);
}

/// A color written `#rrggbb` in lower-case hex digits reads back as that
/// color, fully opaque.
pub proof fn lemma_hex_color_reads_written_color(r: u8, g: u8, b: u8)
    ensures
        hex_color(seq!['#'] + hex_byte(r) + hex_byte(g) + hex_byte(b)) == Some(
            Rgba { r, g, b, a: 255 },
        ),
{
    let t = hex_byte(r) + hex_byte(g) + hex_byte(b);
    let s = seq!['#'] + t;
    assert(seq!['#'] + hex_byte(r) + hex_byte(g) + hex_byte(b) =~= s);
    let e = Seq::<char>::empty();
    assert(all_hex(e));
    lemma_hex_value_byte(e, r);
    assert(e + hex_byte(r) =~= hex_byte(r));
    lemma_hex_value_byte(hex_byte(r), g);
    lemma_hex_value_byte(hex_byte(r) + hex_byte(g), b);
    assert(hex_value(e) == 0);
    lemma_hex_digit_char((b % 16) as int);
    lemma_hex_digit_char((r / 16) as int);
    assert(s.last() == hex_digit_char((b % 16) as int));
    assert(trim_end(s) == s);
    assert(s[0] == '#');
    assert(trim_start(s) == s);
    assert(s.drop_first() =~= t);
    assert(t[0] == hex_digit_char((r / 16) as int));
    assert(trim_start_char(t, '#') == t);
    assert(trim_start_char(s, '#') == t);
    let n: int = (r as int * 256 + g as int) * 256 + b as int;
    assert(hex_value(t) == n);
    assert(n <= u32::MAX);
    let m = n as u32;
    assert(parse_hex_u32(t) == Some(m));
    assert(((m >> 16u32) & 0xffu32) as u8 == r && ((m >> 8u32) & 0xffu32) as u8 == g && (m
        & 0xffu32) as u8 == b) by (bit_vector)
        requires
            m == (r as u32 * 256 + g as u32) * 256 + b as u32,
    ;
}

/// A color written `#rrggbbaa` in lower-case hex digits reads back as that
/// color with that alpha.
pub proof fn lemma_hex_color_reads_written_alpha(r: u8, g: u8, b: u8, a: u8)
    ensures
        hex_color(seq!['#'] + hex_byte(r) + hex_byte(g) + hex_byte(b) + hex_byte(a)) == Some(
            Rgba { r, g, b, a },
        ),
{
    let t = hex_byte(r) + hex_byte(g) + hex_byte(b) + hex_byte(a);
    let s = seq!['#'] + t;
    assert(seq!['#'] + hex_byte(r) + hex_byte(g) + hex_byte(b) + hex_byte(a) =~= s);
    let e = Seq::<char>::empty();
    assert(all_hex(e));
    lemma_hex_value_byte(e, r);
    assert(e + hex_byte(r) =~= hex_byte(r));
    lemma_hex_value_byte(hex_byte(r), g);
    lemma_hex_value_byte(hex_byte(r) + hex_byte(g), b);
    lemma_hex_value_byte(hex_byte(r) + hex_byte(g) + hex_byte(b), a);
    assert(hex_value(e) == 0);
    lemma_hex_digit_char((a % 16) as int);
    lemma_hex_digit_char((r / 16) as int);
    assert(s.last() == hex_digit_char((a % 16) as int));
    assert(trim_end(s) == s);
    assert(s[0] == '#');
    assert(trim_start(s) == s);
    assert(s.drop_first() =~= t);
    assert(t[0] == hex_digit_char((r / 16) as int));
    assert(trim_start_char(t, '#') == t);
    assert(trim_start_char(s, '#') == t);
    let n: int = ((r as int * 256 + g as int) * 256 + b as int) * 256 + a as int;
    assert(hex_value(t) == n);
    assert(n <= u32::MAX);
    let m = n as u32;
    assert(parse_hex_u32(t) == Some(m));
    assert(((m >> 24u32) & 0xffu32) as u8 == r && ((m >> 16u32) & 0xffu32) as u8 == g && ((m
        >> 8u32) & 0xffu32) as u8 == b && (m & 0xffu32) as u8 == a) by (bit_vector)
        requires
            m == ((r as u32 * 256 + g as u32) * 256 + b as u32) * 256 + a as u32,
    ;
}

/// A string is read as a color only when, once trimmed and stripped of
/// leading `#`, it is six or eight hex digits and nothing else.
pub proof fn lemma_hex_color_needs_digits(s: Seq<char>)
    ensures
        hex_color(s) is Some ==> {
            let t = trim_start_char(trim(s), '#');
            &&& t.len() == 6 || t.len() == 8
            &&& forall|i: int| 0 <= i < t.len() ==> is_hex(#[trigger] t[i])
        },
{
}

} // verus!
