use vstd::prelude::*;
use crate::text::{seqs, slice_of, push_all, chars_of, string_of};
use regex::Regex;

verus! {

#[verifier::external_type_specification]
#[verifier::external_body]
pub struct ExRegex(regex::Regex);

/// The pattern text that a compiled regex was built from.
pub uninterp spec fn regex_text(r: Regex) -> Seq<char>;

/// Whether the regex written `re` matches somewhere in `hay`.
pub uninterp spec fn regex_has_match(re: Seq<char>, hay: Seq<char>) -> bool;

/// Whether the regex engine accepts the regex written `src`: its syntax and default size
/// limits decide.
pub uninterp spec fn regex_accepts(src: Seq<char>) -> bool;

/// Relies on `regex::Regex::new`: it succeeds exactly on the texts the engine accepts, and a
/// regex that compiled keeps the text it was built from (`Regex::as_str`).
#[verifier::external_body]
fn compile_regex(src: &str) -> (r: Option<Regex>)
    ensures
        r is Some <==> regex_accepts(src@),
        r matches Some(re) ==> regex_text(re) == src@,
{
    Regex::new(src).ok()
}

/// Relies on `regex::Regex::is_match`: whether the regex matches somewhere in `hay`.
#[verifier::external_body]
fn regex_is_match(re: &Regex, hay: &str) -> (b: bool)
    ensures
        b == regex_has_match(regex_text(*re), hay@),
{
    re.is_match(hay)
}

/// The characters that the regex syntax treats as special.
pub open spec fn is_meta_char(c: char) -> bool {
    c == '\\' || c == '.' || c == '+' || c == '*' || c == '?' || c == '(' || c == ')' || c
        == '|' || c == '[' || c == ']' || c == '{' || c == '}' || c == '^' || c == '$' || c
        == '#' || c == '&' || c == '-' || c == '~'
}

/// One character as a regex literal.
pub open spec fn escaped_char(c: char) -> Seq<char> {
    if is_meta_char(c) {
        seq!['\\', c]
    } else {
        seq![c]
    }
}

/// A text as a regex literal: a backslash before every special character.
pub open spec fn escaped(s: Seq<char>) -> Seq<char>
    decreases s.len(),
{
    if s.len() == 0 {
        Seq::empty()
    } else {
        escaped(s.drop_last()) + escaped_char(s.last())
    }
}

/// Relies on `regex::escape`: a backslash goes before every special character.
#[verifier::external_body]
fn escape_text(s: &str) -> (r: String)
    ensures
        r@ == escaped(s@),
{
    regex::escape(s)
}

/// The regex fragment for a `*` inside a segment: any run of characters without `/`.
pub open spec fn one_segment_wild() -> Seq<char> {
    seq!['(', '[', '^', '/', ']', '*', ')']
}

/// Number of consecutive `*` starting at `i`.
pub open spec fn star_run(p: Seq<char>, i: int) -> nat
    decreases p.len() - i,
{
    if 0 <= i < p.len() && p[i] == '*' {
        1 + star_run(p, i + 1)
    } else {
        0
    }
}

/// `cur` as a token, unless it is empty.
pub open spec fn flush(cur: Seq<char>) -> Seq<Seq<char>> {
    if cur.len() > 0 {
        seq![cur]
    } else {
        Seq::empty()
    }
}

/// The tokens of a pattern from position `i` on, `cur` being the token read so far.
/// A run of two or more `*` is a token of its own; `/` only separates tokens; empty tokens
/// are dropped.
pub open spec fn lex_from(p: Seq<char>, i: int, cur: Seq<char>) -> Seq<Seq<char>>
    decreases p.len() - i,
{
    if i < 0 || i >= p.len() {
        flush(cur)
    } else if p[i] == '/' {
        flush(cur) + lex_from(p, i + 1, Seq::empty())
    } else if p[i] == '*' && i + 1 < p.len() && p[i + 1] == '*' {
        // the run never reaches past the end; `min` only makes that plain
        let e = vstd::math::min(i + 1 + star_run(p, i + 1), p.len() as int);
        flush(cur) + seq![p.subrange(i, e)] + lex_from(p, e, Seq::empty())
    } else {
        lex_from(p, i + 1, cur.push(p[i]))
    }
}

/// The tokens of a pattern.
pub open spec fn lex(p: Seq<char>) -> Seq<Seq<char>> {
    lex_from(p, 0, Seq::empty())
}

proof fn lemma_star_run_bound(p: Seq<char>, i: int)
    requires
        0 <= i <= p.len(),
    ensures
        i + star_run(p, i) <= p.len(),
        forall|k: int| i <= k < i + star_run(p, i) ==> p[k] == '*',
    decreases p.len() - i,
{
    if i < p.len() && p[i] == '*' {
        lemma_star_run_bound(p, i + 1);
    }
}

/// Splits a pattern into its tokens.
fn tokenize(p: &Vec<char>) -> (r: Vec<Vec<char>>)
    ensures
        seqs(r@) == lex(p@),
{
    let n = p.len();
    let mut out: Vec<Vec<char>> = Vec::new();
    let mut cur: Vec<char> = Vec::new();
    let mut i: usize = 0;
    while i < n
        invariant
            n == p@.len(),
            i <= n,
            seqs(out@) + lex_from(p@, i as int, cur@) == lex(p@),
        decreases n - i,
    {
        let ghost before = lex_from(p@, i as int, cur@);
        if p[i] == '/' {
            if cur.len() > 0 {
                out.push(cur);
            }
            cur = Vec::new();
            i = i + 1;
            assert(seqs(out@) + lex_from(p@, i as int, cur@) =~= lex(p@));
        } else if p[i] == '*' && i + 1 < n && p[i + 1] == '*' {
            let mut j: usize = i;
            while j < n && p[j] == '*'
                invariant
                    n == p@.len(),
                    i <= j <= n,
                    star_run(p@, i as int) == (j - i) + star_run(p@, j as int),
                decreases n - j,
            {
                j = j + 1;
            }
            proof {
                lemma_star_run_bound(p@, i as int);
                lemma_star_run_bound(p@, i + 1);
            }
            if cur.len() > 0 {
                out.push(cur);
            }
            cur = Vec::new();
            let run = slice_of(p, i, j);
            out.push(run);
            i = j;
            assert(seqs(out@) + lex_from(p@, i as int, cur@) =~= lex(p@));
        } else {
            cur.push(p[i]);
            i = i + 1;
        }
    }
    if cur.len() > 0 {
        out.push(cur);
    }
    assert(seqs(out@) =~= lex(p@));
    out
}

/// The mathematical form of a [`RegexSegment`].
pub enum SegSpec {
    Single(Seq<char>),
    DoubleStar,
}

/// One compiled token of a pattern.
pub enum RegexSegment {
    /// The regex for one path segment.
    Single(Vec<char>),
    /// `**`: zero or more whole segments.
    DoubleStar,
}

impl View for RegexSegment {
    type V = SegSpec;

    open spec fn view(&self) -> SegSpec {
        match self {
            RegexSegment::Single(x) => SegSpec::Single(x@),
            RegexSegment::DoubleStar => SegSpec::DoubleStar,
        }
    }
}

/// The regex of one segment token: its text as a literal, each `*` standing for any run of
/// characters without `/`.
pub open spec fn fragment(t: Seq<char>) -> Seq<char>
    decreases t.len(),
{
    if t.len() == 0 {
        Seq::empty()
    } else {
        fragment(t.drop_last()) + if t.last() == '*' {
            one_segment_wild()
        } else {
            escaped_char(t.last())
        }
    }
}

pub open spec fn all_stars(t: Seq<char>) -> bool {
    forall|k: int| 0 <= k < t.len() ==> t[k] == '*'
}

/// The segments compiled from tokens; `None` for a run of three or more `*`.
/// `last_ds` tells whether the token before was `**`, which collapses a repeated `**`.
pub open spec fn segments_from(toks: Seq<Seq<char>>, last_ds: bool) -> Option<Seq<SegSpec>>
    decreases toks.len(),
{
    if toks.len() == 0 {
        Some(Seq::empty())
    } else {
        let t = toks[0];
        if t.len() > 1 && all_stars(t) {
            if t.len() == 2 {
                match segments_from(toks.drop_first(), true) {
                    Some(r) => Some(
                        if last_ds {
                            r
                        } else {
                            seq![SegSpec::DoubleStar] + r
                        },
                    ),
                    None => None,
                }
            } else {
                None
            }
        } else {
            match segments_from(toks.drop_first(), false) {
                Some(r) => Some(seq![SegSpec::Single(fragment(t))] + r),
                None => None,
            }
        }
    }
}

/// No two `**` segments stand side by side.
pub open spec fn no_adjacent_doublestar(s: Seq<SegSpec>) -> bool {
    forall|j: int| 0 <= j < s.len() - 1 ==> !(#[trigger] s[j] is DoubleStar && s[j + 1] is DoubleStar)
}

/// A run of `**` tokens compiles to a single `**` segment.
pub proof fn lemma_no_adjacent_doublestar(toks: Seq<Seq<char>>, last_ds: bool)
    ensures
        segments_from(toks, last_ds) matches Some(s) ==> no_adjacent_doublestar(s) && (last_ds
            && s.len() > 0 ==> s[0] is Single),
    decreases toks.len(),
{
    if toks.len() > 0 {
        lemma_no_adjacent_doublestar(toks.drop_first(), true);
        lemma_no_adjacent_doublestar(toks.drop_first(), false);
        if let Some(s) = segments_from(toks, last_ds) {
            let t = toks[0];
            if t.len() > 1 && all_stars(t) {
                let r = segments_from(toks.drop_first(), true)->Some_0;
                if !last_ds {
                    assert forall|j: int| 0 <= j < s.len() - 1 implies !(#[trigger] s[j] is DoubleStar
                        && s[j + 1] is DoubleStar) by {
                        if j > 0 {
                            assert(s[j] == r[j - 1]);
                        }
                    }
                }
            } else {
                let r = segments_from(toks.drop_first(), false)->Some_0;
                assert forall|j: int| 0 <= j < s.len() - 1 implies !(#[trigger] s[j] is DoubleStar && s[j
                    + 1] is DoubleStar) by {
                    if j > 0 {
                        assert(s[j] == r[j - 1]);
                    }
                }
            }
        }
    }
}

/// The regex text of one segment given its neighbours: a segment followed by a segment
/// ends with a `/`; a `**` takes care of the slashes on the sides where it has neighbours.
pub open spec fn regex_part(prev: Option<SegSpec>, cur: SegSpec, next: Option<SegSpec>) -> Seq<
    char,
> {
    match cur {
        SegSpec::Single(x) => match next {
            Some(SegSpec::Single(_)) => x + seq!['[', '/', ']'],
            _ => x,
        },
        SegSpec::DoubleStar => match (prev, next) {
            (None, None) => "((?:.*)?)"@,
            (Some(_), None) => "((?:[/].*)?)"@,
            (None, Some(_)) => "((?:.*[/])?)"@,
            (Some(_), Some(_)) => "((?:[/].*[/])|[/])"@,
        },
    }
}

pub open spec fn seg_at(s: Seq<SegSpec>, i: int) -> Option<SegSpec> {
    if 0 <= i < s.len() {
        Some(s[i])
    } else {
        None
    }
}

/// The regex texts of the first `n` segments, each beside its neighbours, in order.
pub open spec fn assemble(s: Seq<SegSpec>, n: int) -> Seq<char>
    decreases n,
{
    if n <= 0 {
        Seq::empty()
    } else {
        assemble(s, n - 1) + regex_part(seg_at(s, n - 2), s[n - 1], seg_at(s, n))
    }
}

/// The unanchored regex of a glob pattern; `None` when the pattern is invalid.
pub open spec fn regex_body(p: Seq<char>) -> Option<Seq<char>> {
    match segments_from(lex(p), false) {
        Some(s) => Some(assemble(s, s.len() as int)),
        None => None,
    }
}

/// The regex of a glob pattern, anchored at both ends.
pub open spec fn anchored(body: Seq<char>) -> Seq<char> {
    seq!['^'] + body + seq!['$']
}

pub open spec fn opt_view(o: Option<&RegexSegment>) -> Option<SegSpec> {
    match o {
        Some(x) => Some(x@),
        None => None,
    }
}

impl RegexSegment {
    /// The regex text of this segment, given its neighbours.
    pub fn to_regex_part(&self, prev: Option<&Self>, next: Option<&Self>) -> (r: Vec<char>)
        requires
            self is DoubleStar ==> !(opt_view(prev) matches Some(SegSpec::DoubleStar)),
            self is DoubleStar ==> !(opt_view(next) matches Some(SegSpec::DoubleStar)),
        ensures
            r@ == regex_part(opt_view(prev), self@, opt_view(next)),
    {
        match self {
            RegexSegment::Single(x) => {
                let mut out = x.clone();
                match next {
                    Some(RegexSegment::Single(_)) => {
                        out.push('[');
                        out.push('/');
                        out.push(']');
                    },
                    _ => {},
                }
                out
            },
            RegexSegment::DoubleStar => match (prev, next) {
                (None, None) => chars_of("((?:.*)?)"),
                (Some(_), None) => chars_of("((?:[/].*)?)"),
                (None, Some(_)) => chars_of("((?:.*[/])?)"),
                (Some(_), Some(_)) => chars_of("((?:[/].*[/])|[/])"),
            },
        }
    }
}

/// The regex of one segment token.
fn compile_fragment(t: &Vec<char>) -> (r: Vec<char>)
    ensures
        r@ == fragment(t@),
{
    let mut out: Vec<char> = Vec::new();
    let mut cur: Vec<char> = Vec::new();
    let mut i: usize = 0;
    while i < t.len()
        invariant
            i <= t@.len(),
            out@ + escaped(cur@) == fragment(t@.take(i as int)),
        decreases t@.len() - i,
    {
        assert(t@.take(i + 1).drop_last() =~= t@.take(i as int));
        if t[i] == '*' {
            let piece = string_of(&cur);
            let e = chars_of(escape_text(piece.as_str()).as_str());
            push_all(&mut out, &e);
            push_all(&mut out, &chars_of("([^/]*)"));
            cur = Vec::new();
            assert("([^/]*)"@ == one_segment_wild()) by {
                reveal_strlit("([^/]*)");
            }
            assert(out@ + escaped(cur@) =~= fragment(t@.take(i + 1)));
        } else {
            let ghost old_cur = cur@;
            cur.push(t[i]);
            assert(cur@.drop_last() =~= old_cur);
            assert(out@ + escaped(cur@) =~= fragment(t@.take(i + 1)));
        }
        i = i + 1;
    }
    assert(t@.take(t@.len() as int) =~= t@);
    let piece = string_of(&cur);
    let e = chars_of(escape_text(piece.as_str()).as_str());
    push_all(&mut out, &e);
    out
}

fn is_star_run(t: &Vec<char>) -> (r: bool)
    ensures
        r == (t@.len() > 1 && all_stars(t@)),
{
    if t.len() <= 1 {
        return false;
    }
    let mut i: usize = 0;
    while i < t.len()
        invariant
            i <= t@.len(),
            forall|k: int| 0 <= k < i ==> t@[k] == '*',
        decreases t@.len() - i,
    {
        if t[i] != '*' {
            return false;
        }
        i = i + 1;
    }
    true
}

pub open spec fn prepend(o: Seq<SegSpec>, r: Option<Seq<SegSpec>>) -> Option<Seq<SegSpec>> {
    match r {
        Some(s) => Some(o + s),
        None => None,
    }
}

/// Compiles tokens to segments; `None` for a run of three or more `*`.
fn compile_segments(toks: &Vec<Vec<char>>) -> (r: Option<Vec<RegexSegment>>)
    ensures
        match r {
            Some(v) => segments_from(seqs(toks@), false) == Some(v@.map_values(|x: RegexSegment| x@)),
            None => segments_from(seqs(toks@), false) is None,
        },
{
    let mut out: Vec<RegexSegment> = Vec::new();
    let mut last_ds = false;
    let mut i: usize = 0;
    assert(seqs(toks@).skip(0) =~= seqs(toks@));
    proof {
        if let Some(s) = segments_from(seqs(toks@), false) {
            assert(out@.map_values(|x: RegexSegment| x@) + s =~= s);
        }
    }
    while i < toks.len()
        invariant
            i <= toks@.len(),
            segments_from(seqs(toks@), false) == prepend(
                out@.map_values(|x: RegexSegment| x@),
                segments_from(seqs(toks@).skip(i as int), last_ds),
            ),
        decreases toks@.len() - i,
    {
        let ghost rest = seqs(toks@).skip(i as int);
        assert(rest.drop_first() =~= seqs(toks@).skip(i + 1));
        assert(rest[0] == toks@[i as int]@);
        let t = &toks[i];
        if is_star_run(t) {
            if t.len() == 2 {
                if !last_ds {
                    out.push(RegexSegment::DoubleStar);
                }
                last_ds = true;
            } else {
                return None;
            }
        } else {
            last_ds = false;
            let f = compile_fragment(t);
            out.push(RegexSegment::Single(f));
        }
        i = i + 1;
        proof {
            match segments_from(seqs(toks@).skip(i as int), last_ds) {
                Some(s) => {
                    assert(segments_from(seqs(toks@), false) =~= prepend(
                        out@.map_values(|x: RegexSegment| x@),
                        segments_from(seqs(toks@).skip(i as int), last_ds),
                    ));
                },
                None => {},
            }
        }
    }
    assert(seqs(toks@).skip(toks@.len() as int) =~= Seq::empty());
    assert(out@.map_values(|x: RegexSegment| x@) + Seq::empty() =~= out@.map_values(|x: RegexSegment| x@));
    Some(out)
}

/// The regex texts of the segments, each beside its neighbours.
fn assemble_parts(segs: &Vec<RegexSegment>) -> (r: Vec<char>)
    requires
        no_adjacent_doublestar(segs@.map_values(|x: RegexSegment| x@)),
    ensures
        r@ == assemble(segs@.map_values(|x: RegexSegment| x@), segs@.len() as int),
{
    let ghost sv = segs@.map_values(|x: RegexSegment| x@);
    let mut out: Vec<char> = Vec::new();
    let mut i: usize = 0;
    while i < segs.len()
        invariant
            i <= segs@.len(),
            sv == segs@.map_values(|x: RegexSegment| x@),
            no_adjacent_doublestar(sv),
            out@ == assemble(sv, i as int),
        decreases segs@.len() - i,
    {
        let prev = if i > 0 {
            Some(&segs[i - 1])
        } else {
            None
        };
        let next = if i + 1 < segs.len() {
            Some(&segs[i + 1])
        } else {
            None
        };
        assert(opt_view(prev) == seg_at(sv, i - 1));
        assert(opt_view(next) == seg_at(sv, i + 1));
        proof {
            if i > 0 {
                assert(!(sv[i - 1] is DoubleStar && sv[i - 1 + 1] is DoubleStar));
            }
            if i + 1 < segs.len() {
                assert(!(sv[i as int] is DoubleStar && sv[i + 1] is DoubleStar));
            }
        }
        let part = segs[i].to_regex_part(prev, next);
        push_all(&mut out, &part);
        i = i + 1;
    }
    out
}

/// The unanchored regex of a glob pattern; `None` for an invalid pattern.
fn regex_str(pattern: &str) -> (r: Option<Vec<char>>)
    ensures
        match r {
            Some(x) => regex_body(pattern@) == Some(x@),
            None => regex_body(pattern@) is None,
        },
{
    let p = chars_of(pattern);
    let toks = tokenize(&p);
    match compile_segments(&toks) {
        Some(segs) => {
            proof {
                lemma_no_adjacent_doublestar(seqs(toks@), false);
            }
            Some(assemble_parts(&segs))
        },
        None => None,
    }
}

/// A glob pattern compiles when it is valid (no run of three or more `*`) and the regex
/// engine accepts its anchored regex.
pub open spec fn compiles(p: Seq<char>) -> bool {
    regex_body(p) matches Some(b) && regex_accepts(anchored(b))
}

/// A compiled glob pattern.
pub struct Rule {
    regex: Regex,
    pattern: String,
}

impl Rule {
    /// The pattern text the rule was compiled from.
    pub closed spec fn pattern_view(&self) -> Seq<char> {
        self.pattern@
    }

    /// The text of the compiled regex.
    pub closed spec fn regex_view(&self) -> Seq<char> {
        regex_text(self.regex)
    }

    /// The compiled regex is the anchored regex of the pattern.
    #[verifier::type_invariant]
    spec fn compiled_from_pattern(&self) -> bool {
        regex_body(self.pattern@) matches Some(b) && regex_text(self.regex) == anchored(b)
    }

    /// Whether the rule accepts `s`: its anchored regex matches it.
    pub open spec fn accepts(&self, s: Seq<char>) -> bool {
        regex_has_match(self.regex_view(), s)
    }

    /// Compiles a glob pattern. `None` when the pattern is invalid (a run of three or more
    /// `*`) or the regex engine refuses its regex.
    pub fn new(pattern: &str) -> (r: Option<Rule>)
        ensures
            r is Some <==> compiles(pattern@),
            r matches Some(rule) ==> rule.pattern_view() == pattern@ && (regex_body(pattern@)
                matches Some(b) && rule.regex_view() == anchored(b)),
    {
        let body = regex_str(pattern)?;
        let mut full: Vec<char> = Vec::new();
        full.push('^');
        push_all(&mut full, &body);
        full.push('$');
        assert(full@ =~= anchored(body@));
        let text = string_of(&full);
        let regex = compile_regex(text.as_str())?;
        let pattern = string_of(&chars_of(pattern));
        Some(Rule { regex, pattern })
    }

    pub fn pattern(&self) -> (r: &str)
        ensures
            r@ == self.pattern_view(),
    {
        self.pattern.as_str()
    }

    pub fn regex(&self) -> (r: &Regex)
        ensures
            regex_text(*r) == self.regex_view(),
    {
        &self.regex
    }

    /// Whether the compiled regex matches `s` as a whole.
    pub fn is_match(&self, s: &str) -> (r: bool)
        ensures
            r == self.accepts(s@),
    {
        regex_is_match(&self.regex, s)
    }

    /// The unanchored regex text of the pattern.
    pub fn raw_regex_str(&self) -> (r: String)
        ensures
            regex_body(self.pattern_view()) == Some(r@),
    {
        proof {
            use_type_invariant(self);
        }
        match regex_str(self.pattern.as_str()) {
            Some(b) => string_of(&b),
            None => String::new(),
        }
    }
}

/// Whether the pattern starts or ends with `/`, which compilation ignores.
pub fn has_edge_slash(pattern: &str) -> (r: bool)
    ensures
        r == (pattern@.len() > 0 && (pattern@[0] == '/' || pattern@.last() == '/')),
{
    let p = chars_of(pattern);
    p.len() > 0 && (p[0] == '/' || p[p.len() - 1] == '/')
}

} // verus!
