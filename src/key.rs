use vstd::prelude::*;
use crate::text::{seqs, slice_of, chars_of, string_of, join_slash, join_with_slash};
use crate::segment::{PathSegment, SegmentView, segment_of, segment_skeleton, split_slash, split_on_slash};

verus! {

/// `s` without the `c` characters at its start.
pub open spec fn drop_leading(s: Seq<char>, c: char) -> Seq<char>
    decreases s.len(),
{
    if s.len() > 0 && s[0] == c {
        drop_leading(s.drop_first(), c)
    } else {
        s
    }
}

/// `s` without the `c` characters at its end.
pub open spec fn drop_trailing(s: Seq<char>, c: char) -> Seq<char>
    decreases s.len(),
{
    if s.len() > 0 && s.last() == c {
        drop_trailing(s.drop_last(), c)
    } else {
        s
    }
}

/// `s` without the `**` pairs at its end.
pub open spec fn drop_trailing_doublestars(s: Seq<char>) -> Seq<char>
    decreases s.len(),
{
    if s.len() >= 2 && s[s.len() - 1] == '*' && s[s.len() - 2] == '*' {
        drop_trailing_doublestars(s.take(s.len() - 2))
    } else {
        s
    }
}

/// Whether `t` holds `**`.
pub open spec fn has_doublestar(t: Seq<char>) -> bool {
    exists|i: int| 0 <= i < t.len() - 1 && #[trigger] t[i] == '*' && t[i + 1] == '*'
}

/// A query segment that matches exactly the segments with its skeleton: a constant without
/// `*`, or a partition whose key has no `*` and whose value has no `**`. A `*` anywhere else
/// lets the segment match text that differs from it, and a `**` spans segments.
pub open spec fn is_fixed(seg: SegmentView) -> bool {
    match seg {
        SegmentView::Constant(c) => !c.contains('*'),
        SegmentView::Value(k, v) => !k.contains('*') && !has_doublestar(v),
    }
}

/// The skeleton forms of the query tokens that parse as segments, up to the first segment
/// that is not fixed.
pub open spec fn key_tokens(toks: Seq<Seq<char>>) -> Seq<Seq<char>>
    decreases toks.len(),
{
    if toks.len() == 0 {
        Seq::empty()
    } else {
        match segment_of(toks[0]) {
            None => key_tokens(toks.drop_first()),
            Some(seg) => if is_fixed(seg) {
                seq![segment_skeleton(seg)] + key_tokens(toks.drop_first())
            } else {
                Seq::empty()
            },
        }
    }
}

/// The query text that keys are taken from: trimmed of trailing `**`, then of `/` at both
/// ends. White space is kept, as the regex keeps it.
pub open spec fn key_source(q: Seq<char>) -> Seq<char> {
    drop_trailing(
        drop_leading(drop_trailing_doublestars(q), '/'),
        '/',
    )
}

/// The lookup key of a query: the skeleton forms of its segments up to the first one that
/// is not fixed, joined by `/`. The index visits only skeletons that start with it.
pub open spec fn lookup_key(q: Seq<char>) -> Seq<char> {
    join_slash(key_tokens(split_slash(key_source(q))))
}

fn strip_leading(s: &Vec<char>, c: char) -> (r: Vec<char>)
    ensures
        r@ == drop_leading(s@, c),
{
    let mut i: usize = 0;
    assert(s@.skip(0) =~= s@);
    while i < s.len() && s[i] == c
        invariant
            i <= s@.len(),
            drop_leading(s@, c) == drop_leading(s@.skip(i as int), c),
        decreases s@.len() - i,
    {
        assert(s@.skip(i as int).drop_first() =~= s@.skip(i + 1));
        i = i + 1;
    }
    slice_of(s, i, s.len())
}

fn strip_trailing(s: &Vec<char>, c: char) -> (r: Vec<char>)
    ensures
        r@ == drop_trailing(s@, c),
{
    let mut n: usize = s.len();
    assert(s@.take(n as int) =~= s@);
    while n > 0 && s[n - 1] == c
        invariant
            n <= s@.len(),
            drop_trailing(s@, c) == drop_trailing(s@.take(n as int), c),
        decreases n,
    {
        assert(s@.take(n as int).drop_last() =~= s@.take(n - 1));
        n = n - 1;
    }
    assert(s@.subrange(0, n as int) =~= s@.take(n as int));
    slice_of(s, 0, n)
}

fn strip_trailing_doublestars(s: &Vec<char>) -> (r: Vec<char>)
    ensures
        r@ == drop_trailing_doublestars(s@),
{
    let mut n: usize = s.len();
    assert(s@.take(n as int) =~= s@);
    while n >= 2 && s[n - 1] == '*' && s[n - 2] == '*'
        invariant
            n <= s@.len(),
            drop_trailing_doublestars(s@) == drop_trailing_doublestars(s@.take(n as int)),
        decreases n,
    {
        assert(s@.take(n as int).take(n - 2) =~= s@.take(n - 2));
        n = n - 2;
    }
    assert(s@.subrange(0, n as int) =~= s@.take(n as int));
    slice_of(s, 0, n)
}

fn has_star(t: &Vec<char>) -> (r: bool)
    ensures
        r == t@.contains('*'),
{
    let mut i: usize = 0;
    while i < t.len()
        invariant
            i <= t@.len(),
            forall|k: int| 0 <= k < i ==> t@[k] != '*',
        decreases t@.len() - i,
    {
        if t[i] == '*' {
            return true;
        }
        i = i + 1;
    }
    false
}

fn has_star_pair(t: &Vec<char>) -> (r: bool)
    ensures
        r == has_doublestar(t@),
{
    let mut i: usize = 0;
    while i < t.len() && i + 1 < t.len()
        invariant
            i <= t@.len(),
            forall|k: int| 0 <= k < i && k < t@.len() - 1 ==> !(#[trigger] t@[k] == '*' && t@[k + 1] == '*'),
        decreases t@.len() - i,
    {
        if t[i] == '*' && t[i + 1] == '*' {
            return true;
        }
        i = i + 1;
    }
    false
}

fn key_token_vec(pieces: &Vec<Vec<char>>) -> (r: Vec<Vec<char>>)
    ensures
        seqs(r@) == key_tokens(seqs(pieces@)),
{
    let mut out: Vec<Vec<char>> = Vec::new();
    let mut i: usize = 0;
    assert(seqs(pieces@).skip(0) =~= seqs(pieces@));
    while i < pieces.len()
        invariant
            i <= pieces@.len(),
            seqs(out@) + key_tokens(seqs(pieces@).skip(i as int)) == key_tokens(seqs(pieces@)),
        decreases pieces@.len() - i,
    {
        let ghost rest = seqs(pieces@).skip(i as int);
        assert(rest.drop_first() =~= seqs(pieces@).skip(i + 1));
        assert(rest[0] == pieces@[i as int]@);
        match PathSegment::parse(&pieces[i]) {
            Ok(seg) => {
                let fixed = match &seg {
                    PathSegment::Constant(c) => !has_star(&chars_of(c.as_str())),
                    PathSegment::Value { key, value } => !has_star(&chars_of(key.as_str()))
                        && !has_star_pair(&chars_of(value.as_str())),
                };
                if !fixed {
                    assert(seqs(out@) + Seq::empty() =~= seqs(out@));
                    return out;
                }
                let t = seg.skeleton_chars();
                let ghost prev = seqs(out@);
                out.push(t);
                assert(seqs(out@) =~= prev + seq![t@]);
                assert(seqs(out@) + key_tokens(seqs(pieces@).skip(i + 1)) =~= prev + key_tokens(rest));
            },
            Err(_) => {},
        }
        i = i + 1;
    }
    assert(seqs(pieces@).skip(pieces@.len() as int) =~= Seq::empty());
    assert(seqs(out@) + Seq::empty() =~= seqs(out@));
    out
}

/// The lookup key of a query.
pub fn query_to_key(query: &str) -> (r: String)
    ensures
        r@ == lookup_key(query@),
{
    let t = chars_of(query);
    let t = strip_trailing_doublestars(&t);
    let t = strip_leading(&t, '/');
    let t = strip_trailing(&t, '/');
    let pieces = split_on_slash(&t);
    let toks = key_token_vec(&pieces);
    let joined = join_with_slash(&toks);
    string_of(&joined)
}

} // verus!
