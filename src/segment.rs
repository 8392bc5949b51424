use vstd::prelude::*;
use crate::text::{join_slash, seqs};

verus! {

/// One token of a concrete path.
pub enum PathSegment {
    /// A literal segment, like `web`.
    Constant(String),
    /// A `key=value` partition, like `domain=example.com`.
    Value { key: String, value: String },
}

/// The mathematical form of a [`PathSegment`].
pub enum SegmentView {
    Constant(Seq<char>),
    Value(Seq<char>, Seq<char>),
}

impl View for PathSegment {
    type V = SegmentView;

    open spec fn view(&self) -> SegmentView {
        match self {
            PathSegment::Constant(c) => SegmentView::Constant(c@),
            PathSegment::Value { key, value } => SegmentView::Value(key@, value@),
        }
    }
}

/// Position of the first occurrence of `c` in `t`, or `t.len()` when there is none.
pub open spec fn first_index(t: Seq<char>, c: char) -> int
    decreases t.len(),
{
    if t.len() == 0 {
        0
    } else if t[0] == c {
        0
    } else {
        1 + first_index(t.drop_first(), c)
    }
}

/// A token can be a segment when it is non-empty and holds no newline.
pub open spec fn is_segment(t: Seq<char>) -> bool {
    t.len() > 0 && !t.contains('\n')
}

/// The segment that a token parses to: split at the first `=`, if any.
pub open spec fn segment_of(t: Seq<char>) -> Option<SegmentView> {
    if !is_segment(t) {
        None
    } else if first_index(t, '=') < t.len() {
        let k = first_index(t, '=');
        Some(SegmentView::Value(t.take(k), t.skip(k + 1)))
    } else {
        Some(SegmentView::Constant(t))
    }
}

pub proof fn lemma_first_index(t: Seq<char>, c: char, i: int)
    requires
        0 <= i <= t.len(),
        forall|j: int| 0 <= j < i ==> t[j] != c,
        i == t.len() || t[i] == c,
    ensures
        first_index(t, c) == i,
    decreases t.len(),
{
    if t.len() > 0 && t[0] != c {
        assert forall|j: int| 0 <= j < i - 1 implies t.drop_first()[j] != c by {
            assert(t[j + 1] != c);
        }
        lemma_first_index(t.drop_first(), c, i - 1);
    }
}

/// The skeleton form of a segment: a partition keeps its key and has `*` for its value.
pub open spec fn segment_skeleton(s: SegmentView) -> Seq<char> {
    match s {
        SegmentView::Constant(c) => c,
        SegmentView::Value(k, _) => k + seq!['=', '*'],
    }
}

/// The text of a segment: a constant as it is, a partition as `key=value`.
pub open spec fn segment_text(s: SegmentView) -> Seq<char> {
    match s {
        SegmentView::Constant(c) => c,
        SegmentView::Value(k, v) => k + seq!['='] + v,
    }
}

/// The pieces of `p` between `/` characters, empty pieces included.
pub open spec fn split_slash(p: Seq<char>) -> Seq<Seq<char>>
    decreases p.len(),
{
    if p.len() == 0 {
        seq![Seq::empty()]
    } else {
        let r = split_slash(p.drop_last());
        if p.last() == '/' {
            r.push(Seq::empty())
        } else {
            r.update(r.len() - 1, r.last().push(p.last()))
        }
    }
}

/// The skeleton forms of the tokens that parse as segments, in order.
pub open spec fn skeleton_tokens(toks: Seq<Seq<char>>) -> Seq<Seq<char>>
    decreases toks.len(),
{
    if toks.len() == 0 {
        Seq::empty()
    } else {
        let rest = skeleton_tokens(toks.drop_last());
        match segment_of(toks.last()) {
            Some(seg) => rest.push(segment_skeleton(seg)),
            None => rest,
        }
    }
}

/// The skeleton of a concrete path: its segments with every partition value replaced by
/// `*`, joined by `/`; tokens that are no segment are left out.
pub open spec fn skeleton(p: Seq<char>) -> Seq<char> {
    join_slash(skeleton_tokens(split_slash(p)))
}

/// Splits `p` at every `/`.
pub(crate) fn split_on_slash(p: &Vec<char>) -> (r: Vec<Vec<char>>)
    ensures
        seqs(r@) == split_slash(p@),
{
    let mut pieces: Vec<Vec<char>> = Vec::new();
    let mut cur: Vec<char> = Vec::new();
    let mut i: usize = 0;
    assert(p@.take(0) =~= Seq::<char>::empty());
    while i < p.len()
        invariant
            i <= p@.len(),
            seqs(pieces@).push(cur@) == split_slash(p@.take(i as int)),
        decreases p@.len() - i,
    {
        let ghost before = seqs(pieces@).push(cur@);
        assert(p@.take(i + 1).drop_last() =~= p@.take(i as int));
        if p[i] == '/' {
            pieces.push(cur);
            cur = Vec::new();
            assert(seqs(pieces@).push(cur@) =~= before.push(Seq::empty()));
        } else {
            cur.push(p[i]);
            assert(seqs(pieces@).push(cur@) =~= before.update(
                before.len() - 1,
                before.last().push(p@[i as int]),
            ));
        }
        i = i + 1;
    }
    assert(p@.take(p@.len() as int) =~= p@);
    pieces.push(cur);
    pieces
}

impl PathSegment {
    /// The text of the segment: `key=value` for a partition.
    pub fn render(&self) -> (r: String)
        ensures
            r@ == segment_text(self@),
    {
        let v = self.render_chars();
        crate::text::string_of(&v)
    }

    pub(crate) fn render_chars(&self) -> (r: Vec<char>)
        ensures
            r@ == segment_text(self@),
    {
        match self {
            PathSegment::Constant(c) => crate::text::chars_of(c.as_str()),
            PathSegment::Value { key, value } => {
                let mut out = crate::text::chars_of(key.as_str());
                out.push('=');
                let v = crate::text::chars_of(value.as_str());
                crate::text::push_all(&mut out, &v);
                out
            },
        }
    }

    /// The skeleton form of the segment as text.
    pub(crate) fn skeleton_chars(&self) -> (r: Vec<char>)
        ensures
            r@ == segment_skeleton(self@),
    {
        match self {
            PathSegment::Constant(c) => crate::text::chars_of(c.as_str()),
            PathSegment::Value { key, .. } => {
                let mut out = crate::text::chars_of(key.as_str());
                out.push('=');
                out.push('*');
                out
            },
        }
    }

    /// Parses one token of a path given as a string.
    pub fn from_text(s: &str) -> (r: Result<PathSegment, ()>)
        ensures
            match r {
                Ok(seg) => segment_of(s@) == Some(seg@),
                Err(_) => segment_of(s@) is None,
            },
    {
        let v = crate::text::chars_of(s);
        PathSegment::parse(&v)
    }

    /// Parses one token; fails on an empty token or one holding a newline.
    pub fn parse(s: &Vec<char>) -> (r: Result<PathSegment, ()>)
        ensures
            match r {
                Ok(seg) => segment_of(s@) == Some(seg@),
                Err(_) => segment_of(s@) is None,
            },
    {
        let n = s.len();
        if n == 0 {
            return Err(());
        }
        let mut i: usize = 0;
        let mut eq: usize = n;
        while i < n
            invariant
                n == s@.len(),
                i <= n,
                eq == n || eq < i,
                eq < n ==> s@[eq as int] == '=' && forall|j: int| 0 <= j < eq ==> s@[j] != '=',
                eq == n ==> forall|j: int| 0 <= j < i ==> s@[j] != '=',
                forall|j: int| 0 <= j < i ==> s@[j] != '\n',
            decreases n - i,
        {
            if s[i] == '\n' {
                assert(s@.contains('\n'));
                return Err(());
            }
            if s[i] == '=' && eq == n {
                eq = i;
            }
            i = i + 1;
        }
        assert(!s@.contains('\n'));
        proof {
            lemma_first_index(s@, '=', eq as int);
        }
        if eq < n {
            let key = crate::text::slice_of(s, 0, eq);
            let value = crate::text::slice_of(s, eq + 1, n);
            Ok(PathSegment::Value { key: crate::text::string_of(&key), value: crate::text::string_of(&value) })
        } else {
            let c = crate::text::string_of(s);
            Ok(PathSegment::Constant(c))
        }
    }
}

} // verus!

verus! {

/// The skeleton tokens of the pieces of `p`.
pub(crate) fn skeleton_token_vec(pieces: &Vec<Vec<char>>) -> (r: Vec<Vec<char>>)
    ensures
        seqs(r@) == skeleton_tokens(seqs(pieces@)),
{
    let mut out: Vec<Vec<char>> = Vec::new();
    let mut i: usize = 0;
    while i < pieces.len()
        invariant
            i <= pieces@.len(),
            seqs(out@) == skeleton_tokens(seqs(pieces@).take(i as int)),
        decreases pieces@.len() - i,
    {
        assert(seqs(pieces@).take(i + 1).drop_last() =~= seqs(pieces@).take(i as int));
        match PathSegment::parse(&pieces[i]) {
            Ok(seg) => {
                let t = seg.skeleton_chars();
                out.push(t);
                assert(seqs(out@) =~= skeleton_tokens(seqs(pieces@).take(i as int)).push(segment_skeleton(seg@)));
            },
            Err(_) => {},
        }
        i = i + 1;
    }
    assert(seqs(pieces@).take(pieces@.len() as int) =~= seqs(pieces@));
    out
}

/// The skeleton of a concrete path.
pub fn skeleton_of(path: &str) -> (r: String)
    ensures
        r@ == skeleton(path@),
{
    let p = crate::text::chars_of(path);
    let pieces = split_on_slash(&p);
    let toks = skeleton_token_vec(&pieces);
    let joined = crate::text::join_with_slash(&toks);
    crate::text::string_of(&joined)
}

} // verus!
