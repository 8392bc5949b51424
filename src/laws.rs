use vstd::prelude::*;
use crate::index::{index_of, is_listing, is_query_outcome, collect, matching, text_lt};
use crate::rule::regex_has_match;
use crate::segment::skeleton;

verus! {

proof fn lemma_text_lt_irreflexive(a: Seq<char>)
    ensures
        !text_lt(a, a),
    decreases a.len(),
{
    if a.len() > 0 {
        lemma_text_lt_irreflexive(a.drop_first());
    }
}

proof fn lemma_text_lt_asymmetric(a: Seq<char>, b: Seq<char>)
    ensures
        !(text_lt(a, b) && text_lt(b, a)),
    decreases a.len(),
{
    if a.len() > 0 && b.len() > 0 && a[0] == b[0] {
        lemma_text_lt_asymmetric(a.drop_first(), b.drop_first());
    }
}

/// Two strictly increasing lists of the same texts are the same list.
proof fn lemma_sorted_unique(l1: Seq<Seq<char>>, l2: Seq<Seq<char>>)
    requires
        forall|x: Seq<char>| l1.contains(x) <==> l2.contains(x),
        forall|i: int, j: int| 0 <= i < j < l1.len() ==> text_lt(l1[i], l1[j]),
        forall|i: int, j: int| 0 <= i < j < l2.len() ==> text_lt(l2[i], l2[j]),
    ensures
        l1 == l2,
    decreases l1.len() + l2.len(),
{
    if l1.len() == 0 {
        if l2.len() > 0 {
            assert(l2.contains(l2[0]));
        }
        assert(l1 =~= l2);
    } else if l2.len() == 0 {
        assert(l1.contains(l1[0]));
    } else {
        assert(l1.contains(l1[0]));
        assert(l2.contains(l2[0]));
        if l1[0] != l2[0] {
            let j = choose|j: int| 0 <= j < l2.len() && l2[j] == l1[0];
            let i = choose|i: int| 0 <= i < l1.len() && l1[i] == l2[0];
            lemma_text_lt_asymmetric(l1[0], l2[0]);
        }
        let t1 = l1.drop_first();
        let t2 = l2.drop_first();
        assert forall|x: Seq<char>| t1.contains(x) implies t2.contains(x) by {
            let i = choose|i: int| 0 <= i < t1.len() && t1[i] == x;
            assert(l1[i + 1] == x);
            assert(l2.contains(x));
            let j = choose|j: int| 0 <= j < l2.len() && l2[j] == x;
            if j == 0 {
                lemma_text_lt_irreflexive(x);
            }
            assert(t2[j - 1] == x);
        }
        assert forall|x: Seq<char>| t2.contains(x) implies t1.contains(x) by {
            let j = choose|j: int| 0 <= j < t2.len() && t2[j] == x;
            assert(l2[j + 1] == x);
            assert(l1.contains(x));
            let i = choose|i: int| 0 <= i < l1.len() && l1[i] == x;
            if i == 0 {
                lemma_text_lt_irreflexive(x);
            }
            assert(t1[i - 1] == x);
        }
        assert forall|i: int, j: int| 0 <= i < j < t1.len() implies text_lt(t1[i], t1[j]) by {
            assert(t1[i] == l1[i + 1] && t1[j] == l1[j + 1]);
        }
        assert forall|i: int, j: int| 0 <= i < j < t2.len() implies text_lt(t2[i], t2[j]) by {
            assert(t2[i] == l2[i + 1] && t2[j] == l2[j + 1]);
        }
        lemma_sorted_unique(t1, t2);
        assert(l1 =~= seq![l1[0]] + t1);
        assert(l2 =~= seq![l2[0]] + t2);
    }
}

/// The paths that `matching` keeps are exactly those of `ps` that the regex matches.
proof fn lemma_matching_members(ps: Seq<Seq<char>>, re: Seq<char>)
    ensures
        forall|p: Seq<char>| #[trigger] matching(ps, re).contains(p) <==> ps.contains(p) && regex_has_match(re, p),
    decreases ps.len(),
{
    if ps.len() > 0 {
        let init = ps.drop_last();
        lemma_matching_members(init, re);
        let mi = matching(init, re);
        let last = ps.last();
        assert(ps =~= init.push(last));
        if regex_has_match(re, last) {
            assert(matching(ps, re) == mi.push(last));
        } else {
            assert(matching(ps, re) == mi);
        }
        assert forall|p: Seq<char>| #[trigger] matching(ps, re).contains(p) <==> ps.contains(p)
            && regex_has_match(re, p) by {
            if ps.contains(p) && regex_has_match(re, p) {
                let k = choose|k: int| 0 <= k < ps.len() && ps[k] == p;
                if k < ps.len() - 1 {
                    assert(init[k] == p);
                    assert(init.contains(p));
                    assert(mi.contains(p));
                    let i = choose|i: int| 0 <= i < mi.len() && mi[i] == p;
                    assert(matching(ps, re)[i] == p);
                } else {
                    assert(matching(ps, re).last() == p);
                }
            }
            if matching(ps, re).contains(p) {
                let k = choose|k: int| 0 <= k < matching(ps, re).len() && matching(ps, re)[k] == p;
                if k < mi.len() {
                    assert(mi[k] == p);
                    assert(mi.contains(p));
                    assert(init.contains(p));
                    let i = choose|i: int| 0 <= i < init.len() && init[i] == p;
                    assert(ps[i] == p);
                } else {
                    assert(ps.last() == p);
                }
            }
        }
    }
}

/// A path is collected exactly when the regex matches it and it is in the list of one of
/// the visited keys.
proof fn lemma_collect_members(m: Map<Seq<char>, Seq<Seq<char>>>, l: Seq<Seq<char>>, re: Seq<char>)
    ensures
        forall|p: Seq<char>| #[trigger] collect(m, l, re).contains(p) <==> exists|j: int|
            0 <= j < l.len() && #[trigger] matching(m[l[j]], re).contains(p),
    decreases l.len(),
{
    if l.len() > 0 {
        let init = l.drop_last();
        lemma_collect_members(m, init, re);
        assert forall|p: Seq<char>| #[trigger] collect(m, l, re).contains(p) <==> exists|j: int|
            0 <= j < l.len() && #[trigger] matching(m[l[j]], re).contains(p) by {
            let a = collect(m, init, re);
            let b = matching(m[l.last()], re);
            assert(collect(m, l, re) == a + b);
            if collect(m, l, re).contains(p) {
                let k = choose|k: int| 0 <= k < (a + b).len() && (a + b)[k] == p;
                if k < a.len() {
                    assert(a.contains(p));
                    let j = choose|j: int| 0 <= j < init.len() && #[trigger] matching(m[init[j]], re).contains(p);
                    assert(l[j] == init[j]);
                } else {
                    assert(b[k - a.len()] == p);
                    assert(b.contains(p));
                    assert(l[l.len() - 1] == l.last());
                }
            }
            if exists|j: int| 0 <= j < l.len() && #[trigger] matching(m[l[j]], re).contains(p) {
                let j = choose|j: int| 0 <= j < l.len() && #[trigger] matching(m[l[j]], re).contains(p);
                if j < l.len() - 1 {
                    assert(init[j] == l[j]);
                    assert(a.contains(p));
                    let k = choose|k: int| 0 <= k < a.len() && a[k] == p;
                    assert((a + b)[k] == p);
                } else {
                    let k = choose|k: int| 0 <= k < b.len() && b[k] == p;
                    assert((a + b)[a.len() + k] == p);
                }
            }
        }
    }
}

/// Every path of an index stands in the list of its own skeleton, and every list holds
/// only paths that were indexed, with that list's skeleton.
pub proof fn law_index_lists(ps: Seq<Seq<char>>)
    ensures
        forall|i: int| 0 <= i < ps.len() ==> #[trigger] index_of(ps).contains_key(skeleton(ps[i]))
            && index_of(ps)[skeleton(ps[i])].contains(ps[i]),
        forall|k: Seq<char>, p: Seq<char>| #[trigger] index_of(ps).contains_key(k) && #[trigger] index_of(ps)[k].contains(p)
            ==> ps.contains(p) && skeleton(p) == k,
    decreases ps.len(),
{
    if ps.len() > 0 {
        let init = ps.drop_last();
        let m0 = index_of(init);
        let m = index_of(ps);
        let q = ps.last();
        let k0 = skeleton(q);
        law_index_lists(init);
        assert forall|i: int| 0 <= i < ps.len() implies #[trigger] m.contains_key(skeleton(ps[i]))
            && m[skeleton(ps[i])].contains(ps[i]) by {
            if i < ps.len() - 1 {
                assert(init[i] == ps[i]);
                assert(m0.contains_key(skeleton(init[i])));
                if skeleton(ps[i]) == k0 {
                    let j = choose|j: int| 0 <= j < m0[k0].len() && m0[k0][j] == ps[i];
                    assert(m[k0][j] == ps[i]);
                }
            } else {
                if m0.contains_key(k0) {
                    assert(m[k0].last() == q);
                } else {
                    assert(m[k0][0] == q);
                }
            }
        }
        assert forall|k: Seq<char>, p: Seq<char>| #[trigger] m.contains_key(k) && #[trigger] m[k].contains(p)
            implies ps.contains(p) && skeleton(p) == k by {
            if k == k0 && p == q {
                assert(ps[ps.len() - 1] == q);
            } else if k == k0 {
                let j = choose|j: int| 0 <= j < m[k].len() && m[k][j] == p;
                if m0.contains_key(k0) {
                    assert(j < m0[k0].len());
                    assert(m0[k0][j] == p);
                    assert(m0[k0].contains(p));
                    let i = choose|i: int| 0 <= i < init.len() && init[i] == p;
                    assert(ps[i] == p);
                }
            } else {
                assert(m0[k].contains(p));
                let i = choose|i: int| 0 <= i < init.len() && init[i] == p;
                assert(ps[i] == p);
            }
        }
    }
}

/// What a query yields is fixed by the index, the lookup key and the regex: asking twice
/// gives the same paths in the same order.
pub proof fn law_query_deterministic(
    m: Map<Seq<char>, Seq<Seq<char>>>,
    key: Seq<char>,
    re: Seq<char>,
    r1: Seq<Seq<char>>,
    r2: Seq<Seq<char>>,
)
    requires
        is_query_outcome(m, key, re, r1),
        is_query_outcome(m, key, re, r2),
    ensures
        r1 == r2,
{
    let l1 = choose|l: Seq<Seq<char>>| is_listing(m, key, l) && r1 == collect(m, l, re);
    let l2 = choose|l: Seq<Seq<char>>| is_listing(m, key, l) && r2 == collect(m, l, re);
    assert forall|x: Seq<char>| l1.contains(x) <==> l2.contains(x) by {
        if l1.contains(x) {
            let i = choose|i: int| 0 <= i < l1.len() && l1[i] == x;
            assert(m.contains_key(l1[i]) && key.is_prefix_of(l1[i]));
        }
        if l2.contains(x) {
            let i = choose|i: int| 0 <= i < l2.len() && l2[i] == x;
            assert(m.contains_key(l2[i]) && key.is_prefix_of(l2[i]));
        }
    }
    lemma_sorted_unique(l1, l2);
}

/// Every path a query yields is matched by its regex and stands in the list of a skeleton
/// that starts with the lookup key.
pub proof fn law_query_results_match(
    m: Map<Seq<char>, Seq<Seq<char>>>,
    key: Seq<char>,
    re: Seq<char>,
    r: Seq<Seq<char>>,
    p: Seq<char>,
)
    requires
        is_query_outcome(m, key, re, r),
        r.contains(p),
    ensures
        regex_has_match(re, p),
        exists|k: Seq<char>| #[trigger] m.contains_key(k) && key.is_prefix_of(k) && m[k].contains(p),
{
    let l = choose|l: Seq<Seq<char>>| is_listing(m, key, l) && r == collect(m, l, re);
    lemma_collect_members(m, l, re);
    let j = choose|j: int| 0 <= j < l.len() && #[trigger] matching(m[l[j]], re).contains(p);
    lemma_matching_members(m[l[j]], re);
    assert(m.contains_key(l[j]) && key.is_prefix_of(l[j]));
}

/// An indexed path that the regex matches is yielded by every query whose lookup key
/// starts its skeleton.
pub proof fn law_query_finds_match(
    ps: Seq<Seq<char>>,
    i: int,
    key: Seq<char>,
    re: Seq<char>,
    r: Seq<Seq<char>>,
)
    requires
        0 <= i < ps.len(),
        is_query_outcome(index_of(ps), key, re, r),
        key.is_prefix_of(skeleton(ps[i])),
        regex_has_match(re, ps[i]),
    ensures
        r.contains(ps[i]),
{
    let m = index_of(ps);
    let p = ps[i];
    let k = skeleton(p);
    law_index_lists(ps);
    let l = choose|l: Seq<Seq<char>>| is_listing(m, key, l) && r == collect(m, l, re);
    assert(m.contains_key(k));
    assert(l.contains(k));
    let j = choose|j: int| 0 <= j < l.len() && l[j] == k;
    lemma_matching_members(m[k], re);
    assert(matching(m[l[j]], re).contains(p));
    lemma_collect_members(m, l, re);
}

} // verus!
