use vstd::prelude::*;
use crate::key::{lookup_key, query_to_key};
use crate::rule::{Rule, regex_has_match};
use crate::segment::{skeleton, skeleton_of};
use trie_rs::map::{Trie, TrieBuilder};

verus! {

#[verifier::external_type_specification]
#[verifier::external_body]
#[verifier::reject_recursive_types(Label)]
#[verifier::reject_recursive_types(Value)]
pub struct ExTrie<Label, Value>(Trie<Label, Value>);

#[verifier::external_type_specification]
#[verifier::external_body]
#[verifier::reject_recursive_types(Label)]
#[verifier::reject_recursive_types(Value)]
pub struct ExTrieBuilder<Label, Value>(TrieBuilder<Label, Value>);

/// The entries of a trie: each key, as the text whose bytes it holds, with its paths.
pub uninterp spec fn trie_entries(t: Trie<u8, Vec<String>>) -> Map<Seq<char>, Seq<Seq<char>>>;

/// The entries pushed into a trie builder so far.
pub uninterp spec fn builder_entries(b: TrieBuilder<u8, Vec<String>>) -> Map<
    Seq<char>,
    Seq<Seq<char>>,
>;

/// The texts of a list of strings.
pub open spec fn strings(v: Seq<String>) -> Seq<Seq<char>> {
    v.map_values(|s: String| s@)
}

/// Strict lexicographic order on texts, by code point.
pub open spec fn text_lt(a: Seq<char>, b: Seq<char>) -> bool
    decreases a.len(),
{
    if a.len() == 0 {
        b.len() > 0
    } else if b.len() == 0 {
        false
    } else if a[0] == b[0] {
        text_lt(a.drop_first(), b.drop_first())
    } else {
        (a[0] as u32) < (b[0] as u32)
    }
}

/// Relies on `TrieBuilder::new`: a builder without entries.
#[verifier::external_body]
fn trie_builder_new() -> (r: TrieBuilder<u8, Vec<String>>)
    ensures
        builder_entries(r) =~= Map::empty(),
{
    TrieBuilder::new()
}

/// Relies on `TrieBuilder::push`: the entry for the key's bytes gets the value, replacing
/// any earlier one. It panics on an empty key.
#[verifier::external_body]
fn trie_builder_push(b: &mut TrieBuilder<u8, Vec<String>>, key: &str, value: Vec<String>)
    requires
        key@.len() > 0,
    ensures
        builder_entries(*final(b)) == builder_entries(*old(b)).insert(key@, strings(value@)),
{
    b.push(key, value)
}

/// Relies on `TrieBuilder::build`: the trie holds the builder's entries.
#[verifier::external_body]
fn trie_build(b: TrieBuilder<u8, Vec<String>>) -> (t: Trie<u8, Vec<String>>)
    ensures
        trie_entries(t) == builder_entries(b),
{
    b.build()
}

/// Relies on `Trie::predictive_search`: each entry whose key starts with `key`, once, in
/// increasing order of keys (a depth-first walk over children sorted by byte).
#[verifier::external_body]
fn trie_search<'a>(t: &'a Trie<u8, Vec<String>>, key: &str) -> (r: Vec<(String, &'a Vec<String>)>)
    ensures
        forall|i: int|
            0 <= i < r@.len() ==> {
                &&& key@.is_prefix_of(#[trigger] r@[i].0@)
                &&& trie_entries(*t).contains_key(r@[i].0@)
                &&& trie_entries(*t)[r@[i].0@] == strings(r@[i].1@)
            },
        forall|k: Seq<char>|
            #[trigger] trie_entries(*t).contains_key(k) && key@.is_prefix_of(k) ==> exists|i: int|
                0 <= i < r@.len() && r@[i].0@ == k,
        forall|i: int, j: int| 0 <= i < j < r@.len() ==> text_lt(r@[i].0@, r@[j].0@),
{
    t.predictive_search::<String, _>(key).collect()
}

/// The index built from `ps` in order: each path appended to the list of its skeleton.
pub open spec fn index_of(ps: Seq<Seq<char>>) -> Map<Seq<char>, Seq<Seq<char>>>
    decreases ps.len(),
{
    if ps.len() == 0 {
        Map::empty()
    } else {
        let m = index_of(ps.drop_last());
        let p = ps.last();
        let k = skeleton(p);
        m.insert(
            k,
            if m.contains_key(k) {
                m[k].push(p)
            } else {
                seq![p]
            },
        )
    }
}

/// `l` lists, in strictly increasing order, exactly the keys of `m` that start with `key`.
pub open spec fn is_listing(m: Map<Seq<char>, Seq<Seq<char>>>, key: Seq<char>, l: Seq<Seq<char>>) -> bool {
    &&& forall|i: int| 0 <= i < l.len() ==> m.contains_key(#[trigger] l[i]) && key.is_prefix_of(l[i])
    &&& forall|k: Seq<char>| #[trigger] m.contains_key(k) && key.is_prefix_of(k) ==> l.contains(k)
    &&& forall|i: int, j: int| 0 <= i < j < l.len() ==> text_lt(l[i], l[j])
}

/// The paths of `ps` that the regex `re` matches, in order.
pub open spec fn matching(ps: Seq<Seq<char>>, re: Seq<char>) -> Seq<Seq<char>>
    decreases ps.len(),
{
    if ps.len() == 0 {
        Seq::empty()
    } else if regex_has_match(re, ps.last()) {
        matching(ps.drop_last(), re).push(ps.last())
    } else {
        matching(ps.drop_last(), re)
    }
}

/// The paths of the lists of `l`'s keys, in order, that the regex `re` matches.
pub open spec fn collect(m: Map<Seq<char>, Seq<Seq<char>>>, l: Seq<Seq<char>>, re: Seq<char>) -> Seq<Seq<char>>
    decreases l.len(),
{
    if l.len() == 0 {
        Seq::empty()
    } else {
        collect(m, l.drop_last(), re) + matching(m[l.last()], re)
    }
}

/// `r` is what a query with lookup key `key` and regex `re` yields over the entries `m`.
pub open spec fn is_query_outcome(
    m: Map<Seq<char>, Seq<Seq<char>>>,
    key: Seq<char>,
    re: Seq<char>,
    r: Seq<Seq<char>>,
) -> bool {
    exists|l: Seq<Seq<char>>| is_listing(m, key, l) && r == collect(m, l, re)
}

/// An index of concrete paths by skeleton.
pub struct DatapathIndex {
    patterns: Trie<u8, Vec<String>>,
    unkeyed: Vec<String>,
    len: usize,
}

impl DatapathIndex {
    /// The lists of paths by skeleton.
    pub closed spec fn entries(&self) -> Map<Seq<char>, Seq<Seq<char>>> {
        if self.unkeyed@.len() > 0 {
            trie_entries(self.patterns).insert(Seq::empty(), strings(self.unkeyed@))
        } else {
            trie_entries(self.patterns)
        }
    }

    /// The number of paths indexed.
    pub closed spec fn count(&self) -> nat {
        self.len as nat
    }

    /// Paths whose skeleton is empty are kept beside the trie, which takes no empty key.
    #[verifier::type_invariant]
    spec fn no_empty_key(&self) -> bool {
        !trie_entries(self.patterns).contains_key(Seq::empty())
    }

    /// An index without paths.
    pub fn new_empty() -> (r: DatapathIndex)
        ensures
            r.entries() == Map::<Seq<char>, Seq<Seq<char>>>::empty(),
            r.count() == 0,
    {
        let b = trie_builder_new();
        let t = trie_build(b);
        DatapathIndex { patterns: t, unkeyed: Vec::new(), len: 0 }
    }

    pub fn len(&self) -> (r: usize)
        ensures
            r == self.count(),
    {
        self.len
    }

    pub fn is_empty(&self) -> (r: bool)
        ensures
            r == (self.count() == 0),
    {
        self.len == 0
    }
}

/// Keys and lists of paths that stand for the entries `m`: distinct keys, each with its list.
pub open spec fn groups_hold(keys: Seq<String>, lists: Seq<Vec<String>>, m: Map<Seq<char>, Seq<Seq<char>>>) -> bool {
    &&& keys.len() == lists.len()
    &&& forall|j: int| 0 <= j < keys.len() ==> m.contains_key(#[trigger] keys[j]@) && m[keys[j]@] == strings(lists[j]@)
    &&& forall|k: Seq<char>| #[trigger] m.contains_key(k) ==> exists|j: int| 0 <= j < keys.len() && keys[j]@ == k
    &&& forall|a: int, b: int| 0 <= a < b < keys.len() ==> keys[a]@ != keys[b]@
}

/// Every list of an index holds at least one path.
pub proof fn lemma_index_lists_nonempty(ps: Seq<Seq<char>>)
    ensures
        forall|k: Seq<char>| #[trigger] index_of(ps).contains_key(k) ==> index_of(ps)[k].len() > 0,
    decreases ps.len(),
{
    if ps.len() > 0 {
        lemma_index_lists_nonempty(ps.drop_last());
        let m = index_of(ps.drop_last());
        let k0 = skeleton(ps.last());
        assert forall|k: Seq<char>| #[trigger] index_of(ps).contains_key(k) implies index_of(ps)[k].len() > 0 by {
            if k != k0 {
                assert(m.contains_key(k));
            }
        }
    }
}

/// Adds a path to the list of its skeleton, making a new list for a new skeleton.
fn add_to_groups(
    keys: &mut Vec<String>,
    lists: &mut Vec<Vec<String>>,
    p: String,
    Ghost(added): Ghost<Seq<Seq<char>>>,
)
    requires
        groups_hold(old(keys)@, old(lists)@, index_of(added)),
    ensures
        groups_hold(final(keys)@, final(lists)@, index_of(added.push(p@))),
{
    let ghost ps = added.push(p@);
    let ghost m0 = index_of(added);
    assert(ps.drop_last() =~= added);
    let sk = skeleton_of(p.as_str());
    let ghost pv = p@;
    let mut j: usize = 0;
    let mut found: usize = keys.len();
    while j < keys.len()
        invariant
            j <= keys@.len(),
            found == keys@.len() || (found < j && keys@[found as int]@ == sk@),
            found == keys@.len() ==> forall|a: int| 0 <= a < j ==> keys@[a]@ != sk@,
        decreases keys@.len() - j,
    {
        if found == keys.len() && keys[j] == sk {
            found = j;
        }
        j = j + 1;
    }
    let ghost m1 = index_of(ps);
    if found < keys.len() {
        assert(keys@[found as int]@ == sk@);
        let ghost old_lists = lists@;
        lists[found].push(p);
        assert(strings(lists@[found as int]@) =~= strings(old_lists[found as int]@).push(pv));
        assert forall|a: int| 0 <= a < keys@.len() && a != found implies lists@[a] == old_lists[a] by {}
        assert forall|k: Seq<char>| #[trigger] m1.contains_key(k) implies exists|b: int| 0 <= b < keys@.len() && keys@[b]@ == k by {
            if k != sk@ {
                assert(m0.contains_key(k));
            }
        }
    } else {
        assert(!m0.contains_key(sk@)) by {
            if m0.contains_key(sk@) {
                let b = choose|b: int| 0 <= b < keys@.len() && keys@[b]@ == sk@;
                assert(keys@[b]@ != sk@);
            }
        }
        let ghost old_keys = keys@;
        keys.push(sk);
        lists.push(vec![p]);
        assert(strings(lists@.last()@) =~= seq![pv]);
        assert forall|k: Seq<char>| #[trigger] m1.contains_key(k) implies exists|b: int| 0 <= b < keys@.len() && keys@[b]@ == k by {
            if k != keys@.last()@ {
                assert(m0.contains_key(k));
                let b = choose|b: int| 0 <= b < old_keys.len() && old_keys[b]@ == k;
                assert(keys@[b] == old_keys[b]);
            } else {
                assert(keys@[keys@.len() - 1]@ == k);
            }
        }
    }
}

/// Builds an index one path at a time.
pub struct IndexBuilder {
    keys: Vec<String>,
    lists: Vec<Vec<String>>,
    len: usize,
    added: Ghost<Seq<Seq<char>>>,
}

impl IndexBuilder {
    /// The paths added so far, in order.
    pub closed spec fn paths(&self) -> Seq<Seq<char>> {
        self.added@
    }

    /// The keys and lists hold the index of the paths added so far.
    pub closed spec fn wf(&self) -> bool {
        groups_hold(self.keys@, self.lists@, index_of(self.added@)) && self.len == self.added@.len()
    }

    /// A builder without paths.
    pub fn new() -> (r: IndexBuilder)
        ensures
            r.wf(),
            r.paths() == Seq::<Seq<char>>::empty(),
    {
        IndexBuilder { keys: Vec::new(), lists: Vec::new(), len: 0, added: Ghost(Seq::empty()) }
    }

    /// The number of paths added so far.
    pub fn len(&self) -> (r: usize)
        requires
            self.wf(),
        ensures
            r == self.paths().len(),
    {
        self.len
    }

    /// Adds a path to the list of its skeleton.
    pub fn push(&mut self, path: String)
        requires
            old(self).wf(),
            old(self).paths().len() < usize::MAX,
        ensures
            final(self).wf(),
            final(self).paths() == old(self).paths().push(path@),
    {
        let ghost pv = path@;
        add_to_groups(&mut self.keys, &mut self.lists, path, Ghost(self.added@));
        self.len = self.len + 1;
        self.added = Ghost(self.added@.push(pv));
    }

    /// The index of the paths added: each in order in the list of its skeleton.
    pub fn build(self) -> (r: DatapathIndex)
        requires
            self.wf(),
        ensures
            r.entries() == index_of(self.paths()),
            r.count() == self.paths().len(),
    {
        let ghost added = self.paths();
        let ghost full = index_of(added);
        let n = self.len;
        let mut keys = self.keys;
        let mut lists = self.lists;
        let mut builder = trie_builder_new();
        let mut unkeyed: Vec<String> = Vec::new();
        let ghost all_keys = keys@;
        let ghost all_lists = lists@;
        while keys.len() > 0
            invariant
                groups_hold(all_keys, all_lists, full),
                keys@ == all_keys.take(keys@.len() as int),
                lists@ == all_lists.take(keys@.len() as int),
                keys@.len() <= all_keys.len(),
                !builder_entries(builder).contains_key(Seq::empty()),
                forall|j: int| keys@.len() <= j < all_keys.len() && all_keys[j]@.len() > 0 ==>
                    builder_entries(builder).contains_key(#[trigger] all_keys[j]@)
                    && builder_entries(builder)[all_keys[j]@] == strings(all_lists[j]@),
                forall|k: Seq<char>| #[trigger] builder_entries(builder).contains_key(k) ==>
                    exists|j: int| keys@.len() <= j < all_keys.len() && all_keys[j]@ == k,
                unkeyed@.len() > 0 ==> exists|j: int| keys@.len() <= j < all_keys.len() && all_keys[j]@.len() == 0
                    && strings(all_lists[j]@) == strings(unkeyed@),
                forall|j: int| keys@.len() <= j < all_keys.len() && all_keys[j]@.len() == 0 ==>
                    strings(all_lists[j]@) == strings(unkeyed@),
            decreases keys@.len(),
        {
            let k = keys.pop().unwrap();
            let l = lists.pop().unwrap();
            let ghost idx = keys@.len() as int;
            assert(all_keys[idx] == k);
            assert(all_lists[idx] == l);
            if k.as_str().is_empty() {
                assert forall|j: int| idx < j < all_keys.len() implies all_keys[j]@.len() != 0 by {
                    if all_keys[j]@.len() == 0 {
                        assert(all_keys[j]@ =~= all_keys[idx]@);
                    }
                }
                unkeyed = l;
            } else {
                trie_builder_push(&mut builder, k.as_str(), l);
            }
            assert(keys@ =~= all_keys.take(keys@.len() as int));
            assert(lists@ =~= all_lists.take(keys@.len() as int));
        }
        let patterns = trie_build(builder);
        let r = DatapathIndex { patterns, unkeyed, len: n };
        proof {
            lemma_index_lists_nonempty(added);
            assert forall|k: Seq<char>| #[trigger] full.contains_key(k) implies r.entries().contains_key(k)
                && r.entries()[k] == full[k] by {
                let j = choose|j: int| 0 <= j < all_keys.len() && all_keys[j]@ == k;
                if k.len() == 0 {
                    assert(strings(all_lists[j]@) == strings(unkeyed@));
                    assert(strings(unkeyed@).len() == unkeyed@.len());
                    assert(k =~= Seq::<char>::empty());
                }
            }
            assert forall|k: Seq<char>| #[trigger] r.entries().contains_key(k) implies full.contains_key(k) by {
                if k.len() == 0 {
                    if unkeyed@.len() > 0 {
                        let j = choose|j: int| 0 <= j < all_keys.len() && all_keys[j]@.len() == 0
                            && strings(all_lists[j]@) == strings(unkeyed@);
                        assert(all_keys[j]@ =~= k);
                    } else {
                        assert(builder_entries(builder).contains_key(k));
                        assert(k =~= Seq::<char>::empty());
                    }
                } else {
                    assert(builder_entries(builder).contains_key(k));
                }
            }
            assert(r.entries() =~= full);
        }
        r
    }
}

impl DatapathIndex {
    /// Builds the index: each path goes, in order, to the list of its skeleton.
    pub fn new(paths: Vec<String>) -> (r: DatapathIndex)
        ensures
            r.entries() == index_of(strings(paths@)),
            r.count() == paths@.len(),
    {
        let mut b = IndexBuilder::new();
        let mut i: usize = 0;
        assert(strings(paths@).take(0) =~= Seq::<Seq<char>>::empty());
        while i < paths.len()
            invariant
                i <= paths@.len(),
                b.wf(),
                b.paths() == strings(paths@).take(i as int),
            decreases paths@.len() - i,
        {
            b.push(paths[i].clone());
            i = i + 1;
            assert(b.paths() =~= strings(paths@).take(i as int));
        }
        assert(strings(paths@).take(paths@.len() as int) =~= strings(paths@));
        b.build()
    }
}

/// `b` is whether a query with lookup key `key` and regex `re` finds a path in `m`.
pub open spec fn is_match_outcome(
    m: Map<Seq<char>, Seq<Seq<char>>>,
    key: Seq<char>,
    re: Seq<char>,
    b: bool,
) -> bool {
    exists|l: Seq<Seq<char>>| is_listing(m, key, l) && b == (collect(m, l, re).len() > 0)
}

/// Collecting over a prefix of the keys yields no more paths than over all of them.
proof fn lemma_collect_grows(m: Map<Seq<char>, Seq<Seq<char>>>, l: Seq<Seq<char>>, re: Seq<char>, i: int)
    requires
        0 <= i <= l.len(),
    ensures
        collect(m, l.take(i), re).len() <= collect(m, l, re).len(),
    decreases l.len(),
{
    if i < l.len() {
        assert(l.take(i) =~= l.drop_last().take(i));
        lemma_collect_grows(m, l.drop_last(), re, i);
    } else {
        assert(l.take(i) =~= l);
    }
}

/// Matching over a prefix of the paths yields no more paths than over all of them.
proof fn lemma_matching_grows(ps: Seq<Seq<char>>, re: Seq<char>, i: int)
    requires
        0 <= i <= ps.len(),
    ensures
        matching(ps.take(i), re).len() <= matching(ps, re).len(),
    decreases ps.len(),
{
    if i < ps.len() {
        assert(ps.take(i) =~= ps.drop_last().take(i));
        lemma_matching_grows(ps.drop_last(), re, i);
    } else {
        assert(ps.take(i) =~= ps);
    }
}

/// Appends to `out` the paths of `bucket` that the rule accepts, in order.
fn push_matching(bucket: &Vec<String>, rule: &Rule, out: &mut Vec<String>)
    ensures
        strings(final(out)@) == strings(old(out)@) + matching(strings(bucket@), rule.regex_view()),
{
    let mut j: usize = 0;
    while j < bucket.len()
        invariant
            j <= bucket@.len(),
            strings(out@) == strings(old(out)@) + matching(strings(bucket@).take(j as int), rule.regex_view()),
        decreases bucket@.len() - j,
    {
        let ghost before = strings(out@);
        assert(strings(bucket@).take(j + 1).drop_last() =~= strings(bucket@).take(j as int));
        if rule.is_match(bucket[j].as_str()) {
            out.push(bucket[j].clone());
            assert(strings(out@) =~= before.push(bucket@[j as int]@));
        }
        j = j + 1;
    }
    assert(strings(bucket@).take(bucket@.len() as int) =~= strings(bucket@));
}

/// Whether the rule accepts a path of `bucket`.
fn any_matching(bucket: &Vec<String>, rule: &Rule) -> (r: bool)
    ensures
        r == (matching(strings(bucket@), rule.regex_view()).len() > 0),
{
    let mut j: usize = 0;
    while j < bucket.len()
        invariant
            j <= bucket@.len(),
            matching(strings(bucket@).take(j as int), rule.regex_view()).len() == 0,
        decreases bucket@.len() - j,
    {
        assert(strings(bucket@).take(j + 1).drop_last() =~= strings(bucket@).take(j as int));
        if rule.is_match(bucket[j].as_str()) {
            proof {
                lemma_matching_grows(strings(bucket@), rule.regex_view(), j + 1);
            }
            return true;
        }
        j = j + 1;
    }
    assert(strings(bucket@).take(bucket@.len() as int) =~= strings(bucket@));
    false
}

impl DatapathIndex {
    /// The keys that a search with lookup key `key` visits, found in the trie as `found`.
    spec fn visited(&self, key: Seq<char>, found: Seq<(String, &Vec<String>)>) -> Seq<Seq<char>> {
        let head = if key.len() == 0 && self.unkeyed@.len() > 0 {
            seq![Seq::<char>::empty()]
        } else {
            Seq::empty()
        };
        head + found.map_values(|e: (String, &Vec<String>)| e.0@)
    }

    proof fn lemma_visited_is_listing(&self, key: Seq<char>, found: Seq<(String, &Vec<String>)>)
        requires
            !trie_entries(self.patterns).contains_key(Seq::empty()),
            forall|i: int|
                0 <= i < found.len() ==> {
                    &&& key.is_prefix_of(#[trigger] found[i].0@)
                    &&& trie_entries(self.patterns).contains_key(found[i].0@)
                    &&& trie_entries(self.patterns)[found[i].0@] == strings(found[i].1@)
                },
            forall|k: Seq<char>|
                #[trigger] trie_entries(self.patterns).contains_key(k) && key.is_prefix_of(k) ==> exists|i: int|
                    0 <= i < found.len() && found[i].0@ == k,
            forall|i: int, j: int| 0 <= i < j < found.len() ==> text_lt(found[i].0@, found[j].0@),
        ensures
            is_listing(self.entries(), key, self.visited(key, found)),
            forall|i: int| 0 <= i < found.len() ==> self.entries()[#[trigger] found[i].0@] == strings(found[i].1@),
    {
        let m = self.entries();
        let l = self.visited(key, found);
        let t = trie_entries(self.patterns);
        let h = l.len() - found.len();
        assert forall|i: int| 0 <= i < found.len() implies found[i].0@.len() > 0 by {
            if found[i].0@.len() == 0 {
                assert(found[i].0@ =~= Seq::<char>::empty());
            }
        }
        assert forall|i: int| 0 <= i < l.len() implies m.contains_key(#[trigger] l[i]) && key.is_prefix_of(l[i]) by {
            if i >= h {
                assert(l[i] == found[i - h].0@);
            }
        }
        assert forall|k: Seq<char>| #[trigger] m.contains_key(k) && key.is_prefix_of(k) implies l.contains(k) by {
            if t.contains_key(k) {
                let i = choose|i: int| 0 <= i < found.len() && found[i].0@ == k;
                assert(l[i + h] == k);
            } else {
                assert(key.len() == 0);
                assert(l[0] == k);
            }
        }
        assert forall|i: int, j: int| 0 <= i < j < l.len() implies text_lt(l[i], l[j]) by {
            if i >= h {
                assert(l[i] == found[i - h].0@);
                assert(l[j] == found[j - h].0@);
            } else {
                assert(l[j] == found[j - h].0@);
            }
        }
    }

    /// The paths that the rule accepts among those whose skeleton starts with the lookup key
    /// of its pattern: list by list in increasing order of skeletons, each list in order.
    pub fn query_rule(&self, rule: &Rule) -> (r: Vec<String>)
        ensures
            is_query_outcome(self.entries(), lookup_key(rule.pattern_view()), rule.regex_view(), strings(r@)),
    {
        proof {
            use_type_invariant(self);
        }
        let key = query_to_key(rule.pattern());
        let found = trie_search(&self.patterns, key.as_str());
        let ghost m = self.entries();
        let ghost re = rule.regex_view();
        let ghost l = self.visited(key@, found@);
        proof {
            self.lemma_visited_is_listing(key@, found@);
        }
        let mut out: Vec<String> = Vec::new();
        let ghost h: int = 0;
        if key.as_str().is_empty() && self.unkeyed.len() > 0 {
            assert(strings(out@) =~= Seq::<Seq<char>>::empty());
            push_matching(&self.unkeyed, rule, &mut out);
            proof {
                h = 1;
                assert(l.take(1).drop_last() =~= Seq::<Seq<char>>::empty());
                assert(l.take(1).last() == l[0]);
                assert(collect(m, l.take(1).drop_last(), re) =~= Seq::<Seq<char>>::empty());
                assert(m[l[0]] == strings(self.unkeyed@));
                assert(strings(out@) =~= collect(m, l.take(1), re));
            }
        } else {
            assert(l.take(0) =~= Seq::<Seq<char>>::empty());
        }
        let mut i: usize = 0;
        while i < found.len()
            invariant
                i <= found@.len(),
                h == l.len() - found@.len(),
                0 <= h <= 1,
                l == self.visited(key@, found@),
                m == self.entries(),
                re == rule.regex_view(),
                forall|k: int| 0 <= k < found@.len() ==> m[#[trigger] found@[k].0@] == strings(found@[k].1@),
                strings(out@) == collect(m, l.take(h + i), re),
            decreases found@.len() - i,
        {
            let bucket: &Vec<String> = found[i].1;
            push_matching(bucket, rule, &mut out);
            assert(l.take(h + i + 1).drop_last() =~= l.take(h + i));
            assert(l[h + i] == found@[i as int].0@);
            i = i + 1;
        }
        assert(l.take(l.len() as int) =~= l);
        out
    }

    /// Like [`DatapathIndex::query_rule`], for a pattern; `None` when the pattern is invalid.
    pub fn query(&self, query: &str) -> (r: Option<Vec<String>>)
        ensures
            r is Some <==> crate::rule::compiles(query@),
            r matches Some(v) ==> (crate::rule::regex_body(query@) matches Some(b)
                && is_query_outcome(self.entries(), lookup_key(query@), crate::rule::anchored(b), strings(v@))),
    {
        let rule = Rule::new(query)?;
        Some(self.query_rule(&rule))
    }

    /// Whether [`DatapathIndex::query_rule`] would yield a path; stops at the first one.
    pub fn query_rule_match(&self, rule: &Rule) -> (r: bool)
        ensures
            is_match_outcome(self.entries(), lookup_key(rule.pattern_view()), rule.regex_view(), r),
    {
        proof {
            use_type_invariant(self);
        }
        let key = query_to_key(rule.pattern());
        let found = trie_search(&self.patterns, key.as_str());
        let ghost m = self.entries();
        let ghost re = rule.regex_view();
        let ghost l = self.visited(key@, found@);
        proof {
            self.lemma_visited_is_listing(key@, found@);
        }
        let ghost h: int = 0;
        if key.as_str().is_empty() && self.unkeyed.len() > 0 {
            assert(l.take(1).drop_last() =~= Seq::<Seq<char>>::empty());
            assert(m[l[0]] == strings(self.unkeyed@));
            assert(l.take(1).last() == l[0]);
            assert(collect(m, l.take(1).drop_last(), re) =~= Seq::<Seq<char>>::empty());
            if any_matching(&self.unkeyed, rule) {
                proof {
                    lemma_collect_grows(m, l, re, 1);
                    assert(is_listing(m, key@, l) && (true == (collect(m, l, re).len() > 0)));
                }
                return true;
            }
            proof {
                h = 1;
            }
        } else {
            assert(l.take(0) =~= Seq::<Seq<char>>::empty());
        }
        let mut i: usize = 0;
        while i < found.len()
            invariant
                i <= found@.len(),
                h == l.len() - found@.len(),
                0 <= h <= 1,
                l == self.visited(key@, found@),
                m == self.entries(),
                re == rule.regex_view(),
                is_listing(m, key@, l),
                key@ == lookup_key(rule.pattern_view()),
                forall|k: int| 0 <= k < found@.len() ==> m[#[trigger] found@[k].0@] == strings(found@[k].1@),
                collect(m, l.take(h + i), re).len() == 0,
            decreases found@.len() - i,
        {
            assert(l.take(h + i + 1).drop_last() =~= l.take(h + i));
            assert(l[h + i] == found@[i as int].0@);
            assert(l.take(h + i + 1).last() == l[h + i]);
            assert(m[l[h + i]] == strings(found@[i as int].1@));
            if any_matching(found[i].1, rule) {
                proof {
                    assert(collect(m, l.take(h + i + 1), re) == collect(m, l.take(h + i), re) + matching(
                        m[l[h + i]],
                        re,
                    ));
                    lemma_collect_grows(m, l, re, h + i + 1);
                    assert(is_listing(m, key@, l) && (true == (collect(m, l, re).len() > 0)));
                }
                return true;
            }
            i = i + 1;
        }
        assert(l.take(l.len() as int) =~= l);
        false
    }

    /// Like [`DatapathIndex::query_rule_match`], for a pattern; `None` when the pattern is
    /// invalid.
    pub fn query_match(&self, query: &str) -> (r: Option<bool>)
        ensures
            r is Some <==> crate::rule::compiles(query@),
            r matches Some(b) ==> (crate::rule::regex_body(query@) matches Some(body)
                && is_match_outcome(self.entries(), lookup_key(query@), crate::rule::anchored(body), b)),
    {
        let rule = Rule::new(query)?;
        Some(self.query_rule_match(&rule))
    }
}

} // verus!
