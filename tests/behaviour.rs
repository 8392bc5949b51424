use datapath::{
    has_edge_slash, query_to_key, skeleton_of, DatapathIndex, IndexBuilder, PathSegment, Rule,
    Wildcardable,
};

fn index_of(paths: &[&str]) -> DatapathIndex {
    DatapathIndex::new(paths.iter().map(|s| s.to_string()).collect())
}

#[test]
fn literal_pattern_scenario() {
    let rule = Rule::new("file.txt").unwrap();
    assert!(rule.is_match("file.txt"));
    assert!(!rule.is_match("other.txt"));
    assert!(!rule.is_match("path/file.txt"));
}

#[test]
fn star_pattern_scenario() {
    let rule = Rule::new("*.txt").unwrap();
    assert!(rule.is_match("file.txt"));
    assert!(rule.is_match("other.txt"));
    assert!(!rule.is_match("nested/file.txt"));
}

#[test]
fn root_doublestar_scenario() {
    let rule = Rule::new("root/**").unwrap();
    assert!(rule.is_match("root/file"));
    assert!(rule.is_match("root"));
    assert!(!rule.is_match("dir/file"));
    assert!(!rule.is_match("rootfile"));
}

#[test]
fn adjacent_doublestar_scenario() {
    let rule = Rule::new("root/test**file").unwrap();
    assert!(rule.is_match("root/test/file"));
    assert!(rule.is_match("root/test/a/b/c/file"));
    assert!(!rule.is_match("root/testfile"));
    assert!(!rule.is_match("root/testxxfile"));
}

#[test]
fn three_stars_are_invalid() {
    assert!(Rule::new("***").is_none());
    assert!(Rule::new("a/****/b").is_none());
    assert!(Rule::new("a***").is_none());
}

#[test]
fn regex_text_of_patterns() {
    assert_eq!(Rule::new("file.txt").unwrap().raw_regex_str(), "file\\.txt");
    assert_eq!(Rule::new("dir/file").unwrap().raw_regex_str(), "dir[/]file");
    assert_eq!(Rule::new("**").unwrap().raw_regex_str(), "((?:.*)?)");
    assert_eq!(Rule::new("root/**").unwrap().raw_regex_str(), "root((?:[/].*)?)");
    assert_eq!(Rule::new("**/file").unwrap().raw_regex_str(), "((?:.*[/])?)file");
    assert_eq!(
        Rule::new("root/**/file").unwrap().raw_regex_str(),
        "root((?:[/].*[/])|[/])file"
    );
    assert_eq!(Rule::new("a*b").unwrap().raw_regex_str(), "a([^/]*)b");
    assert_eq!(Rule::new("a/**/**/b").unwrap().raw_regex_str(), "a((?:[/].*[/])|[/])b");
    assert_eq!(Rule::new("root**test").unwrap().raw_regex_str(), "root((?:[/].*[/])|[/])test");
    assert_eq!(Rule::new("").unwrap().raw_regex_str(), "");
}

#[test]
fn rule_keeps_pattern() {
    let rule = Rule::new("//a/b/").unwrap();
    assert_eq!(rule.pattern(), "//a/b/");
    assert_eq!(rule.regex().as_str(), "^a[/]b$");
    assert!(rule.is_match("a/b"));
}

#[test]
fn edge_slashes_are_reported() {
    assert!(has_edge_slash("/a"));
    assert!(has_edge_slash("a/"));
    assert!(!has_edge_slash("a/b"));
    assert!(!has_edge_slash(""));
}

#[test]
fn segment_parsing() {
    match PathSegment::from_text("web").unwrap() {
        PathSegment::Constant(c) => assert_eq!(c, "web"),
        PathSegment::Value { .. } => panic!("expected a constant"),
    }
    match PathSegment::from_text("a=b=c").unwrap() {
        PathSegment::Value { key, value } => {
            assert_eq!(key, "a");
            assert_eq!(value, "b=c");
        }
        PathSegment::Constant(_) => panic!("expected a partition"),
    }
    assert!(PathSegment::from_text("").is_err());
    assert!(PathSegment::from_text("a\nb").is_err());
    assert_eq!(PathSegment::from_text("k=").unwrap().render(), "k=");
    assert_eq!(PathSegment::from_text("=v").unwrap().render(), "=v");
}

#[test]
fn skeletons() {
    assert_eq!(skeleton_of("web/domain=example.com/ts=1234"), "web/domain=*/ts=*");
    assert_eq!(skeleton_of("a//b/"), "a/b");
    assert_eq!(skeleton_of(""), "");
    assert_eq!(skeleton_of("x=1=2/file"), "x=*/file");
}

#[test]
fn lookup_keys() {
    assert_eq!(query_to_key("web/domain=*/ts=1234"), "web/domain=*/ts=*");
    assert_eq!(query_to_key("*/domain=example.com"), "");
    assert_eq!(query_to_key("/web/domain=x/**"), "web/domain=*");
    assert_eq!(query_to_key(" a/b"), " a/b");
    assert_eq!(query_to_key("dir/*.txt"), "dir");
    assert_eq!(query_to_key("root/test**file"), "root");
    assert_eq!(query_to_key("a/k=v*/b"), "a/k=*/b");
    assert_eq!(query_to_key("a/k*=v/b"), "a");
    assert_eq!(query_to_key("a/k=v**x/b"), "a");
    assert_eq!(query_to_key("web/**/file"), "web");
    assert_eq!(query_to_key("web//api"), "web/api");
    assert_eq!(query_to_key("a/b/****"), "a/b");
}

#[test]
fn wildcard_value_in_middle_prunes_correctly() {
    let idx = index_of(&[
        "web/domain=a.com/ts=1/crawl",
        "web/domain=b.com/ts=2/crawl",
        "web/domain=a.com/ts=1/other",
    ]);
    let results = idx.query("web/domain=*/ts=1/crawl").unwrap();
    assert_eq!(results, vec!["web/domain=a.com/ts=1/crawl".to_string()]);
}

#[test]
fn index_scenario() {
    let idx = index_of(&["web/domain=example.com/ts=1234", "web/domain=other.com/ts=1234"]);
    let mut results = idx.query("web/domain=*/ts=1234").unwrap();
    results.sort();
    assert_eq!(
        results,
        vec![
            "web/domain=example.com/ts=1234".to_string(),
            "web/domain=other.com/ts=1234".to_string()
        ]
    );
    assert_eq!(idx.query("web/domain=example.com/ts=9999").unwrap().len(), 0);
    assert!(idx.query("***").is_none());
    assert!(idx.query_match("***").is_none());
}

#[test]
fn count_keeps_duplicates() {
    let idx = index_of(&["a/b", "a/b", "c"]);
    assert_eq!(idx.len(), 3);
    assert!(!idx.is_empty());
    assert_eq!(idx.query("a/b").unwrap(), vec!["a/b".to_string(), "a/b".to_string()]);
}

#[test]
fn empty_index() {
    let idx = DatapathIndex::new_empty();
    assert_eq!(idx.len(), 0);
    assert!(idx.is_empty());
    assert_eq!(idx.query("**").unwrap().len(), 0);
    assert_eq!(idx.query_match("**"), Some(false));
}

#[test]
fn paths_without_segments_are_indexed() {
    let idx = index_of(&["", "/", "a"]);
    assert_eq!(idx.len(), 3);
    assert_eq!(idx.query("**").unwrap(), vec!["", "/", "a"]);
    assert_eq!(idx.query_match(""), Some(true));
}

#[test]
fn query_is_repeatable() {
    let idx = index_of(&["b/x=1", "a/x=2", "a/x=1", "c"]);
    let first = idx.query("**").unwrap();
    let second = idx.query("**").unwrap();
    assert_eq!(first, second);
    assert_eq!(first, vec!["a/x=2", "a/x=1", "b/x=1", "c"]);
}

#[test]
fn query_results_match_the_rule() {
    let idx = index_of(&["a/x=1/f.txt", "a/x=2/f.jpg", "b/x=1/f.txt"]);
    let rule = Rule::new("*/x=*/*.txt").unwrap();
    let results = idx.query_rule(&rule);
    assert_eq!(results.len(), 2);
    for r in &results {
        assert!(rule.is_match(r));
    }
    assert!(idx.query_rule_match(&rule));
    assert!(!idx.query_rule_match(&Rule::new("a/x=3/**").unwrap()));
}

#[test]
fn wildcardable_values() {
    let star: Wildcardable<u32> = Wildcardable::default();
    assert_eq!(star, Wildcardable::Star);
    assert_eq!(star.inner(), None);
    let v: Wildcardable<u32> = Wildcardable::from(7);
    assert_eq!(v.inner(), Some(&7));
    assert_eq!(v.into_inner(), Some(7));
    assert_eq!(star.into_inner(), None);
}

#[test]
fn star_inside_a_segment_still_finds_matches() {
    let idx = index_of(&["xa", "dir/file.txt", "root/test/file", "root/test/a/b/file"]);
    assert_eq!(idx.query("*a").unwrap(), vec!["xa"]);
    assert_eq!(idx.query("dir/*.txt").unwrap(), vec!["dir/file.txt"]);
    let mut found = idx.query("root/test**file").unwrap();
    found.sort();
    assert_eq!(found, vec!["root/test/a/b/file", "root/test/file"]);
    assert_eq!(idx.query_match("k=v**x/b"), Some(false));
}

#[test]
fn leading_white_space_is_kept() {
    let idx = index_of(&[" a", "a"]);
    assert_eq!(idx.query(" a").unwrap(), vec![" a"]);
}

#[test]
fn builder_matches_new() {
    let paths = ["a/k=1", "b", "a/k=2", "a/k=1"];
    let mut b = IndexBuilder::new();
    for p in paths.iter() {
        b.push(p.to_string());
    }
    assert_eq!(b.len(), 4);
    let built = b.build();
    let direct = index_of(&paths);
    assert_eq!(built.len(), direct.len());
    assert_eq!(built.query("**").unwrap(), direct.query("**").unwrap());
    assert_eq!(built.query("a/k=1").unwrap(), vec!["a/k=1", "a/k=1"]);
}

#[test]
fn wildcardable_into_option() {
    let o: Option<u8> = Option::from(Wildcardable::Value(3u8));
    assert_eq!(o, Some(3));
    let n: Option<u8> = Option::from(Wildcardable::<u8>::Star);
    assert_eq!(n, None);
}
