use datapath::DatapathIndex;

#[test]
fn datapath_index_empty() {
    let idx = DatapathIndex::new(Vec::new());
    let query = "web/domain=example.com";
    assert_eq!(idx.query(query).unwrap().len(), 0);
    assert!(idx.is_empty());
    assert_eq!(idx.len(), 0);
}

#[test]
fn insert_and_lookup_exact_match() {
    let paths = vec!["web/domain=example.com/ts=1234"];
    let idx = DatapathIndex::new(paths.into_iter().map(String::from).collect());

    // Exact match
    let results: Vec<_> = idx
        .query("web/domain=example.com/ts=1234")
        .unwrap();
    assert_eq!(results.len(), 1);
    assert_eq!(results[0], "web/domain=example.com/ts=1234");

    // No match
    let results: Vec<_> = idx.query("web/domain=other.com/ts=1234").unwrap();
    assert_eq!(results.len(), 0);

    assert_eq!(idx.len(), 1);
}

#[test]
fn wildcard_constant_match() {
    let paths = vec![
        "web/domain=example.com/ts=1234",
        "api/domain=example.com/ts=1234",
    ];
    let idx = DatapathIndex::new(paths.into_iter().map(String::from).collect());

    // Wildcard first segment
    let results: Vec<_> = idx.query("*/domain=example.com/ts=1234").unwrap();
    assert_eq!(results.len(), 2);

    assert_eq!(idx.len(), 2);
}

#[test]
fn wildcard_value_match() {
    let paths = vec![
        "web/domain=example.com/ts=1234",
        "web/domain=other.com/ts=1234",
    ];
    let idx = DatapathIndex::new(paths.into_iter().map(String::from).collect());

    // Wildcard domain
    let results: Vec<_> = idx.query("web/domain=*/ts=1234").unwrap();
    assert_eq!(results.len(), 2);
}

#[test]
fn multiple_datapaths() {
    let paths = vec![
        "web/domain=example.com/ts=1234",
        "web/domain=other.com/ts=1234",
        "api/domain=example.com/ts=5678",
    ];
    let idx = DatapathIndex::new(paths.into_iter().map(String::from).collect());

    // Specific lookup
    let results: Vec<_> = idx
        .query("web/domain=example.com/ts=1234")
        .unwrap();
    assert_eq!(results.len(), 1);
    assert_eq!(results[0], "web/domain=example.com/ts=1234");

    // Wildcard time lookup
    let results: Vec<_> = idx.query("web/domain=example.com/ts=*").unwrap();
    assert_eq!(results.len(), 1);
    assert_eq!(results[0], "web/domain=example.com/ts=1234");

    // Double wildcard lookup
    let results: Vec<_> = idx.query("web/domain=*/ts=*").unwrap();
    assert_eq!(results.len(), 2);

    assert_eq!(idx.len(), 3);
}

#[test]
fn nested_wildcards() {
    let paths = vec![
        "web/domain=example.com/ts=1234/crawl/2.5",
        "web/domain=other.com/ts=5678/crawl/2.5",
        "web/domain=example.com/ts=9999/crawl/3.0",
    ];
    let idx = DatapathIndex::new(paths.into_iter().map(String::from).collect());

    // Multiple wildcards in path
    let results: Vec<_> = idx.query("web/domain=*/ts=*/crawl/*").unwrap();
    assert_eq!(results.len(), 3);

    // Selective wildcards
    let results: Vec<_> = idx
        .query("web/domain=example.com/ts=*/crawl/*")
        .unwrap();
    assert_eq!(results.len(), 2);
}

#[test]
fn partial_path_query() {
    let paths = vec!["web/domain=example.com/ts=1234/crawl/2.5"];
    let idx = DatapathIndex::new(paths.into_iter().map(String::from).collect());

    // Query with fewer segments than the stored path
    let results: Vec<_> = idx.query("web/domain=example.com").unwrap();
    assert_eq!(results.len(), 0);
}

#[test]
fn longer_path_query() {
    let paths = vec!["web/domain=example.com"];
    let idx = DatapathIndex::new(paths.into_iter().map(String::from).collect());

    // Query with more segments than the stored path
    let results: Vec<_> = idx
        .query("web/domain=example.com/ts=1234/crawl/2.5")
        .unwrap();
    assert_eq!(results.len(), 0);
}

#[test]
fn query_match() {
    let paths = vec![
        "web/domain=example.com/ts=1234",
        "web/domain=other.com/ts=5678",
    ];
    let idx = DatapathIndex::new(paths.into_iter().map(String::from).collect());

    // Match exists
    assert_eq!(
        idx.query_match("web/domain=example.com/ts=1234").unwrap(),
        true
    );
    assert_eq!(idx.query_match("web/domain=*/ts=*").unwrap(), true);

    // No match
    assert_eq!(
        idx.query_match("api/domain=example.com/ts=1234").unwrap(),
        false
    );
    assert_eq!(
        idx.query_match("web/domain=missing.com/ts=9999").unwrap(),
        false
    );
}

#[test]
fn suffix_wildcard() {
    let paths = vec![
        "web/domain=example.com/ts=1234/file1.json",
        "web/domain=example.com/ts=1234/file2.json",
        "web/domain=example.com/ts=5678/file3.json",
    ];
    let idx = DatapathIndex::new(paths.into_iter().map(String::from).collect());

    // Query with suffix wildcard
    let results: Vec<_> = idx.query("web/domain=example.com/**").unwrap();
    assert_eq!(results.len(), 3);

    let results: Vec<_> = idx
        .query("web/domain=example.com/ts=1234/**")
        .unwrap();
    assert_eq!(results.len(), 2);
}
