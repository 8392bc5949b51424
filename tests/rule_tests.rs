use datapath::Rule;

#[test]
fn simple() {
    let regex = Rule::new("file.txt").unwrap();

    assert!(regex.is_match("file.txt"));
    assert!(!regex.is_match("other.txt"));
    assert!(!regex.is_match("path/file.txt"));
}

#[test]
fn simple_dir() {
    let regex = Rule::new("dir/file.txt").unwrap();

    assert!(regex.is_match("dir/file.txt"));
    assert!(!regex.is_match("file.txt"));
    assert!(!regex.is_match("other/file.txt"));
}

#[test]
fn simple_star() {
    let regex = Rule::new("*.txt").unwrap();

    assert!(regex.is_match("file.txt"));
    assert!(regex.is_match("other.txt"));
    assert!(!regex.is_match("file.jpg"));
    assert!(!regex.is_match("nested/file.txt"));
}

#[test]
fn simple_doublestar() {
    let regex = Rule::new("**/*.txt").unwrap();

    assert!(regex.is_match("file.txt"));
    assert!(regex.is_match("dir/file.txt"));
    assert!(regex.is_match("dir/subdir/file.txt"));
    assert!(!regex.is_match("file.jpg"));
    assert!(!regex.is_match("dir/file.jpg"));
}

#[test]
fn consecutive_doublestar() {
    let regex = Rule::new("**/**/**/*.txt").unwrap();

    assert!(regex.is_match("file.txt"));
    assert!(regex.is_match("dir/file.txt"));
    assert!(regex.is_match("dir/subdir/file.txt"));
    assert!(!regex.is_match("file.jpg"));
    assert!(!regex.is_match("dir/file.jpg"));
}

#[test]
fn dual_star() {
    let regex = Rule::new("**/*a*").unwrap();

    assert!(regex.is_match("fileafile"));
    assert!(regex.is_match("dir/fileafile"));
    assert!(regex.is_match("filea"));
    assert!(regex.is_match("dir/filea"));
    assert!(regex.is_match("afile"));
    assert!(regex.is_match("dir/afile"));
    assert!(!regex.is_match("noletter"));
    assert!(!regex.is_match("dir/noletter"));
}

#[test]
fn single_end() {
    let regex = Rule::new("**/*").unwrap();

    assert!(regex.is_match("file"));
    assert!(regex.is_match("dir/file"));
    assert!(regex.is_match("a/b/c/dir/file"));
}

#[test]
fn doublestar_end() {
    let regex = Rule::new("root/**").unwrap();

    assert!(regex.is_match("root/file"));
    assert!(!regex.is_match("dir/file"));
}

#[test]
fn doublestar_start() {
    let regex = Rule::new("**/dir").unwrap();

    assert!(regex.is_match("dir"));
    assert!(regex.is_match("a/b/dir"));
    assert!(!regex.is_match("dir/file"));
}

#[test]
fn doublestar_adjacent_before() {
    let regex = Rule::new("root/**test").unwrap();

    assert!(regex.is_match("root/test"));
    assert!(regex.is_match("root/a/test"));
    assert!(regex.is_match("root/a/b/c/test"));
    assert!(!regex.is_match("root/file"));
    assert!(!regex.is_match("root/xxtest"));
}

#[test]
fn doublestar_adjacent_after() {
    let regex = Rule::new("root/test**").unwrap();

    assert!(regex.is_match("root/test"));
    assert!(regex.is_match("root/test/a"));
    assert!(regex.is_match("root/test/a/b/c"));
    assert!(!regex.is_match("root/testxx"));
    assert!(!regex.is_match("root/file"));
}

#[test]
fn doublestar_adjacent_middle() {
    let regex = Rule::new("root/test**file").unwrap();

    assert!(regex.is_match("root/test/file"));
    assert!(regex.is_match("root/test/a/b/c/file"));
    assert!(!regex.is_match("root/test"));
    assert!(!regex.is_match("root/file"));
    assert!(!regex.is_match("root/testfile"));
    assert!(!regex.is_match("root/testxxfile"));
}

#[test]
fn doublestar_nullable() {
    let regex = Rule::new("root/**/file").unwrap();

    assert!(regex.is_match("root/test/file"));
    assert!(regex.is_match("root/file"));
    assert!(!regex.is_match("rootfile"));
}

#[test]
fn doublestar_nullable_post() {
    let regex = Rule::new("root/**").unwrap();

    assert!(regex.is_match("root"));
    assert!(regex.is_match("root/file"));
    assert!(!regex.is_match("rootfile"));
}

#[test]
fn doublestar_nullable_pre() {
    let regex = Rule::new("**/file").unwrap();

    assert!(regex.is_match("file"));
    assert!(regex.is_match("root/file"));
    assert!(!regex.is_match("rootfile"));
}

#[test]
fn doublestar_bad_extension() {
    let regex = Rule::new("**.flac").unwrap();

    assert!(regex.is_match("root/.flac"));
    assert!(regex.is_match("root/a/.flac"));
    assert!(!regex.is_match("root/test.flac"));
    assert!(!regex.is_match("test.flac"));
    assert!(!regex.is_match("root/test/a/b/c.flac"));
    assert!(!regex.is_match("root/testflac"));
    assert!(!regex.is_match("test.mp3"));
}

#[test]
fn doublestar_good_extension() {
    let regex = Rule::new("**/*.flac").unwrap();

    assert!(regex.is_match("root/.flac"));
    assert!(regex.is_match("root/a/.flac"));
    assert!(regex.is_match("root/test.flac"));
    assert!(regex.is_match("test.flac"));
    assert!(regex.is_match("root/test/a/b/c.flac"));
    assert!(!regex.is_match("root/testflac"));
    assert!(!regex.is_match("test.mp3"));
}

#[test]
fn multi_slash_a() {
    let regex = Rule::new("dir//file.txt").unwrap();

    assert!(regex.is_match("dir/file.txt"));
    assert!(!regex.is_match("dirfile.txt"));
    assert!(!regex.is_match("dir/other.txt"));
}

#[test]
fn multi_slash_b() {
    let regex = Rule::new("**///*.txt").unwrap();

    assert!(regex.is_match("dir/file.txt"));
    assert!(regex.is_match("dir/subdir/file.txt"));
    assert!(!regex.is_match("file.jpg"));
}

#[test]
fn multi_slash_c() {
    let regex = Rule::new("///dir//**//*.txt//").unwrap();

    assert!(regex.is_match("dir/subdir/file.txt"));
    assert!(regex.is_match("dir/sub1/sub2/file.txt"));
    assert!(!regex.is_match("other/sub/file.txt"));
    assert!(!regex.is_match("dir/file.jpg"));
}
