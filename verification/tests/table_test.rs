use gdtools::format::comments::Comments;
use gdtools::format::skip_regions::SkipRegions;

#[test]
fn test_standalone_comment() {
    let source = "# This is a comment\nvar x = 1";
    let comments = Comments::extract(source);
    assert!(comments.get_standalone(1).is_some());
    assert!(comments.get_standalone(2).is_none());
    assert_eq!(
        comments.get_standalone(1),
        Some(&"# This is a comment".to_string())
    );
}

#[test]
fn test_inline_comment() {
    let source = "var x = 1  # inline comment";
    let comments = Comments::extract(source);
    assert!(comments.get_standalone(1).is_none());
    assert!(comments.get_inline(1).is_some());
    assert_eq!(
        comments.get_inline(1),
        Some(&"# inline comment".to_string())
    );
}

#[test]
fn test_comment_in_string() {
    let source = "var x = \"# not a comment\"";
    let comments = Comments::extract(source);
    assert!(comments.get_standalone(1).is_none());
    assert!(comments.get_inline(1).is_none());
}

#[test]
fn test_indented_standalone_comment() {
    let source = "func foo():\n\t# indented comment\n\tpass";
    let comments = Comments::extract(source);
    assert!(comments.get_standalone(2).is_some());
    assert_eq!(
        comments.get_standalone(2),
        Some(&"\t# indented comment".to_string())
    );
}

#[test]
fn test_no_skip_regions() {
    let source = "var x = 1\nvar y = 2";
    let regions = SkipRegions::parse(source);
    assert!(regions.is_empty());
    assert!(!regions.is_skipped(1));
    assert!(!regions.is_skipped(2));
}

#[test]
fn test_single_skip_region() {
    let source = "var x = 1\n# fmt: off\nvar y   =   2\n# fmt: on\nvar z = 3";
    let regions = SkipRegions::parse(source);
    assert!(!regions.is_skipped(1)); // var x = 1
    assert!(regions.is_skipped(2)); // # fmt: off
    assert!(regions.is_skipped(3)); // var y = 2
    assert!(regions.is_skipped(4)); // # fmt: on
    assert!(!regions.is_skipped(5)); // var z = 3
}

#[test]
fn test_unclosed_skip_region() {
    let source = "var x = 1\n# fmt: off\nvar y = 2\nvar z = 3";
    let regions = SkipRegions::parse(source);
    assert!(!regions.is_skipped(1));
    assert!(regions.is_skipped(2));
    assert!(regions.is_skipped(3));
    assert!(regions.is_skipped(4));
}

#[test]
fn test_multiple_skip_regions() {
    let source = "# fmt: off\na\n# fmt: on\nb\n# fmt: off\nc\n# fmt: on";
    let regions = SkipRegions::parse(source);
    assert!(regions.is_skipped(1)); // # fmt: off
    assert!(regions.is_skipped(2)); // a
    assert!(regions.is_skipped(3)); // # fmt: on
    assert!(!regions.is_skipped(4)); // b
    assert!(regions.is_skipped(5)); // # fmt: off
    assert!(regions.is_skipped(6)); // c
    assert!(regions.is_skipped(7)); // # fmt: on
}
