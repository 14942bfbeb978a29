use gdtools::lint::Suppressions;

#[test]
fn test_ignore_single_line() {
    let source = "# gdlint:ignore=function-name\nfunc BadName(): pass";
    let suppressions = Suppressions::parse(source);
    assert!(suppressions.is_suppressed("function-name", 1));
    assert!(suppressions.is_suppressed("function-name", 2));
    assert!(!suppressions.is_suppressed("function-name", 3));
}

#[test]
fn test_disable_enable_range() {
    let source = r#"
# gdlint:disable=max-line-length
some long line here
another long line
# gdlint:enable=max-line-length
normal line
"#;
    let suppressions = Suppressions::parse(source);
    assert!(suppressions.is_suppressed("max-line-length", 2));
    assert!(suppressions.is_suppressed("max-line-length", 3));
    assert!(suppressions.is_suppressed("max-line-length", 4));
    assert!(suppressions.is_suppressed("max-line-length", 5));
    assert!(!suppressions.is_suppressed("max-line-length", 6));
}

#[test]
fn test_ignore_multiple_rules() {
    // A comma-separated directive suppresses every listed rule.
    let source = "# gdlint:ignore=function-name,class-name\nfunc BadName(): pass";
    let suppressions = Suppressions::parse(source);
    assert!(suppressions.is_suppressed("function-name", 1));
    assert!(suppressions.is_suppressed("function-name", 2));
    assert!(suppressions.is_suppressed("class-name", 1));
    assert!(suppressions.is_suppressed("class-name", 2));
    assert!(!suppressions.is_suppressed("constant-name", 1));
}

#[test]
fn test_disable_multiple_rules() {
    let source = "# gdlint:disable=max-line-length,trailing-whitespace\ncode\n# gdlint:enable=max-line-length\ncode";
    let suppressions = Suppressions::parse(source);
    assert!(suppressions.is_suppressed("max-line-length", 2));
    assert!(suppressions.is_suppressed("trailing-whitespace", 2));
    assert!(!suppressions.is_suppressed("max-line-length", 4));
    assert!(suppressions.is_suppressed("trailing-whitespace", 4));
}
