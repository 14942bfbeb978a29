use gdtools::format::{compare_ast_with_source, AstCheckResult};
use gdtools::tree::SynTree;

fn parse(source: &str) -> SynTree {
    gdtools::parser::parse(source).unwrap()
}

#[test]
fn test_identical_code() {
    let source = "var x = 1\n";
    let tree1 = parse(source);
    let tree2 = parse(source);
    assert_eq!(
        compare_ast_with_source(&tree1, source, &tree2, source),
        AstCheckResult::Equivalent
    );
}

#[test]
fn test_whitespace_difference() {
    let source1 = "var x=1\n";
    let source2 = "var x = 1\n";
    let tree1 = parse(source1);
    let tree2 = parse(source2);
    assert_eq!(
        compare_ast_with_source(&tree1, source1, &tree2, source2),
        AstCheckResult::Equivalent
    );
}

#[test]
fn test_indentation_difference() {
    let source1 = "func foo():\n  pass\n";
    let source2 = "func foo():\n\tpass\n";
    let tree1 = parse(source1);
    let tree2 = parse(source2);
    assert_eq!(
        compare_ast_with_source(&tree1, source1, &tree2, source2),
        AstCheckResult::Equivalent
    );
}

#[test]
fn test_different_values() {
    let source1 = "var x = 1\n";
    let source2 = "var x = 2\n";
    let tree1 = parse(source1);
    let tree2 = parse(source2);
    let result = compare_ast_with_source(&tree1, source1, &tree2, source2);
    assert!(!result.is_equivalent());
}

#[test]
fn test_different_identifiers() {
    let source1 = "var x = 1\n";
    let source2 = "var y = 1\n";
    let tree1 = parse(source1);
    let tree2 = parse(source2);
    let result = compare_ast_with_source(&tree1, source1, &tree2, source2);
    assert!(!result.is_equivalent());
}

#[test]
fn test_different_structure() {
    let source1 = "var x = 1\n";
    let source2 = "var x: int = 1\n";
    let tree1 = parse(source1);
    let tree2 = parse(source2);
    let result = compare_ast_with_source(&tree1, source1, &tree2, source2);
    assert!(!result.is_equivalent());
}

#[test]
fn test_multiline_vs_singleline_dict() {
    let source1 = "{a: 1, b: 2}\n";
    let source2 = "{\n\ta: 1,\n\tb: 2,\n}\n";
    let tree1 = parse(source1);
    let tree2 = parse(source2);
    // Dictionary structure should be the same regardless of formatting
    assert_eq!(
        compare_ast_with_source(&tree1, source1, &tree2, source2),
        AstCheckResult::Equivalent
    );
}

#[test]
fn test_function_with_different_spacing() {
    let source1 = "func foo(a:int,b:String)->void:\n\tpass\n";
    let source2 = "func foo(a: int, b: String) -> void:\n\tpass\n";
    let tree1 = parse(source1);
    let tree2 = parse(source2);
    assert_eq!(
        compare_ast_with_source(&tree1, source1, &tree2, source2),
        AstCheckResult::Equivalent
    );
}
